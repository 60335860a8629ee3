//! The kinetic Tile Assembly Model: reversible attachment and detachment.
//! A tile detaches at a rate looked up by its total bond strength to its
//! neighbours; a tile attaches wherever it would form at least one bond.

use vstd::prelude::*;
use crate::base::{Tile, Point, Rate, TileEdges, MAX_SITE_RATE, MAX_STRENGTH, seq_rate_sum};
use crate::canvas::{Canvas, Canvas2D};
use crate::system::{System, SystemWithDimers, Seed, Dimer, Orientation, seed_at, is_seed_site, tiles_in_range, build_strength_tables, dimer_weights};

verus! {

/// Build the four adjacency-compatibility tables from the bond-strength
/// tables: `r.0` is friends-to-the-north, `r.1` east, `r.2` south, `r.3`
/// west. `friends_s[a]` holds the tiles that can sit directly south of
/// `a`, and so on; membership is exactly a non-zero bond strength.
pub fn create_friend_data(strength_ns: &Vec<Vec<u64>>, strength_we: &Vec<Vec<u64>>) -> (r: (
    Vec<Vec<bool>>,
    Vec<Vec<bool>>,
    Vec<Vec<bool>>,
    Vec<Vec<bool>>,
))
    requires
        strength_ns@.len() == strength_we@.len(),
        forall|i: int|
            0 <= i < strength_ns@.len() ==> (#[trigger] strength_ns@[i])@.len()
                == strength_ns@.len(),
        forall|i: int|
            0 <= i < strength_we@.len() ==> (#[trigger] strength_we@[i])@.len()
                == strength_we@.len(),
    ensures
        r.0@.len() == strength_ns@.len() && r.1@.len() == strength_ns@.len()
            && r.2@.len() == strength_ns@.len() && r.3@.len() == strength_ns@.len(),
        forall|i: int| 0 <= i < strength_ns@.len() ==> (#[trigger] r.0@[i])@.len() == strength_ns@.len(),
        forall|i: int| 0 <= i < strength_ns@.len() ==> (#[trigger] r.1@[i])@.len() == strength_ns@.len(),
        forall|i: int| 0 <= i < strength_ns@.len() ==> (#[trigger] r.2@[i])@.len() == strength_ns@.len(),
        forall|i: int| 0 <= i < strength_ns@.len() ==> (#[trigger] r.3@[i])@.len() == strength_ns@.len(),
        forall|a: int, b: int|
            0 <= a < strength_ns@.len() && 0 <= b < strength_ns@.len()
                ==> #[trigger] r.0@[a]@[b] == (strength_ns@[b]@[a] != 0u64),
        forall|a: int, b: int|
            0 <= a < strength_ns@.len() && 0 <= b < strength_ns@.len()
                ==> #[trigger] r.1@[a]@[b] == (strength_we@[a]@[b] != 0u64),
        forall|a: int, b: int|
            0 <= a < strength_ns@.len() && 0 <= b < strength_ns@.len()
                ==> #[trigger] r.2@[a]@[b] == (strength_ns@[a]@[b] != 0u64),
        forall|a: int, b: int|
            0 <= a < strength_ns@.len() && 0 <= b < strength_ns@.len()
                ==> #[trigger] r.3@[a]@[b] == (strength_we@[b]@[a] != 0u64),
{
    let n: usize = strength_ns.len();
    let mut friends_n: Vec<Vec<bool>> = Vec::new();
    let mut friends_e: Vec<Vec<bool>> = Vec::new();
    let mut friends_s: Vec<Vec<bool>> = Vec::new();
    let mut friends_w: Vec<Vec<bool>> = Vec::new();
    let mut a: usize = 0;
    while a < n
        invariant
            a <= n,
            n == strength_ns@.len(),
            strength_we@.len() == n,
            forall|i: int| 0 <= i < n ==> (#[trigger] strength_ns@[i])@.len() == n,
            forall|i: int| 0 <= i < n ==> (#[trigger] strength_we@[i])@.len() == n,
            friends_n@.len() == a && friends_e@.len() == a && friends_s@.len() == a
                && friends_w@.len() == a,
            forall|i: int| 0 <= i < a ==> (#[trigger] friends_n@[i])@.len() == n,
            forall|i: int| 0 <= i < a ==> (#[trigger] friends_e@[i])@.len() == n,
            forall|i: int| 0 <= i < a ==> (#[trigger] friends_s@[i])@.len() == n,
            forall|i: int| 0 <= i < a ==> (#[trigger] friends_w@[i])@.len() == n,
            forall|i: int, b: int|
                0 <= i < a && 0 <= b < n
                    ==> #[trigger] friends_n@[i]@[b] == (strength_ns@[b]@[i] != 0u64),
            forall|i: int, b: int|
                0 <= i < a && 0 <= b < n
                    ==> #[trigger] friends_e@[i]@[b] == (strength_we@[i]@[b] != 0u64),
            forall|i: int, b: int|
                0 <= i < a && 0 <= b < n
                    ==> #[trigger] friends_s@[i]@[b] == (strength_ns@[i]@[b] != 0u64),
            forall|i: int, b: int|
                0 <= i < a && 0 <= b < n
                    ==> #[trigger] friends_w@[i]@[b] == (strength_we@[b]@[i] != 0u64),
        decreases n - a,
    {
        let mut row_n: Vec<bool> = Vec::new();
        let mut row_e: Vec<bool> = Vec::new();
        let mut row_s: Vec<bool> = Vec::new();
        let mut row_w: Vec<bool> = Vec::new();
        let mut b: usize = 0;
        while b < n
            invariant
                b <= n,
                a < n,
                n == strength_ns@.len(),
                strength_we@.len() == n,
                forall|i: int| 0 <= i < n ==> (#[trigger] strength_ns@[i])@.len() == n,
                forall|i: int| 0 <= i < n ==> (#[trigger] strength_we@[i])@.len() == n,
                row_n@.len() == b && row_e@.len() == b && row_s@.len() == b && row_w@.len() == b,
                forall|j: int|
                    0 <= j < b ==> #[trigger] row_n@[j] == (strength_ns@[j]@[a as int] != 0u64),
                forall|j: int|
                    0 <= j < b ==> #[trigger] row_e@[j] == (strength_we@[a as int]@[j] != 0u64),
                forall|j: int|
                    0 <= j < b ==> #[trigger] row_s@[j] == (strength_ns@[a as int]@[j] != 0u64),
                forall|j: int|
                    0 <= j < b ==> #[trigger] row_w@[j] == (strength_we@[j]@[a as int] != 0u64),
            decreases n - b,
        {
            row_n.push(strength_ns[b][a] != 0);
            row_e.push(strength_we[a][b] != 0);
            row_s.push(strength_ns[a][b] != 0);
            row_w.push(strength_we[b][a] != 0);
            b += 1;
        }
        friends_n.push(row_n);
        friends_e.push(row_e);
        friends_s.push(row_s);
        friends_w.push(row_w);
        a += 1;
    }
    (friends_n, friends_e, friends_s, friends_w)
}

/// A kTAM model: attachment-rate, bond-strength and detachment-rate tables,
/// with the precomputed friends filters.
#[derive(Clone, Debug)]
pub struct StaticKTAM {
    /// Attachment propensity per empty site, per species; entry 0 is 0.
    pub tile_rates: Vec<Rate>,
    /// `strength_ns[a][b]`: bond strength of `a` above `b`.
    pub strength_ns: Vec<Vec<u64>>,
    /// `strength_we[a][b]`: bond strength of `a` left of `b`.
    pub strength_we: Vec<Vec<u64>>,
    /// Detachment rate of a tile whose bonds total the index.
    pub detach_rates: Vec<Rate>,
    /// `friends_n[a]`: tiles that can sit directly north of `a`.
    pub friends_n: Vec<Vec<bool>>,
    /// `friends_e[a]`: tiles that can sit directly east of `a`.
    pub friends_e: Vec<Vec<bool>>,
    /// `friends_s[a]`: tiles that can sit directly south of `a`.
    pub friends_s: Vec<Vec<bool>>,
    /// `friends_w[a]`: tiles that can sit directly west of `a`.
    pub friends_w: Vec<Vec<bool>>,
    /// The fixed-point value standing for a concentration of one; dimer
    /// formation rates are products of attachment rates divided by it.
    pub rate_scale: u64,
    /// Fixed initial tiles; a seed tile never detaches.
    pub seed: Seed,
}

impl StaticKTAM {
    /// Whether species `t` can attach at an empty site given the four
    /// neighbouring tiles: it must form at least one bond.
    pub open spec fn accepts(&self, tn: Tile, te: Tile, ts: Tile, tw: Tile, t: int) -> bool {
        ||| self.strength_ns@[tn as int]@[t] != 0u64
        ||| self.strength_we@[t]@[te as int] != 0u64
        ||| self.strength_ns@[t]@[ts as int] != 0u64
        ||| self.strength_we@[tw as int]@[t] != 0u64
    }

    /// Cumulative attachment rate of the species below `k`, in ascending
    /// species order; the shared enumeration of `event_rate_at_point` and
    /// `choose_event_at_point`.
    pub open spec fn prefix_rate(&self, tn: Tile, te: Tile, ts: Tile, tw: Tile, k: int) -> int
        decreases k,
    {
        if k <= 0 {
            0
        } else {
            self.prefix_rate(tn, te, ts, tw, k - 1)
                + if self.accepts(tn, te, ts, tw, k - 1) {
                    self.tile_rates@[k - 1] as int
                } else {
                    0
                }
        }
    }

    /// Total bond strength of tile `t` at a site with the four given
    /// neighbouring tiles.
    pub open spec fn bond_strength(&self, tn: Tile, te: Tile, ts: Tile, tw: Tile, t: Tile) -> int {
        self.strength_ns@[t as int]@[ts as int] + self.strength_ns@[tn as int]@[t as int]
            + self.strength_we@[t as int]@[te as int] + self.strength_we@[tw as int]@[t as int]
    }

    /// Every detachment rate is positive, so every occupied site keeps a
    /// positive propensity; cloning by non-zero-rate support then preserves
    /// the whole canvas.
    pub open spec fn detach_positive(&self) -> bool {
        forall|s: int| 0 <= s < self.detach_rates@.len()
            ==> (#[trigger] self.detach_rates@[s]) >= 1u64
    }

    /// The prefix rates are non-negative, monotone, and bounded by the sum
    /// of all attachment rates.
    pub proof fn lemma_prefix_bounds(&self, tn: Tile, te: Tile, ts: Tile, tw: Tile, k: int)
        requires
            0 <= k <= self.tile_rates@.len(),
        ensures
            0 <= self.prefix_rate(tn, te, ts, tw, k)
                <= seq_rate_sum(self.tile_rates@.take(k)),
        decreases k,
    {
        if k > 0 {
            self.lemma_prefix_bounds(tn, te, ts, tw, k - 1);
            assert(self.tile_rates@.take(k).drop_last() =~= self.tile_rates@.take(k - 1));
        }
    }

    /// The full prefix is bounded by the sum of all attachment rates.
    pub proof fn lemma_prefix_le_total(&self, tn: Tile, te: Tile, ts: Tile, tw: Tile, k: int)
        requires
            0 <= k <= self.tile_rates@.len(),
        ensures
            0 <= self.prefix_rate(tn, te, ts, tw, k) <= seq_rate_sum(self.tile_rates@),
        decreases self.tile_rates@.len() - k,
    {
        self.lemma_prefix_bounds(tn, te, ts, tw, k);
        if k == self.tile_rates@.len() {
            assert(self.tile_rates@.take(k) =~= self.tile_rates@);
        } else {
            self.lemma_prefix_le_total(tn, te, ts, tw, k + 1);
        }
    }

    /// If no species below `k` is accepted, the prefix rate is 0.
    pub proof fn lemma_prefix_zero(&self, tn: Tile, te: Tile, ts: Tile, tw: Tile, k: int)
        requires
            forall|t: int| 0 <= t < k ==> !self.accepts(tn, te, ts, tw, t),
        ensures
            self.prefix_rate(tn, te, ts, tw, k) == 0,
        decreases k,
    {
        if k > 0 {
            self.lemma_prefix_zero(tn, te, ts, tw, k - 1);
        }
    }

    /// Formation-rate contribution of the ordered pair (`a`, `b`): its
    /// rate once per orientation in which the pair bonds with positive
    /// rate, in the NS-then-WE order `calc_dimers` uses.
    pub open spec fn pair_dimer_rate(&self, a: int, b: int) -> int {
        (if self.strength_ns@[a]@[b] != 0u64 && self.dimer_rate(
            a as Tile,
            b as Tile,
            Orientation::NS,
        ) > 0 {
            self.dimer_rate(a as Tile, b as Tile, Orientation::NS)
        } else {
            0
        }) + (if self.strength_we@[a]@[b] != 0u64 && self.dimer_rate(
            a as Tile,
            b as Tile,
            Orientation::WE,
        ) > 0 {
            self.dimer_rate(a as Tile, b as Tile, Orientation::WE)
        } else {
            0
        })
    }

    /// Sum of the pair contributions of row `a` over second tiles below
    /// `b`, the empty species excluded.
    pub open spec fn row_dimer_rate(&self, a: int, b: int) -> int
        decreases b,
    {
        if b <= 1 {
            0
        } else {
            self.row_dimer_rate(a, b - 1) + self.pair_dimer_rate(a, b - 1)
        }
    }

    /// Sum of the full rows below `a`, the empty species excluded.
    pub open spec fn dimer_rate_upto(&self, a: int) -> int
        decreases a,
    {
        if a <= 1 {
            0
        } else {
            self.dimer_rate_upto(a - 1) + self.row_dimer_rate(a - 1, self.nspecies())
        }
    }

    /// The friends tables agree with the strength tables.
    pub open spec fn friends_ok(&self) -> bool {
        let n = self.tile_rates@.len() as int;
        &&& self.friends_n@.len() == n && self.friends_e@.len() == n
            && self.friends_s@.len() == n && self.friends_w@.len() == n
        &&& forall|i: int| 0 <= i < n ==> (#[trigger] self.friends_n@[i])@.len() == n
        &&& forall|i: int| 0 <= i < n ==> (#[trigger] self.friends_e@[i])@.len() == n
        &&& forall|i: int| 0 <= i < n ==> (#[trigger] self.friends_s@[i])@.len() == n
        &&& forall|i: int| 0 <= i < n ==> (#[trigger] self.friends_w@[i])@.len() == n
        &&& forall|a: int, b: int|
            0 <= a < n && 0 <= b < n
                ==> #[trigger] self.friends_n@[a]@[b] == (self.strength_ns@[b]@[a] != 0u64)
        &&& forall|a: int, b: int|
            0 <= a < n && 0 <= b < n
                ==> #[trigger] self.friends_e@[a]@[b] == (self.strength_we@[a]@[b] != 0u64)
        &&& forall|a: int, b: int|
            0 <= a < n && 0 <= b < n
                ==> #[trigger] self.friends_s@[a]@[b] == (self.strength_ns@[a]@[b] != 0u64)
        &&& forall|a: int, b: int|
            0 <= a < n && 0 <= b < n
                ==> #[trigger] self.friends_w@[a]@[b] == (self.strength_we@[b]@[a] != 0u64)
    }

    /// A kTAM model from raw tables; the friends filters are rebuilt here,
    /// as they must be whenever the strength tables change.
    pub fn from_raw(
        tile_rates: Vec<Rate>,
        strength_ns: Vec<Vec<u64>>,
        strength_we: Vec<Vec<u64>>,
        detach_rates: Vec<Rate>,
        rate_scale: u64,
    ) -> (m: Self)
        requires
            1 <= tile_rates@.len(),
            tile_rates@[0] == 0u64,
            seq_rate_sum(tile_rates@) <= MAX_SITE_RATE,
            strength_ns@.len() == tile_rates@.len(),
            strength_we@.len() == tile_rates@.len(),
            forall|i: int|
                0 <= i < tile_rates@.len() ==> (#[trigger] strength_ns@[i])@.len()
                    == tile_rates@.len(),
            forall|i: int|
                0 <= i < tile_rates@.len() ==> (#[trigger] strength_we@[i])@.len()
                    == tile_rates@.len(),
            forall|i: int, j: int|
                0 <= i < tile_rates@.len() && 0 <= j < tile_rates@.len()
                    ==> (#[trigger] strength_ns@[i]@[j]) <= MAX_STRENGTH
                        && 4 * strength_ns@[i]@[j] < detach_rates@.len(),
            forall|i: int, j: int|
                0 <= i < tile_rates@.len() && 0 <= j < tile_rates@.len()
                    ==> (#[trigger] strength_we@[i]@[j]) <= MAX_STRENGTH
                        && 4 * strength_we@[i]@[j] < detach_rates@.len(),
            forall|i: int| 0 <= i < tile_rates@.len() ==> (#[trigger] strength_ns@[0]@[i]) == 0u64,
            forall|i: int| 0 <= i < tile_rates@.len() ==> (#[trigger] strength_ns@[i]@[0]) == 0u64,
            forall|i: int| 0 <= i < tile_rates@.len() ==> (#[trigger] strength_we@[0]@[i]) == 0u64,
            forall|i: int| 0 <= i < tile_rates@.len() ==> (#[trigger] strength_we@[i]@[0]) == 0u64,
            detach_rates@.len() >= 1,
            forall|s: int|
                0 <= s < detach_rates@.len() ==> (#[trigger] detach_rates@[s]) <= MAX_SITE_RATE,
            rate_scale >= 0x2_0000,
        ensures
            m.swf(),
            m.tile_rates == tile_rates,
            m.strength_ns == strength_ns,
            m.strength_we == strength_we,
            m.detach_rates == detach_rates,
            m.rate_scale == rate_scale,
            m.seed is NoSeed,
    {
        let (friends_n, friends_e, friends_s, friends_w) = create_friend_data(
            &strength_ns,
            &strength_we,
        );
        StaticKTAM {
            tile_rates,
            strength_ns,
            strength_we,
            detach_rates,
            friends_n,
            friends_e,
            friends_s,
            friends_w,
            rate_scale,
            seed: Seed::NoSeed,
        }
    }

    /// A kTAM model from per-species attachment rates, edge glues, glue
    /// strengths, and a detachment-rate table indexed by total bond
    /// strength.
    pub fn new(
        tile_rates: Vec<Rate>,
        tile_edges: Vec<TileEdges>,
        glue_strengths: Vec<u64>,
        detach_rates: Vec<Rate>,
        rate_scale: u64,
    ) -> (m: Self)
        requires
            1 <= tile_rates@.len(),
            tile_edges@.len() == tile_rates@.len(),
            tile_rates@[0] == 0u64,
            seq_rate_sum(tile_rates@) <= MAX_SITE_RATE,
            glue_strengths@.len() >= 1,
            glue_strengths@[0] == 0u64,
            tile_edges@[0] == (0usize, 0usize, 0usize, 0usize),
            forall|g: int|
                0 <= g < glue_strengths@.len() ==> (#[trigger] glue_strengths@[g]) <= MAX_STRENGTH
                    && 4 * glue_strengths@[g] < detach_rates@.len(),
            forall|i: int| 0 <= i < tile_edges@.len() ==> {
                &&& (#[trigger] tile_edges@[i]).0 < glue_strengths@.len()
                &&& tile_edges@[i].1 < glue_strengths@.len()
                &&& tile_edges@[i].2 < glue_strengths@.len()
                &&& tile_edges@[i].3 < glue_strengths@.len()
            },
            detach_rates@.len() >= 1,
            forall|s: int|
                0 <= s < detach_rates@.len() ==> (#[trigger] detach_rates@[s]) <= MAX_SITE_RATE,
            rate_scale >= 0x2_0000,
        ensures
            m.swf(),
            m.nspecies() == tile_rates@.len(),
            m.tile_rates == tile_rates,
            m.detach_rates == detach_rates,
            m.rate_scale == rate_scale,
            m.seed is NoSeed,
            forall|a: int, b: int|
                0 <= a < tile_edges@.len() && 0 <= b < tile_edges@.len()
                    ==> #[trigger] m.strength_ns@[a]@[b] == (
                        if tile_edges@[a].2 == tile_edges@[b].0 {
                            glue_strengths@[tile_edges@[a].2 as int]
                        } else {
                            0u64
                        }),
            forall|a: int, b: int|
                0 <= a < tile_edges@.len() && 0 <= b < tile_edges@.len()
                    ==> #[trigger] m.strength_we@[a]@[b] == (
                        if tile_edges@[a].1 == tile_edges@[b].3 {
                            glue_strengths@[tile_edges@[a].1 as int]
                        } else {
                            0u64
                        }),
    {
        let (strength_ns, strength_we) = build_strength_tables(&tile_edges, &glue_strengths);
        let (friends_n, friends_e, friends_s, friends_w) = create_friend_data(
            &strength_ns,
            &strength_we,
        );
        StaticKTAM {
            tile_rates,
            strength_ns,
            strength_we,
            detach_rates,
            friends_n,
            friends_e,
            friends_s,
            friends_w,
            rate_scale,
            seed: Seed::NoSeed,
        }
    }

    /// The same model with the given seed attached.
    pub fn with_seed(self, seed: Seed) -> (m: Self)
        ensures
            m.tile_rates == self.tile_rates,
            m.strength_ns == self.strength_ns,
            m.strength_we == self.strength_we,
            m.detach_rates == self.detach_rates,
            m.friends_n == self.friends_n,
            m.friends_e == self.friends_e,
            m.friends_s == self.friends_s,
            m.friends_w == self.friends_w,
            m.rate_scale == self.rate_scale,
            m.seed == seed,
    {
        StaticKTAM { seed, ..self }
    }
}

impl System for StaticKTAM {
    open spec fn swf(&self) -> bool {
        let n = self.tile_rates@.len() as int;
        &&& 1 <= n
        &&& self.tile_rates@[0] == 0u64
        &&& seq_rate_sum(self.tile_rates@) <= MAX_SITE_RATE
        &&& self.strength_ns@.len() == n
        &&& self.strength_we@.len() == n
        &&& forall|i: int| 0 <= i < n ==> (#[trigger] self.strength_ns@[i])@.len() == n
        &&& forall|i: int| 0 <= i < n ==> (#[trigger] self.strength_we@[i])@.len() == n
        &&& forall|i: int, j: int|
            0 <= i < n && 0 <= j < n ==> (#[trigger] self.strength_ns@[i]@[j]) <= MAX_STRENGTH
                && 4 * self.strength_ns@[i]@[j] < self.detach_rates@.len()
        &&& forall|i: int, j: int|
            0 <= i < n && 0 <= j < n ==> (#[trigger] self.strength_we@[i]@[j]) <= MAX_STRENGTH
                && 4 * self.strength_we@[i]@[j] < self.detach_rates@.len()
        &&& forall|i: int| 0 <= i < n ==> (#[trigger] self.strength_ns@[0]@[i]) == 0u64
        &&& forall|i: int| 0 <= i < n ==> (#[trigger] self.strength_ns@[i]@[0]) == 0u64
        &&& forall|i: int| 0 <= i < n ==> (#[trigger] self.strength_we@[0]@[i]) == 0u64
        &&& forall|i: int| 0 <= i < n ==> (#[trigger] self.strength_we@[i]@[0]) == 0u64
        &&& self.detach_rates@.len() >= 1
        &&& forall|s: int|
            0 <= s < self.detach_rates@.len() ==> (#[trigger] self.detach_rates@[s])
                <= MAX_SITE_RATE
        &&& self.rate_scale >= 0x2_0000
        &&& self.friends_ok()
    }

    open spec fn nspecies(&self) -> int {
        self.tile_rates@.len() as int
    }

    open spec fn site_rate(&self, c: &Canvas2D, r: int, cc: int) -> int {
        if !c.inb(r, cc) {
            0
        } else {
            let tile = c.tile_at(r, cc);
            let tn = c.tile_at(c.nbr_n(r, cc).0, c.nbr_n(r, cc).1);
            let te = c.tile_at(c.nbr_e(r, cc).0, c.nbr_e(r, cc).1);
            let ts = c.tile_at(c.nbr_s(r, cc).0, c.nbr_s(r, cc).1);
            let tw = c.tile_at(c.nbr_w(r, cc).0, c.nbr_w(r, cc).1);
            if tile != 0usize {
                if seed_at(&self.seed, r, cc) {
                    0
                } else {
                    self.detach_rates@[self.bond_strength(tn, te, ts, tw, tile)] as int
                }
            } else {
                self.prefix_rate(tn, te, ts, tw, self.nspecies())
            }
        }
    }

    open spec fn choice_ok(&self, c: &Canvas2D, r: int, cc: int, acc: int, t: Tile) -> bool {
        let tn = c.tile_at(c.nbr_n(r, cc).0, c.nbr_n(r, cc).1);
        let te = c.tile_at(c.nbr_e(r, cc).0, c.nbr_e(r, cc).1);
        let ts = c.tile_at(c.nbr_s(r, cc).0, c.nbr_s(r, cc).1);
        let tw = c.tile_at(c.nbr_w(r, cc).0, c.nbr_w(r, cc).1);
        if c.tile_at(r, cc) != 0usize {
            t == 0usize
        } else {
            &&& t < self.nspecies()
            &&& self.accepts(tn, te, ts, tw, t as int)
            &&& self.prefix_rate(tn, te, ts, tw, t as int) <= acc
            &&& acc < self.prefix_rate(tn, te, ts, tw, t as int + 1)
        }
    }

    proof fn lemma_nspecies_pos(&self) {
    }

    proof fn lemma_site_rate_bounds(&self, c: &Canvas2D, r: int, cc: int) {
        if c.inb(r, cc) {
            let tile = c.tile_at(r, cc);
            let tn = c.tile_at(c.nbr_n(r, cc).0, c.nbr_n(r, cc).1);
            let te = c.tile_at(c.nbr_e(r, cc).0, c.nbr_e(r, cc).1);
            let ts = c.tile_at(c.nbr_s(r, cc).0, c.nbr_s(r, cc).1);
            let tw = c.tile_at(c.nbr_w(r, cc).0, c.nbr_w(r, cc).1);
            if tile != 0usize {
                if !seed_at(&self.seed, r, cc) {
                    c.lemma_nbr_in_grid(r, cc);
                    let s = self.bond_strength(tn, te, ts, tw, tile);
                    assert(0 <= s < self.detach_rates@.len());
                }
            } else {
                self.lemma_prefix_le_total(tn, te, ts, tw, self.nspecies());
            }
        }
    }

    proof fn lemma_site_rate_oob(&self, c: &Canvas2D, r: int, cc: int) {
    }

    proof fn lemma_site_rate_local(&self, c1: &Canvas2D, c2: &Canvas2D, r: int, cc: int) {
    }

    proof fn lemma_isolated_empty(&self, c: &Canvas2D, r: int, cc: int) {
        let tn = c.tile_at(c.nbr_n(r, cc).0, c.nbr_n(r, cc).1);
        let te = c.tile_at(c.nbr_e(r, cc).0, c.nbr_e(r, cc).1);
        let ts = c.tile_at(c.nbr_s(r, cc).0, c.nbr_s(r, cc).1);
        let tw = c.tile_at(c.nbr_w(r, cc).0, c.nbr_w(r, cc).1);
        assert forall|t: int| 0 <= t < self.nspecies() implies !self.accepts(tn, te, ts, tw, t) by {
        }
        self.lemma_prefix_zero(tn, te, ts, tw, self.nspecies());
    }

    proof fn lemma_choice_flips(&self, c: &Canvas2D, r: int, cc: int, acc: int, t: Tile) {
        let tn = c.tile_at(c.nbr_n(r, cc).0, c.nbr_n(r, cc).1);
        let te = c.tile_at(c.nbr_e(r, cc).0, c.nbr_e(r, cc).1);
        let ts = c.tile_at(c.nbr_s(r, cc).0, c.nbr_s(r, cc).1);
        let tw = c.tile_at(c.nbr_w(r, cc).0, c.nbr_w(r, cc).1);
        if c.tile_at(r, cc) == 0usize {
            assert(self.prefix_rate(tn, te, ts, tw, t as int + 1)
                == self.prefix_rate(tn, te, ts, tw, t as int) + self.tile_rates@[t as int]);
            if t == 0usize {
                assert(self.tile_rates@[0] == 0u64);
                assert(false);
            }
        }
    }

    fn event_rate_at_point(&self, canvas: &Canvas2D, p: Point) -> (r: Rate) {
        if !canvas.inbounds(p) {
            return 0;
        }
        let tile = canvas.uv_p(p);
        let tn = canvas.uv_n(p);
        let te = canvas.uv_e(p);
        let ts = canvas.uv_s(p);
        let tw = canvas.uv_w(p);
        proof {
            canvas.lemma_nbr_in_grid(p.0 as int, p.1 as int);
        }
        if tile != 0 {
            if is_seed_site(&self.seed, p.0, p.1) {
                return 0;
            }
            proof {
                let li = self.detach_rates@.len() as int;
                assert(4 * self.strength_ns@[tile as int]@[ts as int] < li);
                assert(4 * self.strength_ns@[tn as int]@[tile as int] < li);
                assert(4 * self.strength_we@[tile as int]@[te as int] < li);
                assert(4 * self.strength_we@[tw as int]@[tile as int] < li);
            }
            let s: u64 = self.strength_ns[tile][ts] + self.strength_ns[tn][tile]
                + self.strength_we[tile][te] + self.strength_we[tw][tile];
            let dl: usize = self.detach_rates.len();
            proof {
                assert(s == self.bond_strength(tn, te, ts, tw, tile));
                assert(s < dl);
            }
            return self.detach_rates[s as usize];
        }
        if tn == 0 && te == 0 && ts == 0 && tw == 0 {
            proof {
                self.lemma_isolated_empty(canvas, p.0 as int, p.1 as int);
            }
            return 0;
        }
        let n: usize = self.tile_rates.len();
        let mut sum: u64 = 0;
        let mut t: usize = 0;
        while t < n
            invariant
                t <= n,
                self.swf(),
                n == self.tile_rates@.len(),
                tn < n && te < n && ts < n && tw < n,
                sum == self.prefix_rate(tn, te, ts, tw, t as int),
            decreases n - t,
        {
            proof {
                self.lemma_prefix_le_total(tn, te, ts, tw, t as int + 1);
            }
            let fr = self.friends_s[tn][t] || self.friends_w[te][t] || self.friends_n[ts][t]
                || self.friends_e[tw][t];
            if fr {
                sum = sum + self.tile_rates[t];
            }
            t += 1;
        }
        sum
    }

    fn choose_event_at_point(&self, canvas: &Canvas2D, p: Point, acc: Rate) -> (t: Tile) {
        let tile = canvas.uv_p(p);
        if tile != 0 {
            return 0;
        }
        let tn = canvas.uv_n(p);
        let te = canvas.uv_e(p);
        let ts = canvas.uv_s(p);
        let tw = canvas.uv_w(p);
        proof {
            canvas.lemma_nbr_in_grid(p.0 as int, p.1 as int);
        }
        let n: usize = self.tile_rates.len();
        let mut rem: u64 = acc;
        let mut t: usize = 0;
        while t < n
            invariant
                t <= n,
                self.swf(),
                n == self.tile_rates@.len(),
                tn < n && te < n && ts < n && tw < n,
                rem == acc - self.prefix_rate(tn, te, ts, tw, t as int),
                acc < self.site_rate(canvas, p.0 as int, p.1 as int),
                self.site_rate(canvas, p.0 as int, p.1 as int)
                    == self.prefix_rate(tn, te, ts, tw, n as int),
                canvas.tile_at(p.0 as int, p.1 as int) == 0usize,
                tn == canvas.tile_at(
                    canvas.nbr_n(p.0 as int, p.1 as int).0,
                    canvas.nbr_n(p.0 as int, p.1 as int).1,
                ),
                te == canvas.tile_at(
                    canvas.nbr_e(p.0 as int, p.1 as int).0,
                    canvas.nbr_e(p.0 as int, p.1 as int).1,
                ),
                ts == canvas.tile_at(
                    canvas.nbr_s(p.0 as int, p.1 as int).0,
                    canvas.nbr_s(p.0 as int, p.1 as int).1,
                ),
                tw == canvas.tile_at(
                    canvas.nbr_w(p.0 as int, p.1 as int).0,
                    canvas.nbr_w(p.0 as int, p.1 as int).1,
                ),
            decreases n - t,
        {
            let fr = self.friends_s[tn][t] || self.friends_w[te][t] || self.friends_n[ts][t]
                || self.friends_e[tw][t];
            if fr {
                let rt = self.tile_rates[t];
                if rem < rt {
                    return t;
                }
                rem = rem - rt;
            }
            t += 1;
        }
        proof {
            assert(false);
        }
        0
    }
}


impl StaticKTAM {
    /// In a seedless model whose detachment rates are all positive, every
    /// occupied in-bounds site keeps a positive propensity.
    pub proof fn lemma_occupied_positive(&self, c: &Canvas2D, r: int, cc: int)
        requires
            self.swf(),
            self.detach_positive(),
            self.seed is NoSeed,
            c.wf(),
            tiles_in_range(c, self.nspecies()),
            c.inb(r, cc),
            c.tile_at(r, cc) != 0usize,
        ensures
            self.site_rate(c, r, cc) >= 1,
    {
        c.lemma_nbr_in_grid(r, cc);
        let tile = c.tile_at(r, cc);
        let tn = c.tile_at(c.nbr_n(r, cc).0, c.nbr_n(r, cc).1);
        let te = c.tile_at(c.nbr_e(r, cc).0, c.nbr_e(r, cc).1);
        let ts = c.tile_at(c.nbr_s(r, cc).0, c.nbr_s(r, cc).1);
        let tw = c.tile_at(c.nbr_w(r, cc).0, c.nbr_w(r, cc).1);
        let li = self.detach_rates@.len() as int;
        assert(4 * self.strength_ns@[tile as int]@[ts as int] < li);
        assert(4 * self.strength_ns@[tn as int]@[tile as int] < li);
        assert(4 * self.strength_we@[tile as int]@[te as int] < li);
        assert(4 * self.strength_we@[tw as int]@[tile as int] < li);
        let s = self.bond_strength(tn, te, ts, tw, tile);
        assert(0 <= s < li);
        assert(self.detach_rates@[s] >= 1u64);
    }
}

impl SystemWithDimers for StaticKTAM {
    open spec fn dimer_rate(&self, a: Tile, b: Tile, o: Orientation) -> int {
        (self.tile_rates@[a as int] as int * self.tile_rates@[b as int] as int)
            / (self.rate_scale as int)
    }

    open spec fn dimer_bonds(&self, a: Tile, b: Tile, o: Orientation) -> bool {
        match o {
            Orientation::NS => self.strength_ns@[a as int]@[b as int] != 0u64,
            Orientation::WE => self.strength_we@[a as int]@[b as int] != 0u64,
        }
    }

    open spec fn dimer_rate_total(&self) -> int {
        self.dimer_rate_upto(self.nspecies())
    }

    fn calc_dimers(&self) -> (d: Vec<Dimer>) {
        let n: usize = self.tile_rates.len();
        let mut d: Vec<Dimer> = Vec::new();
        proof {
            assert(dimer_weights(d@) =~= Seq::<u64>::empty());
        }
        let mut a: usize = 1;
        while a < n
            invariant
                self.swf(),
                1 <= a <= n,
                n == self.tile_rates@.len(),
                crate::base::seq_rate_sum(dimer_weights(d@)) == self.dimer_rate_upto(a as int),
                forall|i: int| 0 <= i < d@.len() ==> {
                    let dm = #[trigger] d@[i];
                    &&& 0 < dm.t1 < n
                    &&& 0 < dm.t2 < n
                    &&& self.dimer_bonds(dm.t1, dm.t2, dm.orientation)
                    &&& dm.formation_rate == self.dimer_rate(dm.t1, dm.t2, dm.orientation)
                    &&& dm.formation_rate > 0
                },
                forall|a2: Tile, b2: Tile, o: Orientation|
                    0 < a2 < a && a2 < n && 0 < b2 < n && #[trigger] self.dimer_bonds(a2, b2, o)
                        && self.dimer_rate(a2, b2, o) > 0 ==> exists|i: int|
                        0 <= i < d@.len() && #[trigger] d@[i] == (Dimer {
                            t1: a2,
                            t2: b2,
                            orientation: o,
                            formation_rate: self.dimer_rate(a2, b2, o) as u64,
                        }),
            decreases n - a,
        {
            let mut b: usize = 1;
            while b < n
                invariant
                    self.swf(),
                    1 <= a < n,
                    1 <= b <= n,
                    n == self.tile_rates@.len(),
                    crate::base::seq_rate_sum(dimer_weights(d@)) == self.dimer_rate_upto(a as int)
                        + self.row_dimer_rate(a as int, b as int),
                    forall|i: int| 0 <= i < d@.len() ==> {
                        let dm = #[trigger] d@[i];
                        &&& 0 < dm.t1 < n
                        &&& 0 < dm.t2 < n
                        &&& self.dimer_bonds(dm.t1, dm.t2, dm.orientation)
                        &&& dm.formation_rate == self.dimer_rate(dm.t1, dm.t2, dm.orientation)
                        &&& dm.formation_rate > 0
                    },
                    forall|a2: Tile, b2: Tile, o: Orientation|
                        0 < a2 < a && 0 < b2 < n && #[trigger] self.dimer_bonds(a2, b2, o)
                            && self.dimer_rate(a2, b2, o) > 0 ==> exists|i: int|
                            0 <= i < d@.len() && #[trigger] d@[i] == (Dimer {
                                t1: a2,
                                t2: b2,
                                orientation: o,
                                formation_rate: self.dimer_rate(a2, b2, o) as u64,
                            }),
                    forall|b2: Tile, o: Orientation|
                        0 < b2 < b && #[trigger] self.dimer_bonds(a as Tile, b2, o)
                            && self.dimer_rate(a as Tile, b2, o) > 0 ==> exists|i: int|
                            0 <= i < d@.len() && #[trigger] d@[i] == (Dimer {
                                t1: a as Tile,
                                t2: b2,
                                orientation: o,
                                formation_rate: self.dimer_rate(a as Tile, b2, o) as u64,
                            }),
                decreases n - b,
            {
                proof {
                    crate::base::lemma_seq_rate_sum_bounds(self.tile_rates@, a as int);
                    crate::base::lemma_seq_rate_sum_bounds(self.tile_rates@, b as int);
                }
                let ta = self.tile_rates[a];
                let tb = self.tile_rates[b];
                proof {
                    assert((ta as int) * (tb as int) <= 0x1_0000_0000_0000_0000_0000)
                        by (nonlinear_arith)
                        requires
                            ta <= 0x100_0000_0000u64,
                            tb <= 0x100_0000_0000u64,
                    ;
                }
                let pr: u128 = (ta as u128) * (tb as u128);
                proof {
                    assert(pr / (self.rate_scale as u128) <= 0x8000_0000_0000_0000u128)
                        by (nonlinear_arith)
                        requires
                            pr <= 0x1_0000_0000_0000_0000_0000u128,
                            self.rate_scale >= 0x2_0000u64,
                    ;
                }
                let rv: u64 = (pr / (self.rate_scale as u128)) as u64;
                let ghost dprev = d@;
                if self.strength_ns[a][b] != 0 && rv > 0 {
                    d.push(
                        Dimer { t1: a, t2: b, orientation: Orientation::NS, formation_rate: rv },
                    );
                }
                let ghost dmid = d@;
                if self.strength_we[a][b] != 0 && rv > 0 {
                    d.push(
                        Dimer { t1: a, t2: b, orientation: Orientation::WE, formation_rate: rv },
                    );
                }
                proof {
                    assert(rv as int == self.dimer_rate(a as Tile, b as Tile, Orientation::NS));
                    assert(rv as int == self.dimer_rate(a as Tile, b as Tile, Orientation::WE));
                    if self.strength_ns@[a as int]@[b as int] != 0u64 && rv > 0 {
                        assert(dimer_weights(dmid) =~= dimer_weights(dprev).push(rv));
                        assert(dimer_weights(dmid).drop_last() =~= dimer_weights(dprev));
                        assert(dimer_weights(dmid).last() == rv);
                        assert(seq_rate_sum(dimer_weights(dmid)) == seq_rate_sum(
                            dimer_weights(dprev),
                        ) + rv);
                    } else {
                        assert(dimer_weights(dmid) =~= dimer_weights(dprev));
                    }
                    if self.strength_we@[a as int]@[b as int] != 0u64 && rv > 0 {
                        assert(dimer_weights(d@) =~= dimer_weights(dmid).push(rv));
                        assert(dimer_weights(d@).drop_last() =~= dimer_weights(dmid));
                        assert(dimer_weights(d@).last() == rv);
                        assert(seq_rate_sum(dimer_weights(d@)) == seq_rate_sum(dimer_weights(dmid))
                            + rv);
                    } else {
                        assert(dimer_weights(d@) =~= dimer_weights(dmid));
                    }
                    assert(self.pair_dimer_rate(a as int, b as int) == (
                        if self.strength_ns@[a as int]@[b as int] != 0u64 && rv > 0 {
                            rv as int
                        } else {
                            0
                        }) + (if self.strength_we@[a as int]@[b as int] != 0u64 && rv > 0 {
                        rv as int
                    } else {
                        0
                    }));
                    assert(crate::base::seq_rate_sum(dimer_weights(d@)) == self.dimer_rate_upto(
                        a as int,
                    ) + self.row_dimer_rate(a as int, b as int) + self.pair_dimer_rate(
                        a as int,
                        b as int,
                    ));
                    assert(self.row_dimer_rate(a as int, b as int + 1) == self.row_dimer_rate(
                        a as int,
                        b as int,
                    ) + self.pair_dimer_rate(a as int, b as int));
                    assert forall|a2: Tile, b2: Tile, o: Orientation|
                        0 < a2 < a && 0 < b2 < n && #[trigger] self.dimer_bonds(a2, b2, o)
                            && self.dimer_rate(a2, b2, o) > 0 implies exists|i: int|
                            0 <= i < d@.len() && #[trigger] d@[i] == (Dimer {
                                t1: a2,
                                t2: b2,
                                orientation: o,
                                formation_rate: self.dimer_rate(a2, b2, o) as u64,
                            }) by {
                        let i = choose|i: int|
                            0 <= i < dprev.len() && #[trigger] dprev[i] == (Dimer {
                                t1: a2,
                                t2: b2,
                                orientation: o,
                                formation_rate: self.dimer_rate(a2, b2, o) as u64,
                            });
                        assert(d@[i] == dprev[i]);
                    }
                    assert forall|b2: Tile, o: Orientation|
                        0 < b2 < b + 1 && #[trigger] self.dimer_bonds(a as Tile, b2, o)
                            && self.dimer_rate(a as Tile, b2, o) > 0 implies exists|i: int|
                            0 <= i < d@.len() && #[trigger] d@[i] == (Dimer {
                                t1: a as Tile,
                                t2: b2,
                                orientation: o,
                                formation_rate: self.dimer_rate(a as Tile, b2, o) as u64,
                            }) by {
                        if b2 < b {
                            let i = choose|i: int|
                                0 <= i < dprev.len() && #[trigger] dprev[i] == (Dimer {
                                    t1: a as Tile,
                                    t2: b2,
                                    orientation: o,
                                    formation_rate: self.dimer_rate(a as Tile, b2, o) as u64,
                                });
                            assert(d@[i] == dprev[i]);
                        } else {
                            match o {
                                Orientation::NS => {
                                    assert(d@[dprev.len() as int] == (Dimer {
                                        t1: a as Tile,
                                        t2: b2,
                                        orientation: o,
                                        formation_rate: self.dimer_rate(a as Tile, b2, o) as u64,
                                    }));
                                }
                                Orientation::WE => {
                                    assert(d@[dmid.len() as int] == (Dimer {
                                        t1: a as Tile,
                                        t2: b2,
                                        orientation: o,
                                        formation_rate: self.dimer_rate(a as Tile, b2, o) as u64,
                                    }));
                                }
                            }
                        }
                    }
                }
                b += 1;
            }
            proof {
                assert(self.dimer_rate_upto(a as int + 1) == self.dimer_rate_upto(a as int)
                    + self.row_dimer_rate(a as int, n as int));
                assert forall|a2: Tile, b2: Tile, o: Orientation|
                    0 < a2 < a + 1 && a2 < n && 0 < b2 < n && #[trigger] self.dimer_bonds(
                        a2,
                        b2,
                        o,
                    ) && self.dimer_rate(a2, b2, o) > 0 implies exists|i: int|
                        0 <= i < d@.len() && #[trigger] d@[i] == (Dimer {
                            t1: a2,
                            t2: b2,
                            orientation: o,
                            formation_rate: self.dimer_rate(a2, b2, o) as u64,
                        }) by {
                    if a2 == a {
                        assert(self.dimer_bonds(a as Tile, b2, o) && self.dimer_rate(
                            a as Tile,
                            b2,
                            o,
                        ) > 0);
                        assert(exists|i: int|
                            0 <= i < d@.len() && #[trigger] d@[i] == (Dimer {
                                t1: a as Tile,
                                t2: b2,
                                orientation: o,
                                formation_rate: self.dimer_rate(a as Tile, b2, o) as u64,
                            }));
                    }
                }
            }
            a += 1;
        }
        proof {
            assert(a == n || n <= 1);
            if n <= 1 {
                assert(self.dimer_rate_upto(n as int) == 0);
            }
            assert(crate::base::seq_rate_sum(dimer_weights(d@)) == self.dimer_rate_total());
        }
        d
    }
}

} // verus!
