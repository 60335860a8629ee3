//! The abstract Tile Assembly Model: irreversible attachment of any tile
//! whose bonds to the current neighbourhood reach the threshold `tau`.

use vstd::prelude::*;
use crate::base::{Tile, Point, Rate, TileEdges, MAX_SITE_RATE, MAX_STRENGTH, seq_rate_sum};
use crate::canvas::{Canvas, Canvas2D};
use crate::system::{System, Seed, tiles_in_range};

verus! {

/// An aTAM model: immutable attachment-rate and bond-strength tables.
#[derive(Clone, Debug)]
pub struct StaticATAM {
    /// Attachment propensity per empty site, per species; entry 0 is 0.
    pub tile_rates: Vec<Rate>,
    /// `strength_ns[a][b]`: bond strength of `a` above `b`.
    pub strength_ns: Vec<Vec<u64>>,
    /// `strength_we[a][b]`: bond strength of `a` left of `b`.
    pub strength_we: Vec<Vec<u64>>,
    /// Attachment threshold.
    pub tau: u64,
    /// Fixed initial tiles.
    pub seed: Seed,
}

impl StaticATAM {
    /// Whether species `t` may attach given the four neighbouring tiles.
    pub open spec fn accepts(&self, tn: Tile, te: Tile, ts: Tile, tw: Tile, t: int) -> bool {
        self.strength_ns@[tn as int]@[t] + self.strength_we@[t]@[te as int]
            + self.strength_ns@[t]@[ts as int] + self.strength_we@[tw as int]@[t]
            >= self.tau
    }

    /// Cumulative attachment rate of the species below `k`, in ascending
    /// species order; this is the enumeration both `event_rate_at_point`
    /// and `choose_event_at_point` walk.
    pub open spec fn prefix_rate(&self, tn: Tile, te: Tile, ts: Tile, tw: Tile, k: int) -> int
        decreases k,
    {
        if k <= 0 {
            0
        } else {
            self.prefix_rate(tn, te, ts, tw, k - 1)
                + if self.accepts(tn, te, ts, tw, k - 1) {
                    self.tile_rates@[k - 1] as int
                } else {
                    0
                }
        }
    }

    /// The prefix rates are non-negative, monotone, and bounded by the sum
    /// of all attachment rates.
    pub proof fn lemma_prefix_bounds(&self, tn: Tile, te: Tile, ts: Tile, tw: Tile, k: int)
        requires
            0 <= k <= self.tile_rates@.len(),
        ensures
            0 <= self.prefix_rate(tn, te, ts, tw, k)
                <= seq_rate_sum(self.tile_rates@.take(k)),
        decreases k,
    {
        if k > 0 {
            self.lemma_prefix_bounds(tn, te, ts, tw, k - 1);
            assert(self.tile_rates@.take(k).drop_last() =~= self.tile_rates@.take(k - 1));
        }
    }

    /// The full prefix is bounded by the sum of all attachment rates.
    pub proof fn lemma_prefix_le_total(&self, tn: Tile, te: Tile, ts: Tile, tw: Tile, k: int)
        requires
            0 <= k <= self.tile_rates@.len(),
        ensures
            0 <= self.prefix_rate(tn, te, ts, tw, k) <= seq_rate_sum(self.tile_rates@),
        decreases self.tile_rates@.len() - k,
    {
        self.lemma_prefix_bounds(tn, te, ts, tw, k);
        if k == self.tile_rates@.len() {
            assert(self.tile_rates@.take(k) =~= self.tile_rates@);
        } else {
            self.lemma_prefix_le_total(tn, te, ts, tw, k + 1);
            assert(self.prefix_rate(tn, te, ts, tw, k) <= self.prefix_rate(tn, te, ts, tw, k + 1));
        }
    }

    /// If no species below `k` is accepted, the prefix rate is 0.
    pub proof fn lemma_prefix_zero(&self, tn: Tile, te: Tile, ts: Tile, tw: Tile, k: int)
        requires
            forall|t: int| 0 <= t < k ==> !self.accepts(tn, te, ts, tw, t),
        ensures
            self.prefix_rate(tn, te, ts, tw, k) == 0,
        decreases k,
    {
        if k > 0 {
            self.lemma_prefix_zero(tn, te, ts, tw, k - 1);
        }
    }

    /// A seedless aTAM model from per-species attachment rates, edge glues,
    /// and glue strengths, with the bond-strength tables precomputed.
    pub fn new(
        tile_rates: Vec<Rate>,
        tile_edges: Vec<TileEdges>,
        glue_strengths: Vec<u64>,
        tau: u64,
    ) -> (m: Self)
        requires
            1 <= tile_rates@.len(),
            tile_edges@.len() == tile_rates@.len(),
            tile_rates@[0] == 0u64,
            seq_rate_sum(tile_rates@) <= MAX_SITE_RATE,
            glue_strengths@.len() >= 1,
            glue_strengths@[0] == 0u64,
            tile_edges@[0] == (0usize, 0usize, 0usize, 0usize),
            forall|g: int| 0 <= g < glue_strengths@.len()
                ==> (#[trigger] glue_strengths@[g]) <= MAX_STRENGTH,
            forall|i: int| 0 <= i < tile_edges@.len() ==> {
                &&& (#[trigger] tile_edges@[i]).0 < glue_strengths@.len()
                &&& tile_edges@[i].1 < glue_strengths@.len()
                &&& tile_edges@[i].2 < glue_strengths@.len()
                &&& tile_edges@[i].3 < glue_strengths@.len()
            },
            tau >= 1,
        ensures
            m.swf(),
            m.nspecies() == tile_rates@.len(),
            m.tile_rates == tile_rates,
            m.tau == tau,
            m.seed is NoSeed,
            forall|a: int, b: int|
                0 <= a < tile_edges@.len() && 0 <= b < tile_edges@.len()
                    ==> #[trigger] m.strength_ns@[a]@[b] == (
                        if tile_edges@[a].2 == tile_edges@[b].0 {
                            glue_strengths@[tile_edges@[a].2 as int]
                        } else {
                            0u64
                        }),
            forall|a: int, b: int|
                0 <= a < tile_edges@.len() && 0 <= b < tile_edges@.len()
                    ==> #[trigger] m.strength_we@[a]@[b] == (
                        if tile_edges@[a].1 == tile_edges@[b].3 {
                            glue_strengths@[tile_edges@[a].1 as int]
                        } else {
                            0u64
                        }),
    {
        let (strength_ns, strength_we) = crate::system::build_strength_tables(
            &tile_edges,
            &glue_strengths,
        );
        StaticATAM { tile_rates, strength_ns, strength_we, tau, seed: Seed::NoSeed }
    }

    /// The same model with the given seed attached.
    pub fn with_seed(self, seed: Seed) -> (m: Self)
        ensures
            m.tile_rates == self.tile_rates,
            m.strength_ns == self.strength_ns,
            m.strength_we == self.strength_we,
            m.tau == self.tau,
            m.seed == seed,
    {
        StaticATAM { seed, ..self }
    }
}

impl System for StaticATAM {
    open spec fn swf(&self) -> bool {
        let n = self.tile_rates@.len() as int;
        &&& 1 <= n
        &&& self.tile_rates@[0] == 0u64
        &&& seq_rate_sum(self.tile_rates@) <= MAX_SITE_RATE
        &&& self.strength_ns@.len() == n
        &&& self.strength_we@.len() == n
        &&& forall|i: int| 0 <= i < n ==> (#[trigger] self.strength_ns@[i])@.len() == n
        &&& forall|i: int| 0 <= i < n ==> (#[trigger] self.strength_we@[i])@.len() == n
        &&& forall|i: int, j: int|
            0 <= i < n && 0 <= j < n ==> (#[trigger] self.strength_ns@[i]@[j]) <= MAX_STRENGTH
        &&& forall|i: int, j: int|
            0 <= i < n && 0 <= j < n ==> (#[trigger] self.strength_we@[i]@[j]) <= MAX_STRENGTH
        &&& forall|i: int| 0 <= i < n ==> (#[trigger] self.strength_ns@[0]@[i]) == 0u64
        &&& forall|i: int| 0 <= i < n ==> (#[trigger] self.strength_ns@[i]@[0]) == 0u64
        &&& forall|i: int| 0 <= i < n ==> (#[trigger] self.strength_we@[0]@[i]) == 0u64
        &&& forall|i: int| 0 <= i < n ==> (#[trigger] self.strength_we@[i]@[0]) == 0u64
        &&& self.tau >= 1
    }

    open spec fn nspecies(&self) -> int {
        self.tile_rates@.len() as int
    }

    open spec fn site_rate(&self, c: &Canvas2D, r: int, cc: int) -> int {
        if !c.inb(r, cc) {
            0
        } else if c.tile_at(r, cc) != 0usize {
            0
        } else {
            self.prefix_rate(
                c.tile_at(c.nbr_n(r, cc).0, c.nbr_n(r, cc).1),
                c.tile_at(c.nbr_e(r, cc).0, c.nbr_e(r, cc).1),
                c.tile_at(c.nbr_s(r, cc).0, c.nbr_s(r, cc).1),
                c.tile_at(c.nbr_w(r, cc).0, c.nbr_w(r, cc).1),
                self.nspecies(),
            )
        }
    }

    open spec fn choice_ok(&self, c: &Canvas2D, r: int, cc: int, acc: int, t: Tile) -> bool {
        let tn = c.tile_at(c.nbr_n(r, cc).0, c.nbr_n(r, cc).1);
        let te = c.tile_at(c.nbr_e(r, cc).0, c.nbr_e(r, cc).1);
        let ts = c.tile_at(c.nbr_s(r, cc).0, c.nbr_s(r, cc).1);
        let tw = c.tile_at(c.nbr_w(r, cc).0, c.nbr_w(r, cc).1);
        &&& c.tile_at(r, cc) == 0usize
        &&& t < self.nspecies()
        &&& self.accepts(tn, te, ts, tw, t as int)
        &&& self.prefix_rate(tn, te, ts, tw, t as int) <= acc
        &&& acc < self.prefix_rate(tn, te, ts, tw, t as int + 1)
    }

    proof fn lemma_nspecies_pos(&self) {
    }

    proof fn lemma_site_rate_bounds(&self, c: &Canvas2D, r: int, cc: int) {
        if c.inb(r, cc) && c.tile_at(r, cc) == 0usize {
            let tn = c.tile_at(c.nbr_n(r, cc).0, c.nbr_n(r, cc).1);
            let te = c.tile_at(c.nbr_e(r, cc).0, c.nbr_e(r, cc).1);
            let ts = c.tile_at(c.nbr_s(r, cc).0, c.nbr_s(r, cc).1);
            let tw = c.tile_at(c.nbr_w(r, cc).0, c.nbr_w(r, cc).1);
            self.lemma_prefix_le_total(tn, te, ts, tw, self.nspecies());
        }
    }

    proof fn lemma_site_rate_oob(&self, c: &Canvas2D, r: int, cc: int) {
    }

    proof fn lemma_site_rate_local(&self, c1: &Canvas2D, c2: &Canvas2D, r: int, cc: int) {
    }

    proof fn lemma_isolated_empty(&self, c: &Canvas2D, r: int, cc: int) {
        let tn = c.tile_at(c.nbr_n(r, cc).0, c.nbr_n(r, cc).1);
        let te = c.tile_at(c.nbr_e(r, cc).0, c.nbr_e(r, cc).1);
        let ts = c.tile_at(c.nbr_s(r, cc).0, c.nbr_s(r, cc).1);
        let tw = c.tile_at(c.nbr_w(r, cc).0, c.nbr_w(r, cc).1);
        assert forall|t: int| 0 <= t < self.nspecies() implies !self.accepts(tn, te, ts, tw, t) by {
        }
        self.lemma_prefix_zero(tn, te, ts, tw, self.nspecies());
    }

    proof fn lemma_choice_flips(&self, c: &Canvas2D, r: int, cc: int, acc: int, t: Tile) {
        let tn = c.tile_at(c.nbr_n(r, cc).0, c.nbr_n(r, cc).1);
        let te = c.tile_at(c.nbr_e(r, cc).0, c.nbr_e(r, cc).1);
        let ts = c.tile_at(c.nbr_s(r, cc).0, c.nbr_s(r, cc).1);
        let tw = c.tile_at(c.nbr_w(r, cc).0, c.nbr_w(r, cc).1);
        if c.tile_at(r, cc) == 0usize {
            assert(self.prefix_rate(tn, te, ts, tw, t as int + 1)
                == self.prefix_rate(tn, te, ts, tw, t as int) + self.tile_rates@[t as int]);
            if t == 0usize {
                assert(self.tile_rates@[0] == 0u64);
                assert(false);
            }
        }
    }

    fn event_rate_at_point(&self, canvas: &Canvas2D, p: Point) -> (r: Rate) {
        if !canvas.inbounds(p) {
            return 0;
        }
        let tile = canvas.uv_p(p);
        if tile != 0 {
            return 0;
        }
        let tn = canvas.uv_n(p);
        let te = canvas.uv_e(p);
        let ts = canvas.uv_s(p);
        let tw = canvas.uv_w(p);
        proof {
            canvas.lemma_nbr_in_grid(p.0 as int, p.1 as int);
        }
        let n: usize = self.tile_rates.len();
        let mut sum: u64 = 0;
        let mut t: usize = 0;
        while t < n
            invariant
                t <= n,
                self.swf(),
                n == self.tile_rates@.len(),
                tn < n && te < n && ts < n && tw < n,
                sum == self.prefix_rate(tn, te, ts, tw, t as int),
            decreases n - t,
        {
            let s_n = self.strength_ns[tn][t];
            let s_e = self.strength_we[t][te];
            let s_s = self.strength_ns[t][ts];
            let s_w = self.strength_we[tw][t];
            proof {
                self.lemma_prefix_le_total(tn, te, ts, tw, t as int + 1);
            }
            if s_n + s_e + s_s + s_w >= self.tau {
                sum = sum + self.tile_rates[t];
            }
            t += 1;
        }
        sum
    }

    fn choose_event_at_point(&self, canvas: &Canvas2D, p: Point, acc: Rate) -> (t: Tile) {
        let tile = canvas.uv_p(p);
        if tile != 0 {
            proof {
                assert(false);
            }
            return 0;
        }
        let tn = canvas.uv_n(p);
        let te = canvas.uv_e(p);
        let ts = canvas.uv_s(p);
        let tw = canvas.uv_w(p);
        proof {
            canvas.lemma_nbr_in_grid(p.0 as int, p.1 as int);
        }
        let n: usize = self.tile_rates.len();
        let mut rem: u64 = acc;
        let mut t: usize = 0;
        while t < n
            invariant
                t <= n,
                self.swf(),
                n == self.tile_rates@.len(),
                tn < n && te < n && ts < n && tw < n,
                rem == acc - self.prefix_rate(tn, te, ts, tw, t as int),
                acc < self.site_rate(canvas, p.0 as int, p.1 as int),
                self.site_rate(canvas, p.0 as int, p.1 as int)
                    == self.prefix_rate(tn, te, ts, tw, n as int),
                canvas.tile_at(p.0 as int, p.1 as int) == 0usize,
                tn == canvas.tile_at(
                    canvas.nbr_n(p.0 as int, p.1 as int).0,
                    canvas.nbr_n(p.0 as int, p.1 as int).1,
                ),
                te == canvas.tile_at(
                    canvas.nbr_e(p.0 as int, p.1 as int).0,
                    canvas.nbr_e(p.0 as int, p.1 as int).1,
                ),
                ts == canvas.tile_at(
                    canvas.nbr_s(p.0 as int, p.1 as int).0,
                    canvas.nbr_s(p.0 as int, p.1 as int).1,
                ),
                tw == canvas.tile_at(
                    canvas.nbr_w(p.0 as int, p.1 as int).0,
                    canvas.nbr_w(p.0 as int, p.1 as int).1,
                ),
            decreases n - t,
        {
            let s_n = self.strength_ns[tn][t];
            let s_e = self.strength_we[t][te];
            let s_s = self.strength_ns[t][ts];
            let s_w = self.strength_we[tw][t];
            if s_n + s_e + s_s + s_w >= self.tau {
                let rt = self.tile_rates[t];
                if rem < rt {
                    return t;
                }
                rem = rem - rt;
            }
            t += 1;
        }
        proof {
            assert(false);
        }
        0
    }
}

} // verus!
