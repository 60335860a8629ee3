//! The model interface: a `System` turns a canvas neighbourhood into an
//! event propensity, and deterministically picks the event that fires at a
//! site from a sampled accumulator.

use vstd::prelude::*;
use crate::base::{Tile, Rate, Point, TileEdges, NumTiles, NumEvents, MAX_SITE_RATE, MAX_STRENGTH, seq_rate_sum};
use crate::canvas::{Canvas, Canvas2D};

verus! {

/// Build the north-south and west-east bond-strength tables from per-tile
/// edge glues: two tiles bond vertically when the upper tile's south glue
/// equals the lower tile's north glue, and horizontally when the left
/// tile's east glue equals the right tile's west glue; the strength is that
/// glue's strength.
pub fn build_strength_tables(tile_edges: &Vec<TileEdges>, glue_strengths: &Vec<u64>) -> (r: (
    Vec<Vec<u64>>,
    Vec<Vec<u64>>,
))
    requires
        glue_strengths@.len() >= 1,
        forall|i: int| 0 <= i < tile_edges@.len() ==> {
            &&& (#[trigger] tile_edges@[i]).0 < glue_strengths@.len()
            &&& tile_edges@[i].1 < glue_strengths@.len()
            &&& tile_edges@[i].2 < glue_strengths@.len()
            &&& tile_edges@[i].3 < glue_strengths@.len()
        },
    ensures
        r.0@.len() == tile_edges@.len(),
        r.1@.len() == tile_edges@.len(),
        forall|i: int| 0 <= i < tile_edges@.len() ==> (#[trigger] r.0@[i])@.len() == tile_edges@.len(),
        forall|i: int| 0 <= i < tile_edges@.len() ==> (#[trigger] r.1@[i])@.len() == tile_edges@.len(),
        forall|a: int, b: int|
            0 <= a < tile_edges@.len() && 0 <= b < tile_edges@.len()
                ==> #[trigger] r.0@[a]@[b] == (
                    if tile_edges@[a].2 == tile_edges@[b].0 {
                        glue_strengths@[tile_edges@[a].2 as int]
                    } else {
                        0u64
                    }),
        forall|a: int, b: int|
            0 <= a < tile_edges@.len() && 0 <= b < tile_edges@.len()
                ==> #[trigger] r.1@[a]@[b] == (
                    if tile_edges@[a].1 == tile_edges@[b].3 {
                        glue_strengths@[tile_edges@[a].1 as int]
                    } else {
                        0u64
                    }),
{
    let n: usize = tile_edges.len();
    let mut strength_ns: Vec<Vec<u64>> = Vec::new();
    let mut strength_we: Vec<Vec<u64>> = Vec::new();
    let mut a: usize = 0;
    while a < n
        invariant
            a <= n,
            n == tile_edges@.len(),
            glue_strengths@.len() >= 1,
            forall|i: int| 0 <= i < n ==> {
                &&& (#[trigger] tile_edges@[i]).0 < glue_strengths@.len()
                &&& tile_edges@[i].1 < glue_strengths@.len()
                &&& tile_edges@[i].2 < glue_strengths@.len()
                &&& tile_edges@[i].3 < glue_strengths@.len()
            },
            strength_ns@.len() == a,
            strength_we@.len() == a,
            forall|i: int| 0 <= i < a ==> (#[trigger] strength_ns@[i])@.len() == n,
            forall|i: int| 0 <= i < a ==> (#[trigger] strength_we@[i])@.len() == n,
            forall|i: int, b: int|
                0 <= i < a && 0 <= b < n
                    ==> #[trigger] strength_ns@[i]@[b] == (
                        if tile_edges@[i].2 == tile_edges@[b].0 {
                            glue_strengths@[tile_edges@[i].2 as int]
                        } else {
                            0u64
                        }),
            forall|i: int, b: int|
                0 <= i < a && 0 <= b < n
                    ==> #[trigger] strength_we@[i]@[b] == (
                        if tile_edges@[i].1 == tile_edges@[b].3 {
                            glue_strengths@[tile_edges@[i].1 as int]
                        } else {
                            0u64
                        }),
        decreases n - a,
    {
        let mut row_ns: Vec<u64> = Vec::new();
        let mut row_we: Vec<u64> = Vec::new();
        let mut b: usize = 0;
        while b < n
            invariant
                b <= n,
                a < n,
                n == tile_edges@.len(),
                glue_strengths@.len() >= 1,
                forall|i: int| 0 <= i < n ==> {
                    &&& (#[trigger] tile_edges@[i]).0 < glue_strengths@.len()
                    &&& tile_edges@[i].1 < glue_strengths@.len()
                    &&& tile_edges@[i].2 < glue_strengths@.len()
                    &&& tile_edges@[i].3 < glue_strengths@.len()
                },
                row_ns@.len() == b,
                row_we@.len() == b,
                forall|j: int|
                    0 <= j < b ==> #[trigger] row_ns@[j] == (
                        if tile_edges@[a as int].2 == tile_edges@[j].0 {
                            glue_strengths@[tile_edges@[a as int].2 as int]
                        } else {
                            0u64
                        }),
                forall|j: int|
                    0 <= j < b ==> #[trigger] row_we@[j] == (
                        if tile_edges@[a as int].1 == tile_edges@[j].3 {
                            glue_strengths@[tile_edges@[a as int].1 as int]
                        } else {
                            0u64
                        }),
            decreases n - b,
        {
            let ea = tile_edges[a];
            let eb = tile_edges[b];
            if ea.2 == eb.0 {
                row_ns.push(glue_strengths[ea.2]);
            } else {
                row_ns.push(0u64);
            }
            if ea.1 == eb.3 {
                row_we.push(glue_strengths[ea.1]);
            } else {
                row_we.push(0u64);
            }
            b += 1;
        }
        strength_ns.push(row_ns);
        strength_we.push(row_we);
        a += 1;
    }
    (strength_ns, strength_we)
}

/// One fixed tile of a seed.
#[derive(Clone, Copy, PartialEq, Eq, Structural, Debug)]
pub struct SeedTile {
    /// Row of the seed site.
    pub r: usize,
    /// Column of the seed site.
    pub c: usize,
    /// The seed tile species.
    pub tile: Tile,
}

/// Initial tiles fixed on the canvas; seed tiles never detach.
#[derive(Clone, Debug)]
pub enum Seed {
    /// No seed.
    NoSeed,
    /// One fixed tile.
    SingleTile(SeedTile),
    /// Several fixed tiles.
    MultiTile(Vec<SeedTile>),
}

/// Two seeds fix the same tiles at the same sites.
pub open spec fn seed_equiv(a: Seed, b: Seed) -> bool {
    match (a, b) {
        (Seed::NoSeed, Seed::NoSeed) => true,
        (Seed::SingleTile(x), Seed::SingleTile(y)) => x == y,
        (Seed::MultiTile(u), Seed::MultiTile(w)) => u@ == w@,
        _ => false,
    }
}

/// An explicit field-for-field copy of a seed.
pub fn copy_seed(s: &Seed) -> (r: Seed)
    ensures
        seed_equiv(r, *s),
{
    match s {
        Seed::NoSeed => Seed::NoSeed,
        Seed::SingleTile(st) => Seed::SingleTile(*st),
        Seed::MultiTile(v) => {
            let mut v2: Vec<SeedTile> = Vec::new();
            let mut i: usize = 0;
            while i < v.len()
                invariant
                    i <= v@.len(),
                    v2@ == v@.take(i as int),
                decreases v@.len() - i,
            {
                proof {
                    assert(v@.take(i as int).push(v@[i as int]) =~= v@.take(i as int + 1));
                }
                v2.push(v[i]);
                i += 1;
            }
            proof {
                assert(v@.take(v@.len() as int) =~= v@);
            }
            Seed::MultiTile(v2)
        }
    }
}

/// Whether (`r`, `c`) is a seed site.
pub open spec fn seed_at(seed: &Seed, r: int, c: int) -> bool {
    match seed {
        Seed::NoSeed => false,
        Seed::SingleTile(st) => st.r == r && st.c == c,
        Seed::MultiTile(v) => exists|i: int|
            0 <= i < v@.len() && (#[trigger] v@[i]).r == r && v@[i].c == c,
    }
}

/// Decide whether (`r`, `c`) is a seed site.
pub fn is_seed_site(seed: &Seed, r: usize, c: usize) -> (b: bool)
    ensures
        b == seed_at(seed, r as int, c as int),
{
    match seed {
        Seed::NoSeed => false,
        Seed::SingleTile(st) => st.r == r && st.c == c,
        Seed::MultiTile(v) => {
            let mut i: usize = 0;
            let mut found: bool = false;
            while i < v.len()
                invariant
                    i <= v.len(),
                    found == exists|k: int|
                        0 <= k < i && (#[trigger] v@[k]).r == r as int && v@[k].c == c as int,
                decreases v.len() - i,
            {
                if v[i].r == r && v[i].c == c {
                    found = true;
                }
                i += 1;
            }
            found
        }
    }
}



/// How the two tiles of a dimer sit next to each other.
#[derive(Clone, Copy, PartialEq, Eq, Structural, Debug)]
pub enum Orientation {
    /// First tile north, second south.
    NS,
    /// First tile west, second east.
    WE,
}

/// A bonded pair of tiles that can nucleate an assembly.
#[derive(Clone, Copy, PartialEq, Eq, Structural, Debug)]
pub struct Dimer {
    /// First tile of the pair.
    pub t1: Tile,
    /// Second tile of the pair.
    pub t2: Tile,
    /// How the tiles sit next to each other.
    pub orientation: Orientation,
    /// The pair's formation propensity.
    pub formation_rate: Rate,
}

/// The formation rates of a dimer list.
pub open spec fn dimer_weights(s: Seq<Dimer>) -> Seq<u64> {
    s.map_values(|d: Dimer| d.formation_rate)
}

/// A model that can enumerate its dimers for nucleation sampling.
pub trait SystemWithDimers: System {
    /// The exact formation propensity of the pair (`a`, `b`) in the given
    /// orientation.
    spec fn dimer_rate(&self, a: Tile, b: Tile, o: Orientation) -> int;

    /// Whether the pair (`a`, `b`) bonds in the given orientation.
    spec fn dimer_bonds(&self, a: Tile, b: Tile, o: Orientation) -> bool;

    /// The total formation rate over every bonded pair and orientation
    /// with positive rate: the dimerization rate of the model.
    spec fn dimer_rate_total(&self) -> int;

    /// Enumerate every bonded pair with positive formation propensity.
    fn calc_dimers(&self) -> (d: Vec<Dimer>)
        requires
            self.swf(),
        ensures
            seq_rate_sum(dimer_weights(d@)) == self.dimer_rate_total(),
            forall|i: int| 0 <= i < d@.len() ==> {
                let dm = #[trigger] d@[i];
                &&& 0 < dm.t1 < self.nspecies()
                &&& 0 < dm.t2 < self.nspecies()
                &&& self.dimer_bonds(dm.t1, dm.t2, dm.orientation)
                &&& dm.formation_rate == self.dimer_rate(dm.t1, dm.t2, dm.orientation)
                &&& dm.formation_rate > 0
            },
            forall|a: Tile, b: Tile, o: Orientation|
                0 < a < self.nspecies() && 0 < b < self.nspecies() && #[trigger] self.dimer_bonds(
                    a,
                    b,
                    o,
                ) && self.dimer_rate(a, b, o) > 0 ==> exists|i: int|
                    0 <= i < d@.len() && #[trigger] d@[i] == (Dimer {
                        t1: a,
                        t2: b,
                        orientation: o,
                        formation_rate: self.dimer_rate(a, b, o) as u64,
                    });
}

/// Bounds for one bounded evolution. The core engine stops on the event
/// budget and the tile-count window; simulated-time and wall-clock bounds
/// are enforced by callers that own a clock.
#[derive(Clone, Copy, Debug)]
pub struct EvolveBounds {
    /// Stop after this many events.
    pub events: Option<NumEvents>,
    /// Stop when the tile count falls to this.
    pub size_min: Option<NumTiles>,
    /// Stop when the tile count reaches this.
    pub size_max: Option<NumTiles>,
}

/// The effective lower size bound of a bounded evolution: zero when
/// absent.
pub open spec fn bounds_size_min(b: EvolveBounds) -> int {
    match b.size_min {
        Some(m) => m as int,
        None => 0,
    }
}

/// The effective upper size bound: never reached when absent.
pub open spec fn bounds_size_max(b: EvolveBounds) -> int {
    match b.size_max {
        Some(m) => m as int,
        None => usize::MAX as int,
    }
}

/// The effective event budget, clamped to the event counter's headroom.
pub open spec fn bounds_budget(b: EvolveBounds, done: int) -> int {
    match b.events {
        Some(e) => if e as int > u64::MAX - done {
            u64::MAX - done
        } else {
            e as int
        },
        None => u64::MAX - done,
    }
}

/// Why a bounded evolution stopped.
#[derive(Clone, Copy, PartialEq, Eq, Structural, Debug)]
pub enum EvolveOutcome {
    /// The event budget was exhausted.
    ReachedEventsMax,
    /// The simulated-time bound fired (reported by callers that track time).
    ReachedTimeMax,
    /// The tile count fell to the lower size bound.
    ReachedSizeMin,
    /// The tile count reached the upper size bound.
    ReachedSizeMax,
    /// The wall-clock bound fired (reported by callers that track it).
    ReachedWallTimeMax,
    /// The total event rate is zero: nothing can ever happen again.
    DeadState,
}

/// Every tile on the canvas is a valid index into tables of `n` species.
pub open spec fn tiles_in_range(c: &Canvas2D, n: int) -> bool {
    forall|r: int, cc: int|
        0 <= r < c.side() && 0 <= cc < c.side() ==> (#[trigger] c.tile_at(r, cc)) < n
}

/// A tile-assembly model: per-site propensities and deterministic event
/// choice, with the agreement and locality properties the kinetic engine
/// relies on.
pub trait System: Sized {
    /// The model's tables are well-formed.
    spec fn swf(&self) -> bool;

    /// Number of tile species, the empty tile `0` included.
    spec fn nspecies(&self) -> int;

    /// The exact propensity of the site (`r`, `c`) on the given canvas.
    /// Out-of-bounds sites have propensity 0.
    spec fn site_rate(&self, c: &Canvas2D, r: int, cc: int) -> int;

    /// The bucket property tying `choose_event_at_point` to `site_rate`:
    /// walking the same enumeration that `site_rate` sums, the cumulative
    /// rate before the returned tile is at most `acc`, which lies strictly
    /// below the cumulative rate including it.
    spec fn choice_ok(&self, c: &Canvas2D, r: int, cc: int, acc: int, t: Tile) -> bool;

    /// A model has at least the empty species.
    proof fn lemma_nspecies_pos(&self)
        requires
            self.swf(),
        ensures
            self.nspecies() >= 1;

    /// Propensities are non-negative and capped, so rate-index sums cannot
    /// overflow.
    proof fn lemma_site_rate_bounds(&self, c: &Canvas2D, r: int, cc: int)
        requires
            self.swf(),
            c.wf(),
            tiles_in_range(c, self.nspecies()),
        ensures
            0 <= self.site_rate(c, r, cc) <= MAX_SITE_RATE;

    /// Out-of-bounds sites have propensity 0.
    proof fn lemma_site_rate_oob(&self, c: &Canvas2D, r: int, cc: int)
        requires
            self.swf(),
            c.wf(),
            !c.inb(r, cc),
        ensures
            self.site_rate(c, r, cc) == 0;

    /// A site's propensity reads only the site itself and its four mapped
    /// neighbours: two canvases of equal shape that agree there give the
    /// same propensity.
    proof fn lemma_site_rate_local(&self, c1: &Canvas2D, c2: &Canvas2D, r: int, cc: int)
        requires
            self.swf(),
            c1.wf(),
            c2.wf(),
            c1.variant == c2.variant,
            c1.side() == c2.side(),
            c1.inb(r, cc),
            c1.tile_at(r, cc) == c2.tile_at(r, cc),
            c1.tile_at(c1.nbr_n(r, cc).0, c1.nbr_n(r, cc).1)
                == c2.tile_at(c1.nbr_n(r, cc).0, c1.nbr_n(r, cc).1),
            c1.tile_at(c1.nbr_e(r, cc).0, c1.nbr_e(r, cc).1)
                == c2.tile_at(c1.nbr_e(r, cc).0, c1.nbr_e(r, cc).1),
            c1.tile_at(c1.nbr_s(r, cc).0, c1.nbr_s(r, cc).1)
                == c2.tile_at(c1.nbr_s(r, cc).0, c1.nbr_s(r, cc).1),
            c1.tile_at(c1.nbr_w(r, cc).0, c1.nbr_w(r, cc).1)
                == c2.tile_at(c1.nbr_w(r, cc).0, c1.nbr_w(r, cc).1),
        ensures
            self.site_rate(c1, r, cc) == self.site_rate(c2, r, cc);

    /// An empty site whose four neighbours are empty has propensity 0.
    proof fn lemma_isolated_empty(&self, c: &Canvas2D, r: int, cc: int)
        requires
            self.swf(),
            c.wf(),
            c.inb(r, cc),
            c.tile_at(r, cc) == 0usize,
            c.tile_at(c.nbr_n(r, cc).0, c.nbr_n(r, cc).1) == 0usize,
            c.tile_at(c.nbr_e(r, cc).0, c.nbr_e(r, cc).1) == 0usize,
            c.tile_at(c.nbr_s(r, cc).0, c.nbr_s(r, cc).1) == 0usize,
            c.tile_at(c.nbr_w(r, cc).0, c.nbr_w(r, cc).1) == 0usize,
        ensures
            self.site_rate(c, r, cc) == 0;

    /// A chosen event removes the tile of an occupied site and attaches a
    /// real, in-range species at an empty one.
    proof fn lemma_choice_flips(&self, c: &Canvas2D, r: int, cc: int, acc: int, t: Tile)
        requires
            self.swf(),
            c.wf(),
            0 <= acc < self.site_rate(c, r, cc),
            self.choice_ok(c, r, cc, acc, t),
        ensures
            c.tile_at(r, cc) != 0usize ==> t == 0usize,
            c.tile_at(r, cc) == 0usize ==> t != 0usize && t < self.nspecies();

    /// Compute the propensity of site `p`.
    fn event_rate_at_point(&self, canvas: &Canvas2D, p: Point) -> (r: Rate)
        requires
            self.swf(),
            canvas.wf(),
            tiles_in_range(canvas, self.nspecies()),
            p.0 < canvas.side(),
            p.1 < canvas.side(),
        ensures
            r == self.site_rate(canvas, p.0 as int, p.1 as int);

    /// Given an accumulator sampled uniformly below the site's propensity,
    /// pick the event that fires at `p`: the attaching species, or `0` for
    /// a detachment.
    fn choose_event_at_point(&self, canvas: &Canvas2D, p: Point, acc: Rate) -> (t: Tile)
        requires
            self.swf(),
            canvas.wf(),
            tiles_in_range(canvas, self.nspecies()),
            canvas.inb(p.0 as int, p.1 as int),
            acc < self.site_rate(canvas, p.0 as int, p.1 as int),
        ensures
            self.choice_ok(canvas, p.0 as int, p.1 as int, acc as int, t);
}

} // verus!
