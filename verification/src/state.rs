//! The simulation state: a canvas, its hierarchical rate index, and the
//! counters the kinetic engine maintains. Every operation preserves the
//! state invariant: the base of the index holds each site's exact
//! propensity, every interior node the sum of its children, and the cached
//! total the root sum; the tile counter always equals the number of
//! non-empty cells.

use vstd::prelude::*;
use rand::rngs::SmallRng;
use crate::base::{Tile, Point, NumTiles, NumEvents, GrowError, MAX_CANVAS_SIZE, seq_rate_sum};
use crate::canvas::{Canvas, Canvas2D, CanvasType};
use crate::grid::RateGrid;
use crate::ratetree::{
    levels_shape, levels_bounded, tree_wf, root_sum, child_sum, select_from, pow2,
    lemma_node_bound, qt_update_level, tree_choose_point, lemma_root_is_total,
};
use crate::rng::rng_below;
use crate::system::{System, EvolveOutcome, tiles_in_range};

verus! {

/// A 2D state with a quadtree rate index.
#[derive(Clone, Debug)]
pub struct State2DQT {
    /// The rate index: level 0 holds per-site propensities, each further
    /// level quarters the side, down to 2 by 2.
    pub rates: Vec<RateGrid>,
    /// The tile canvas.
    pub canvas: Canvas2D,
    /// Number of non-empty cells.
    pub ntiles: NumTiles,
    /// Cached root sum of the rate index.
    pub total_rate: u64,
    /// Number of events executed so far.
    pub total_events: NumEvents,
}

/// The base level of the rate index holds the model's exact propensity at
/// every site of the canvas.
pub open spec fn rates_match<S: System>(st: State2DQT, sys: &S) -> bool {
    forall|r: int, c: int|
        0 <= r < st.canvas.side() && 0 <= c < st.canvas.side()
            ==> #[trigger] st.rates@[0].at(r, c) == sys.site_rate(&st.canvas, r, c)
}

/// Membership in the five-cell plus shape around an in-bounds point: the
/// point itself and its four mapped neighbours.
pub open spec fn in_plus(c: &Canvas2D, pr: int, pc: int, r: int, cc: int) -> bool {
    ||| (r, cc) == (pr, pc)
    ||| (r, cc) == c.nbr_n(pr, pc)
    ||| (r, cc) == c.nbr_e(pr, pc)
    ||| (r, cc) == c.nbr_s(pr, pc)
    ||| (r, cc) == c.nbr_w(pr, pc)
}


/// After writing one ancestor cell at level `k` with the sum of its four
/// children, the shape, bound and partially-restored parent invariants of
/// the update walk carry to the next level up.
#[verifier::rlimit(100)]
pub proof fn lemma_ancestor_write(
    oldl: Seq<RateGrid>,
    cur: Seq<RateGrid>,
    nxt: Seq<RateGrid>,
    side: int,
    k: int,
    ar: int,
    ac: int,
)
    requires
        2 <= cur.len(),
        1 <= k < cur.len(),
        side <= 0x400,
        levels_shape(cur, side),
        levels_bounded(cur),
        oldl.len() == cur.len(),
        0 <= ar < cur[k - 1].side,
        0 <= ac < cur[k - 1].side,
        // levels at or above k agree with the pre-update tree
        forall|m: int| k <= m < cur.len() ==> cur[m] == oldl[m],
        // the pre-update tree satisfied the parent invariant
        forall|m: int, i: int, j: int|
            1 <= m < oldl.len() && 0 <= i < oldl[m].side && 0 <= j < oldl[m].side
                ==> #[trigger] oldl[m].at(i, j) == child_sum(oldl[m - 1], i, j),
        // parent sums hold below k
        forall|m: int, i: int, j: int|
            1 <= m < k && 0 <= i < cur[m].side && 0 <= j < cur[m].side
                ==> #[trigger] cur[m].at(i, j) == child_sum(cur[m - 1], i, j),
        // level k - 1 differs from the pre-update tree only at (ar, ac)
        forall|i: int, j: int|
            0 <= i < cur[k - 1].side && 0 <= j < cur[k - 1].side && !(i == ar && j == ac)
                ==> #[trigger] cur[k - 1].at(i, j) == oldl[k - 1].at(i, j),
        // the write: level k gets the child sum at the parent of (ar, ac)
        nxt.len() == cur.len(),
        forall|m: int| 0 <= m < cur.len() && m != k ==> nxt[m] == cur[m],
        nxt[k].side == cur[k].side,
        nxt[k].wf(),
        nxt[k].at(ar / 2, ac / 2) == child_sum(cur[k - 1], ar / 2, ac / 2),
        forall|i: int, j: int|
            0 <= i < cur[k].side && 0 <= j < cur[k].side && !(i == ar / 2 && j == ac / 2)
                ==> #[trigger] nxt[k].at(i, j) == cur[k].at(i, j),
    ensures
        levels_shape(nxt, side),
        levels_bounded(nxt),
        0 <= ar / 2 < nxt[k].side,
        0 <= ac / 2 < nxt[k].side,
        forall|m: int| k + 1 <= m < nxt.len() ==> nxt[m] == oldl[m],
        forall|m: int, i: int, j: int|
            1 <= m < k + 1 && 0 <= i < nxt[m].side && 0 <= j < nxt[m].side
                ==> #[trigger] nxt[m].at(i, j) == child_sum(nxt[m - 1], i, j),
        forall|i: int, j: int|
            0 <= i < nxt[k].side && 0 <= j < nxt[k].side && !(i == ar / 2 && j == ac / 2)
                ==> #[trigger] nxt[k].at(i, j) == oldl[k].at(i, j),
{
    reveal(child_sum);
    let pr = ar / 2;
    let pc = ac / 2;
    assert(2 * cur[k].side == cur[k - 1].side);
    assert(0 <= pr < cur[k].side && 0 <= pc < cur[k].side);
    // bound at the rewritten cell
    lemma_node_bound(cur, side, k - 1, 2 * pr, 2 * pc);
    lemma_node_bound(cur, side, k - 1, 2 * pr, 2 * pc + 1);
    lemma_node_bound(cur, side, k - 1, 2 * pr + 1, 2 * pc);
    lemma_node_bound(cur, side, k - 1, 2 * pr + 1, 2 * pc + 1);
    crate::ratetree::lemma_pow2_pos(k - 1);
    assert(4 * (pow2(k - 1) * pow2(k - 1) * crate::base::MAX_SITE_RATE) == pow2(k) * pow2(k)
        * crate::base::MAX_SITE_RATE) by (nonlinear_arith)
        requires pow2(k) == 2 * pow2(k - 1);
    assert forall|m: int, i: int, j: int|
        0 <= m < nxt.len() && 0 <= i < nxt[m].side && 0 <= j < nxt[m].side
            implies #[trigger] nxt[m].at(i, j) <= pow2(m) * pow2(m) * crate::base::MAX_SITE_RATE by {
        if m == k && i == pr && j == pc {
            assert(nxt[k].at(pr, pc) == child_sum(cur[k - 1], pr, pc));
        } else if m == k {
            assert(nxt[m].at(i, j) == cur[m].at(i, j));
        } else {
            assert(nxt[m] == cur[m]);
        }
    }
    assert forall|m: int, i: int, j: int|
        1 <= m < k + 1 && 0 <= i < nxt[m].side && 0 <= j < nxt[m].side
            implies #[trigger] nxt[m].at(i, j) == child_sum(nxt[m - 1], i, j) by {
        if m < k {
            assert(nxt[m] == cur[m] && nxt[m - 1] == cur[m - 1]);
            assert(cur[m].at(i, j) == child_sum(cur[m - 1], i, j));
        } else {
            assert(nxt[m - 1] == cur[m - 1]);
            if i == pr && j == pc {
                assert(nxt[k].at(pr, pc) == child_sum(cur[k - 1], pr, pc));
            } else {
                assert(nxt[k].at(i, j) == cur[k].at(i, j));
                assert(cur[k].at(i, j) == oldl[k].at(i, j));
                assert(oldl[k].at(i, j) == child_sum(oldl[k - 1], i, j));
                // the children of (i, j) are away from (ar, ac), whose
                // parent is exactly (pr, pc)
                assert(2 * i < cur[k - 1].side && 2 * i + 1 < cur[k - 1].side);
                assert(!(2 * i == ar && 2 * j == ac) && !(2 * i == ar && 2 * j + 1 == ac) && !(2 * i
                    + 1 == ar && 2 * j == ac) && !(2 * i + 1 == ar && 2 * j + 1 == ac));
                assert(cur[k - 1].at(2 * i, 2 * j) == oldl[k - 1].at(2 * i, 2 * j));
                assert(cur[k - 1].at(2 * i, 2 * j + 1) == oldl[k - 1].at(2 * i, 2 * j + 1));
                assert(cur[k - 1].at(2 * i + 1, 2 * j) == oldl[k - 1].at(2 * i + 1, 2 * j));
                assert(cur[k - 1].at(2 * i + 1, 2 * j + 1) == oldl[k - 1].at(2 * i + 1, 2 * j + 1));
            }
        }
    }
    assert forall|i: int, j: int|
        0 <= i < nxt[k].side && 0 <= j < nxt[k].side && !(i == pr && j == pc)
            implies #[trigger] nxt[k].at(i, j) == oldl[k].at(i, j) by {
        assert(nxt[k].at(i, j) == cur[k].at(i, j));
    }
}

impl State2DQT {
    /// The full state invariant, relative to the model whose propensities
    /// the index caches.
    pub open spec fn wf<S: System>(self, sys: &S) -> bool {
        &&& self.canvas.wf()
        &&& tiles_in_range(&self.canvas, sys.nspecies())
        &&& self.rates@.len() >= 2
        &&& tree_wf(self.rates@, self.canvas.side())
        &&& rates_match(self, sys)
        &&& self.total_rate == root_sum(self.rates@)
        &&& self.ntiles == self.canvas.canvas.ntiles()
    }

    /// The cached total event rate.
    pub fn total_rate(&self) -> (r: u64)
        ensures
            r == self.total_rate,
    {
        self.total_rate
    }

    /// Recompute the base propensity at `p` from the model, then restore
    /// the sums on the path of ancestors above `p` and the cached total.
    #[verifier::rlimit(100)]
    fn update_rates_single<S: System>(&mut self, sys: &S, p: Point)
        requires
            sys.swf(),
            old(self).canvas.wf(),
            tiles_in_range(&old(self).canvas, sys.nspecies()),
            old(self).rates@.len() >= 2,
            tree_wf(old(self).rates@, old(self).canvas.side()),
            p.0 < old(self).canvas.side(),
            p.1 < old(self).canvas.side(),
        ensures
            final(self).canvas == old(self).canvas,
            final(self).ntiles == old(self).ntiles,
            final(self).total_events == old(self).total_events,
            final(self).rates@.len() == old(self).rates@.len(),
            tree_wf(final(self).rates@, old(self).canvas.side()),
            final(self).rates@[0].at(p.0 as int, p.1 as int) == sys.site_rate(
                &old(self).canvas,
                p.0 as int,
                p.1 as int,
            ),
            forall|r: int, c: int|
                0 <= r < old(self).canvas.side() && 0 <= c < old(self).canvas.side() && !(r == p.0
                    && c == p.1) ==> #[trigger] final(self).rates@[0].at(r, c) == old(
                    self,
                ).rates@[0].at(r, c),
            final(self).total_rate == root_sum(final(self).rates@),
    {
        let ghost side = self.canvas.side();
        let rate = sys.event_rate_at_point(&self.canvas, p);
        proof {
            sys.lemma_site_rate_bounds(&self.canvas, p.0 as int, p.1 as int);
        }
        let nlevels: usize = self.rates.len();
        let g0 = &mut self.rates[0];
        g0.set(p.0, p.1, rate);
        let ghost base_after = self.rates@[0];
        proof {
            assert(pow2(0) == 1);
            assert forall|kk: int, i: int, j: int|
                0 <= kk < self.rates@.len() && 0 <= i < self.rates@[kk].side && 0 <= j
                    < self.rates@[kk].side implies #[trigger] self.rates@[kk].at(i, j) <= pow2(kk)
                * pow2(kk) * crate::base::MAX_SITE_RATE by {
                if kk != 0 || i != p.0 || j != p.1 {
                    assert(self.rates@[kk].at(i, j) == old(self).rates@[kk].at(i, j));
                }
            }
        }
        let mut k: usize = 1;
        let mut ar: usize = p.0;
        let mut ac: usize = p.1;
        while k < nlevels
            invariant
                1 <= k <= nlevels,
                2 <= nlevels,
                nlevels == self.rates@.len(),
                self.canvas == old(self).canvas,
                self.ntiles == old(self).ntiles,
                self.total_events == old(self).total_events,
                side == self.canvas.side(),
                8 <= side <= MAX_CANVAS_SIZE,
                old(self).rates@.len() == nlevels,
                tree_wf(old(self).rates@, side),
                levels_shape(self.rates@, side),
                self.rates@[nlevels - 1].side == 2,
                levels_bounded(self.rates@),
                ar < self.rates@[k - 1].side,
                ac < self.rates@[k - 1].side,
                self.rates@[0] == base_after,
                forall|m: int| k <= m < nlevels ==> self.rates@[m] == old(self).rates@[m],
                forall|m: int, i: int, j: int|
                    1 <= m < k && 0 <= i < self.rates@[m].side && 0 <= j < self.rates@[m].side
                        ==> #[trigger] self.rates@[m].at(i, j) == child_sum(
                        self.rates@[m - 1],
                        i,
                        j,
                    ),
                forall|i: int, j: int|
                    0 <= i < self.rates@[k - 1].side && 0 <= j < self.rates@[k - 1].side && !(i
                        == ar && j == ac) ==> #[trigger] self.rates@[k - 1].at(i, j) == old(
                        self,
                    ).rates@[k - 1].at(i, j),
            decreases nlevels - k,
        {
            let pr: usize = ar / 2;
            let pc: usize = ac / 2;
            proof {
                assert(2 * self.rates@[k as int].side == self.rates@[k as int - 1].side);
                assert(pr < self.rates@[k as int].side && pc < self.rates@[k as int].side);
                lemma_node_bound(self.rates@, side, k as int - 1, 2 * pr as int, 2 * pc as int);
                lemma_node_bound(self.rates@, side, k as int - 1, 2 * pr as int, 2 * pc as int + 1);
                lemma_node_bound(self.rates@, side, k as int - 1, 2 * pr as int + 1, 2 * pc as int);
                lemma_node_bound(
                    self.rates@,
                    side,
                    k as int - 1,
                    2 * pr as int + 1,
                    2 * pc as int + 1,
                );
            }
            let w0 = self.rates[k - 1].get(2 * pr, 2 * pc);
            let w1 = self.rates[k - 1].get(2 * pr, 2 * pc + 1);
            let w2 = self.rates[k - 1].get(2 * pr + 1, 2 * pc);
            let w3 = self.rates[k - 1].get(2 * pr + 1, 2 * pc + 1);
            let v: u64 = w0 + w1 + w2 + w3;
            let ghost before = self.rates@;
            let gk = &mut self.rates[k];
            gk.set(pr, pc, v);
            proof {
                reveal(child_sum);
                assert(v == child_sum(before[k as int - 1], pr as int, pc as int));
                lemma_ancestor_write(
                    old(self).rates@,
                    before,
                    self.rates@,
                    side,
                    k as int,
                    ar as int,
                    ac as int,
                );
            }
            ar = pr;
            ac = pc;
            k += 1;
        }
        proof {
            assert(self.rates@[nlevels as int - 1].side == 2);
            lemma_node_bound(self.rates@, side, nlevels as int - 1, 0, 0);
            lemma_node_bound(self.rates@, side, nlevels as int - 1, 0, 1);
            lemma_node_bound(self.rates@, side, nlevels as int - 1, 1, 0);
            lemma_node_bound(self.rates@, side, nlevels as int - 1, 1, 1);
        }
        let t0 = self.rates[nlevels - 1].get(0, 0);
        let t1 = self.rates[nlevels - 1].get(0, 1);
        let t2 = self.rates[nlevels - 1].get(1, 0);
        let t3 = self.rates[nlevels - 1].get(1, 1);
        self.total_rate = t0 + t1 + t2 + t3;
        proof {
            reveal(child_sum);
            assert(self.total_rate == root_sum(self.rates@));
        }
    }
}

impl State2DQT {
    /// Refresh the five-cell plus shape around an in-bounds point: the
    /// point and its four mapped neighbours get their propensities
    /// recomputed, every other base cell keeps its value, and the tree and
    /// cached total are restored.
    fn update_rates_ps<S: System>(&mut self, sys: &S, p: Point)
        requires
            sys.swf(),
            old(self).canvas.wf(),
            tiles_in_range(&old(self).canvas, sys.nspecies()),
            old(self).rates@.len() >= 2,
            tree_wf(old(self).rates@, old(self).canvas.side()),
            old(self).canvas.inb(p.0 as int, p.1 as int),
        ensures
            final(self).canvas == old(self).canvas,
            final(self).ntiles == old(self).ntiles,
            final(self).total_events == old(self).total_events,
            final(self).rates@.len() == old(self).rates@.len(),
            tree_wf(final(self).rates@, old(self).canvas.side()),
            forall|r: int, c: int|
                0 <= r < old(self).canvas.side() && 0 <= c < old(self).canvas.side()
                    ==> #[trigger] final(self).rates@[0].at(r, c) == (
                    if in_plus(&old(self).canvas, p.0 as int, p.1 as int, r, c) {
                        sys.site_rate(&old(self).canvas, r, c)
                    } else {
                        old(self).rates@[0].at(r, c) as int
                    }),
            final(self).total_rate == root_sum(final(self).rates@),
    {
        proof {
            self.canvas.lemma_nbr_in_grid(p.0 as int, p.1 as int);
        }
        let pn = self.canvas.nbr_n_point(p);
        let pe = self.canvas.nbr_e_point(p);
        let ps = self.canvas.nbr_s_point(p);
        let pw = self.canvas.nbr_w_point(p);
        self.update_rates_single(sys, p);
        self.update_rates_single(sys, pn);
        self.update_rates_single(sys, pe);
        self.update_rates_single(sys, ps);
        self.update_rates_single(sys, pw);
    }

    /// Write tile `t` at the in-bounds point `p`, refresh the plus shape
    /// around it, and keep the tile counter exact.
    #[verifier::rlimit(100)]
    pub fn set_point<S: System>(&mut self, sys: &S, p: Point, t: Tile)
        requires
            sys.swf(),
            old(self).wf(sys),
            old(self).canvas.inb(p.0 as int, p.1 as int),
            t < sys.nspecies(),
        ensures
            final(self).wf(sys),
            final(self).canvas.variant == old(self).canvas.variant,
            final(self).canvas.side() == old(self).canvas.side(),
            final(self).canvas.tile_at(p.0 as int, p.1 as int) == t,
            forall|r: int, c: int|
                0 <= r < old(self).canvas.side() && 0 <= c < old(self).canvas.side() && !(r == p.0
                    && c == p.1) ==> #[trigger] final(self).canvas.tile_at(r, c) == old(
                    self,
                ).canvas.tile_at(r, c),
            final(self).ntiles == old(self).ntiles - (
                if old(self).canvas.tile_at(p.0 as int, p.1 as int) != 0usize {
                    1int
                } else {
                    0int
                }) + (if t != 0usize { 1int } else { 0int }),
            final(self).total_events == old(self).total_events,
    {
        let ghost oldst = *self;
        let ghost side = self.canvas.side();
        let ot = self.canvas.canvas.get(p.0, p.1);
        self.canvas.canvas.set(p.0, p.1, t);
        proof {
            assert(self.canvas.wf()) by {
                assert forall|r: int, c: int|
                    0 <= r < side && 0 <= c < side && !self.canvas.inb(r, c)
                        implies self.canvas.tile_at(r, c) == 0usize by {
                    assert(!(r == p.0 && c == p.1));
                    assert(self.canvas.tile_at(r, c) == oldst.canvas.tile_at(r, c));
                }
            }
            assert(tiles_in_range(&self.canvas, sys.nspecies())) by {
                assert forall|r: int, c: int|
                    0 <= r < side && 0 <= c < side
                        implies (#[trigger] self.canvas.tile_at(r, c)) < sys.nspecies() by {
                    if !(r == p.0 && c == p.1) {
                        assert(self.canvas.tile_at(r, c) == oldst.canvas.tile_at(r, c));
                    }
                }
            }
        }
        if t == 0 && ot != 0 {
            proof {
                crate::grid::lemma_count_nonzero_bounds(self.canvas.canvas.cells@);
            }
            self.ntiles = self.ntiles - 1;
        } else if t != 0 && ot == 0 {
            proof {
                crate::grid::lemma_count_nonzero_bounds(self.canvas.canvas.cells@);
            }
            self.ntiles = self.ntiles + 1;
        }
        let ghost mid = *self;
        self.update_rates_ps(sys, p);
        proof {
            assert(rates_match(*self, sys)) by {
                assert forall|r: int, c: int|
                    0 <= r < side && 0 <= c < side
                        implies #[trigger] self.rates@[0].at(r, c) == sys.site_rate(
                        &self.canvas,
                        r,
                        c,
                    ) by {
                    if in_plus(&mid.canvas, p.0 as int, p.1 as int, r, c) {
                    } else {
                        assert(self.rates@[0].at(r, c) == oldst.rates@[0].at(r, c));
                        assert(oldst.rates@[0].at(r, c) == sys.site_rate(&oldst.canvas, r, c));
                        if self.canvas.inb(r, c) {
                            self.canvas.lemma_nbr_symmetric(p.0 as int, p.1 as int, r, c);
                            self.canvas.lemma_nbr_in_grid(r, c);
                            assert(oldst.canvas.tile_at(r, c) == self.canvas.tile_at(r, c));
                            sys.lemma_site_rate_local(&oldst.canvas, &self.canvas, r, c);
                        } else {
                            sys.lemma_site_rate_oob(&oldst.canvas, r, c);
                            sys.lemma_site_rate_oob(&self.canvas, r, c);
                        }
                    }
                }
            }
        }
    }
}


/// The exact effect of one Gillespie step drawn with sample `u`: the site
/// and residual come from descending the rate index with `u`, the new tile
/// from the model's event choice at that site, and only that cell of the
/// canvas changes, with the counters following.
pub open spec fn step_post<S: System>(
    pre: State2DQT,
    post: State2DQT,
    sys: &S,
    u: u64,
    pt: (Point, Tile),
) -> bool {
    let sel = select_from(pre.rates@, pre.rates@.len() as int, 0, 0, u as int);
    &&& (pt.0.0 as int, pt.0.1 as int) == (sel.0, sel.1)
    &&& sys.choice_ok(&pre.canvas, sel.0, sel.1, sel.2, pt.1)
    &&& post.canvas.variant == pre.canvas.variant
    &&& post.canvas.side() == pre.canvas.side()
    &&& post.canvas.tile_at(sel.0, sel.1) == pt.1
    &&& forall|r: int, c: int|
        0 <= r < pre.canvas.side() && 0 <= c < pre.canvas.side() && !(r == sel.0 && c == sel.1)
            ==> #[trigger] post.canvas.tile_at(r, c) == pre.canvas.tile_at(r, c)
    &&& post.total_events == pre.total_events + 1
    &&& post.ntiles == pre.ntiles - (
        if pre.canvas.tile_at(sel.0, sel.1) != 0usize {
            1int
        } else {
            0int
        }) + (if pt.1 != 0usize { 1int } else { 0int })
}

/// The state `post` arises from `pre` by exactly `n` Gillespie steps,
/// each drawn with some sample below the then-current total rate and
/// applied as `step_post` prescribes.
pub open spec fn steps_reach<S: System>(pre: State2DQT, post: State2DQT, sys: &S, n: int) -> bool
    decreases n,
{
    if n <= 0 {
        post == pre
    } else {
        exists|mid: State2DQT, u: u64, pt: (Point, Tile)|
            steps_reach(pre, mid, sys, n - 1) && u < mid.total_rate && #[trigger] step_post(
                mid,
                post,
                sys,
                u,
                pt,
            )
    }
}

impl State2DQT {
    /// Fire the event selected at `p` by the accumulator `acc`, writing
    /// the chosen tile and maintaining every part of the state invariant.
    fn do_event_at_location<S: System>(&mut self, sys: &S, p: Point, acc: u64) -> (t: Tile)
        requires
            sys.swf(),
            old(self).wf(sys),
            old(self).canvas.inb(p.0 as int, p.1 as int),
            acc < sys.site_rate(&old(self).canvas, p.0 as int, p.1 as int),
            old(self).total_events < u64::MAX,
        ensures
            final(self).wf(sys),
            sys.choice_ok(&old(self).canvas, p.0 as int, p.1 as int, acc as int, t),
            final(self).canvas.variant == old(self).canvas.variant,
            final(self).canvas.side() == old(self).canvas.side(),
            final(self).canvas.tile_at(p.0 as int, p.1 as int) == t,
            forall|r: int, c: int|
                0 <= r < old(self).canvas.side() && 0 <= c < old(self).canvas.side() && !(r == p.0
                    && c == p.1) ==> #[trigger] final(self).canvas.tile_at(r, c) == old(
                    self,
                ).canvas.tile_at(r, c),
            final(self).total_events == old(self).total_events + 1,
            final(self).ntiles == old(self).ntiles - (
                if old(self).canvas.tile_at(p.0 as int, p.1 as int) != 0usize {
                    1int
                } else {
                    0int
                }) + (if t != 0usize { 1int } else { 0int }),
    {
        let newtile = sys.choose_event_at_point(&self.canvas, p, acc);
        proof {
            sys.lemma_choice_flips(&self.canvas, p.0 as int, p.1 as int, acc as int, newtile);
            sys.lemma_site_rate_bounds(&self.canvas, p.0 as int, p.1 as int);
            if self.canvas.tile_at(p.0 as int, p.1 as int) != 0usize {
                assert(sys.nspecies() >= 1);
            }
        }
        self.set_point(sys, p, newtile);
        self.total_events = self.total_events + 1;
        newtile
    }

    /// One Gillespie step driven by the given uniform sample below the
    /// total rate; returns the selected site and the tile written there.
    #[verifier::rlimit(100)]
    pub fn take_step_with<S: System>(&mut self, sys: &S, u: u64) -> (pt: (Point, Tile))
        requires
            sys.swf(),
            old(self).wf(sys),
            u < old(self).total_rate,
            old(self).total_events < u64::MAX,
        ensures
            final(self).wf(sys),
            step_post(*old(self), *final(self), sys, u, pt),
    {
        let ghost pre = *self;
        let ghost sel_spec = select_from(pre.rates@, pre.rates@.len() as int, 0, 0, u as int);
        let side = self.canvas.canvas.side;
        let sel = tree_choose_point(&self.rates, side, u);
        let p: Point = (sel.0, sel.1);
        proof {
            assert((p.0 as int, p.1 as int, sel.2 as int) == sel_spec);
            assert(self.rates@[0].at(p.0 as int, p.1 as int) == sys.site_rate(
                &self.canvas,
                p.0 as int,
                p.1 as int,
            ));
            if !self.canvas.inb(p.0 as int, p.1 as int) {
                sys.lemma_site_rate_oob(&self.canvas, p.0 as int, p.1 as int);
                assert(false);
            }
        }
        let t = self.do_event_at_location(sys, p, sel.2);
        proof {
            assert(sys.choice_ok(&pre.canvas, sel_spec.0, sel_spec.1, sel_spec.2, t));
            assert(self.canvas.tile_at(sel_spec.0, sel_spec.1) == t);
            assert(self.total_events == pre.total_events + 1);
            assert(step_post(pre, *self, sys, u, (p, t)));
        }
        (p, t)
    }

    /// One Gillespie step with the sample drawn from the generator; every
    /// postcondition holds whatever the generator returned.
    pub fn take_step<S: System>(&mut self, sys: &S, rng: &mut SmallRng) -> (pt: (Point, Tile))
        requires
            sys.swf(),
            old(self).wf(sys),
            old(self).total_rate > 0,
            old(self).total_events < u64::MAX,
        ensures
            final(self).wf(sys),
            exists|u: u64|
                u < old(self).total_rate && #[trigger] step_post(
                    *old(self),
                    *final(self),
                    sys,
                    u,
                    pt,
                ),
    {
        let u = rng_below(rng, self.total_rate);
        let ghost uu = u;
        let pt = self.take_step_with(sys, u);
        proof {
            assert(step_post(*old(self), *self, sys, uu, pt));
        }
        pt
    }

    /// Evolve until the tile count leaves the open window
    /// (`minsize`, `maxsize`), the state dies, or the event budget runs
    /// out, whichever comes first; the outcome reports which bound fired,
    /// with dead states taking priority, then the lower size bound, the
    /// upper one, and the event budget last.
    pub fn evolve_in_size_range<S: System>(
        &mut self,
        sys: &S,
        minsize: NumTiles,
        maxsize: NumTiles,
        maxevents: NumEvents,
        rng: &mut SmallRng,
    ) -> (outcome: EvolveOutcome)
        requires
            sys.swf(),
            old(self).wf(sys),
            old(self).total_events + maxevents <= u64::MAX,
        ensures
            final(self).wf(sys),
            final(self).canvas.variant == old(self).canvas.variant,
            final(self).canvas.side() == old(self).canvas.side(),
            final(self).total_events <= old(self).total_events + maxevents,
            steps_reach(
                *old(self),
                *final(self),
                sys,
                final(self).total_events - old(self).total_events,
            ),
            old(self).total_rate == 0 ==> outcome is DeadState && *final(self) == *old(self),
            outcome is DeadState ==> final(self).total_rate == 0,
            outcome is ReachedSizeMin ==> final(self).ntiles <= minsize,
            outcome is ReachedSizeMax ==> final(self).ntiles >= maxsize,
            outcome is ReachedEventsMax ==> final(self).total_events == old(self).total_events
                + maxevents,
            outcome is ReachedSizeMin || outcome is ReachedSizeMax ==> final(self).total_events
                > old(self).total_events,
            outcome is ReachedSizeMin || outcome is ReachedSizeMax || outcome
                is ReachedEventsMax ==> final(self).total_rate != 0,
            outcome is ReachedSizeMax ==> final(self).ntiles > minsize,
            outcome is DeadState || outcome is ReachedSizeMin || outcome is ReachedSizeMax
                || outcome is ReachedEventsMax,
    {
        let mut events: u64 = 0;
        if self.total_rate == 0 {
            return EvolveOutcome::DeadState;
        }
        loop
            invariant
                sys.swf(),
                self.wf(sys),
                self.canvas.variant == old(self).canvas.variant,
                self.canvas.side() == old(self).canvas.side(),
                events <= maxevents,
                self.total_events == old(self).total_events + events,
                old(self).total_events + maxevents <= u64::MAX,
                old(self).total_rate > 0,
                self.total_rate > 0,
                steps_reach(*old(self), *self, sys, events as int),
            decreases maxevents - events,
        {
            if events >= maxevents {
                return EvolveOutcome::ReachedEventsMax;
            }
            let ghost prev = *self;
            let pt = self.take_step(sys, rng);
            events += 1;
            proof {
                let u = choose|u: u64|
                    u < prev.total_rate && #[trigger] step_post(prev, *self, sys, u, pt);
                assert(steps_reach(*old(self), prev, sys, events as int - 1) && u
                    < prev.total_rate && step_post(prev, *self, sys, u, pt));
                assert(steps_reach(*old(self), *self, sys, events as int));
            }
            // after each step, the predicates fire in priority order:
            // a dead state first, then the lower size bound, the upper
            // one, and the event budget last
            if self.total_rate == 0 {
                return EvolveOutcome::DeadState;
            }
            if self.ntiles <= minsize {
                return EvolveOutcome::ReachedSizeMin;
            }
            if self.ntiles >= maxsize {
                return EvolveOutcome::ReachedSizeMax;
            }
        }
    }
}


impl State2DQT {
    /// Recompute everything from the canvas alone: exact base
    /// propensities, freshly summed tree levels, the cached total, and the
    /// tile count.
    #[verifier::rlimit(100)]
    fn rebuild_from_canvas<S: System>(&mut self, sys: &S)
        requires
            sys.swf(),
            old(self).canvas.wf(),
            tiles_in_range(&old(self).canvas, sys.nspecies()),
            crate::base::is_pow2(old(self).canvas.side()),
        ensures
            final(self).canvas == old(self).canvas,
            final(self).total_events == old(self).total_events,
            final(self).wf(sys),
    {
        let side = self.canvas.canvas.side;
        let ghost csd = side as int;
        proof {
            assert(side * side <= MAX_CANVAS_SIZE * MAX_CANVAS_SIZE) by (nonlinear_arith)
                requires side <= MAX_CANVAS_SIZE;
        }
        let mut base = RateGrid::new_zero(side);
        let mut r: usize = 0;
        while r < side
            invariant
                sys.swf(),
                self.canvas == old(self).canvas,
                self.canvas.wf(),
                tiles_in_range(&self.canvas, sys.nspecies()),
                side == self.canvas.canvas.side,
                base.wf(),
                base.side == side,
                r <= side,
                forall|rr: int, cc: int|
                    0 <= rr < r && 0 <= cc < side ==> #[trigger] base.at(rr, cc) == sys.site_rate(
                        &self.canvas,
                        rr,
                        cc,
                    ),
                forall|rr: int, cc: int|
                    0 <= rr < side && 0 <= cc < side ==> #[trigger] base.at(rr, cc)
                        <= crate::base::MAX_SITE_RATE,
            decreases side - r,
        {
            let mut c: usize = 0;
            while c < side
                invariant
                    sys.swf(),
                    self.canvas == old(self).canvas,
                    self.canvas.wf(),
                    tiles_in_range(&self.canvas, sys.nspecies()),
                    side == self.canvas.canvas.side,
                    base.wf(),
                    base.side == side,
                    r < side,
                    c <= side,
                    forall|rr: int, cc: int|
                        0 <= rr < r && 0 <= cc < side ==> #[trigger] base.at(rr, cc)
                            == sys.site_rate(&self.canvas, rr, cc),
                    forall|cc: int|
                        0 <= cc < c ==> #[trigger] base.at(r as int, cc) == sys.site_rate(
                            &self.canvas,
                            r as int,
                            cc,
                        ),
                    forall|rr: int, cc: int|
                        0 <= rr < side && 0 <= cc < side ==> #[trigger] base.at(rr, cc)
                            <= crate::base::MAX_SITE_RATE,
                decreases side - c,
            {
                let v = sys.event_rate_at_point(&self.canvas, (r, c));
                proof {
                    sys.lemma_site_rate_bounds(&self.canvas, r as int, c as int);
                }
                base.set(r, c, v);
                c += 1;
            }
            r += 1;
        }
        let mut levels: Vec<RateGrid> = Vec::new();
        levels.push(base);
        let mut s: usize = side;
        while s > 2
            invariant
                crate::base::is_pow2(s as int),
                2 <= s <= side,
                8 <= side <= MAX_CANVAS_SIZE,
                side == self.canvas.canvas.side,
                self.canvas == old(self).canvas,
                levels@.len() >= 1,
                csd == side,
                levels@[levels@.len() - 1].side == s,
                levels_shape(levels@, csd),
                levels_bounded(levels@),
                forall|m: int, i: int, j: int|
                    1 <= m < levels@.len() && 0 <= i < levels@[m].side && 0 <= j < levels@[m].side
                        ==> #[trigger] levels@[m].at(i, j) == child_sum(levels@[m - 1], i, j),
                forall|rr: int, cc: int|
                    0 <= rr < side && 0 <= cc < side ==> #[trigger] levels@[0].at(rr, cc)
                        == sys.site_rate(&self.canvas, rr, cc),
            decreases s,
        {
            let sh: usize = s / 2;
            let prev: usize = levels.len() - 1;
            let ghost plen = levels@.len() as int;
            proof {
                assert(sh * sh <= MAX_CANVAS_SIZE * MAX_CANVAS_SIZE) by (nonlinear_arith)
                    requires 0 <= sh <= MAX_CANVAS_SIZE;
            }
            let mut g = RateGrid::new_zero(sh);
            let mut i: usize = 0;
            while i < sh
                invariant
                    2 < s <= side,
                    8 <= side <= MAX_CANVAS_SIZE,
                    sh == s / 2,
                    s % 2 == 0,
                    crate::base::is_pow2(s as int),
                    levels@.len() == plen,
                    plen >= 1,
                    prev == plen - 1,
                    levels@[prev as int].side == s,
                    levels_shape(levels@, csd),
                    levels_bounded(levels@),
                    csd == side,
                    g.wf(),
                    g.side == sh,
                    i <= sh,
                    forall|ii: int, j: int|
                        0 <= ii < i && 0 <= j < sh ==> #[trigger] g.at(ii, j) == child_sum(
                            levels@[prev as int],
                            ii,
                            j,
                        ),
                decreases sh - i,
            {
                let mut j: usize = 0;
                while j < sh
                    invariant
                        2 < s <= side,
                        8 <= side <= MAX_CANVAS_SIZE,
                        sh == s / 2,
                        s % 2 == 0,
                        levels@.len() == plen,
                        plen >= 1,
                        prev == plen - 1,
                        levels@[prev as int].side == s,
                        levels_shape(levels@, csd),
                        levels_bounded(levels@),
                        csd == side,
                        g.wf(),
                        g.side == sh,
                        i < sh,
                        j <= sh,
                        forall|ii: int, jj: int|
                            0 <= ii < i && 0 <= jj < sh ==> #[trigger] g.at(ii, jj) == child_sum(
                                levels@[prev as int],
                                ii,
                                jj,
                            ),
                        forall|jj: int|
                            0 <= jj < j ==> #[trigger] g.at(i as int, jj) == child_sum(
                                levels@[prev as int],
                                i as int,
                                jj,
                            ),
                    decreases sh - j,
                {
                    proof {
                        lemma_node_bound(levels@, csd, prev as int, 2 * i as int, 2 * j as int);
                        lemma_node_bound(levels@, csd, prev as int, 2 * i as int, 2 * j as int + 1);
                        lemma_node_bound(levels@, csd, prev as int, 2 * i as int + 1, 2 * j as int);
                        lemma_node_bound(
                            levels@,
                            csd,
                            prev as int,
                            2 * i as int + 1,
                            2 * j as int + 1,
                        );
                        reveal(child_sum);
                    }
                    qt_update_level(&mut g, &levels[prev], (i, j));
                    j += 1;
                }
                i += 1;
            }
            proof {
                // the fresh level satisfies the cell bound at its index
                let kk = plen;
                crate::ratetree::lemma_pow2_pos(kk - 1);
                crate::ratetree::lemma_level_side(levels@, csd, kk - 1);
                assert forall|ii: int, jj: int|
                    0 <= ii < sh && 0 <= jj < sh implies #[trigger] g.at(ii, jj) <= pow2(kk)
                    * pow2(kk) * crate::base::MAX_SITE_RATE by {
                    reveal(child_sum);
                    assert(g.at(ii, jj) == child_sum(levels@[kk - 1], ii, jj));
                    assert(4 * (pow2(kk - 1) * pow2(kk - 1) * crate::base::MAX_SITE_RATE) == pow2(
                        kk,
                    ) * pow2(kk) * crate::base::MAX_SITE_RATE) by (nonlinear_arith)
                        requires pow2(kk) == 2 * pow2(kk - 1);
                }
            }
            let ghost before = levels@;
            levels.push(g);
            proof {
                assert(levels@.drop_last() =~= before);
                assert forall|m: int, i2: int, j2: int|
                    1 <= m < levels@.len() && 0 <= i2 < levels@[m].side && 0 <= j2
                        < levels@[m].side implies #[trigger] levels@[m].at(i2, j2) == child_sum(
                    levels@[m - 1],
                    i2,
                    j2,
                ) by {
                    if m < plen {
                        assert(levels@[m] == before[m] && levels@[m - 1] == before[m - 1]);
                    } else {
                        assert(levels@[m] == g && levels@[m - 1] == before[plen - 1]);
                    }
                }
                assert(levels_shape(levels@, csd));
                assert(levels_bounded(levels@));
            }
            s = sh;
        }
        proof {
            assert(levels@.len() >= 2);
            assert(levels@[levels@.len() - 1].side == 2);
            assert(tree_wf(levels@, csd));
            lemma_node_bound(levels@, csd, levels@.len() as int - 1, 0, 0);
            lemma_node_bound(levels@, csd, levels@.len() as int - 1, 0, 1);
            lemma_node_bound(levels@, csd, levels@.len() as int - 1, 1, 0);
            lemma_node_bound(levels@, csd, levels@.len() as int - 1, 1, 1);
        }
        let nl: usize = levels.len();
        let t0 = levels[nl - 1].get(0, 0);
        let t1 = levels[nl - 1].get(0, 1);
        let t2 = levels[nl - 1].get(1, 0);
        let t3 = levels[nl - 1].get(1, 1);
        let total: u64 = t0 + t1 + t2 + t3;
        proof {
            reveal(child_sum);
            assert(total == root_sum(levels@));
        }
        let ncells: usize = side * side;
        let mut count: usize = 0;
        let mut idx: usize = 0;
        while idx < ncells
            invariant
                idx <= ncells,
                ncells == self.canvas.canvas.cells@.len(),
                self.canvas == old(self).canvas,
                count == crate::grid::count_nonzero(self.canvas.canvas.cells@.take(idx as int)),
                count <= idx,
            decreases ncells - idx,
        {
            proof {
                assert(self.canvas.canvas.cells@.take(idx as int + 1).drop_last()
                    =~= self.canvas.canvas.cells@.take(idx as int));
                assert(self.canvas.canvas.cells@.take(idx as int + 1).last()
                    == self.canvas.canvas.cells@[idx as int]);
            }
            if *crate::state::vec_get_tile(&self.canvas.canvas.cells, idx) != 0 {
                count += 1;
            }
            idx += 1;
        }
        proof {
            assert(self.canvas.canvas.cells@.take(ncells as int) =~= self.canvas.canvas.cells@);
        }
        self.rates = levels;
        self.total_rate = total;
        self.ntiles = count;
    }
}

/// Read one element of a tile vector.
fn vec_get_tile(v: &Vec<Tile>, i: usize) -> (t: &Tile)
    requires
        i < v@.len(),
    ensures
        *t == v@[i as int],
{
    &v[i]
}


impl State2DQT {
    /// A fresh state over the given canvas: the rate index is computed
    /// from scratch and the tile count taken from the canvas. The side
    /// must be a power of two; other side constraints are part of the
    /// canvas invariant.
    pub fn create<S: System>(canvas: Canvas2D, sys: &S) -> (res: Result<State2DQT, GrowError>)
        requires
            sys.swf(),
            canvas.wf(),
            tiles_in_range(&canvas, sys.nspecies()),
        ensures
            match res {
                Ok(st) => {
                    &&& crate::base::is_pow2(canvas.side())
                    &&& st.wf(sys)
                    &&& st.canvas == canvas
                    &&& st.total_events == 0
                },
                Err(e) => e == GrowError::NotPowerOfTwo && !crate::base::is_pow2(canvas.side()),
            },
    {
        if !crate::base::is_pow2_exec(canvas.canvas.side) {
            return Err(GrowError::NotPowerOfTwo);
        }
        let mut st = State2DQT {
            rates: Vec::new(),
            canvas,
            ntiles: 0,
            total_rate: 0,
            total_events: 0,
        };
        st.rebuild_from_canvas(sys);
        Ok(st)
    }

    /// An empty square-canvas state holding one west-east dimer at the
    /// canvas midpoint.
    pub fn create_we_pair<S: System>(sys: &S, w: Tile, e: Tile, size: usize) -> (res: Result<
        State2DQT,
        GrowError,
    >)
        requires
            sys.swf(),
            0 < w < sys.nspecies(),
            0 < e < sys.nspecies(),
        ensures
            match res {
                Ok(st) => {
                    &&& st.wf(sys)
                    &&& st.canvas.variant == CanvasType::Square
                    &&& st.canvas.side() == size
                    &&& st.ntiles == 2
                    &&& st.total_events == 0
                    &&& st.canvas.tile_at(size as int / 2, size as int / 2) == w
                    &&& st.canvas.tile_at(size as int / 2, size as int / 2 + 1) == e
                    &&& forall|r: int, c: int|
                        0 <= r < size && 0 <= c < size && !(r == size as int / 2 && (c == size
                            as int / 2 || c == size as int / 2 + 1))
                            ==> #[trigger] st.canvas.tile_at(r, c) == 0usize
                },
                Err(er) => {
                    ||| er == GrowError::CanvasTooSmall && size < 8
                    ||| er == GrowError::CanvasTooLarge && size > MAX_CANVAS_SIZE
                    ||| er == GrowError::NotPowerOfTwo && !crate::base::is_pow2(size as int)
                },
            },
    {
        let st = Self::create_pair_at(sys, w, e, size, false)?;
        Ok(st)
    }

    /// An empty square-canvas state holding one north-south dimer at the
    /// canvas midpoint.
    pub fn create_ns_pair<S: System>(sys: &S, n: Tile, s: Tile, size: usize) -> (res: Result<
        State2DQT,
        GrowError,
    >)
        requires
            sys.swf(),
            0 < n < sys.nspecies(),
            0 < s < sys.nspecies(),
        ensures
            match res {
                Ok(st) => {
                    &&& st.wf(sys)
                    &&& st.canvas.variant == CanvasType::Square
                    &&& st.canvas.side() == size
                    &&& st.ntiles == 2
                    &&& st.total_events == 0
                    &&& st.canvas.tile_at(size as int / 2, size as int / 2) == n
                    &&& st.canvas.tile_at(size as int / 2 + 1, size as int / 2) == s
                    &&& forall|r: int, c: int|
                        0 <= r < size && 0 <= c < size && !(c == size as int / 2 && (r == size
                            as int / 2 || r == size as int / 2 + 1))
                            ==> #[trigger] st.canvas.tile_at(r, c) == 0usize
                },
                Err(er) => {
                    ||| er == GrowError::CanvasTooSmall && size < 8
                    ||| er == GrowError::CanvasTooLarge && size > MAX_CANVAS_SIZE
                    ||| er == GrowError::NotPowerOfTwo && !crate::base::is_pow2(size as int)
                },
            },
    {
        let st = Self::create_pair_at(sys, n, s, size, true)?;
        Ok(st)
    }

    /// Shared construction of a midpoint dimer state on an empty square
    /// canvas; `vertical` places the second tile south instead of east.
    fn create_pair_at<S: System>(sys: &S, t1: Tile, t2: Tile, size: usize, vertical: bool) -> (res:
        Result<State2DQT, GrowError>)
        requires
            sys.swf(),
            0 < t1 < sys.nspecies(),
            0 < t2 < sys.nspecies(),
        ensures
            match res {
                Ok(st) => {
                    &&& st.wf(sys)
                    &&& st.canvas.variant == CanvasType::Square
                    &&& st.canvas.side() == size
                    &&& st.ntiles == 2
                    &&& st.total_events == 0
                    &&& st.canvas.tile_at(size as int / 2, size as int / 2) == t1
                    &&& (if vertical {
                        st.canvas.tile_at(size as int / 2 + 1, size as int / 2) == t2
                    } else {
                        st.canvas.tile_at(size as int / 2, size as int / 2 + 1) == t2
                    })
                    &&& forall|r: int, c: int|
                        0 <= r < size && 0 <= c < size && !(r == size as int / 2 && c == size
                            as int / 2) && !(if vertical {
                            r == size as int / 2 + 1 && c == size as int / 2
                        } else {
                            r == size as int / 2 && c == size as int / 2 + 1
                        }) ==> #[trigger] st.canvas.tile_at(r, c) == 0usize
                },
                Err(er) => {
                    ||| er == GrowError::CanvasTooSmall && size < 8
                    ||| er == GrowError::CanvasTooLarge && size > MAX_CANVAS_SIZE
                    ||| er == GrowError::NotPowerOfTwo && !crate::base::is_pow2(size as int)
                },
            },
    {
        if size < 8 {
            return Err(GrowError::CanvasTooSmall);
        }
        if size > MAX_CANVAS_SIZE {
            return Err(GrowError::CanvasTooLarge);
        }
        if !crate::base::is_pow2_exec(size) {
            return Err(GrowError::NotPowerOfTwo);
        }
        let canvas = Canvas2D::new_empty(size, CanvasType::Square);
        proof {
            crate::grid::lemma_count_nonzero_zero(canvas.canvas.cells@);
        }
        let st0 = Self::create(canvas, sys)?;
        let mut st = st0;
        let mid: usize = size / 2;
        st.set_point(sys, (mid, mid), t1);
        if vertical {
            st.set_point(sys, (mid + 1, mid), t2);
        } else {
            st.set_point(sys, (mid, mid + 1), t2);
        }
        Ok(st)
    }

    /// Make this state a fresh copy of the source's non-zero-rate support:
    /// the canvas takes the source's tile wherever the source's base
    /// propensity is non-zero and is empty elsewhere, and the rate index,
    /// total and tile count are rebuilt from scratch.
    pub fn zeroed_copy_from_state_nonzero_rate<S: System>(
        &mut self,
        source: &State2DQT,
        sys: &S,
    )
        requires
            sys.swf(),
            source.wf(sys),
            old(self).canvas.canvas.side == source.canvas.canvas.side,
            old(self).canvas.variant == source.canvas.variant,
            old(self).canvas.wf(),
        ensures
            final(self).wf(sys),
            final(self).canvas.variant == source.canvas.variant,
            final(self).canvas.side() == source.canvas.side(),
            final(self).total_events == old(self).total_events,
            forall|r: int, c: int|
                0 <= r < source.canvas.side() && 0 <= c < source.canvas.side()
                    ==> #[trigger] final(self).canvas.tile_at(r, c) == (
                    if source.rates@[0].at(r, c) != 0u64 {
                        source.canvas.tile_at(r, c)
                    } else {
                        0usize
                    }),
    {
        let side = self.canvas.canvas.side;
        let mut r: usize = 0;
        while r < side
            invariant
                sys.swf(),
                source.wf(sys),
                side == self.canvas.canvas.side,
                side == source.canvas.canvas.side,
                self.canvas.variant == source.canvas.variant,
                self.canvas.canvas.wf(),
                8 <= side <= MAX_CANVAS_SIZE,
                r <= side,
                self.total_events == old(self).total_events,
                self.rates == old(self).rates,
                forall|rr: int, cc: int|
                    0 <= rr < r && 0 <= cc < side ==> #[trigger] self.canvas.tile_at(rr, cc) == (
                    if source.rates@[0].at(rr, cc) != 0u64 {
                        source.canvas.tile_at(rr, cc)
                    } else {
                        0usize
                    }),
            decreases side - r,
        {
            let mut c: usize = 0;
            while c < side
                invariant
                    sys.swf(),
                    source.wf(sys),
                    side == self.canvas.canvas.side,
                    side == source.canvas.canvas.side,
                    self.canvas.variant == source.canvas.variant,
                    self.canvas.canvas.wf(),
                    8 <= side <= MAX_CANVAS_SIZE,
                    r < side,
                    c <= side,
                    self.total_events == old(self).total_events,
                    self.rates == old(self).rates,
                    forall|rr: int, cc: int|
                        0 <= rr < r && 0 <= cc < side ==> #[trigger] self.canvas.tile_at(rr, cc)
                            == (if source.rates@[0].at(rr, cc) != 0u64 {
                            source.canvas.tile_at(rr, cc)
                        } else {
                            0usize
                        }),
                    forall|cc: int|
                        0 <= cc < c ==> #[trigger] self.canvas.tile_at(r as int, cc) == (
                        if source.rates@[0].at(r as int, cc) != 0u64 {
                            source.canvas.tile_at(r as int, cc)
                        } else {
                            0usize
                        }),
                decreases side - c,
            {
                let rate = source.rates[0].get(r, c);
                let t: Tile = if rate != 0 {
                    source.canvas.canvas.get(r, c)
                } else {
                    0
                };
                let ghost prev = self.canvas;
                self.canvas.canvas.set(r, c, t);
                proof {
                    assert forall|rr: int, cc: int|
                        0 <= rr < side && 0 <= cc < side && !(rr == r && cc == c)
                            implies #[trigger] self.canvas.tile_at(rr, cc) == prev.tile_at(
                        rr,
                        cc,
                    ) by {
                        assert(self.canvas.canvas.at(rr, cc) == prev.canvas.at(rr, cc));
                    }
                    assert(self.canvas.tile_at(r as int, c as int) == t);
                }
                c += 1;
            }
            r += 1;
        }
        proof {
            let csd = side as int;
            assert(self.canvas.wf()) by {
                assert forall|rr: int, cc: int|
                    0 <= rr < csd && 0 <= cc < csd && !self.canvas.inb(rr, cc)
                        implies self.canvas.tile_at(rr, cc) == 0usize by {
                    if source.rates@[0].at(rr, cc) != 0u64 {
                        assert(source.canvas.tile_at(rr, cc) == 0usize);
                    }
                }
            }
            assert(tiles_in_range(&self.canvas, sys.nspecies())) by {
                assert forall|rr: int, cc: int|
                    0 <= rr < csd && 0 <= cc < csd
                        implies (#[trigger] self.canvas.tile_at(rr, cc)) < sys.nspecies() by {
                    assert(source.canvas.tile_at(rr, cc) < sys.nspecies());
                    assert(sys.nspecies() >= 1);
                }
            }
            crate::ratetree::lemma_pow2_of_side(source.rates@, csd);
            let k = choose|k: int| k >= 0 && pow2(k) == csd;
            crate::ratetree::lemma_is_pow2_pow2(k);
        }
        self.rebuild_from_canvas(sys);
    }
}

/// Two well-formed states over canvases of the same shape and identical
/// tiles have the same propensity at every site, hence the same cached
/// total rate: the rate index is a function of the canvas alone.
pub proof fn lemma_same_canvas_same_total<S: System>(a: State2DQT, b: State2DQT, sys: &S)
    requires
        sys.swf(),
        a.wf(sys),
        b.wf(sys),
        a.canvas.variant == b.canvas.variant,
        a.canvas.side() == b.canvas.side(),
        forall|r: int, c: int|
            0 <= r < a.canvas.side() && 0 <= c < a.canvas.side()
                ==> #[trigger] a.canvas.tile_at(r, c) == b.canvas.tile_at(r, c),
    ensures
        a.total_rate == b.total_rate,
{
    let side = a.canvas.side();
    assert forall|r: int, c: int|
        0 <= r < side && 0 <= c < side implies #[trigger] a.rates@[0].at(r, c) == b.rates@[0].at(
        r,
        c,
    ) by {
        if a.canvas.inb(r, c) {
            a.canvas.lemma_nbr_in_grid(r, c);
            sys.lemma_site_rate_local(&a.canvas, &b.canvas, r, c);
        } else {
            sys.lemma_site_rate_oob(&a.canvas, r, c);
            sys.lemma_site_rate_oob(&b.canvas, r, c);
        }
    }
    let ga = a.rates@[0];
    let gb = b.rates@[0];
    assert(ga.cells@ =~= gb.cells@) by {
        assert(ga.cells@.len() == gb.cells@.len());
        assert forall|k: int| 0 <= k < ga.cells@.len() implies ga.cells@[k] == gb.cells@[k] by {
            let r = k / side;
            let c = k % side;
            vstd::arithmetic::div_mod::lemma_fundamental_div_mod(k, side);
            assert(0 <= r < side && 0 <= c < side) by (nonlinear_arith)
                requires
                    0 <= k < side * side,
                    side > 0,
                    k == side * (k / side) + k % side,
                    r == k / side,
                    c == k % side,
            ;
            assert(r * side + c == k) by (nonlinear_arith)
                requires k == side * (k / side) + k % side, r == k / side, c == k % side;
            assert(ga.at(r, c) == gb.at(r, c));
        }
    }
    lemma_root_is_total(a.rates@, side);
    lemma_root_is_total(b.rates@, side);
}

/// A state with no tiles has total rate zero: every empty site is
/// surrounded by empty sites, so nothing can attach anywhere.
pub proof fn lemma_empty_state_dead<S: System>(st: State2DQT, sys: &S)
    requires
        sys.swf(),
        st.wf(sys),
        st.ntiles == 0,
    ensures
        st.total_rate == 0,
{
    let side = st.canvas.side();
    crate::grid::lemma_count_nonzero_zero(st.canvas.canvas.cells@);
    assert forall|r: int, c: int|
        0 <= r < side && 0 <= c < side implies #[trigger] st.canvas.tile_at(r, c) == 0usize by {
        crate::grid::lemma_grid_index(side, r, c);
    }
    assert forall|r: int, c: int|
        0 <= r < side && 0 <= c < side implies #[trigger] st.rates@[0].at(r, c) == 0u64 by {
        if st.canvas.inb(r, c) {
            st.canvas.lemma_nbr_in_grid(r, c);
            sys.lemma_isolated_empty(&st.canvas, r, c);
        } else {
            sys.lemma_site_rate_oob(&st.canvas, r, c);
        }
    }
    let g = st.rates@[0];
    assert(g.cells@ =~= Seq::<u64>::new(g.cells@.len(), |i: int| 0u64)) by {
        assert forall|k: int| 0 <= k < g.cells@.len() implies g.cells@[k] == 0u64 by {
            let r = k / side;
            let c = k % side;
            vstd::arithmetic::div_mod::lemma_fundamental_div_mod(k, side);
            assert(0 <= r < side && 0 <= c < side) by (nonlinear_arith)
                requires
                    0 <= k < side * side,
                    side > 0,
                    k == side * (k / side) + k % side,
                    r == k / side,
                    c == k % side,
            ;
            assert(r * side + c == k) by (nonlinear_arith)
                requires k == side * (k / side) + k % side, r == k / side, c == k % side;
            assert(g.at(r, c) == 0u64);
        }
    }
    lemma_zero_seq_sum(g.cells@.len() as int);
    lemma_root_is_total(st.rates@, side);
}

/// A sequence of zeros sums to zero.
pub proof fn lemma_zero_seq_sum(n: int)
    requires
        n >= 0,
    ensures
        crate::base::seq_rate_sum(Seq::<u64>::new(n as nat, |i: int| 0u64)) == 0,
    decreases n,
{
    let s = Seq::<u64>::new(n as nat, |i: int| 0u64);
    if n > 0 {
        lemma_zero_seq_sum(n - 1);
        assert(s.drop_last() =~= Seq::<u64>::new((n - 1) as nat, |i: int| 0u64));
    }
}


/// Read-only access to a state's counters.
pub trait StateStatus {
    /// The number of non-empty cells.
    spec fn ntiles_spec(&self) -> int;

    /// The number of events executed so far.
    spec fn total_events_spec(&self) -> int;

    /// The current tile count.
    fn ntiles(&self) -> (n: NumTiles)
        ensures
            n == self.ntiles_spec();

    /// The number of events executed so far.
    fn total_events(&self) -> (n: NumEvents)
        ensures
            n == self.total_events_spec();
}

impl StateStatus for State2DQT {
    open spec fn ntiles_spec(&self) -> int {
        self.ntiles as int
    }

    open spec fn total_events_spec(&self) -> int {
        self.total_events as int
    }

    fn ntiles(&self) -> (n: NumTiles) {
        self.ntiles
    }

    fn total_events(&self) -> (n: NumEvents) {
        self.total_events
    }
}

/// One Gillespie step over a model.
pub trait StateStep<S: System>: Sized {
    /// The invariant the stepper preserves.
    spec fn step_wf(&self, system: &S) -> bool;

    /// The cached total event rate.
    spec fn rate_total(&self) -> int;

    /// The number of events executed so far.
    spec fn events_done(&self) -> int;

    /// The exact pre/post relation of one step taken with sample `u`.
    spec fn step_rel(pre: Self, post: Self, system: &S, u: u64, pt: (Point, Tile)) -> bool;

    /// Fire one event; the postcondition holds for whatever sample the
    /// generator produced.
    fn take_step(&mut self, system: &S, rng: &mut SmallRng) -> (pt: (Point, Tile))
        requires
            system.swf(),
            old(self).step_wf(system),
            old(self).rate_total() > 0,
            old(self).events_done() < u64::MAX,
        ensures
            final(self).step_wf(system),
            exists|u: u64|
                u < old(self).rate_total() && #[trigger] Self::step_rel(
                    *old(self),
                    *final(self),
                    system,
                    u,
                    pt,
                );
}

impl<S: System> StateStep<S> for State2DQT {
    open spec fn step_wf(&self, system: &S) -> bool {
        self.wf(system)
    }

    open spec fn rate_total(&self) -> int {
        self.total_rate as int
    }

    open spec fn events_done(&self) -> int {
        self.total_events as int
    }

    open spec fn step_rel(pre: Self, post: Self, system: &S, u: u64, pt: (Point, Tile)) -> bool {
        step_post(pre, post, system, u, pt)
    }

    fn take_step(&mut self, system: &S, rng: &mut SmallRng) -> (pt: (Point, Tile)) {
        let pt = State2DQT::take_step(self, system, rng);
        proof {
            let u = choose|u: u64|
                u < old(self).total_rate && #[trigger] step_post(*old(self), *self, system, u, pt);
            assert(Self::step_rel(*old(self), *self, system, u, pt));
        }
        pt
    }
}

/// Construction of a state over a canvas.
pub trait StateCreate<S: System>: Sized {
    /// What a successfully created state satisfies.
    spec fn created_ok(st: Self, canvas: Canvas2D, system: &S) -> bool;

    /// A fresh state over the given canvas; the side must be a power of
    /// two.
    fn create(canvas: Canvas2D, system: &S) -> (res: Result<Self, GrowError>)
        requires
            system.swf(),
            canvas.wf(),
            tiles_in_range(&canvas, system.nspecies()),
        ensures
            match res {
                Ok(st) => Self::created_ok(st, canvas, system) && crate::base::is_pow2(
                    canvas.side(),
                ),
                Err(e) => e == GrowError::NotPowerOfTwo && !crate::base::is_pow2(canvas.side()),
            };
}

impl<S: System> StateCreate<S> for State2DQT {
    open spec fn created_ok(st: Self, canvas: Canvas2D, system: &S) -> bool {
        &&& st.wf(system)
        &&& st.canvas == canvas
        &&& st.total_events == 0
    }

    fn create(canvas: Canvas2D, system: &S) -> (res: Result<Self, GrowError>) {
        State2DQT::create(canvas, system)
    }
}

/// Bounded evolution inside a tile-count window.
pub trait StateEvolve<S: System>: StateStep<S> + StateStatus {
    /// `post` arises from `pre` by exactly `n` steps of the stepper.
    spec fn evolve_rel(pre: Self, post: Self, system: &S, n: int) -> bool;

    /// Evolve until the tile count leaves the window, the state dies, or
    /// the event budget runs out; dead states take priority over the lower
    /// size bound, then the upper one, then the budget, and a state that
    /// is dead on entry is reported as such untouched.
    fn evolve_in_size_range(
        &mut self,
        system: &S,
        minsize: NumTiles,
        maxsize: NumTiles,
        maxevents: NumEvents,
        rng: &mut SmallRng,
    ) -> (outcome: EvolveOutcome)
        requires
            system.swf(),
            old(self).step_wf(system),
            old(self).events_done() + maxevents <= u64::MAX,
        ensures
            final(self).step_wf(system),
            final(self).events_done() <= old(self).events_done() + maxevents,
            Self::evolve_rel(
                *old(self),
                *final(self),
                system,
                final(self).events_done() - old(self).events_done(),
            ),
            old(self).rate_total() == 0 ==> outcome is DeadState && *final(self) == *old(self),
            outcome is DeadState ==> final(self).rate_total() == 0,
            outcome is ReachedSizeMin ==> final(self).ntiles_spec() <= minsize,
            outcome is ReachedSizeMax ==> final(self).ntiles_spec() >= maxsize,
            outcome is ReachedEventsMax ==> final(self).events_done() == old(self).events_done()
                + maxevents,
            outcome is ReachedSizeMin || outcome is ReachedSizeMax ==> final(self).events_done()
                > old(self).events_done(),
            outcome is ReachedSizeMin || outcome is ReachedSizeMax || outcome
                is ReachedEventsMax ==> final(self).rate_total() != 0,
            outcome is ReachedSizeMax ==> final(self).ntiles_spec() > minsize,
            outcome is DeadState || outcome is ReachedSizeMin || outcome is ReachedSizeMax
                || outcome is ReachedEventsMax;
}

impl<S: System> StateEvolve<S> for State2DQT {
    open spec fn evolve_rel(pre: Self, post: Self, system: &S, n: int) -> bool {
        steps_reach(pre, post, system, n)
    }

    fn evolve_in_size_range(
        &mut self,
        system: &S,
        minsize: NumTiles,
        maxsize: NumTiles,
        maxevents: NumEvents,
        rng: &mut SmallRng,
    ) -> (outcome: EvolveOutcome) {
        State2DQT::evolve_in_size_range(self, system, minsize, maxsize, maxevents, rng)
    }
}


/// Rate-tree consistency: in a well-formed state every interior node of
/// the index holds the sum of its four children, and the cached total
/// rate is exactly the sum of every base propensity.
pub proof fn lemma_rate_tree_consistent<S: System>(st: State2DQT, sys: &S)
    requires
        st.wf(sys),
    ensures
        forall|k: int, i: int, j: int|
            1 <= k < st.rates@.len() && 0 <= i < st.rates@[k].side && 0 <= j < st.rates@[k].side
                ==> #[trigger] st.rates@[k].at(i, j) == child_sum(st.rates@[k - 1], i, j),
        st.total_rate == seq_rate_sum(st.rates@[0].cells@),
{
    lemma_root_is_total(st.rates@, st.canvas.side());
}

/// Tile-count consistency: in a well-formed state the counter equals the
/// number of non-empty cells of the canvas.
pub proof fn lemma_ntiles_consistent<S: System>(st: State2DQT, sys: &S)
    requires
        st.wf(sys),
    ensures
        st.ntiles == crate::grid::count_nonzero(st.canvas.canvas.cells@),
{
}

} // verus!
