//! The hierarchical event-rate index: a list of square grids, each
//! quartering the side of the one below, where every interior cell holds
//! the sum of its four children. The root sum is the state's total rate,
//! and weighted point selection descends the tree.

use vstd::prelude::*;
use crate::base::{Rate, MAX_SITE_RATE, seq_rate_sum};
use crate::grid::RateGrid;

verus! {

/// 2 to the `k`.
pub open spec fn pow2(k: int) -> int
    decreases k,
{
    if k <= 0 {
        1
    } else {
        2 * pow2(k - 1)
    }
}

/// Powers of two are positive.
pub proof fn lemma_pow2_pos(k: int)
    ensures
        pow2(k) >= 1,
    decreases k,
{
    if k > 0 {
        lemma_pow2_pos(k - 1);
    }
}

/// Sum of the four children of cell (`i`, `j`) in the child grid `g`.
#[verifier::opaque]
pub open spec fn child_sum(g: RateGrid, i: int, j: int) -> int {
    g.at(2 * i, 2 * j) + g.at(2 * i, 2 * j + 1) + g.at(2 * i + 1, 2 * j) + g.at(
        2 * i + 1,
        2 * j + 1,
    )
}

/// The level list has the right shape: the base grid has the canvas side,
/// each level halves the side, and the top level is 2 by 2.
pub open spec fn levels_shape(levels: Seq<RateGrid>, side: int) -> bool {
    &&& levels.len() >= 1
    &&& levels[0].side == side
    &&& forall|k: int| 0 <= k < levels.len() ==> (#[trigger] levels[k]).wf()
    &&& forall|k: int|
        1 <= k < levels.len() ==> 2 * (#[trigger] levels[k]).side == levels[k - 1].side
    &&& levels[levels.len() - 1].side >= 2
}

/// Every cell of level `k` is at most `4^k` times the per-site cap.
pub open spec fn levels_bounded(levels: Seq<RateGrid>) -> bool {
    forall|k: int, i: int, j: int|
        0 <= k < levels.len() && 0 <= i < levels[k].side && 0 <= j < levels[k].side
            ==> #[trigger] levels[k].at(i, j) <= pow2(k) * pow2(k) * MAX_SITE_RATE
}

/// Every interior cell equals the sum of its four children.
pub open spec fn parents_ok(levels: Seq<RateGrid>) -> bool {
    forall|k: int, i: int, j: int|
        1 <= k < levels.len() && 0 <= i < levels[k].side && 0 <= j < levels[k].side
            ==> #[trigger] levels[k].at(i, j) == child_sum(levels[k - 1], i, j)
}

/// The full rate-index invariant: the right shape, ending in a 2 by 2
/// top, with bounded cells and exact parent sums.
pub open spec fn tree_wf(levels: Seq<RateGrid>, side: int) -> bool {
    &&& levels_shape(levels, side)
    &&& levels[levels.len() - 1].side == 2
    &&& levels_bounded(levels)
    &&& parents_ok(levels)
}

/// The total rate: the sum of the four cells of the top level, which a
/// one-cell root above it would hold.
pub open spec fn root_sum(levels: Seq<RateGrid>) -> int {
    child_sum(levels[levels.len() - 1], 0, 0)
}

/// The side of level `k` times `2^k` is the base side.
pub proof fn lemma_level_side(levels: Seq<RateGrid>, side: int, k: int)
    requires
        levels_shape(levels, side),
        0 <= k < levels.len(),
    ensures
        levels[k].side * pow2(k) == side,
        levels[k].side >= 1,
        pow2(k) >= 1,
    decreases k,
{
    if k == 0 {
        assert(pow2(0) == 1);
    } else {
        lemma_level_side(levels, side, k - 1);
        assert(levels[k - 1].side * pow2(k - 1) == side);
        assert(2 * levels[k].side == levels[k - 1].side);
        assert(levels[k].side * pow2(k) == (2 * levels[k].side) * pow2(k - 1))
            by (nonlinear_arith)
            requires pow2(k) == 2 * pow2(k - 1);
    }
}

/// A numeric cap on every node: `2^58` when the side is at most 1024, so
/// four sibling values can be added in `u64` arithmetic.
pub proof fn lemma_node_bound(levels: Seq<RateGrid>, side: int, k: int, i: int, j: int)
    requires
        levels_shape(levels, side),
        levels_bounded(levels),
        side <= 0x400,
        0 <= k < levels.len(),
        0 <= i < levels[k].side,
        0 <= j < levels[k].side,
    ensures
        levels[k].at(i, j) <= 0x400_0000_0000_0000,
{
    lemma_level_side(levels, side, k);
    let s = levels[k].side;
    let p = pow2(k);
    assert(s >= 2) by {
        if k < levels.len() - 1 {
            lemma_level_side(levels, side, levels.len() - 1);
            assert(s * p == side);
            lemma_side_monotone(levels, side, k);
        }
    }
    assert(p * p * MAX_SITE_RATE <= 0x400_0000_0000_0000) by (nonlinear_arith)
        requires
            s * p == side,
            side <= 0x400,
            s >= 2,
            p >= 1,
            MAX_SITE_RATE == 0x100_0000_0000u64,
    ;
}

/// Deeper levels have no larger sides than shallower ones.
pub proof fn lemma_side_monotone(levels: Seq<RateGrid>, side: int, k: int)
    requires
        levels_shape(levels, side),
        0 <= k < levels.len(),
    ensures
        levels[k].side >= levels[levels.len() - 1].side,
    decreases levels.len() - k,
{
    if k < levels.len() - 1 {
        lemma_side_monotone(levels, side, k + 1);
        assert(2 * levels[k + 1].side == levels[k].side);
    }
}

/// Sum of the square block of side `s` whose top-left corner is
/// (`r0`, `c0`), decomposed the way the tree decomposes it: four
/// half-side sub-blocks. Meaningful for `s` a power of two.
pub open spec fn block_sum(g: RateGrid, r0: int, c0: int, s: int) -> int
    decreases s,
{
    if s <= 1 {
        g.at(r0, c0) as int
    } else {
        let h = s / 2;
        block_sum(g, r0, c0, h) + block_sum(g, r0, c0 + h, h) + block_sum(g, r0 + h, c0, h)
            + block_sum(g, r0 + h, c0 + h, h)
    }
}

/// Under the parent invariant, every node holds the block sum of the base
/// cells its subtree covers.
pub proof fn lemma_tree_blocks(levels: Seq<RateGrid>, side: int, k: int, i: int, j: int)
    requires
        levels_shape(levels, side),
        parents_ok(levels),
        0 <= k < levels.len(),
        0 <= i < levels[k].side,
        0 <= j < levels[k].side,
    ensures
        levels[k].at(i, j) == block_sum(levels[0], i * pow2(k), j * pow2(k), pow2(k)),
    decreases k,
{
    reveal(child_sum);
    if k == 0 {
        assert(pow2(0) == 1);
    } else {
        let h = pow2(k - 1);
        lemma_level_side(levels, side, k - 1);
        assert(2 * levels[k].side == levels[k - 1].side);
        lemma_tree_blocks(levels, side, k - 1, 2 * i, 2 * j);
        lemma_tree_blocks(levels, side, k - 1, 2 * i, 2 * j + 1);
        lemma_tree_blocks(levels, side, k - 1, 2 * i + 1, 2 * j);
        lemma_tree_blocks(levels, side, k - 1, 2 * i + 1, 2 * j + 1);
        assert((2 * i) * h == i * pow2(k) && (2 * i + 1) * h == i * pow2(k) + h && (2 * j) * h == j
            * pow2(k) && (2 * j + 1) * h == j * pow2(k) + h) by (nonlinear_arith)
            requires pow2(k) == 2 * h;
        assert(pow2(k) / 2 == h);
    }
}

/// A block sum over cells below the per-site cap is bounded by the cap
/// times the block's area.
pub proof fn lemma_block_sum_bound(g: RateGrid, r0: int, c0: int, s: int)
    requires
        g.wf(),
        0 <= r0,
        0 <= c0,
        s >= 1,
        r0 + s <= g.side,
        c0 + s <= g.side,
        forall|r: int, c: int|
            0 <= r < g.side && 0 <= c < g.side ==> #[trigger] g.at(r, c) <= MAX_SITE_RATE,
    ensures
        0 <= block_sum(g, r0, c0, s) <= s * s * MAX_SITE_RATE,
    decreases s,
{
    if s == 1 {
        assert(g.at(r0, c0) <= MAX_SITE_RATE);
    } else {
        let h = s / 2;
        assert(h >= 1 && 2 * h <= s);
        lemma_block_sum_bound(g, r0, c0, h);
        lemma_block_sum_bound(g, r0, c0 + h, h);
        lemma_block_sum_bound(g, r0 + h, c0, h);
        lemma_block_sum_bound(g, r0 + h, c0 + h, h);
        assert(4 * (h * h * MAX_SITE_RATE) <= s * s * MAX_SITE_RATE) by (nonlinear_arith)
            requires h >= 1, 2 * h <= s, MAX_SITE_RATE >= 0;
    }
}

/// When every base cell is below the per-site cap and every parent sums
/// its children, the whole tree satisfies the level bound.
pub proof fn lemma_bounded_from_parents(levels: Seq<RateGrid>, side: int)
    requires
        levels_shape(levels, side),
        parents_ok(levels),
        forall|r: int, c: int|
            0 <= r < side && 0 <= c < side ==> #[trigger] levels[0].at(r, c) <= MAX_SITE_RATE,
    ensures
        levels_bounded(levels),
{
    assert forall|k: int, i: int, j: int|
        0 <= k < levels.len() && 0 <= i < levels[k].side && 0 <= j < levels[k].side
            implies #[trigger] levels[k].at(i, j) <= pow2(k) * pow2(k) * MAX_SITE_RATE by {
        lemma_tree_blocks(levels, side, k, i, j);
        lemma_level_side(levels, side, k);
        assert(0 <= i * pow2(k) && 0 <= j * pow2(k) && i * pow2(k) + pow2(k) <= side && j * pow2(k)
            + pow2(k) <= side) by (nonlinear_arith)
            requires
                0 <= i < levels[k].side,
                0 <= j < levels[k].side,
                levels[k].side * pow2(k) == side,
                pow2(k) >= 1,
        ;
        lemma_block_sum_bound(levels[0], i * pow2(k), j * pow2(k), pow2(k));
    }
}

/// Sum of `w` cells of row `r` starting at column `c0`.
pub open spec fn row_sum(g: RateGrid, r: int, c0: int, w: int) -> int
    decreases w,
{
    if w <= 0 {
        0
    } else {
        row_sum(g, r, c0, w - 1) + g.at(r, c0 + w - 1)
    }
}

/// Sum of the `h` by `w` rectangle whose top-left corner is (`r0`, `c0`).
pub open spec fn rect_sum(g: RateGrid, r0: int, c0: int, h: int, w: int) -> int
    decreases h,
{
    if h <= 0 {
        0
    } else {
        rect_sum(g, r0, c0, h - 1, w) + row_sum(g, r0 + h - 1, c0, w)
    }
}

/// A row segment splits additively.
pub proof fn lemma_row_split(g: RateGrid, r: int, c0: int, w1: int, w2: int)
    requires
        w1 >= 0,
        w2 >= 0,
    ensures
        row_sum(g, r, c0, w1 + w2) == row_sum(g, r, c0, w1) + row_sum(g, r, c0 + w1, w2),
    decreases w2,
{
    if w2 > 0 {
        lemma_row_split(g, r, c0, w1, w2 - 1);
    }
}

/// A rectangle splits additively into upper and lower bands.
pub proof fn lemma_rect_split_rows(g: RateGrid, r0: int, c0: int, h1: int, h2: int, w: int)
    requires
        h1 >= 0,
        h2 >= 0,
    ensures
        rect_sum(g, r0, c0, h1 + h2, w) == rect_sum(g, r0, c0, h1, w) + rect_sum(
            g,
            r0 + h1,
            c0,
            h2,
            w,
        ),
    decreases h2,
{
    if h2 > 0 {
        lemma_rect_split_rows(g, r0, c0, h1, h2 - 1, w);
    }
}

/// A rectangle splits additively into left and right bands.
pub proof fn lemma_rect_split_cols(g: RateGrid, r0: int, c0: int, h: int, w1: int, w2: int)
    requires
        w1 >= 0,
        w2 >= 0,
    ensures
        rect_sum(g, r0, c0, h, w1 + w2) == rect_sum(g, r0, c0, h, w1) + rect_sum(
            g,
            r0,
            c0 + w1,
            h,
            w2,
        ),
    decreases h,
{
    if h > 0 {
        lemma_rect_split_cols(g, r0, c0, h - 1, w1, w2);
        lemma_row_split(g, r0 + h - 1, c0, w1, w2);
    }
}

/// A power-of-two block sum is the plain rectangle sum of its cells.
pub proof fn lemma_block_is_rect(g: RateGrid, r0: int, c0: int, k: int)
    requires
        k >= 0,
    ensures
        block_sum(g, r0, c0, pow2(k)) == rect_sum(g, r0, c0, pow2(k), pow2(k)),
    decreases k,
{
    if k == 0 {
        assert(pow2(0) == 1);
        assert(rect_sum(g, r0, c0, 0, 1) == 0);
        assert(rect_sum(g, r0, c0, 1, 1) == row_sum(g, r0, c0, 1));
        assert(row_sum(g, r0, c0, 0) == 0);
    } else {
        let h = pow2(k - 1);
        let s = pow2(k);
        lemma_pow2_pos(k - 1);
        assert(s == 2 * h && h >= 1);
        assert(s / 2 == h);
        lemma_block_is_rect(g, r0, c0, k - 1);
        lemma_block_is_rect(g, r0, c0 + h, k - 1);
        lemma_block_is_rect(g, r0 + h, c0, k - 1);
        lemma_block_is_rect(g, r0 + h, c0 + h, k - 1);
        lemma_rect_split_rows(g, r0, c0, h, h, s);
        lemma_rect_split_cols(g, r0, c0, h, h, h);
        lemma_rect_split_cols(g, r0 + h, c0, h, h, h);
    }
}

/// The sum of a row-major prefix of the grid: `r` full rows and `w` cells
/// of the next row.
#[verifier::rlimit(60)]
pub proof fn lemma_grid_prefix(g: RateGrid, r: int, w: int)
    requires
        g.wf(),
        0 <= r <= g.side,
        0 <= w <= g.side,
        r < g.side || w == 0,
    ensures
        seq_rate_sum(g.cells@.take(r * g.side + w)) == rect_sum(g, 0, 0, r, g.side as int)
            + row_sum(g, r, 0, w),
    decreases r, w,
{
    let side = g.side as int;
    assert(0 <= r * side + w <= side * side) by (nonlinear_arith)
        requires 0 <= r <= side, 0 <= w <= side, r < side || w == 0;
    if w > 0 {
        lemma_grid_prefix(g, r, w - 1);
        let n = r * side + w;
        assert(g.cells@.take(n).len() == n);
        assert(g.cells@.take(n).drop_last() =~= g.cells@.take(n - 1));
        assert(g.cells@.take(n).last() == g.cells@[n - 1]);
        assert(seq_rate_sum(g.cells@.take(n)) == seq_rate_sum(g.cells@.take(n - 1))
            + g.cells@[n - 1]);
        assert(g.at(r, w - 1) == g.cells@[n - 1]);
        assert(row_sum(g, r, 0, w) == row_sum(g, r, 0, w - 1) + g.at(r, 0 + w - 1));
        assert(seq_rate_sum(g.cells@.take(n - 1)) == rect_sum(g, 0, 0, r, side) + row_sum(
            g,
            r,
            0,
            w - 1,
        ));
        assert(seq_rate_sum(g.cells@.take(n)) == rect_sum(g, 0, 0, r, side) + row_sum(g, r, 0, w));
    } else if r > 0 {
        lemma_grid_prefix(g, r - 1, side);
        assert((r - 1) * side + side == r * side) by (nonlinear_arith);
        assert(rect_sum(g, 0, 0, r, side) == rect_sum(g, 0, 0, r - 1, side)
            + row_sum(g, 0 + r - 1, 0, side));
        assert(row_sum(g, r, 0, 0) == 0);
        assert(seq_rate_sum(g.cells@.take((r - 1) * side + side)) == rect_sum(
            g,
            0,
            0,
            r - 1,
            side,
        ) + row_sum(g, r - 1, 0, side));
        assert(w == 0);
        assert(r * side + w == (r - 1) * side + side);
        assert(g.cells@.take(r * side + w) == g.cells@.take((r - 1) * side + side));
        assert(seq_rate_sum(g.cells@.take(r * side + w)) == rect_sum(g, 0, 0, r, side) + row_sum(
            g,
            r,
            0,
            w,
        ));
    } else {
        assert(g.cells@.take(0) =~= Seq::<u64>::empty());
        assert(seq_rate_sum(Seq::<u64>::empty()) == 0);
        assert(rect_sum(g, 0, 0, 0, side) == 0);
        assert(row_sum(g, 0, 0, 0) == 0);
        assert(r * side + w == 0) by (nonlinear_arith)
            requires r == 0, w == 0;
        assert(seq_rate_sum(g.cells@.take(r * side + w)) == rect_sum(g, 0, 0, r, side) + row_sum(
            g,
            r,
            0,
            w,
        ));
    }
    assert(seq_rate_sum(g.cells@.take(r * side + w)) == rect_sum(g, 0, 0, r, side) + row_sum(
        g,
        r,
        0,
        w,
    ));
}

/// The root of the tree holds the block sum of the whole base grid.
pub proof fn lemma_root_is_block(levels: Seq<RateGrid>, side: int)
    requires
        levels_shape(levels, side),
        levels[levels.len() - 1].side == 2,
        parents_ok(levels),
        levels.len() >= 2,
    ensures
        root_sum(levels) == block_sum(levels[0], 0, 0, side),
{
    reveal(child_sum);
    let ll = levels.len() as int;
    let top = levels[ll - 1];
    let h = pow2(ll - 1);
    lemma_level_side(levels, side, ll - 1);
    assert(top.side * h == side && top.side == 2);
    lemma_tree_blocks(levels, side, ll - 1, 0, 0);
    lemma_tree_blocks(levels, side, ll - 1, 0, 1);
    lemma_tree_blocks(levels, side, ll - 1, 1, 0);
    lemma_tree_blocks(levels, side, ll - 1, 1, 1);
    assert(0 * h == 0 && 1 * h == h) by (nonlinear_arith);
    assert(root_sum(levels) == block_sum(levels[0], 0, 0, h) + block_sum(levels[0], 0, h, h)
        + block_sum(levels[0], h, 0, h) + block_sum(levels[0], h, h, h));
    lemma_pow2_pos(ll - 1);
    assert(side == 2 * h);
    assert(side / 2 == h);
}

/// The block sum of the whole grid is the plain sum of all its cells.
pub proof fn lemma_block_eq_cells(g: RateGrid, k: int)
    requires
        g.wf(),
        k >= 0,
        pow2(k) == g.side,
    ensures
        block_sum(g, 0, 0, g.side as int) == seq_rate_sum(g.cells@),
{
    let side = g.side as int;
    lemma_block_is_rect(g, 0, 0, k);
    lemma_grid_prefix(g, side, 0);
    assert(side * side + 0 == side * side);
    assert(g.cells@.take(side * side) =~= g.cells@);
    assert(row_sum(g, side, 0, 0) == 0);
}

/// The root of a well-formed rate index holds exactly the sum of every
/// base propensity: the statement of rate-tree consistency for the sums
/// that the kinetic engine maintains.
pub proof fn lemma_root_is_total(levels: Seq<RateGrid>, side: int)
    requires
        tree_wf(levels, side),
        levels.len() >= 2,
    ensures
        root_sum(levels) == seq_rate_sum(levels[0].cells@),
{
    lemma_root_is_block(levels, side);
    lemma_pow2_of_side(levels, side);
    let k = choose|k: int| k >= 0 && pow2(k) == side;
    lemma_block_eq_cells(levels[0], k);
}

/// `pow2` values are powers of two in the recursive sense.
pub proof fn lemma_is_pow2_pow2(k: int)
    requires
        k >= 0,
    ensures
        crate::base::is_pow2(pow2(k)),
    decreases k,
{
    if k == 0 {
    } else {
        lemma_is_pow2_pow2(k - 1);
        lemma_pow2_pos(k - 1);
        assert(pow2(k) == 2 * pow2(k - 1));
        assert(pow2(k) % 2 == 0 && pow2(k) / 2 == pow2(k - 1));
    }
}

/// The base side of a well-formed level list is a power of two.
pub proof fn lemma_pow2_of_side(levels: Seq<RateGrid>, side: int)
    requires
        levels_shape(levels, side),
        levels[levels.len() - 1].side == 2,
    ensures
        exists|k: int| k >= 0 && pow2(k) == side,
    decreases levels.len(),
{
    lemma_pow2_chain(levels, side, 0);
}

/// Each level's side times its power of two gives the base side, and each
/// level side is itself `2` times a power of two chain downward.
pub proof fn lemma_pow2_chain(levels: Seq<RateGrid>, side: int, k: int)
    requires
        levels_shape(levels, side),
        levels[levels.len() - 1].side == 2,
        0 <= k < levels.len(),
    ensures
        exists|m: int| m >= 0 && pow2(m) == levels[k].side,
    decreases levels.len() - k,
{
    if k == levels.len() - 1 {
        assert(pow2(0) == 1);
        assert(pow2(1) == 2 * pow2(0));
        assert(exists|m: int| m >= 0 && pow2(m) == levels[k].side) by {
            assert(pow2(1) == levels[k].side);
        }
    } else {
        lemma_pow2_chain(levels, side, k + 1);
        let m = choose|m: int| m >= 0 && pow2(m) == levels[k + 1].side;
        assert(pow2(m + 1) == 2 * pow2(m));
        assert(pow2(m + 1) == levels[k].side);
    }
}

/// The value of node (`i`, `j`) at level `k`, where level `levels.len()`
/// is the virtual one-cell root holding the total rate.
pub open spec fn node_val(levels: Seq<RateGrid>, k: int, i: int, j: int) -> int {
    if k == levels.len() {
        root_sum(levels)
    } else {
        levels[k].at(i, j) as int
    }
}

/// Deterministic weighted point selection: descend from node (`i`, `j`) at
/// level `k`, at each step comparing the residual against the four
/// children in NW, NE, SW, SE order and entering the first child whose
/// cumulative bucket contains it. Returns the base cell reached and the
/// residual that remains.
pub open spec fn select_from(levels: Seq<RateGrid>, k: int, i: int, j: int, u: int) -> (
    int,
    int,
    int,
)
    decreases k,
{
    if k <= 0 {
        (i, j, u)
    } else {
        let g = levels[k - 1];
        let w0 = g.at(2 * i, 2 * j) as int;
        let w1 = g.at(2 * i, 2 * j + 1) as int;
        let w2 = g.at(2 * i + 1, 2 * j) as int;
        let w3 = g.at(2 * i + 1, 2 * j + 1) as int;
        if u < w0 {
            select_from(levels, k - 1, 2 * i, 2 * j, u)
        } else if u < w0 + w1 {
            select_from(levels, k - 1, 2 * i, 2 * j + 1, u - w0)
        } else if u < w0 + w1 + w2 {
            select_from(levels, k - 1, 2 * i + 1, 2 * j, u - w0 - w1)
        } else {
            select_from(levels, k - 1, 2 * i + 1, 2 * j + 1, u - w0 - w1 - w2)
        }
    }
}

/// Selection started below the total rate lands on a base cell whose
/// propensity strictly exceeds the returned residual.
pub proof fn lemma_select_ok(levels: Seq<RateGrid>, side: int, k: int, i: int, j: int, u: int)
    requires
        levels_shape(levels, side),
        parents_ok(levels),
        0 <= k <= levels.len(),
        k == levels.len() ==> i == 0 && j == 0,
        k < levels.len() ==> 0 <= i < levels[k].side && 0 <= j < levels[k].side,
        0 <= u < node_val(levels, k, i, j),
    ensures
        ({
            let (r, c, res) = select_from(levels, k, i, j, u);
            &&& 0 <= r < side
            &&& 0 <= c < side
            &&& 0 <= res < levels[0].at(r, c)
        }),
    decreases k,
{
    reveal(child_sum);
    if k == 0 {
        assert(levels[0].side == side);
    } else {
        let g = levels[k - 1];
        let w0 = g.at(2 * i, 2 * j) as int;
        let w1 = g.at(2 * i, 2 * j + 1) as int;
        let w2 = g.at(2 * i + 1, 2 * j) as int;
        let w3 = g.at(2 * i + 1, 2 * j + 1) as int;
        if k == levels.len() {
            assert(node_val(levels, k, i, j) == w0 + w1 + w2 + w3);
        } else {
            assert(levels[k].at(i, j) == child_sum(levels[k - 1], i, j));
            assert(2 * levels[k].side == levels[k - 1].side);
        }
        if u < w0 {
            lemma_select_ok(levels, side, k - 1, 2 * i, 2 * j, u);
        } else if u < w0 + w1 {
            lemma_select_ok(levels, side, k - 1, 2 * i, 2 * j + 1, u - w0);
        } else if u < w0 + w1 + w2 {
            lemma_select_ok(levels, side, k - 1, 2 * i + 1, 2 * j, u - w0 - w1);
        } else {
            lemma_select_ok(levels, side, k - 1, 2 * i + 1, 2 * j + 1, u - w0 - w1 - w2);
        }
    }
}

/// One descent step: at a node holding `u`, the four children partition
/// the node's value into consecutive buckets, and the selection recursion
/// continues in the child whose bucket holds `u`.
pub proof fn lemma_select_step(levels: Seq<RateGrid>, side: int, k: int, i: int, j: int, u: int)
    requires
        levels_shape(levels, side),
        levels_bounded(levels),
        parents_ok(levels),
        side <= 0x400,
        1 <= k <= levels.len(),
        k == levels.len() ==> i == 0 && j == 0,
        k < levels.len() ==> 0 <= i < levels[k].side && 0 <= j < levels[k].side,
        0 <= u < node_val(levels, k, i, j),
    ensures
        ({
            let g = levels[k - 1];
            let w0 = g.at(2 * i, 2 * j) as int;
            let w1 = g.at(2 * i, 2 * j + 1) as int;
            let w2 = g.at(2 * i + 1, 2 * j) as int;
            let w3 = g.at(2 * i + 1, 2 * j + 1) as int;
            &&& 0 <= 2 * i && 2 * i + 1 < g.side && 0 <= 2 * j && 2 * j + 1 < g.side
            &&& w0 <= 0x400_0000_0000_0000 && w1 <= 0x400_0000_0000_0000
                && w2 <= 0x400_0000_0000_0000 && w3 <= 0x400_0000_0000_0000
            &&& node_val(levels, k, i, j) == w0 + w1 + w2 + w3
            &&& (u < w0 ==> select_from(levels, k, i, j, u) == select_from(
                levels,
                k - 1,
                2 * i,
                2 * j,
                u,
            ) && u < node_val(levels, k - 1, 2 * i, 2 * j))
            &&& (w0 <= u < w0 + w1 ==> select_from(levels, k, i, j, u) == select_from(
                levels,
                k - 1,
                2 * i,
                2 * j + 1,
                u - w0,
            ) && u - w0 < node_val(levels, k - 1, 2 * i, 2 * j + 1))
            &&& (w0 + w1 <= u < w0 + w1 + w2 ==> select_from(levels, k, i, j, u) == select_from(
                levels,
                k - 1,
                2 * i + 1,
                2 * j,
                u - w0 - w1,
            ) && u - w0 - w1 < node_val(levels, k - 1, 2 * i + 1, 2 * j))
            &&& (w0 + w1 + w2 <= u ==> select_from(levels, k, i, j, u) == select_from(
                levels,
                k - 1,
                2 * i + 1,
                2 * j + 1,
                u - w0 - w1 - w2,
            ) && u - w0 - w1 - w2 < node_val(levels, k - 1, 2 * i + 1, 2 * j + 1))
        }),
{
    reveal(child_sum);
    let g = levels[k - 1];
    if k == levels.len() {
        assert(g.side >= 2);
        assert(node_val(levels, k, i, j) == child_sum(g, 0, 0));
    } else {
        assert(levels[k].at(i, j) == child_sum(g, i, j));
        assert(2 * levels[k].side == g.side);
    }
    lemma_node_bound(levels, side, k - 1, 2 * i, 2 * j);
    lemma_node_bound(levels, side, k - 1, 2 * i, 2 * j + 1);
    lemma_node_bound(levels, side, k - 1, 2 * i + 1, 2 * j);
    lemma_node_bound(levels, side, k - 1, 2 * i + 1, 2 * j + 1);
}

/// Descend the rate index from the root with a sample `u` below the total
/// rate; return the selected base cell and the remaining residual, exactly
/// as the selection recursion prescribes.
pub fn tree_choose_point(levels: &Vec<RateGrid>, side: usize, u: u64) -> (res: (usize, usize, u64))
    requires
        tree_wf(levels@, side as int),
        8 <= side <= crate::base::MAX_CANVAS_SIZE,
        levels@.len() >= 2,
        u < root_sum(levels@),
    ensures
        (res.0 as int, res.1 as int, res.2 as int) == select_from(
            levels@,
            levels@.len() as int,
            0,
            0,
            u as int,
        ),
        res.0 < side,
        res.1 < side,
        res.2 < levels@[0].at(res.0 as int, res.1 as int),
{
    let ghost l = levels@.len() as int;
    let mut k: usize = levels.len();
    let mut i: usize = 0;
    let mut j: usize = 0;
    let mut rem: u64 = u;
    while k > 0
        invariant
            tree_wf(levels@, side as int),
            8 <= side <= crate::base::MAX_CANVAS_SIZE,
            l == levels@.len(),
            0 <= k <= l,
            k == l ==> i == 0 && j == 0,
            k < l ==> i < levels@[k as int].side && j < levels@[k as int].side,
            rem < node_val(levels@, k as int, i as int, j as int),
            select_from(levels@, k as int, i as int, j as int, rem as int) == select_from(
                levels@,
                l,
                0,
                0,
                u as int,
            ),
        decreases k,
    {
        proof {
            lemma_select_step(levels@, side as int, k as int, i as int, j as int, rem as int);
        }
        let g = &levels[k - 1];
        let w0 = g.get(2 * i, 2 * j);
        let w1 = g.get(2 * i, 2 * j + 1);
        let w2 = g.get(2 * i + 1, 2 * j);
        let w3 = g.get(2 * i + 1, 2 * j + 1);
        if rem < w0 {
            i = 2 * i;
            j = 2 * j;
        } else if rem < w0 + w1 {
            rem = rem - w0;
            i = 2 * i;
            j = 2 * j + 1;
        } else if rem < w0 + w1 + w2 {
            rem = rem - w0 - w1;
            i = 2 * i + 1;
            j = 2 * j;
        } else {
            rem = rem - w0 - w1 - w2;
            i = 2 * i + 1;
            j = 2 * j + 1;
        }
        k -= 1;
    }
    proof {
        lemma_select_ok(levels@, side as int, l, 0, 0, u as int);
    }
    (i, j, rem)
}

/// Recompute the parent cell `np` of grid `rn` as the sum of its four
/// children in grid `rt`; every other cell keeps its value.
pub fn qt_update_level(rn: &mut RateGrid, rt: &RateGrid, np: (usize, usize))
    requires
        old(rn).wf(),
        rt.wf(),
        2 * old(rn).side == rt.side,
        np.0 < old(rn).side,
        np.1 < old(rn).side,
        child_sum(*rt, np.0 as int, np.1 as int) <= u64::MAX,
    ensures
        final(rn).wf(),
        final(rn).side == old(rn).side,
        final(rn).at(np.0 as int, np.1 as int) == child_sum(*rt, np.0 as int, np.1 as int),
        forall|r: int, c: int|
            0 <= r < old(rn).side && 0 <= c < old(rn).side && !(r == np.0 && c == np.1)
                ==> final(rn).at(r, c) == old(rn).at(r, c),
{
    proof {
        reveal(child_sum);
    }
    let i: usize = np.0;
    let j: usize = np.1;
    let v: u64 = rt.get(2 * i, 2 * j) + rt.get(2 * i, 2 * j + 1) + rt.get(2 * i + 1, 2 * j) + rt.get(
        2 * i + 1,
        2 * j + 1,
    );
    rn.set(i, j, v);
}

} // verus!
