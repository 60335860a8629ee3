//! Square, row-major 2D arrays backing the canvas (tiles) and the rate
//! index (propensities), with exact update and summation lemmas.

use vstd::prelude::*;
use crate::base::{Tile, Rate, seq_rate_sum, lemma_seq_rate_sum_update};

verus! {

/// Row and column fit inside a square of the given side.
pub proof fn lemma_grid_index(side: int, r: int, c: int)
    by (nonlinear_arith)
    requires
        0 <= r < side,
        0 <= c < side,
    ensures
        0 <= r * side + c < side * side,
{
}

/// Row-major indexing is injective on a square of the given side.
pub proof fn lemma_grid_index_injective(side: int, r1: int, c1: int, r2: int, c2: int)
    by (nonlinear_arith)
    requires
        0 <= r1 < side,
        0 <= c1 < side,
        0 <= r2 < side,
        0 <= c2 < side,
        r1 * side + c1 == r2 * side + c2,
    ensures
        r1 == r2 && c1 == c2,
{
}

/// A square grid of per-site propensities.
#[derive(Clone, Debug)]
pub struct RateGrid {
    /// Side length.
    pub side: usize,
    /// Row-major cell values.
    pub cells: Vec<Rate>,
}

impl RateGrid {
    /// The backing vector has exactly `side * side` cells.
    pub open spec fn wf(self) -> bool {
        self.cells.len() == self.side * self.side && self.side >= 1
    }

    /// The value stored at (`r`, `c`).
    pub open spec fn at(self, r: int, c: int) -> Rate {
        self.cells@[r * self.side + c]
    }

    /// Sum of all cells.
    pub open spec fn sum(self) -> int {
        seq_rate_sum(self.cells@)
    }

    /// A grid of the given side, all zero.
    pub fn new_zero(side: usize) -> (g: Self)
        requires
            1 <= side,
            side * side <= usize::MAX,
        ensures
            g.wf(),
            g.side == side,
            forall|r: int, c: int| 0 <= r < side && 0 <= c < side ==> g.at(r, c) == 0,
            g.sum() == 0,
    {
        let n: usize = side * side;
        let mut cells: Vec<Rate> = Vec::new();
        let mut i: usize = 0;
        while i < n
            invariant
                cells.len() == i,
                i <= n,
                forall|k: int| 0 <= k < i ==> cells@[k] == 0u64,
                seq_rate_sum(cells@) == 0,
            decreases n - i,
        {
            proof {
                assert(seq_rate_sum(cells@.push(0u64)) == seq_rate_sum(cells@.push(0u64).drop_last()) + 0);
                assert(cells@.push(0u64).drop_last() =~= cells@);
            }
            cells.push(0u64);
            i += 1;
        }
        let g = RateGrid { side, cells };
        proof {
            assert forall|r: int, c: int| 0 <= r < side && 0 <= c < side implies g.at(r, c) == 0u64 by {
                lemma_grid_index(side as int, r, c);
            }
        }
        g
    }

    /// Read the value at (`r`, `c`).
    pub fn get(&self, r: usize, c: usize) -> (v: Rate)
        requires
            self.wf(),
            r < self.side,
            c < self.side,
        ensures
            v == self.at(r as int, c as int),
    {
        proof {
            lemma_grid_index(self.side as int, r as int, c as int);
        }
        self.cells[r * self.side + c]
    }

    /// Write `v` at (`r`, `c`); all other cells keep their values and the
    /// total changes by exactly the difference at the touched cell.
    pub fn set(&mut self, r: usize, c: usize, v: Rate)
        requires
            old(self).wf(),
            r < old(self).side,
            c < old(self).side,
        ensures
            final(self).wf(),
            final(self).side == old(self).side,
            final(self).at(r as int, c as int) == v,
            forall|r2: int, c2: int|
                0 <= r2 < old(self).side && 0 <= c2 < old(self).side && !(r2 == r && c2 == c)
                    ==> final(self).at(r2, c2) == old(self).at(r2, c2),
            final(self).sum() == old(self).sum() - old(self).at(r as int, c as int) + v,
    {
        proof {
            lemma_grid_index(self.side as int, r as int, c as int);
            lemma_seq_rate_sum_update(self.cells@, r as int * self.side + c, v);
        }
        let i: usize = r * self.side + c;
        self.cells.set(i, v);
        proof {
            let side = self.side as int;
            assert forall|r2: int, c2: int|
                0 <= r2 < side && 0 <= c2 < side && !(r2 == r && c2 == c)
                    implies self.at(r2, c2) == old(self).at(r2, c2) by {
                lemma_grid_index(side, r2, c2);
                if r2 * side + c2 == r as int * side + c as int {
                    lemma_grid_index_injective(side, r2, c2, r as int, c as int);
                }
            }
        }
    }

    /// The total is non-negative and bounds every cell.
    pub proof fn lemma_cell_le_sum(self, r: int, c: int)
        requires
            self.wf(),
            0 <= r < self.side,
            0 <= c < self.side,
        ensures
            0 <= self.at(r, c) <= self.sum(),
    {
        lemma_grid_index(self.side as int, r, c);
        crate::base::lemma_seq_rate_sum_bounds(self.cells@, r * self.side + c);
    }
}

/// Number of non-zero entries in a sequence of tiles.
pub open spec fn count_nonzero(s: Seq<Tile>) -> int
    decreases s.len(),
{
    if s.len() == 0 {
        0
    } else {
        count_nonzero(s.drop_last()) + if s.last() != 0usize { 1int } else { 0int }
    }
}

/// A count of non-zero entries lies between 0 and the length.
pub proof fn lemma_count_nonzero_bounds(s: Seq<Tile>)
    ensures
        0 <= count_nonzero(s) <= s.len(),
    decreases s.len(),
{
    if s.len() > 0 {
        lemma_count_nonzero_bounds(s.drop_last());
    }
}

/// A sequence whose non-zero count is zero is all zeros, and conversely.
pub proof fn lemma_count_nonzero_zero(s: Seq<Tile>)
    ensures
        count_nonzero(s) == 0 <==> (forall|i: int| 0 <= i < s.len() ==> s[i] == 0usize),
    decreases s.len(),
{
    if s.len() > 0 {
        lemma_count_nonzero_zero(s.drop_last());
        lemma_count_nonzero_bounds(s.drop_last());
        if count_nonzero(s) == 0 {
            assert forall|i: int| 0 <= i < s.len() implies s[i] == 0usize by {
                if i < s.len() - 1 {
                    assert(s.drop_last()[i] == s[i]);
                }
            }
        } else {
            if forall|i: int| 0 <= i < s.len() ==> s[i] == 0usize {
                assert forall|i: int| 0 <= i < s.drop_last().len()
                    implies s.drop_last()[i] == 0usize by {
                    assert(s.drop_last()[i] == s[i]);
                }
                assert(s.last() == s[s.len() - 1]);
                assert(false);
            }
        }
    }
}

/// Updating one entry changes the non-zero count by the difference in
/// emptiness at that entry.
pub proof fn lemma_count_nonzero_update(s: Seq<Tile>, i: int, v: Tile)
    requires
        0 <= i < s.len(),
    ensures
        count_nonzero(s.update(i, v)) == count_nonzero(s)
            - (if s[i] != 0usize { 1int } else { 0int })
            + (if v != 0usize { 1int } else { 0int }),
    decreases s.len(),
{
    let t = s.update(i, v);
    if i == s.len() - 1 {
        assert(t.drop_last() =~= s.drop_last());
    } else {
        assert(t.drop_last() =~= s.drop_last().update(i, v));
        lemma_count_nonzero_update(s.drop_last(), i, v);
    }
}

/// A square grid of tiles.
#[derive(Clone, Debug)]
pub struct TileGrid {
    /// Side length.
    pub side: usize,
    /// Row-major cell values; `0` is an empty cell.
    pub cells: Vec<Tile>,
}

impl TileGrid {
    /// The backing vector has exactly `side * side` cells.
    pub open spec fn wf(self) -> bool {
        self.cells.len() == self.side * self.side && self.side >= 1
    }

    /// The tile stored at (`r`, `c`).
    pub open spec fn at(self, r: int, c: int) -> Tile {
        self.cells@[r * self.side + c]
    }

    /// Number of non-empty cells.
    pub open spec fn ntiles(self) -> int {
        count_nonzero(self.cells@)
    }

    /// A grid of the given side, all empty.
    pub fn new_empty(side: usize) -> (g: Self)
        requires
            1 <= side,
            side * side <= usize::MAX,
        ensures
            g.wf(),
            g.side == side,
            forall|r: int, c: int| 0 <= r < side && 0 <= c < side ==> g.at(r, c) == 0,
            g.ntiles() == 0,
    {
        let n: usize = side * side;
        let mut cells: Vec<Tile> = Vec::new();
        let mut i: usize = 0;
        while i < n
            invariant
                cells.len() == i,
                i <= n,
                forall|k: int| 0 <= k < i ==> cells@[k] == 0usize,
                count_nonzero(cells@) == 0,
            decreases n - i,
        {
            proof {
                assert(cells@.push(0usize).drop_last() =~= cells@);
            }
            cells.push(0usize);
            i += 1;
        }
        let g = TileGrid { side, cells };
        proof {
            assert forall|r: int, c: int| 0 <= r < side && 0 <= c < side implies g.at(r, c) == 0usize by {
                lemma_grid_index(side as int, r, c);
            }
        }
        g
    }

    /// Read the tile at (`r`, `c`).
    pub fn get(&self, r: usize, c: usize) -> (v: Tile)
        requires
            self.wf(),
            r < self.side,
            c < self.side,
        ensures
            v == self.at(r as int, c as int),
    {
        proof {
            lemma_grid_index(self.side as int, r as int, c as int);
        }
        self.cells[r * self.side + c]
    }

    /// Write tile `v` at (`r`, `c`); all other cells keep their values and
    /// the non-empty count changes by the difference in emptiness.
    pub fn set(&mut self, r: usize, c: usize, v: Tile)
        requires
            old(self).wf(),
            r < old(self).side,
            c < old(self).side,
        ensures
            final(self).wf(),
            final(self).side == old(self).side,
            final(self).at(r as int, c as int) == v,
            forall|r2: int, c2: int|
                0 <= r2 < old(self).side && 0 <= c2 < old(self).side && !(r2 == r && c2 == c)
                    ==> final(self).at(r2, c2) == old(self).at(r2, c2),
            final(self).ntiles() == old(self).ntiles()
                - (if old(self).at(r as int, c as int) != 0usize { 1int } else { 0int })
                + (if v != 0usize { 1int } else { 0int }),
    {
        proof {
            lemma_grid_index(self.side as int, r as int, c as int);
            lemma_count_nonzero_update(self.cells@, r as int * self.side + c, v);
        }
        let i: usize = r * self.side + c;
        self.cells.set(i, v);
        proof {
            let side = self.side as int;
            assert forall|r2: int, c2: int|
                0 <= r2 < side && 0 <= c2 < side && !(r2 == r && c2 == c)
                    implies self.at(r2, c2) == old(self).at(r2, c2) by {
                lemma_grid_index(side, r2, c2);
                if r2 * side + c2 == r as int * side + c as int {
                    lemma_grid_index_injective(side, r2, c2, r as int, c as int);
                }
            }
        }
    }
}

} // verus!
