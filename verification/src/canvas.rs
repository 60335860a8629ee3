//! The tile canvas: a square grid with a boundary behaviour chosen from
//! three variants (hard-walled square, torus, skewed tube), and the
//! neighbour-access capability used by the models.

use vstd::prelude::*;
use crate::base::{Tile, Point, MAX_CANVAS_SIZE};
use crate::grid::TileGrid;

verus! {

/// Boundary behaviour of a canvas.
#[derive(Clone, Copy, PartialEq, Eq, Structural, Debug)]
pub enum CanvasType {
    /// Hard boundary; cells in row or column 0 or `side - 1` are out of
    /// bounds and stay empty.
    Square,
    /// Torus: both axes wrap.
    Periodic,
    /// Cylinder with a skew: columns wrap, moving the row by one; rows 0 and
    /// `side - 1` are out of bounds.
    Tube,
}

/// A square tile grid together with its boundary behaviour.
#[derive(Clone, Debug)]
pub struct Canvas2D {
    /// The tiles.
    pub canvas: TileGrid,
    /// Boundary behaviour.
    pub variant: CanvasType,
}

/// Neighbour access and bounds checking shared by all canvas variants.
///
/// The neighbour functions `uv_*` may be called on any in-bounds point; the
/// mapped neighbour of an in-bounds point is always a valid grid index,
/// though it need not itself be in bounds.
pub trait Canvas: Sized {
    /// Side length of the grid.
    spec fn side(&self) -> int;

    /// The tile stored at (`r`, `c`).
    spec fn tile_at(&self, r: int, c: int) -> Tile;

    /// Structural invariant: a well-formed grid of supported size whose
    /// out-of-bounds cells are empty.
    spec fn wf(&self) -> bool;

    /// Whether (`r`, `c`) is a site that may hold a tile and fire events.
    spec fn inb(&self, r: int, c: int) -> bool;

    /// Coordinates of the northern neighbour.
    spec fn nbr_n(&self, r: int, c: int) -> (int, int);

    /// Coordinates of the eastern neighbour.
    spec fn nbr_e(&self, r: int, c: int) -> (int, int);

    /// Coordinates of the southern neighbour.
    spec fn nbr_s(&self, r: int, c: int) -> (int, int);

    /// Coordinates of the western neighbour.
    spec fn nbr_w(&self, r: int, c: int) -> (int, int);

    /// Neighbours of an in-bounds point are valid grid indices.
    proof fn lemma_nbr_in_grid(&self, r: int, c: int)
        requires
            self.wf(),
            self.inb(r, c),
        ensures
            0 <= self.nbr_n(r, c).0 < self.side() && 0 <= self.nbr_n(r, c).1 < self.side(),
            0 <= self.nbr_e(r, c).0 < self.side() && 0 <= self.nbr_e(r, c).1 < self.side(),
            0 <= self.nbr_s(r, c).0 < self.side() && 0 <= self.nbr_s(r, c).1 < self.side(),
            0 <= self.nbr_w(r, c).0 < self.side() && 0 <= self.nbr_w(r, c).1 < self.side();

    /// The neighbour relation is symmetric between in-bounds points: if `p`
    /// is a neighbour of `q`, then `q` is the opposite neighbour of `p`.
    proof fn lemma_nbr_symmetric(&self, pr: int, pc: int, qr: int, qc: int)
        requires
            self.wf(),
            self.inb(pr, pc),
            self.inb(qr, qc),
        ensures
            self.nbr_n(qr, qc) == (pr, pc) ==> self.nbr_s(pr, pc) == (qr, qc),
            self.nbr_s(qr, qc) == (pr, pc) ==> self.nbr_n(pr, pc) == (qr, qc),
            self.nbr_e(qr, qc) == (pr, pc) ==> self.nbr_w(pr, pc) == (qr, qc),
            self.nbr_w(qr, qc) == (pr, pc) ==> self.nbr_e(pr, pc) == (qr, qc);

    /// Whether `p` may hold a tile and fire events.
    fn inbounds(&self, p: Point) -> (b: bool)
        requires
            self.wf(),
            p.0 < self.side(),
            p.1 < self.side(),
        ensures
            b == self.inb(p.0 as int, p.1 as int);

    /// The tile at `p` itself.
    fn uv_p(&self, p: Point) -> (t: Tile)
        requires
            self.wf(),
            self.inb(p.0 as int, p.1 as int),
        ensures
            t == self.tile_at(p.0 as int, p.1 as int);

    /// The coordinates of the northern neighbour of `p`.
    fn nbr_n_point(&self, p: Point) -> (q: Point)
        requires
            self.wf(),
            self.inb(p.0 as int, p.1 as int),
        ensures
            (q.0 as int, q.1 as int) == self.nbr_n(p.0 as int, p.1 as int);

    /// The coordinates of the eastern neighbour of `p`.
    fn nbr_e_point(&self, p: Point) -> (q: Point)
        requires
            self.wf(),
            self.inb(p.0 as int, p.1 as int),
        ensures
            (q.0 as int, q.1 as int) == self.nbr_e(p.0 as int, p.1 as int);

    /// The coordinates of the southern neighbour of `p`.
    fn nbr_s_point(&self, p: Point) -> (q: Point)
        requires
            self.wf(),
            self.inb(p.0 as int, p.1 as int),
        ensures
            (q.0 as int, q.1 as int) == self.nbr_s(p.0 as int, p.1 as int);

    /// The coordinates of the western neighbour of `p`.
    fn nbr_w_point(&self, p: Point) -> (q: Point)
        requires
            self.wf(),
            self.inb(p.0 as int, p.1 as int),
        ensures
            (q.0 as int, q.1 as int) == self.nbr_w(p.0 as int, p.1 as int);

    /// The tile at the northern neighbour of `p`.
    fn uv_n(&self, p: Point) -> (t: Tile)
        requires
            self.wf(),
            self.inb(p.0 as int, p.1 as int),
        ensures
            t == self.tile_at(
                self.nbr_n(p.0 as int, p.1 as int).0,
                self.nbr_n(p.0 as int, p.1 as int).1,
            );

    /// The tile at the eastern neighbour of `p`.
    fn uv_e(&self, p: Point) -> (t: Tile)
        requires
            self.wf(),
            self.inb(p.0 as int, p.1 as int),
        ensures
            t == self.tile_at(
                self.nbr_e(p.0 as int, p.1 as int).0,
                self.nbr_e(p.0 as int, p.1 as int).1,
            );

    /// The tile at the southern neighbour of `p`.
    fn uv_s(&self, p: Point) -> (t: Tile)
        requires
            self.wf(),
            self.inb(p.0 as int, p.1 as int),
        ensures
            t == self.tile_at(
                self.nbr_s(p.0 as int, p.1 as int).0,
                self.nbr_s(p.0 as int, p.1 as int).1,
            );

    /// The tile at the western neighbour of `p`.
    fn uv_w(&self, p: Point) -> (t: Tile)
        requires
            self.wf(),
            self.inb(p.0 as int, p.1 as int),
        ensures
            t == self.tile_at(
                self.nbr_w(p.0 as int, p.1 as int).0,
                self.nbr_w(p.0 as int, p.1 as int).1,
            );
}

impl Canvas for Canvas2D {
    open spec fn side(&self) -> int {
        self.canvas.side as int
    }

    open spec fn tile_at(&self, r: int, c: int) -> Tile {
        self.canvas.at(r, c)
    }

    open spec fn wf(&self) -> bool {
        &&& self.canvas.wf()
        &&& 8 <= self.canvas.side <= MAX_CANVAS_SIZE
        &&& forall|r: int, c: int|
            0 <= r < self.side() && 0 <= c < self.side() && !self.inb(r, c)
                ==> self.tile_at(r, c) == 0usize
    }

    open spec fn inb(&self, r: int, c: int) -> bool {
        match self.variant {
            CanvasType::Square => 1 <= r < self.side() - 1 && 1 <= c < self.side() - 1,
            CanvasType::Periodic => 0 <= r < self.side() && 0 <= c < self.side(),
            CanvasType::Tube => 1 <= r < self.side() - 1 && 0 <= c < self.side(),
        }
    }

    open spec fn nbr_n(&self, r: int, c: int) -> (int, int) {
        match self.variant {
            CanvasType::Square => (r - 1, c),
            CanvasType::Periodic => (if r == 0 { self.side() - 1 } else { r - 1 }, c),
            CanvasType::Tube => (r - 1, c),
        }
    }

    open spec fn nbr_e(&self, r: int, c: int) -> (int, int) {
        match self.variant {
            CanvasType::Square => (r, c + 1),
            CanvasType::Periodic => (r, if c == self.side() - 1 { 0 } else { c + 1 }),
            CanvasType::Tube => if c == self.side() - 1 { (r + 1, 0) } else { (r, c + 1) },
        }
    }

    open spec fn nbr_s(&self, r: int, c: int) -> (int, int) {
        match self.variant {
            CanvasType::Square => (r + 1, c),
            CanvasType::Periodic => (if r == self.side() - 1 { 0 } else { r + 1 }, c),
            CanvasType::Tube => (r + 1, c),
        }
    }

    open spec fn nbr_w(&self, r: int, c: int) -> (int, int) {
        match self.variant {
            CanvasType::Square => (r, c - 1),
            CanvasType::Periodic => (r, if c == 0 { self.side() - 1 } else { c - 1 }),
            CanvasType::Tube => if c == 0 { (r - 1, self.side() - 1) } else { (r, c - 1) },
        }
    }

    proof fn lemma_nbr_in_grid(&self, r: int, c: int) {
    }

    proof fn lemma_nbr_symmetric(&self, pr: int, pc: int, qr: int, qc: int) {
    }

    fn inbounds(&self, p: Point) -> (b: bool) {
        match self.variant {
            CanvasType::Square => {
                1 <= p.0 && p.0 < self.canvas.side - 1 && 1 <= p.1 && p.1 < self.canvas.side - 1
            }
            CanvasType::Periodic => true,
            CanvasType::Tube => 1 <= p.0 && p.0 < self.canvas.side - 1,
        }
    }

    fn uv_p(&self, p: Point) -> (t: Tile) {
        self.canvas.get(p.0, p.1)
    }

    fn nbr_n_point(&self, p: Point) -> (q: Point) {
        match self.variant {
            CanvasType::Square => (p.0 - 1, p.1),
            CanvasType::Periodic => (
                if p.0 == 0 {
                    self.canvas.side - 1
                } else {
                    p.0 - 1
                },
                p.1,
            ),
            CanvasType::Tube => (p.0 - 1, p.1),
        }
    }

    fn nbr_e_point(&self, p: Point) -> (q: Point) {
        match self.variant {
            CanvasType::Square => (p.0, p.1 + 1),
            CanvasType::Periodic => (
                p.0,
                if p.1 == self.canvas.side - 1 {
                    0
                } else {
                    p.1 + 1
                },
            ),
            CanvasType::Tube => {
                if p.1 == self.canvas.side - 1 {
                    (p.0 + 1, 0)
                } else {
                    (p.0, p.1 + 1)
                }
            }
        }
    }

    fn nbr_s_point(&self, p: Point) -> (q: Point) {
        match self.variant {
            CanvasType::Square => (p.0 + 1, p.1),
            CanvasType::Periodic => (
                if p.0 == self.canvas.side - 1 {
                    0
                } else {
                    p.0 + 1
                },
                p.1,
            ),
            CanvasType::Tube => (p.0 + 1, p.1),
        }
    }

    fn nbr_w_point(&self, p: Point) -> (q: Point) {
        match self.variant {
            CanvasType::Square => (p.0, p.1 - 1),
            CanvasType::Periodic => (
                p.0,
                if p.1 == 0 {
                    self.canvas.side - 1
                } else {
                    p.1 - 1
                },
            ),
            CanvasType::Tube => {
                if p.1 == 0 {
                    (p.0 - 1, self.canvas.side - 1)
                } else {
                    (p.0, p.1 - 1)
                }
            }
        }
    }

    fn uv_n(&self, p: Point) -> (t: Tile) {
        match self.variant {
            CanvasType::Square => self.canvas.get(p.0 - 1, p.1),
            CanvasType::Periodic => {
                let r: usize = if p.0 == 0 { self.canvas.side - 1 } else { p.0 - 1 };
                self.canvas.get(r, p.1)
            }
            CanvasType::Tube => self.canvas.get(p.0 - 1, p.1),
        }
    }

    fn uv_e(&self, p: Point) -> (t: Tile) {
        match self.variant {
            CanvasType::Square => self.canvas.get(p.0, p.1 + 1),
            CanvasType::Periodic => {
                let c: usize = if p.1 == self.canvas.side - 1 { 0 } else { p.1 + 1 };
                self.canvas.get(p.0, c)
            }
            CanvasType::Tube => {
                if p.1 == self.canvas.side - 1 {
                    self.canvas.get(p.0 + 1, 0)
                } else {
                    self.canvas.get(p.0, p.1 + 1)
                }
            }
        }
    }

    fn uv_s(&self, p: Point) -> (t: Tile) {
        match self.variant {
            CanvasType::Square => self.canvas.get(p.0 + 1, p.1),
            CanvasType::Periodic => {
                let r: usize = if p.0 == self.canvas.side - 1 { 0 } else { p.0 + 1 };
                self.canvas.get(r, p.1)
            }
            CanvasType::Tube => self.canvas.get(p.0 + 1, p.1),
        }
    }

    fn uv_w(&self, p: Point) -> (t: Tile) {
        match self.variant {
            CanvasType::Square => self.canvas.get(p.0, p.1 - 1),
            CanvasType::Periodic => {
                let c: usize = if p.1 == 0 { self.canvas.side - 1 } else { p.1 - 1 };
                self.canvas.get(p.0, c)
            }
            CanvasType::Tube => {
                if p.1 == 0 {
                    self.canvas.get(p.0 - 1, self.canvas.side - 1)
                } else {
                    self.canvas.get(p.0, p.1 - 1)
                }
            }
        }
    }
}

impl Canvas2D {
    /// An empty canvas of the given side and boundary behaviour.
    pub fn new_empty(side: usize, variant: CanvasType) -> (c: Self)
        requires
            8 <= side <= MAX_CANVAS_SIZE,
        ensures
            c.wf(),
            c.side() == side,
            c.variant == variant,
            forall|r: int, cc: int| 0 <= r < side && 0 <= cc < side ==> c.tile_at(r, cc) == 0usize,
            c.canvas.ntiles() == 0,
    {
        proof {
            assert(side * side <= MAX_CANVAS_SIZE * MAX_CANVAS_SIZE) by (nonlinear_arith)
                requires side <= MAX_CANVAS_SIZE;
        }
        Canvas2D { canvas: TileGrid::new_empty(side), variant }
    }
}

} // verus!
