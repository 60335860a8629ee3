//! A simulation bundles a model with a collection of states and a
//! generator, so callers can evolve and draw states without naming the
//! model type. The frame renderer is the compute half of a display loop:
//! it turns a canvas into RGBA bytes, one scaled square block per cell.

use vstd::prelude::*;
use rand::rngs::SmallRng;
use crate::base::{Tile, GrowError, MAX_CANVAS_SIZE};
use crate::canvas::{Canvas, Canvas2D, CanvasType};
use crate::state::{State2DQT, StateStatus};
use crate::system::{System, EvolveBounds, EvolveOutcome, tiles_in_range, bounds_size_min, bounds_size_max, bounds_budget};

verus! {

/// One RGBA colour.
#[derive(Clone, Copy, PartialEq, Eq, Structural, Debug)]
pub struct Rgba {
    /// Red component.
    pub r: u8,
    /// Green component.
    pub g: u8,
    /// Blue component.
    pub b: u8,
    /// Alpha component.
    pub a: u8,
}

/// The colour a cell paints: transparent black for an empty cell, the
/// palette entry of its species otherwise.
pub open spec fn cell_color(palette: Seq<Rgba>, t: Tile) -> Rgba {
    if t == 0usize {
        Rgba { r: 0, g: 0, b: 0, a: 0 }
    } else {
        palette[t as int]
    }
}

/// Render a canvas into an RGBA frame, row-major, each cell covering a
/// `scaled` by `scaled` block of pixels: the pixel at row `y` and column
/// `x` shows the cell at (`y / scaled`, `x / scaled`).
pub fn draw_frame(c: &Canvas2D, palette: &Vec<Rgba>, scaled: usize) -> (frame: Vec<u8>)
    requires
        c.wf(),
        tiles_in_range(c, palette@.len() as int),
        1 <= scaled <= 8,
    ensures
        frame@.len() == 4 * (c.side() * scaled) * (c.side() * scaled),
        forall|y: int, x: int|
            0 <= y < c.side() * scaled && 0 <= x < c.side() * scaled ==> {
                let px = cell_color(palette@, c.tile_at(y / scaled as int, x / scaled as int));
                &&& #[trigger] frame@[4 * (y * (c.side() * scaled) + x)] == px.r
                &&& frame@[4 * (y * (c.side() * scaled) + x) + 1] == px.g
                &&& frame@[4 * (y * (c.side() * scaled) + x) + 2] == px.b
                &&& frame@[4 * (y * (c.side() * scaled) + x) + 3] == px.a
            },
{
    let side: usize = c.canvas.side;
    proof {
        assert(side * scaled <= MAX_CANVAS_SIZE * 8) by (nonlinear_arith)
            requires side <= MAX_CANVAS_SIZE, scaled <= 8;
    }
    let w: usize = side * scaled;
    proof {
        assert(4 * w * w <= 4 * (MAX_CANVAS_SIZE * 8) * (MAX_CANVAS_SIZE * 8))
            by (nonlinear_arith)
            requires w <= MAX_CANVAS_SIZE * 8;
    }
    let mut frame: Vec<u8> = Vec::new();
    let mut y: usize = 0;
    while y < w
        invariant
            c.wf(),
            tiles_in_range(c, palette@.len() as int),
            1 <= scaled <= 8,
            side == c.canvas.side,
            w == side * scaled,
            w <= MAX_CANVAS_SIZE * 8,
            y <= w,
            frame@.len() == 4 * (y * w),
            forall|yy: int, xx: int|
                0 <= yy < y && 0 <= xx < w ==> {
                    let px = cell_color(palette@, c.tile_at(yy / scaled as int, xx / scaled as int));
                    &&& #[trigger] frame@[4 * (yy * w + xx)] == px.r
                    &&& frame@[4 * (yy * w + xx) + 1] == px.g
                    &&& frame@[4 * (yy * w + xx) + 2] == px.b
                    &&& frame@[4 * (yy * w + xx) + 3] == px.a
                },
        decreases w - y,
    {
        let cy: usize = y / scaled;
        proof {
            assert(y / scaled < side) by (nonlinear_arith)
                requires y < side * scaled, scaled >= 1, side >= 0, y >= 0;
        }
        let mut x: usize = 0;
        while x < w
            invariant
                c.wf(),
                tiles_in_range(c, palette@.len() as int),
                1 <= scaled <= 8,
                side == c.canvas.side,
                w == side * scaled,
                w <= MAX_CANVAS_SIZE * 8,
                y < w,
                x <= w,
                cy == y / scaled,
                cy < side,
                frame@.len() == 4 * (y * w) + 4 * x,
                forall|yy: int, xx: int|
                    0 <= yy < y && 0 <= xx < w ==> {
                        let px = cell_color(
                            palette@,
                            c.tile_at(yy / scaled as int, xx / scaled as int),
                        );
                        &&& #[trigger] frame@[4 * (yy * w + xx)] == px.r
                        &&& frame@[4 * (yy * w + xx) + 1] == px.g
                        &&& frame@[4 * (yy * w + xx) + 2] == px.b
                        &&& frame@[4 * (yy * w + xx) + 3] == px.a
                    },
                forall|xx: int|
                    0 <= xx < x ==> {
                        let px = cell_color(
                            palette@,
                            c.tile_at(y as int / scaled as int, xx / scaled as int),
                        );
                        &&& #[trigger] frame@[4 * (y as int * w + xx)] == px.r
                        &&& frame@[4 * (y as int * w + xx) + 1] == px.g
                        &&& frame@[4 * (y as int * w + xx) + 2] == px.b
                        &&& frame@[4 * (y as int * w + xx) + 3] == px.a
                    },
            decreases w - x,
        {
            let cx: usize = x / scaled;
            proof {
                assert(x / scaled < side) by (nonlinear_arith)
                    requires x < side * scaled, scaled >= 1, side >= 0, x >= 0;
                assert(4 * (y * w) + 4 * x + 4 <= 4 * w * w) by (nonlinear_arith)
                    requires y < w, x < w, w >= 0;
            }
            let t: Tile = c.canvas.get(cy, cx);
            proof {
                assert(c.tile_at(cy as int, cx as int) < palette@.len());
            }
            let px: Rgba = if t == 0 {
                Rgba { r: 0, g: 0, b: 0, a: 0 }
            } else {
                palette[t]
            };
            let ghost before = frame@;
            frame.push(px.r);
            frame.push(px.g);
            frame.push(px.b);
            frame.push(px.a);
            proof {
                let base = 4 * (y as int * w + x as int);
                assert(base == 4 * (y * w) + 4 * x);
                assert(frame@.len() == before.len() + 4);
                assert(forall|k: int| 0 <= k < before.len() ==> #[trigger] frame@[k] == before[k]);
                assert(frame@[base] == px.r && frame@[base + 1] == px.g && frame@[base + 2] == px.b
                    && frame@[base + 3] == px.a);
                assert(cell_color(palette@, c.tile_at(cy as int, cx as int)) == px);
                assert forall|xx: int|
                    0 <= xx < x + 1 implies {
                    let pc = cell_color(
                        palette@,
                        c.tile_at(y as int / scaled as int, xx / scaled as int),
                    );
                    &&& #[trigger] frame@[4 * (y as int * w + xx)] == pc.r
                    &&& frame@[4 * (y as int * w + xx) + 1] == pc.g
                    &&& frame@[4 * (y as int * w + xx) + 2] == pc.b
                    &&& frame@[4 * (y as int * w + xx) + 3] == pc.a
                } by {
                    if xx < x {
                        assert(0 <= 4 * (y as int * w + xx) && 4 * (y as int * w + xx) + 3
                            < before.len()) by (nonlinear_arith)
                            requires
                                0 <= xx < x as int,
                                before.len() == 4 * (y as int * w) + 4 * x,
                                0 <= y as int,
                                0 <= w,
                        ;
                    }
                }
                assert forall|yy: int, xx: int|
                    0 <= yy < y && 0 <= xx < w implies {
                    let pc = cell_color(palette@, c.tile_at(yy / scaled as int, xx / scaled as int));
                    &&& #[trigger] frame@[4 * (yy * w + xx)] == pc.r
                    &&& frame@[4 * (yy * w + xx) + 1] == pc.g
                    &&& frame@[4 * (yy * w + xx) + 2] == pc.b
                    &&& frame@[4 * (yy * w + xx) + 3] == pc.a
                } by {
                    assert(0 <= 4 * (yy * w + xx) && 4 * (yy * w + xx) + 3 < 4 * (y as int * w))
                        by (nonlinear_arith)
                        requires 0 <= yy < y as int, 0 <= xx < w, w >= 1;
                    assert(4 * (y as int * w) <= before.len());
                }
            }
            x += 1;
        }
        proof {
            assert(4 * (y * w) + 4 * w == 4 * ((y + 1) * w)) by (nonlinear_arith);
            assert forall|yy: int, xx: int|
                0 <= yy < y + 1 && 0 <= xx < w implies {
                let pc = cell_color(palette@, c.tile_at(yy / scaled as int, xx / scaled as int));
                &&& #[trigger] frame@[4 * (yy * w + xx)] == pc.r
                &&& frame@[4 * (yy * w + xx) + 1] == pc.g
                &&& frame@[4 * (yy * w + xx) + 2] == pc.b
                &&& frame@[4 * (yy * w + xx) + 3] == pc.a
            } by {
                if yy == y as int {
                    assert(frame@[4 * (y as int * w + xx)] == cell_color(
                        palette@,
                        c.tile_at(y as int / scaled as int, xx / scaled as int),
                    ).r);
                }
            }
        }
        y += 1;
    }
    proof {
        assert(4 * (w * w) == 4 * (side * scaled) * (side * scaled)) by (nonlinear_arith)
            requires w == side * scaled;
    }
    frame
}

/// A model, its states, and the generator that drives them.
pub struct ConcreteSimulation<Sy: System> {
    /// The model.
    pub system: Sy,
    /// The states, each evolved independently.
    pub states: Vec<State2DQT>,
    /// The generator shared by all evolutions.
    pub rng: SmallRng,
    /// One colour per tile species, for drawing.
    pub palette: Vec<Rgba>,
    /// Which canvas boundary new states use.
    pub canvas_type: CanvasType,
}

/// Evolving and inspecting states without naming the model.
pub trait Simulation: Sized {
    /// The collection invariant.
    spec fn sim_wf(&self) -> bool;

    /// How many states the simulation holds.
    spec fn num_states_spec(&self) -> int;

    /// The state stored at index `i`.
    spec fn state_at(&self, i: int) -> State2DQT;

    /// Evolve one state under the given bounds; stops on the event budget
    /// and the size window, leaves every other state alone, and reports
    /// which bound fired, a dead state taking priority over the lower
    /// size bound, the upper one, and the budget in turn.
    fn evolve(&mut self, state_index: usize, bounds: EvolveBounds) -> (r: Result<
        EvolveOutcome,
        GrowError,
    >)
        requires
            old(self).sim_wf(),
        ensures
            final(self).sim_wf(),
            final(self).num_states_spec() == old(self).num_states_spec(),
            state_index >= old(self).num_states_spec() ==> r == Err::<
                EvolveOutcome,
                GrowError,
            >(GrowError::NoSuchState) && *final(self) == *old(self),
            state_index < old(self).num_states_spec() ==> match r {
                Ok(outcome) => {
                    let pre = old(self).state_at(state_index as int);
                    let post = final(self).state_at(state_index as int);
                    &&& forall|j: int|
                        0 <= j < old(self).num_states_spec() && j != state_index
                            ==> final(self).state_at(j) == old(self).state_at(j)
                    &&& post.total_events <= pre.total_events + bounds_budget(
                        bounds,
                        pre.total_events as int,
                    )
                    &&& (pre.total_rate == 0 ==> outcome is DeadState && post == pre)
                    &&& (outcome is DeadState ==> post.total_rate == 0)
                    &&& (outcome is ReachedSizeMin ==> post.ntiles <= bounds_size_min(bounds))
                    &&& (outcome is ReachedSizeMax ==> post.ntiles >= bounds_size_max(bounds)
                        && post.ntiles > bounds_size_min(bounds))
                    &&& (outcome is ReachedEventsMax ==> post.total_events == pre.total_events
                        + bounds_budget(bounds, pre.total_events as int))
                    &&& (outcome is ReachedSizeMin || outcome is ReachedSizeMax || outcome
                        is ReachedEventsMax ==> post.total_rate != 0)
                    &&& (outcome is DeadState || outcome is ReachedSizeMin || outcome
                        is ReachedSizeMax || outcome is ReachedEventsMax)
                },
                Err(_) => false,
            };

    /// Borrow one state.
    fn state_ref(&self, state_index: usize) -> (s: &State2DQT)
        requires
            self.sim_wf(),
            state_index < self.num_states_spec();

    /// Add a fresh empty state of the given side; returns its index.
    fn add_state(&mut self, shape: usize) -> (r: Result<usize, GrowError>)
        requires
            old(self).sim_wf(),
        ensures
            final(self).sim_wf(),
            match r {
                Ok(i) => i == old(self).num_states_spec() && final(self).num_states_spec() == old(
                    self,
                ).num_states_spec() + 1,
                Err(_) => final(self).num_states_spec() == old(self).num_states_spec(),
            };

    /// Render one state into an RGBA frame.
    fn draw(&self, state_index: usize, scaled: usize) -> (frame: Vec<u8>)
        requires
            self.sim_wf(),
            state_index < self.num_states_spec(),
            1 <= scaled <= 8;
}

impl<Sy: System> Simulation for ConcreteSimulation<Sy> {
    open spec fn sim_wf(&self) -> bool {
        &&& self.system.swf()
        &&& self.palette@.len() == self.system.nspecies()
        &&& forall|i: int| 0 <= i < self.states@.len() ==> (#[trigger] self.states@[i]).wf(
            &self.system,
        )
    }

    open spec fn num_states_spec(&self) -> int {
        self.states@.len() as int
    }

    open spec fn state_at(&self, i: int) -> State2DQT {
        self.states@[i]
    }

    fn evolve(&mut self, state_index: usize, bounds: EvolveBounds) -> (r: Result<
        EvolveOutcome,
        GrowError,
    >) {
        if state_index >= self.states.len() {
            return Err(GrowError::NoSuchState);
        }
        let smin: usize = match bounds.size_min {
            Some(m) => m,
            None => 0,
        };
        let smax: usize = match bounds.size_max {
            Some(m) => m,
            None => usize::MAX,
        };
        let st = &mut self.states[state_index];
        let done = st.total_events();
        let budget: u64 = match bounds.events {
            Some(e) => {
                if e > u64::MAX - done {
                    u64::MAX - done
                } else {
                    e
                }
            }
            None => u64::MAX - done,
        };
        let outcome = st.evolve_in_size_range(&self.system, smin, smax, budget, &mut self.rng);
        proof {
            assert(self.states@ == old(self).states@.update(state_index as int, self.states@[state_index as int]));
            assert forall|i: int|
                0 <= i < self.states@.len() implies (#[trigger] self.states@[i]).wf(
                &self.system,
            ) by {
                if i != state_index {
                    assert(self.states@[i] == old(self).states@[i]);
                }
            }
        }
        Ok(outcome)
    }

    fn state_ref(&self, state_index: usize) -> (s: &State2DQT) {
        &self.states[state_index]
    }

    fn add_state(&mut self, shape: usize) -> (r: Result<usize, GrowError>) {
        if shape < 8 {
            return Err(GrowError::CanvasTooSmall);
        }
        if shape > MAX_CANVAS_SIZE {
            return Err(GrowError::CanvasTooLarge);
        }
        let canvas = Canvas2D::new_empty(shape, self.canvas_type);
        proof {
            self.system.lemma_nspecies_pos();
            assert(tiles_in_range(&canvas, self.system.nspecies()));
        }
        let st = match State2DQT::create(canvas, &self.system) {
            Ok(s) => s,
            Err(e) => {
                return Err(e);
            }
        };
        let idx: usize = self.states.len();
        self.states.push(st);
        Ok(idx)
    }

    fn draw(&self, state_index: usize, scaled: usize) -> (frame: Vec<u8>) {
        let st = &self.states[state_index];
        draw_frame(&st.canvas, &self.palette, scaled)
    }
}

} // verus!
