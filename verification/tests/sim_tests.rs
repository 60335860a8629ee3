//! The simulation wrapper and the frame renderer.

use rgrow::sim::{ConcreteSimulation, Simulation, Rgba, draw_frame};
use rgrow::ktam::StaticKTAM;
use rgrow::canvas::{Canvas2D, CanvasType};
use rgrow::system::{EvolveBounds, EvolveOutcome};
use rgrow::rng::rng_from_seed;

fn one_tile_edges() -> Vec<(usize, usize, usize, usize)> {
    vec![(0, 0, 0, 0), (1, 1, 1, 1)]
}

fn simple_ktam() -> StaticKTAM {
    let detach = vec![1 << 28, 1 << 24, 1 << 20, 1 << 16, 1 << 12];
    StaticKTAM::new(vec![0, 1 << 20], one_tile_edges(), vec![0, 1], detach, 1 << 20)
}

fn palette() -> Vec<Rgba> {
    vec![
        Rgba { r: 0, g: 0, b: 0, a: 0 },
        Rgba { r: 200, g: 40, b: 40, a: 255 },
    ]
}

#[test]
fn frame_has_one_block_per_cell() {
    let mut c = Canvas2D::new_empty(8, CanvasType::Square);
    c.canvas.set(2, 3, 1);
    let frame = draw_frame(&c, &palette(), 2);
    let w = 16;
    assert_eq!(frame.len(), 4 * w * w);
    // every pixel of the 2 by 2 block covering cell (2, 3) is the tile's
    // colour
    for py in 4..6 {
        for px in 6..8 {
            let base = 4 * (py * w + px);
            assert_eq!(frame[base], 200);
            assert_eq!(frame[base + 1], 40);
            assert_eq!(frame[base + 2], 40);
            assert_eq!(frame[base + 3], 255);
        }
    }
    // a pixel over an empty cell is transparent black
    let base = 4 * (0 * w + 0);
    assert_eq!(&frame[base..base + 4], &[0, 0, 0, 0]);
}

#[test]
fn simulation_add_evolve_and_draw() {
    let sys = simple_ktam();
    let mut sim = ConcreteSimulation {
        system: sys,
        states: Vec::new(),
        rng: rng_from_seed(2),
        palette: palette(),
        canvas_type: CanvasType::Square,
    };
    let idx = sim.add_state(16).unwrap();
    assert_eq!(idx, 0);
    // an empty state is dead immediately
    let bounds = EvolveBounds { events: Some(10), size_min: None, size_max: None };
    assert_eq!(sim.evolve(idx, bounds), Ok(EvolveOutcome::DeadState));
    // an index that names no state is refused
    assert!(sim.evolve(5, bounds).is_err());
    let frame = sim.draw(idx, 1);
    assert_eq!(frame.len(), 4 * 16 * 16);
    let st = sim.state_ref(idx);
    assert_eq!(st.ntiles, 0);
}

#[test]
fn simulation_rejects_bad_state_sizes() {
    let sys = simple_ktam();
    let mut sim = ConcreteSimulation {
        system: sys,
        states: Vec::new(),
        rng: rng_from_seed(2),
        palette: palette(),
        canvas_type: CanvasType::Square,
    };
    assert!(sim.add_state(4).is_err());
    assert!(sim.add_state(10000).is_err());
    assert!(sim.add_state(12).is_err());
}
