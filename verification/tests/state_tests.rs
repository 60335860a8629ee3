//! State-level behaviour: the rate index stays consistent with the canvas
//! through events, the tile counter stays exact, and cloning by non-zero
//! support reproduces a kTAM state.

use rgrow::atam::StaticATAM;
use rgrow::ktam::StaticKTAM;
use rgrow::canvas::{Canvas2D, CanvasType};
use rgrow::state::{State2DQT, StateStatus};
use rgrow::system::{System, EvolveOutcome};
use rgrow::rng::rng_from_seed;
use rgrow::base::GrowError;

fn one_tile_edges() -> Vec<(usize, usize, usize, usize)> {
    vec![(0, 0, 0, 0), (1, 1, 1, 1)]
}

fn simple_ktam() -> StaticKTAM {
    let detach = vec![1 << 28, 1 << 24, 1 << 20, 1 << 16, 1 << 12];
    StaticKTAM::new(vec![0, 1 << 20], one_tile_edges(), vec![0, 1], detach, 1 << 20)
}

fn simple_atam(tau: u64) -> StaticATAM {
    StaticATAM::new(vec![0, 100], one_tile_edges(), vec![0, 1], tau)
}

/// Recount the non-empty cells straight off the canvas.
fn recount(st: &State2DQT) -> usize {
    let side = st.canvas.canvas.side;
    let mut n = 0;
    for r in 0..side {
        for c in 0..side {
            if st.canvas.canvas.get(r, c) != 0 {
                n += 1;
            }
        }
    }
    n
}

/// Recompute the total rate straight off the base of the index, and check
/// every interior node sums its children.
fn check_tree(st: &State2DQT) -> u64 {
    let base = &st.rates[0];
    let mut sum: u64 = 0;
    for r in 0..base.side {
        for c in 0..base.side {
            sum += base.get(r, c);
        }
    }
    for k in 1..st.rates.len() {
        let g = &st.rates[k];
        let child = &st.rates[k - 1];
        for i in 0..g.side {
            for j in 0..g.side {
                let expect = child.get(2 * i, 2 * j) + child.get(2 * i, 2 * j + 1)
                    + child.get(2 * i + 1, 2 * j) + child.get(2 * i + 1, 2 * j + 1);
                assert_eq!(g.get(i, j), expect);
            }
        }
    }
    sum
}

#[test]
fn pair_state_has_two_tiles_and_matching_tree() {
    let sys = simple_ktam();
    let st = State2DQT::create_we_pair(&sys, 1, 1, 16).unwrap();
    assert_eq!(st.ntiles(), 2);
    assert_eq!(recount(&st), 2);
    assert_eq!(check_tree(&st), st.total_rate());
    let st2 = State2DQT::create_ns_pair(&sys, 1, 1, 16).unwrap();
    assert_eq!(st2.ntiles(), 2);
    assert_eq!(recount(&st2), 2);
    assert_eq!(check_tree(&st2), st2.total_rate());
}

#[test]
fn pair_rejects_bad_sizes() {
    let sys = simple_ktam();
    assert!(matches!(
        State2DQT::create_we_pair(&sys, 1, 1, 4),
        Err(GrowError::CanvasTooSmall)
    ));
    assert!(matches!(
        State2DQT::create_we_pair(&sys, 1, 1, 24),
        Err(GrowError::NotPowerOfTwo)
    ));
    assert!(matches!(
        State2DQT::create_we_pair(&sys, 1, 1, 2048),
        Err(GrowError::CanvasTooLarge)
    ));
}

#[test]
fn tree_and_counter_stay_exact_through_events() {
    let sys = simple_ktam();
    let mut st = State2DQT::create_we_pair(&sys, 1, 1, 16).unwrap();
    let mut rng = rng_from_seed(7);
    for _ in 0..200 {
        if st.total_rate() == 0 {
            break;
        }
        st.take_step(&sys, &mut rng);
        // the tile counter always equals the number of non-empty cells
        assert_eq!(st.ntiles(), recount(&st));
        // every interior node sums its children and the root matches the
        // cached total exactly
        assert_eq!(check_tree(&st), st.total_rate());
    }
}

#[test]
fn deterministic_step_applies_selected_event() {
    let sys = simple_ktam();
    let mut st = State2DQT::create_we_pair(&sys, 1, 1, 16).unwrap();
    let before_events = st.total_events();
    let before_tiles = st.ntiles();
    let (p, t) = st.take_step_with(&sys, 0);
    assert_eq!(st.total_events(), before_events + 1);
    assert_eq!(st.canvas.canvas.get(p.0, p.1), t);
    let delta = st.ntiles() as i64 - before_tiles as i64;
    assert!(delta == 1 || delta == -1);
}

#[test]
fn atam_growth_is_monotone() {
    // an aTAM assembly only grows: one tile per accepted step
    let sys = simple_atam(1);
    let mut st = State2DQT::create_we_pair(&sys, 1, 1, 16).unwrap();
    let mut rng = rng_from_seed(3);
    let mut last = st.ntiles();
    for _ in 0..100 {
        if st.total_rate() == 0 {
            break;
        }
        st.take_step(&sys, &mut rng);
        assert_eq!(st.ntiles(), last + 1);
        last = st.ntiles();
        assert_eq!(st.ntiles(), recount(&st));
    }
}

#[test]
fn dead_state_reported_without_any_event() {
    // with tau unreachable nothing can ever attach, so the state is dead
    let sys = simple_atam(10);
    let mut st = State2DQT::create_we_pair(&sys, 1, 1, 16).unwrap();
    assert_eq!(st.total_rate(), 0);
    let mut rng = rng_from_seed(1);
    let outcome = st.evolve_in_size_range(&sys, 0, 100, 1, &mut rng);
    assert_eq!(outcome, EvolveOutcome::DeadState);
    assert_eq!(st.total_events(), 0);
    assert_eq!(st.ntiles(), 2);
}

#[test]
fn evolve_stops_on_size_and_events() {
    let sys = simple_atam(1);
    let mut st = State2DQT::create_we_pair(&sys, 1, 1, 16).unwrap();
    let mut rng = rng_from_seed(5);
    let outcome = st.evolve_in_size_range(&sys, 0, 6, 1000, &mut rng);
    assert_eq!(outcome, EvolveOutcome::ReachedSizeMax);
    assert!(st.ntiles() >= 6);
    let mut st2 = State2DQT::create_we_pair(&sys, 1, 1, 16).unwrap();
    let outcome2 = st2.evolve_in_size_range(&sys, 0, 1000, 3, &mut rng);
    assert_eq!(outcome2, EvolveOutcome::ReachedEventsMax);
    assert_eq!(st2.total_events(), 3);
}

#[test]
fn set_point_updates_rates_around_it() {
    let sys = simple_ktam();
    let c = Canvas2D::new_empty(16, CanvasType::Square);
    let mut st = State2DQT::create(c, &sys).unwrap();
    assert_eq!(st.total_rate(), 0);
    st.set_point(&sys, (8, 8), 1);
    assert_eq!(st.ntiles(), 1);
    // the lone tile can detach and four neighbours can attach
    let expected = (1u64 << 28) + 4 * (1 << 20);
    assert_eq!(st.total_rate(), expected);
    st.set_point(&sys, (8, 8), 0);
    assert_eq!(st.ntiles(), 0);
    assert_eq!(st.total_rate(), 0);
}

#[test]
fn zeroed_copy_reproduces_ktam_state() {
    // round trip: a clone from non-zero-rate support has the same canvas
    // and exactly the same total rate
    let sys = simple_ktam();
    let mut st = State2DQT::create_we_pair(&sys, 1, 1, 16).unwrap();
    let mut rng = rng_from_seed(11);
    st.evolve_in_size_range(&sys, 0, 8, 500, &mut rng);
    let c = Canvas2D::new_empty(16, CanvasType::Square);
    let mut clone = State2DQT::create(c, &sys).unwrap();
    clone.zeroed_copy_from_state_nonzero_rate(&st, &sys);
    for r in 0..16 {
        for cc in 0..16 {
            assert_eq!(clone.canvas.canvas.get(r, cc), st.canvas.canvas.get(r, cc));
        }
    }
    assert_eq!(clone.total_rate(), st.total_rate());
    assert_eq!(clone.ntiles(), st.ntiles());
}

#[test]
fn ktam_single_tile_walk_stays_local() {
    // a lone reversible tile on an otherwise empty canvas random-walks
    // around size one; no cell far from the seed ever gets a rate
    let sys = simple_ktam();
    let c = Canvas2D::new_empty(16, CanvasType::Square);
    let mut st = State2DQT::create(c, &sys).unwrap();
    st.set_point(&sys, (8, 8), 1);
    let mut rng = rng_from_seed(19);
    let outcome = st.evolve_in_size_range(&sys, 0, 3, 2000, &mut rng);
    // the walk ends by emptying, reaching three tiles, or using the budget
    let _ = outcome;
    assert_eq!(st.ntiles(), recount(&st));
    assert_eq!(check_tree(&st), st.total_rate());
}
