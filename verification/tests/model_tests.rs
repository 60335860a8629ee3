//! Model-level behaviour: exact propensities, choice agreement, and the
//! kTAM detachment table.

use rgrow::atam::StaticATAM;
use rgrow::ktam::StaticKTAM;
use rgrow::canvas::{Canvas, Canvas2D, CanvasType};
use rgrow::system::{System, SystemWithDimers, Seed, SeedTile};

/// Two species: the empty one and a tile whose four edges all carry glue
/// one.
fn one_tile_edges() -> Vec<(usize, usize, usize, usize)> {
    vec![(0, 0, 0, 0), (1, 1, 1, 1)]
}

fn simple_atam(tau: u64) -> StaticATAM {
    StaticATAM::new(vec![0, 100], one_tile_edges(), vec![0, 1], tau)
}

fn simple_ktam(detach: Vec<u64>) -> StaticKTAM {
    StaticKTAM::new(vec![0, 100], one_tile_edges(), vec![0, 1], detach, 1 << 20)
}

fn canvas_with(side: usize, variant: CanvasType, tiles: &[(usize, usize, usize)]) -> Canvas2D {
    let mut c = Canvas2D::new_empty(side, variant);
    for &(r, cc, t) in tiles {
        c.canvas.set(r, cc, t);
    }
    c
}

#[test]
fn atam_rate_next_to_tile() {
    let sys = simple_atam(1);
    let c = canvas_with(8, CanvasType::Square, &[(4, 4, 1)]);
    // the neighbour of the placed tile sees one matching bond of strength
    // one, which meets tau = 1, so the attachment rate is the tile's rate
    assert_eq!(sys.event_rate_at_point(&c, (4, 5)), 100);
    // a far-away empty site has no bonds, so no attachment
    assert_eq!(sys.event_rate_at_point(&c, (2, 2)), 0);
    // the occupied site itself never fires in the aTAM
    assert_eq!(sys.event_rate_at_point(&c, (4, 4)), 0);
    // out-of-bounds border cells have rate zero
    assert_eq!(sys.event_rate_at_point(&c, (0, 4)), 0);
}

#[test]
fn atam_rate_respects_tau() {
    // with tau = 2 a single strength-1 bond is not enough
    let sys = simple_atam(2);
    let c = canvas_with(8, CanvasType::Square, &[(4, 4, 1)]);
    assert_eq!(sys.event_rate_at_point(&c, (4, 5)), 0);
    // a site with two orthogonal neighbours reaches strength 2
    let c2 = canvas_with(8, CanvasType::Square, &[(4, 4, 1), (3, 5, 1)]);
    assert_eq!(sys.event_rate_at_point(&c2, (4, 5)), 100);
}

#[test]
fn atam_choice_matches_rate_bucket() {
    let sys = simple_atam(1);
    let c = canvas_with(8, CanvasType::Square, &[(4, 4, 1)]);
    let rate = sys.event_rate_at_point(&c, (4, 5));
    assert_eq!(rate, 100);
    // every accumulator below the rate picks the only attachable species
    for acc in [0, 1, 50, 99] {
        assert_eq!(sys.choose_event_at_point(&c, (4, 5), acc), 1);
    }
}

#[test]
fn ktam_detach_rate_is_table_lookup() {
    // detachment rate for total bond strength s is detach[s]
    let detach = vec![900, 300, 90, 30, 9];
    let sys = simple_ktam(detach);
    let c = canvas_with(8, CanvasType::Square, &[(4, 4, 1)]);
    // the lone tile has no bonds: total strength 0
    assert_eq!(sys.event_rate_at_point(&c, (4, 4)), 900);
    let c2 = canvas_with(8, CanvasType::Square, &[(4, 4, 1), (4, 5, 1)]);
    // each tile of the pair has one bond of strength 1
    assert_eq!(sys.event_rate_at_point(&c2, (4, 4)), 300);
    assert_eq!(sys.event_rate_at_point(&c2, (4, 5)), 300);
}

#[test]
fn ktam_isolated_empty_site_has_zero_rate() {
    // an empty site with four empty neighbours can never fire
    let detach = vec![900, 300, 90, 30, 9];
    let sys = simple_ktam(detach);
    let c = canvas_with(8, CanvasType::Square, &[(4, 4, 1)]);
    assert_eq!(sys.event_rate_at_point(&c, (2, 2)), 0);
    assert_eq!(sys.event_rate_at_point(&c, (6, 6)), 0);
    // but a site next to the tile has the attachment rate
    assert_eq!(sys.event_rate_at_point(&c, (4, 5)), 100);
}

#[test]
fn ktam_choice_deletes_occupied_and_attaches_empty() {
    let detach = vec![900, 300, 90, 30, 9];
    let sys = simple_ktam(detach);
    let c = canvas_with(8, CanvasType::Square, &[(4, 4, 1)]);
    // an occupied site always chooses deletion
    assert_eq!(sys.choose_event_at_point(&c, (4, 4), 0), 0);
    assert_eq!(sys.choose_event_at_point(&c, (4, 4), 899), 0);
    // an empty neighbour chooses the one attachable species
    assert_eq!(sys.choose_event_at_point(&c, (4, 5), 0), 1);
    assert_eq!(sys.choose_event_at_point(&c, (4, 5), 99), 1);
}

#[test]
fn ktam_detailed_balance_ratio() {
    // in a single-tile reversible model the forward/backward ratio at a
    // site equals exp(-delta_g): build the table from exp and check the
    // realised integer ratio against the float one
    let gse = 2.0f64;
    let scale = (1u64 << 30) as f64;
    let mut detach = Vec::new();
    for s in 0..5u32 {
        let v = (scale * (-gse * s as f64).exp()) as u64;
        detach.push(v.max(1));
    }
    let attach = (scale * (-4.0f64).exp()) as u64;
    let sys = StaticKTAM::new(
        vec![0, attach],
        one_tile_edges(),
        vec![0, 1],
        detach.clone(),
        1 << 20,
    );
    let c = canvas_with(8, CanvasType::Square, &[(4, 4, 1)]);
    // forward: attachment beside the seed; backward: that tile detaching
    // with one strength-1 bond
    let forward = sys.event_rate_at_point(&c, (4, 5)) as f64;
    let c2 = canvas_with(8, CanvasType::Square, &[(4, 4, 1), (4, 5, 1)]);
    let backward = sys.event_rate_at_point(&c2, (4, 5)) as f64;
    let expected = (-4.0f64).exp() / (-gse).exp();
    let got = forward / backward;
    assert!((got - expected).abs() / expected < 1e-6);
}

#[test]
fn ktam_dimers_enumerated_with_rates() {
    let detach = vec![900, 300, 90, 30, 9];
    let rate: u64 = 1 << 20;
    let sys = StaticKTAM::new(vec![0, rate], one_tile_edges(), vec![0, 1], detach, 1 << 20);
    let dimers = sys.calc_dimers();
    // the single bonding species pairs with itself both ways
    assert_eq!(dimers.len(), 2);
    for d in &dimers {
        assert_eq!(d.t1, 1);
        assert_eq!(d.t2, 1);
        // product of the attachment rates over the fixed-point unit
        assert_eq!(d.formation_rate, rate);
    }
}

#[test]
fn periodic_canvas_wraps_neighbours() {
    let detach = vec![900, 300, 90, 30, 9];
    let sys = simple_ktam(detach);
    // tile at the torus origin: all four wrapped neighbours see it
    let c = canvas_with(16, CanvasType::Periodic, &[(0, 0, 1)]);
    assert_eq!(sys.event_rate_at_point(&c, (15, 0)), 100);
    assert_eq!(sys.event_rate_at_point(&c, (0, 15)), 100);
    assert_eq!(sys.event_rate_at_point(&c, (0, 1)), 100);
    assert_eq!(sys.event_rate_at_point(&c, (1, 0)), 100);
    // on a square canvas the same border sites are out of bounds
    let c2 = canvas_with(16, CanvasType::Square, &[(1, 1, 1)]);
    assert_eq!(sys.event_rate_at_point(&c2, (0, 1)), 0);
}

#[test]
fn canvas_neighbour_reads() {
    let c = canvas_with(8, CanvasType::Square, &[(3, 4, 1), (5, 4, 2), (4, 3, 3), (4, 5, 4)]);
    assert_eq!(c.uv_n((4, 4)), 1);
    assert_eq!(c.uv_s((4, 4)), 2);
    assert_eq!(c.uv_w((4, 4)), 3);
    assert_eq!(c.uv_e((4, 4)), 4);
    assert_eq!(c.uv_p((4, 4)), 0);
    assert!(c.inbounds((1, 1)));
    assert!(!c.inbounds((0, 3)));
}

#[test]
fn choice_buckets_follow_species_order() {
    // two attachable species enumerated in ascending order: the first
    // occupies the accumulator range below its rate, the second the rest
    let edges = vec![(0, 0, 0, 0), (1, 1, 1, 1), (1, 1, 1, 1)];
    let detach = vec![900, 300, 90, 30, 9];
    let sys = StaticKTAM::new(vec![0, 100, 50], edges, vec![0, 1], detach, 1 << 20);
    let c = canvas_with(8, CanvasType::Square, &[(4, 4, 1)]);
    let rate = sys.event_rate_at_point(&c, (4, 5));
    assert_eq!(rate, 150);
    assert_eq!(sys.choose_event_at_point(&c, (4, 5), 0), 1);
    assert_eq!(sys.choose_event_at_point(&c, (4, 5), 99), 1);
    assert_eq!(sys.choose_event_at_point(&c, (4, 5), 100), 2);
    assert_eq!(sys.choose_event_at_point(&c, (4, 5), 149), 2);
}

#[test]
fn atam_choice_buckets_with_two_species() {
    let edges = vec![(0, 0, 0, 0), (1, 1, 1, 1), (1, 1, 1, 1)];
    let sys = StaticATAM::new(vec![0, 70, 30], edges, vec![0, 1], 1);
    let c = canvas_with(8, CanvasType::Square, &[(4, 4, 1)]);
    assert_eq!(sys.event_rate_at_point(&c, (4, 5)), 100);
    assert_eq!(sys.choose_event_at_point(&c, (4, 5), 0), 1);
    assert_eq!(sys.choose_event_at_point(&c, (4, 5), 69), 1);
    assert_eq!(sys.choose_event_at_point(&c, (4, 5), 70), 2);
    assert_eq!(sys.choose_event_at_point(&c, (4, 5), 99), 2);
}

#[test]
fn tube_canvas_wraps_columns_with_a_skew() {
    let detach = vec![900, 300, 90, 30, 9];
    let sys = simple_ktam(detach);
    // on the tube, moving east off the last column lands on the first
    // column one row down
    let c = canvas_with(16, CanvasType::Tube, &[(5, 0, 1)]);
    assert_eq!(c.uv_e((4, 15)), 1);
    assert_eq!(c.uv_w((5, 0)), 0);
    assert_eq!(sys.event_rate_at_point(&c, (4, 15)), 100);
}

#[test]
fn seed_tiles_never_detach() {
    let detach = vec![900, 300, 90, 30, 9];
    let sys = simple_ktam(detach)
        .with_seed(Seed::SingleTile(SeedTile { r: 4, c: 4, tile: 1 }));
    let c = canvas_with(8, CanvasType::Square, &[(4, 4, 1)]);
    // the seeded site has no detachment propensity
    assert_eq!(sys.event_rate_at_point(&c, (4, 4)), 0);
    // a non-seed tile elsewhere still detaches
    let c2 = canvas_with(8, CanvasType::Square, &[(2, 2, 1)]);
    assert_eq!(sys.event_rate_at_point(&c2, (2, 2)), 900);
}
