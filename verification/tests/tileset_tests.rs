//! Tileset interning and model construction.

use rgrow::tileset::{TileSet, TileSpec, Bond, GlueIdent, Args, ModelVariant};
use rgrow::system::Seed;
use rgrow::base::GrowError;
use rgrow::canvas::CanvasType;
use rgrow::ffs::FFSRunConfig;
use rgrow::rng::rng_from_seed;

fn named(n: &str) -> GlueIdent {
    GlueIdent::Name(n.to_string())
}

fn tile(edges: Vec<GlueIdent>) -> TileSpec {
    TileSpec { name: None, edges, stoic: None, color: None }
}

fn options() -> Args {
    Args {
        size: 16,
        seed: Seed::NoSeed,
        smax: None,
        update_rate: 1000,
        tau: Some(1),
        model: None,
        canvas_type: Some(CanvasType::Periodic),
    }
}

fn simple_tileset() -> TileSet {
    TileSet {
        tiles: vec![tile(vec![named("a"), named("a"), named("a"), named("a")])],
        bonds: vec![Bond { name: named("a"), strength: 1 }],
        options: options(),
    }
}

#[test]
fn glue_interning_assigns_dense_ids() {
    let ts = simple_tileset();
    let (gm, gs) = ts.number_glues().unwrap();
    // identifier zero is the null glue with strength zero
    assert_eq!(gm.names[0], "0");
    assert_eq!(gs[0], 0);
    // the bonded name got identifier one with its declared strength
    assert_eq!(gm.names[1], "a");
    assert_eq!(gs[1], 1);
    assert_eq!(gm.names.len(), 2);
}

#[test]
fn duplicate_bond_name_is_an_error() {
    let mut ts = simple_tileset();
    ts.bonds.push(Bond { name: named("a"), strength: 2 });
    assert!(matches!(ts.number_glues(), Err(GrowError::DuplicateGlueName)));
}

#[test]
fn inconsistent_numbered_strength_is_an_error() {
    let mut ts = simple_tileset();
    ts.bonds = vec![
        Bond { name: GlueIdent::Num(3), strength: 1 },
        Bond { name: GlueIdent::Num(3), strength: 2 },
    ];
    assert!(matches!(
        ts.number_glues(),
        Err(GrowError::InconsistentGlueStrength)
    ));
}

#[test]
fn edge_names_get_default_strength() {
    let ts = TileSet {
        tiles: vec![tile(vec![named("x"), named("x"), named("x"), named("x")])],
        bonds: vec![],
        options: options(),
    };
    let (gm, gs) = ts.number_glues().unwrap();
    assert_eq!(gm.names[1], "x");
    // a glue first seen on a tile edge defaults to strength one
    assert_eq!(gs[1], 1);
}

#[test]
fn edges_resolve_with_null_row_first() {
    let ts = simple_tileset();
    let (gm, gs) = ts.number_glues().unwrap();
    let edges = ts.tile_edge_process(&gm, gs.len()).unwrap();
    assert_eq!(edges.len(), 2);
    assert_eq!(edges[0], (0, 0, 0, 0));
    assert_eq!(edges[1], (1, 1, 1, 1));
}

#[test]
fn unknown_edge_name_is_an_error() {
    let mut ts = simple_tileset();
    let (gm, gs) = ts.number_glues().unwrap();
    // a name that was never interned cannot be resolved
    ts.tiles[0].edges[2] = named("zzz");
    assert!(matches!(
        ts.tile_edge_process(&gm, gs.len()),
        Err(GrowError::BadConfig)
    ));
}

#[test]
fn stoics_prepend_empty_species() {
    let mut ts = simple_tileset();
    ts.tiles[0].stoic = Some(77);
    let r = ts.tile_stoics(50);
    assert_eq!(r, vec![0, 77]);
    ts.tiles[0].stoic = None;
    assert_eq!(ts.tile_stoics(50), vec![0, 50]);
}

#[test]
fn ktam_model_from_tileset() {
    let ts = simple_tileset();
    let detach = vec![1 << 24, 1 << 12, 1 << 6, 1 << 3, 1];
    let m = ts.into_static_seeded_ktam(detach, 1 << 20, 1 << 20).unwrap();
    assert_eq!(m.tile_rates, vec![0, 1 << 20]);
    assert_eq!(m.strength_ns[1][1], 1);
    assert_eq!(m.strength_we[1][1], 1);
    assert!(m.friends_s[1][1]);
}

#[test]
fn atam_model_needs_tau() {
    let mut ts = simple_tileset();
    let m = ts.into_static_seeded_atam(100).unwrap();
    assert_eq!(m.tau, 1);
    ts.options.tau = None;
    assert!(matches!(
        ts.into_static_seeded_atam(100),
        Err(GrowError::BadConfig)
    ));
}

#[test]
fn run_ffs_refuses_the_atam() {
    let mut ts = simple_tileset();
    ts.options.model = Some(ModelVariant::ATAM);
    let cfg = FFSRunConfig::default();
    let mut rng = rng_from_seed(1);
    let detach = vec![1 << 24, 1 << 12, 1 << 6, 1 << 3, 1];
    assert!(matches!(
        ts.run_ffs(&cfg, detach, 1 << 20, 1 << 20, &mut rng),
        Err(GrowError::FFSCannotRunATAM)
    ));
}

#[test]
fn run_ffs_from_tileset_produces_a_ladder() {
    let mut ts = simple_tileset();
    ts.options.tau = None;
    let mut cfg = FFSRunConfig::default();
    cfg.min_configs = 3;
    cfg.max_configs = 6;
    cfg.start_size = 3;
    cfg.size_step = 1;
    cfg.target_size = 5;
    cfg.early_cutoff = false;
    cfg.constant_variance = false;
    let mut rng = rng_from_seed(17);
    let detach = vec![1 << 24, 1 << 12, 1 << 6, 1 << 3, 1];
    let run = ts.run_ffs(&cfg, detach, 1 << 24, 1 << 20, &mut rng).unwrap();
    assert!(run.level_list.len() >= 2);
    assert_eq!(run.level_list[run.level_list.len() - 1].target_size, 5);
    for (s, t) in run.forward_vec() {
        assert!(1 <= s && s <= t);
    }
}

#[test]
fn null_glue_cannot_be_rebonded() {
    // a bond named "0" collides with the reserved null glue
    let mut ts = simple_tileset();
    ts.bonds.push(Bond { name: named("0"), strength: 2 });
    assert!(matches!(ts.number_glues(), Err(GrowError::DuplicateGlueName)));
    // a numbered bond for glue zero must keep strength zero
    let mut ts2 = simple_tileset();
    ts2.bonds = vec![Bond { name: GlueIdent::Num(0), strength: 3 }];
    assert!(matches!(
        ts2.number_glues(),
        Err(GrowError::InconsistentGlueStrength)
    ));
    // and is accepted at strength zero
    let mut ts3 = simple_tileset();
    ts3.bonds = vec![Bond { name: GlueIdent::Num(0), strength: 0 }];
    assert!(ts3.number_glues().is_ok());
}

#[test]
fn name_and_number_conflict_is_detected() {
    // the first named bond gets identifier one; a numbered bond for the
    // same identifier with another strength is inconsistent
    let mut ts = simple_tileset();
    ts.bonds = vec![
        Bond { name: GlueIdent::Num(1), strength: 2 },
        Bond { name: named("a"), strength: 1 },
    ];
    assert!(matches!(
        ts.number_glues(),
        Err(GrowError::InconsistentGlueStrength)
    ));
    // with matching strengths both declarations stand
    ts.bonds = vec![
        Bond { name: GlueIdent::Num(1), strength: 2 },
        Bond { name: named("a"), strength: 2 },
    ];
    let (gm, gs) = ts.number_glues().unwrap();
    assert_eq!(gm.names[1], "a");
    assert_eq!(gs[1], 2);
}
