//! Forward-flux-sampling behaviour: ladder structure, probability bounds,
//! and the exact-arithmetic helpers.

use rgrow::ffs::{FFSRun, FFSRunConfig, FFSLevel, FFSResult, FFSSurface, nuc_rate_from,
    variance_over_mean2_below, prob_above_exec, weighted_choice};
use rgrow::ktam::StaticKTAM;
use rgrow::canvas::CanvasType;
use rgrow::base::GrowError;
use rgrow::rng::rng_from_seed;

fn one_tile_edges() -> Vec<(usize, usize, usize, usize)> {
    vec![(0, 0, 0, 0), (1, 1, 1, 1)]
}

/// A strongly bonding single-species kTAM, so levels fill quickly.
fn sticky_ktam() -> StaticKTAM {
    let detach = vec![1 << 24, 1 << 12, 1 << 6, 1 << 3, 1];
    StaticKTAM::new(vec![0, 1 << 24], one_tile_edges(), vec![0, 1], detach, 1 << 20)
}

fn small_config() -> FFSRunConfig {
    let mut c = FFSRunConfig::default();
    c.min_configs = 4;
    c.max_configs = 8;
    c.canvas_size = 16;
    c.canvas_type = CanvasType::Periodic;
    c.start_size = 3;
    c.size_step = 1;
    c.target_size = 6;
    c.early_cutoff = false;
    c.constant_variance = false;
    c
}

#[test]
fn ffs_run_structure() {
    let sys = sticky_ktam();
    let cfg = small_config();
    let mut rng = rng_from_seed(23);
    let run = FFSRun::create(&sys, &cfg, &mut rng).unwrap();
    // the ladder starts with the dimer level at size two, then the first
    // sampled level at the start size, and climbs by one to the target
    assert!(run.level_list.len() >= 2);
    assert_eq!(run.level_list[0].target_size, 2);
    assert_eq!(run.level_list[1].target_size, 3);
    let last = &run.level_list[run.level_list.len() - 1];
    assert_eq!(last.target_size, 6);
    assert_eq!(run.forward_vec().len(), run.level_list.len() - 1);
    // one sampled level per size from the start size to the target
    assert_eq!(run.forward_vec().len(), 6 - 3 + 1);
    // the dimer level's forward probability is exactly one
    let l0 = &run.level_list[0];
    assert_eq!(l0.num_states as u64, l0.num_trials);
    // every forward probability lies in (0, 1]
    for (s, t) in run.forward_vec() {
        assert!(1 <= s && s <= t);
    }
    // the rate estimate never exceeds the dimerization rate
    assert!(run.nucleation_rate() <= run.dimerization_rate());
    assert!(run.dimerization_rate() > 0);
}

#[test]
fn ffs_levels_filled_and_parents_valid() {
    let sys = sticky_ktam();
    let cfg = small_config();
    let mut rng = rng_from_seed(29);
    let run = FFSRun::create(&sys, &cfg, &mut rng).unwrap();
    for (li, level) in run.level_list.iter().enumerate() {
        assert!(level.num_states >= 1);
        assert!(level.num_states as u64 <= level.num_trials);
        assert_eq!(level.previous_list.len(), level.num_states);
        if li >= 2 {
            // parent indices point into the previous level
            let prev = &run.level_list[li - 1];
            for &p in &level.previous_list {
                assert!(p < prev.num_states);
            }
        }
        // every stored state reached the level's threshold
        for st in &level.state_list {
            assert!(st.ntiles >= level.target_size);
        }
    }
}

#[test]
fn ffs_keep_configs_retains_states() {
    let sys = sticky_ktam();
    let mut cfg = small_config();
    cfg.keep_configs = true;
    let mut rng = rng_from_seed(31);
    let run = FFSRun::create(&sys, &cfg, &mut rng).unwrap();
    for level in &run.level_list {
        assert_eq!(level.state_list.len(), level.num_states);
    }
    let mut rng2 = rng_from_seed(31);
    let run2 = FFSRun::create_without_history(&sys, &cfg, &mut rng2).unwrap();
    // the dimer level and the final level keep their states; every level
    // in between was dropped once the next level had drawn from it
    let n = run2.level_list.len();
    assert_eq!(run2.level_list[0].state_list.len(), run2.level_list[0].num_states);
    assert_eq!(run2.level_list[n - 1].state_list.len(), run2.level_list[n - 1].num_states);
    for level in &run2.level_list[1..n - 1] {
        assert_eq!(level.state_list.len(), 0);
    }
}

#[test]
fn ffs_rejects_atam_free_config_errors() {
    let sys = sticky_ktam();
    let mut cfg = small_config();
    cfg.canvas_size = 12;
    let mut rng = rng_from_seed(37);
    assert!(matches!(
        FFSRun::create(&sys, &cfg, &mut rng),
        Err(GrowError::BadConfig)
    ));
    let mut cfg2 = small_config();
    cfg2.size_step = 0;
    assert!(matches!(
        FFSRun::create(&sys, &cfg2, &mut rng),
        Err(GrowError::BadConfig)
    ));
}

#[test]
fn ffs_early_cutoff_stops_short() {
    let sys = sticky_ktam();
    let mut cfg = small_config();
    cfg.target_size = 12;
    cfg.early_cutoff = true;
    // a cutoff probability of zero is always exceeded, so after one level
    // past the minimum size the driver stops early
    cfg.cutoff_prob_num = 0;
    cfg.cutoff_prob_den = 1;
    cfg.cutoff_number = 0;
    cfg.min_cutoff_size = 4;
    let mut rng = rng_from_seed(41);
    let run = FFSRun::create(&sys, &cfg, &mut rng).unwrap();
    let last = &run.level_list[run.level_list.len() - 1];
    assert!(last.target_size < 12);
    assert!(last.target_size >= 4);
}

#[test]
fn next_level_climbs_one_step() {
    let sys = sticky_ktam();
    let cfg = small_config();
    let mut rng = rng_from_seed(43);
    let pair = FFSLevel::nmers_from_dimers(&sys, &cfg, &mut rng).unwrap();
    let (first, dimer) = pair;
    assert_eq!(dimer.target_size, 2);
    assert_eq!(first.target_size, 3);
    assert_eq!(dimer.num_states, first.num_states);
    let next = first.next_level(&sys, &cfg, &mut rng).unwrap();
    assert_eq!(next.target_size, 4);
    assert!(next.num_states >= 1);
    for st in &next.state_list {
        assert!(st.ntiles >= 4);
    }
}

#[test]
fn variance_estimator_exact() {
    // (t - s) * den < num * t * s, the integer form of (1-p)/s < num/den
    // 10 successes in 20 trials: (1-0.5)/10 = 0.05
    assert!(variance_over_mean2_below(10, 20, 6, 100));
    assert!(!variance_over_mean2_below(10, 20, 5, 100));
    // no successes never passes
    assert!(!variance_over_mean2_below(0, 20, 99, 100));
}

#[test]
fn cutoff_comparison_exact() {
    // 9/10 > 80/100, not > 90/100
    assert!(prob_above_exec(9, 10, 80, 100));
    assert!(!prob_above_exec(9, 10, 90, 100));
}

#[test]
fn weighted_choice_picks_bucket() {
    let weights = vec![5u64, 0, 3, 2];
    assert_eq!(weighted_choice(&weights, 10, 0), 0);
    assert_eq!(weighted_choice(&weights, 10, 4), 0);
    assert_eq!(weighted_choice(&weights, 10, 5), 2);
    assert_eq!(weighted_choice(&weights, 10, 7), 2);
    assert_eq!(weighted_choice(&weights, 10, 8), 3);
    assert_eq!(weighted_choice(&weights, 10, 9), 3);
}

#[test]
fn nucleation_estimate_rounds_down_each_level() {
    // 1000 * (1/2) * (3/4) = 375
    assert_eq!(nuc_rate_from(1000, &vec![(1, 2), (3, 4)]), 375);
    // rounding happens at every step: 999 * 1/2 = 499, then * 1/3 = 166
    assert_eq!(nuc_rate_from(999, &vec![(1, 2), (1, 3)]), 166);
    // a probability of one changes nothing
    assert_eq!(nuc_rate_from(123, &vec![(7, 7)]), 123);
}

#[test]
fn surfaces_expose_counts_and_configs() {
    let sys = sticky_ktam();
    let mut cfg = small_config();
    cfg.keep_configs = true;
    let mut rng = rng_from_seed(47);
    let run = FFSRun::create(&sys, &cfg, &mut rng).unwrap();
    let surfaces = FFSResult::surfaces(&run);
    assert_eq!(surfaces.len(), run.level_list.len());
    for level in surfaces {
        assert_eq!(level.num_configs(), level.num_states);
        assert_eq!(FFSSurface::num_trials(level), level.num_trials);
        assert_eq!(FFSSurface::target_size(level), level.target_size);
        assert_eq!(level.previous_list().len(), level.num_states);
        for i in 0..level.num_configs() {
            let grid = level.get_config(i);
            // the stored canvas really holds the level's tile count
            let mut n = 0;
            for r in 0..grid.side {
                for c in 0..grid.side {
                    if grid.get(r, c) != 0 {
                        n += 1;
                    }
                }
            }
            assert!(n >= FFSSurface::target_size(level));
        }
    }
    assert_eq!(FFSResult::nucleation_rate(&run), run.nucleation_rate());
    assert_eq!(FFSResult::forward_vec(&run), run.forward_vec());
    assert_eq!(FFSResult::dimerization_rate(&run), run.dimerization_rate());
}

#[test]
fn early_cutoff_counts_consecutive_levels() {
    // with a cutoff after one high-probability level at size four, the
    // run stops at the first level at or past that size
    let sys = sticky_ktam();
    let mut cfg = small_config();
    cfg.target_size = 12;
    cfg.early_cutoff = true;
    cfg.cutoff_prob_num = 0;
    cfg.cutoff_prob_den = 1;
    cfg.cutoff_number = 1;
    cfg.min_cutoff_size = 4;
    let mut rng = rng_from_seed(53);
    let run = FFSRun::create(&sys, &cfg, &mut rng).unwrap();
    let last = &run.level_list[run.level_list.len() - 1];
    assert_eq!(last.target_size, 4);
}

#[test]
fn dimer_level_states_sit_at_the_midpoint() {
    let sys = sticky_ktam();
    let cfg = small_config();
    let mut rng = rng_from_seed(59);
    let pair = FFSLevel::nmers_from_dimers(&sys, &cfg, &mut rng).unwrap();
    let (_, dimer_level) = pair;
    let mid = 16 / 2;
    for st in &dimer_level.state_list {
        assert_eq!(st.ntiles, 2);
        assert_ne!(st.canvas.canvas.get(mid, mid), 0);
        let south = st.canvas.canvas.get(mid + 1, mid);
        let east = st.canvas.canvas.get(mid, mid + 1);
        assert!(south != 0 || east != 0);
    }
}
