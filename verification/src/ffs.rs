//! Forward flux sampling: estimates the nucleation rate as the dimer
//! formation rate times the product of per-level forward probabilities,
//! managing ensembles of states that first crossed each assembly-size
//! threshold. Probabilities are carried exactly as success/trial pairs.

use vstd::prelude::*;
use rand::rngs::SmallRng;
use crate::base::{Tile, NumTiles, GrowError, MAX_CANVAS_SIZE, seq_rate_sum};
use crate::canvas::{Canvas, Canvas2D, CanvasType};
use crate::grid::TileGrid;
use crate::rng::{rng_below, rng_bool};
use crate::state::{State2DQT, StateStatus, StateEvolve, lemma_same_canvas_same_total};
use crate::system::{
    System, SystemWithDimers, Dimer, Orientation, EvolveBounds, Seed, dimer_weights,
};
use crate::ktam::StaticKTAM;

verus! {

/// The largest number of trials any one level may consume.
pub const TRIAL_CAP: u64 = 0x1_0000_0000_0000;

/// Default event budget for one trial when no bound is given.
pub const DEFAULT_EVENT_BUDGET: u64 = 0x1000_0000;

/// Configuration options for a forward-flux-sampling run. The variance
/// and cutoff targets are exact rationals, numerator over denominator.
#[derive(Clone, Copy, Debug)]
pub struct FFSRunConfig {
    /// Stop level-sample accumulation once the relative-variance estimate
    /// falls below the target; otherwise collect `max_configs` states.
    pub constant_variance: bool,
    /// Numerator of the target variance per squared mean.
    pub var_per_mean2_num: u64,
    /// Denominator of the target variance per squared mean.
    pub var_per_mean2_den: u64,
    /// Fewest states to collect at each level.
    pub min_configs: usize,
    /// Most states to collect at each level.
    pub max_configs: usize,
    /// Whether to stop early once several levels cross with high
    /// probability.
    pub early_cutoff: bool,
    /// Numerator of the early-cutoff probability.
    pub cutoff_prob_num: u64,
    /// Denominator of the early-cutoff probability.
    pub cutoff_prob_den: u64,
    /// How many consecutive high-probability levels trigger the cutoff.
    pub cutoff_number: usize,
    /// Smallest assembly size at which the cutoff may fire.
    pub min_cutoff_size: NumTiles,
    /// Bounds for trials of the first level.
    pub init_bound: EvolveBounds,
    /// Bounds for trials of subsequent levels.
    pub subseq_bound: EvolveBounds,
    /// Size threshold of the first sampled level.
    pub start_size: NumTiles,
    /// Size increment per subsequent level.
    pub size_step: NumTiles,
    /// Whether to keep each level's states after the next level is built.
    pub keep_configs: bool,
    /// Stop once the running nucleation-rate estimate falls below this.
    pub min_nuc_rate: Option<u64>,
    /// Side length of every canvas.
    pub canvas_size: usize,
    /// Boundary behaviour of every canvas.
    pub canvas_type: CanvasType,
    /// Final level's size threshold.
    pub target_size: NumTiles,
}

impl Default for FFSRunConfig {
    /// The default configuration: constant-variance sampling to one
    /// percent relative variance, a 99 percent early cutoff after four
    /// levels at size thirty, and a periodic 64-cell canvas.
    fn default() -> (c: Self)
        ensures
            c.constant_variance == true,
            c.var_per_mean2_num == 1 && c.var_per_mean2_den == 100,
            c.min_configs == 1000,
            c.max_configs == 100000,
            c.early_cutoff == true,
            c.cutoff_prob_num == 99 && c.cutoff_prob_den == 100,
            c.cutoff_number == 4,
            c.min_cutoff_size == 30,
            c.start_size == 3,
            c.size_step == 1,
            c.keep_configs == false,
            c.min_nuc_rate is None,
            c.canvas_size == 64,
            c.canvas_type == CanvasType::Periodic,
            c.target_size == 100,
            config_ok(c),
    {
        proof {
            reveal_with_fuel(crate::base::is_pow2, 8);
            assert(crate::base::is_pow2(64));
        }
        FFSRunConfig {
            constant_variance: true,
            var_per_mean2_num: 1,
            var_per_mean2_den: 100,
            min_configs: 1000,
            max_configs: 100000,
            early_cutoff: true,
            cutoff_prob_num: 99,
            cutoff_prob_den: 100,
            cutoff_number: 4,
            min_cutoff_size: 30,
            init_bound: EvolveBounds { events: None, size_min: None, size_max: None },
            subseq_bound: EvolveBounds { events: None, size_min: None, size_max: None },
            start_size: 3,
            size_step: 1,
            keep_configs: false,
            min_nuc_rate: None,
            canvas_size: 64,
            canvas_type: CanvasType::Periodic,
            target_size: 100,
        }
    }
}

/// The configuration ranges the driver supports.
pub open spec fn config_ok(c: FFSRunConfig) -> bool {
    &&& 8 <= c.canvas_size <= MAX_CANVAS_SIZE
    &&& crate::base::is_pow2(c.canvas_size as int)
    &&& 1 <= c.size_step
    &&& 1 <= c.max_configs
    &&& c.var_per_mean2_num <= 0x10_0000
    &&& 1 <= c.var_per_mean2_den
    &&& 1 <= c.cutoff_prob_den
    &&& 2 <= c.start_size
    &&& c.start_size <= usize::MAX - 2
    &&& c.size_step <= usize::MAX - c.target_size
    &&& c.cutoff_number < usize::MAX
    &&& c.cutoff_prob_num <= TRIAL_CAP
}

/// Decide whether a configuration is in range.
pub fn validate_config(c: &FFSRunConfig) -> (b: bool)
    ensures
        b == config_ok(*c),
{
    8 <= c.canvas_size && c.canvas_size <= MAX_CANVAS_SIZE
        && crate::base::is_pow2_exec(c.canvas_size) && 1 <= c.size_step && 1 <= c.max_configs
        && c.var_per_mean2_num <= 0x10_0000 && 1 <= c.var_per_mean2_den && 1 <= c.cutoff_prob_den
        && 2 <= c.start_size && c.start_size <= usize::MAX - 2
        && c.size_step <= usize::MAX - c.target_size && c.cutoff_number < usize::MAX
        && c.cutoff_prob_num <= TRIAL_CAP
}

/// The relative-variance estimate `(1 - p) / successes` with
/// `p = successes / trials`, compared against `num / den` in exact integer
/// arithmetic.
pub open spec fn var_below(s: int, t: int, num: int, den: int) -> bool {
    (t - s) * den < num * t * s
}

/// Decide whether the variance estimate is below the target.
pub fn variance_over_mean2_below(ns: u64, nt: u64, num: u64, den: u64) -> (b: bool)
    requires
        ns <= nt,
        nt <= TRIAL_CAP,
        num <= 0x10_0000,
    ensures
        b == var_below(ns as int, nt as int, num as int, den as int),
{
    proof {
        assert((nt - ns) as int * den as int <= 0x1_0000_0000_0000 * 0xffff_ffff_ffff_ffff)
            by (nonlinear_arith)
            requires (nt - ns) as int <= 0x1_0000_0000_0000, den <= 0xffff_ffff_ffff_ffffu64;
        assert(num as int * nt as int <= 0x10_0000 * 0x1_0000_0000_0000) by (nonlinear_arith)
            requires num <= 0x10_0000u64, nt as int <= 0x1_0000_0000_0000;
        assert(num as int * nt as int * ns as int <= 0x10_0000 * 0x1_0000_0000_0000
            * 0x1_0000_0000_0000) by (nonlinear_arith)
            requires
                num <= 0x10_0000u64,
                nt as int <= 0x1_0000_0000_0000,
                ns as int <= 0x1_0000_0000_0000,
    ;
    }
    let lhs: u128 = ((nt - ns) as u128) * (den as u128);
    let rhs: u128 = (num as u128) * (nt as u128) * (ns as u128);
    lhs < rhs
}

/// Whether `s / t > num / den`, in exact integer arithmetic.
pub open spec fn prob_above(s: int, t: int, num: int, den: int) -> bool {
    s * den > num * t
}

/// Decide whether a forward probability exceeds the cutoff.
pub fn prob_above_exec(s: u64, t: u64, num: u64, den: u64) -> (b: bool)
    requires
        s <= t,
        t <= TRIAL_CAP,
        num <= TRIAL_CAP,
    ensures
        b == prob_above(s as int, t as int, num as int, den as int),
{
    proof {
        assert(s as int * den as int <= 0x1_0000_0000_0000 * 0xffff_ffff_ffff_ffff)
            by (nonlinear_arith)
            requires s as int <= 0x1_0000_0000_0000, den <= 0xffff_ffff_ffff_ffffu64;
        assert(num as int * t as int <= 0x1_0000_0000_0000 * 0x1_0000_0000_0000)
            by (nonlinear_arith)
            requires num as int <= 0x1_0000_0000_0000, t as int <= 0x1_0000_0000_0000;
    }
    let lhs: u128 = (s as u128) * (den as u128);
    let rhs: u128 = (num as u128) * (t as u128);
    lhs > rhs
}

/// Cumulative weight of the entries below `k`.
pub open spec fn wprefix(s: Seq<u64>, k: int) -> int {
    seq_rate_sum(s.take(k))
}

/// Pick the index whose cumulative weight bucket contains `u`, walking the
/// weights in order.
pub fn weighted_choice(weights: &Vec<u64>, total: u64, u: u64) -> (idx: usize)
    requires
        seq_rate_sum(weights@) == total,
        u < total,
    ensures
        idx < weights@.len(),
        wprefix(weights@, idx as int) <= u < wprefix(weights@, idx as int + 1),
{
    let n: usize = weights.len();
    let mut rem: u64 = u;
    let mut i: usize = 0;
    proof {
        assert(weights@.take(0) =~= Seq::<u64>::empty());
    }
    while i < n
        invariant
            i <= n,
            n == weights@.len(),
            seq_rate_sum(weights@) == total,
            u < total,
            rem == u - wprefix(weights@, i as int),
            wprefix(weights@, i as int) <= u,
        decreases n - i,
    {
        proof {
            assert(weights@.take(i as int + 1).drop_last() =~= weights@.take(i as int));
            assert(weights@.take(i as int + 1).last() == weights@[i as int]);
        }
        let w = weights[i];
        if rem < w {
            return i;
        }
        rem = rem - w;
        i += 1;
    }
    proof {
        assert(weights@.take(n as int) =~= weights@);
        assert(false);
    }
    0
}

/// One surface of the sampling ladder: the states that first crossed its
/// size threshold, the index of each state's parent in the previous level,
/// and the exact success and trial counts behind its forward probability.
#[derive(Debug)]
pub struct FFSLevel {
    /// The stored configurations; emptied by `drop_states`.
    pub state_list: Vec<State2DQT>,
    /// The parent index of each stored configuration.
    pub previous_list: Vec<usize>,
    /// How many configurations this level collected.
    pub num_states: usize,
    /// How many trials were run to collect them.
    pub num_trials: u64,
    /// The assembly-size threshold of this level.
    pub target_size: NumTiles,
}

/// The level invariant: counts are consistent, the forward probability is
/// in (0, 1], and every stored state is well-formed over the model with
/// the ladder's canvas shape, at or above the level's threshold.
pub open spec fn level_wf<S: System>(l: FFSLevel, sys: &S, side: int, variant: CanvasType) -> bool {
    &&& l.previous_list@.len() == l.num_states
    &&& 1 <= l.num_states
    &&& l.num_states as int <= l.num_trials as int
    &&& l.num_trials <= TRIAL_CAP
    &&& l.state_list@.len() == l.num_states || l.state_list@.len() == 0
    &&& forall|i: int| 0 <= i < l.state_list@.len() ==> (#[trigger] l.state_list@[i]).wf(sys)
    &&& forall|i: int|
        0 <= i < l.state_list@.len() ==> (#[trigger] l.state_list@[i]).canvas.side() == side
    &&& forall|i: int|
        0 <= i < l.state_list@.len() ==> (#[trigger] l.state_list@[i]).canvas.variant == variant
    &&& forall|i: int|
        0 <= i < l.state_list@.len() ==> (#[trigger] l.state_list@[i]).ntiles >= l.target_size
}

impl FFSLevel {
    /// Free the stored states, keeping the counts and parent indices.
    pub fn drop_states(&mut self)
        ensures
            final(self).state_list@.len() == 0,
            final(self).previous_list == old(self).previous_list,
            final(self).num_states == old(self).num_states,
            final(self).num_trials == old(self).num_trials,
            final(self).target_size == old(self).target_size,
    {
        self.state_list = Vec::new();
    }

    /// Build the next level of the ladder: repeatedly clone a uniformly
    /// chosen parent by non-zero-rate support and evolve it inside the
    /// window from zero to the next threshold, recording the clones that
    /// reach it, until the variance target or the state budget is met.
    #[verifier::rlimit(100)]
    pub fn next_level<S: SystemWithDimers>(
        &self,
        system: &S,
        config: &FFSRunConfig,
        rng: &mut SmallRng,
    ) -> (res: Result<FFSLevel, GrowError>)
        requires
            system.swf(),
            config_ok(*config),
            level_wf(*self, system, config.canvas_size as int, config.canvas_type),
            self.state_list@.len() == self.num_states,
            self.target_size + config.size_step <= usize::MAX,
        ensures
            match res {
                Ok(l2) => {
                    &&& level_wf(l2, system, config.canvas_size as int, config.canvas_type)
                    &&& l2.state_list@.len() == l2.num_states
                    &&& l2.target_size == self.target_size + config.size_step
                    &&& forall|i: int|
                        0 <= i < l2.previous_list@.len() ==> (#[trigger] l2.previous_list@[i])
                            < self.num_states
                    &&& l2.num_states <= config.max_configs
                    &&& (l2.num_states == config.max_configs || (config.constant_variance
                        && l2.num_states >= config.min_configs && var_below(
                        l2.num_states as int,
                        l2.num_trials as int,
                        config.var_per_mean2_num as int,
                        config.var_per_mean2_den as int,
                    )))
                },
                Err(e) => e == GrowError::TooManyTrials || e == GrowError::OutOfEvents,
            },
    {
        let target: usize = self.target_size + config.size_step;
        let side: usize = config.canvas_size;
        let evb: u64 = match config.subseq_bound.events {
            Some(e) => e,
            None => DEFAULT_EVENT_BUDGET,
        };
        let mut state_list: Vec<State2DQT> = Vec::new();
        let mut previous_list: Vec<usize> = Vec::new();
        let mut trials: u64 = 0;
        while state_list.len() < config.max_configs
            invariant
                system.swf(),
                config_ok(*config),
                level_wf(*self, system, config.canvas_size as int, config.canvas_type),
                self.state_list@.len() == self.num_states,
                side == config.canvas_size,
                target == self.target_size + config.size_step,
                state_list@.len() == previous_list@.len(),
                state_list@.len() <= trials,
                state_list@.len() <= config.max_configs,
                trials <= TRIAL_CAP,
                forall|i: int| 0 <= i < state_list@.len() ==> (#[trigger] state_list@[i]).wf(
                    system,
                ),
                forall|i: int|
                    0 <= i < state_list@.len() ==> (#[trigger] state_list@[i]).canvas.side()
                        == side,
                forall|i: int|
                    0 <= i < state_list@.len() ==> (#[trigger] state_list@[i]).canvas.variant
                        == config.canvas_type,
                forall|i: int|
                    0 <= i < state_list@.len() ==> (#[trigger] state_list@[i]).ntiles >= target,
                forall|i: int|
                    0 <= i < previous_list@.len() ==> (#[trigger] previous_list@[i])
                        < self.num_states,
            ensures
                state_list@.len() == config.max_configs || (config.constant_variance
                    && state_list@.len() >= config.min_configs && var_below(
                    state_list@.len() as int,
                    trials as int,
                    config.var_per_mean2_num as int,
                    config.var_per_mean2_den as int,
                )),
            decreases TRIAL_CAP - trials,
        {
            let canvas = Canvas2D::new_empty(side, config.canvas_type);
            proof {
                system.lemma_nspecies_pos();
                assert(crate::system::tiles_in_range(&canvas, system.nspecies()));
            }
            let mut st = match State2DQT::create(canvas, system) {
                Ok(s) => s,
                Err(_) => {
                    proof {
                        assert(false);
                    }
                    return Err(GrowError::TooManyTrials);
                }
            };
            let mut i_old: usize = 0;
            let mut success: bool = false;
            let t_floor: u64 = trials;
            loop
                invariant_except_break
                    success == false,
                invariant
                    system.swf(),
                    config_ok(*config),
                    level_wf(*self, system, config.canvas_size as int, config.canvas_type),
                    self.state_list@.len() == self.num_states,
                    side == config.canvas_size,
                    target == self.target_size + config.size_step,
                    st.wf(system),
                    st.canvas.side() == side,
                    st.canvas.variant == config.canvas_type,
                    t_floor <= trials,
                    trials <= TRIAL_CAP,
                ensures
                    st.wf(system),
                    st.canvas.side() == side,
                    st.canvas.variant == config.canvas_type,
                    t_floor < trials,
                    trials <= TRIAL_CAP,
                    success ==> st.ntiles >= target && i_old < self.num_states,
                decreases TRIAL_CAP - trials,
            {
                if trials >= TRIAL_CAP {
                    return Err(GrowError::TooManyTrials);
                }
                let pick = rng_below(rng, self.state_list.len() as u64);
                i_old = pick as usize;
                st.zeroed_copy_from_state_nonzero_rate(&self.state_list[i_old], system);
                if st.total_events() > u64::MAX - evb {
                    return Err(GrowError::TooManyTrials);
                }
                st.evolve_in_size_range(system, 0, target, evb, rng);
                trials = trials + 1;
                if st.ntiles() >= target {
                    success = true;
                    break;
                }
                if st.ntiles() == 0 {
                    continue;
                }
                break;
            }
            if success {
                state_list.push(st);
                previous_list.push(i_old);
            }
            let ns: u64 = state_list.len() as u64;
            if config.constant_variance && state_list.len() >= config.min_configs && ns >= 1
                && variance_over_mean2_below(
                ns,
                trials,
                config.var_per_mean2_num,
                config.var_per_mean2_den,
            ) {
                break;
            }
        }
        let num_states: usize = state_list.len();
        if num_states == 0 {
            return Err(GrowError::TooManyTrials);
        }
        Ok(
            FFSLevel {
                state_list,
                previous_list,
                num_states,
                num_trials: trials,
                target_size: target,
            },
        )
    }

    /// Build the first level of the ladder: repeatedly place a dimer
    /// sampled by formation rate at the canvas midpoint and evolve it in
    /// the window from zero to the start size. Each success records both
    /// the grown state and a freshly reconstructed copy of its starting
    /// dimer, so the ladder's level zero holds the dimer states with
    /// forward probability one.
    #[verifier::rlimit(100)]
    pub fn nmers_from_dimers<S: SystemWithDimers>(
        system: &S,
        config: &FFSRunConfig,
        rng: &mut SmallRng,
    ) -> (res: Result<(FFSLevel, FFSLevel), GrowError>)
        requires
            system.swf(),
            config_ok(*config),
        ensures
            match res {
                Ok(ls) => {
                    &&& level_wf(ls.0, system, config.canvas_size as int, config.canvas_type)
                    &&& ls.0.state_list@.len() == ls.0.num_states
                    &&& ls.0.target_size == config.start_size
                    &&& ls.0.num_states <= config.max_configs
                    &&& (ls.0.num_states == config.max_configs || (config.constant_variance
                        && ls.0.num_states >= config.min_configs && var_below(
                        ls.0.num_states as int,
                        ls.0.num_trials as int,
                        config.var_per_mean2_num as int,
                        config.var_per_mean2_den as int,
                    )))
                    &&& level_wf(ls.1, system, config.canvas_size as int, config.canvas_type)
                    &&& ls.1.state_list@.len() == ls.1.num_states
                    &&& ls.1.target_size == 2
                    &&& ls.1.num_states as int == ls.1.num_trials as int
                    &&& ls.0.num_states == ls.1.num_states
                    &&& forall|i: int|
                        0 <= i < ls.1.state_list@.len() ==> is_midpoint_dimer(
                            #[trigger] ls.1.state_list@[i],
                            config.canvas_size as int / 2,
                        )
                },
                Err(e) => e == GrowError::TooManyTrials || e == GrowError::OutOfEvents || e
                    == GrowError::NoDimers || e == GrowError::RateOverflow,
            },
            res == Err::<(FFSLevel, FFSLevel), GrowError>(GrowError::NoDimers) <==> !has_dimers(
                system,
            ),
            res == Err::<(FFSLevel, FFSLevel), GrowError>(GrowError::RateOverflow)
                ==> system.dimer_rate_total() > u64::MAX,
            has_dimers(system) && system.dimer_rate_total() > u64::MAX ==> res == Err::<
                (FFSLevel, FFSLevel),
                GrowError,
            >(GrowError::RateOverflow),
    {
        let side: usize = config.canvas_size;
        let evb: u64 = match config.subseq_bound.events {
            Some(e) => e,
            None => DEFAULT_EVENT_BUDGET,
        };
        let dimers = system.calc_dimers();
        if dimers.len() == 0 {
            proof {
                if has_dimers(system) {
                    let (a, b, o) = choose|a: Tile, b: Tile, o: Orientation|
                        0 < a < system.nspecies() && 0 < b < system.nspecies()
                            && #[trigger] system.dimer_bonds(a, b, o) && system.dimer_rate(
                            a,
                            b,
                            o,
                        ) > 0;
                    assert(exists|i: int|
                        0 <= i < dimers@.len() && #[trigger] dimers@[i] == (Dimer {
                            t1: a,
                            t2: b,
                            orientation: o,
                            formation_rate: system.dimer_rate(a, b, o) as u64,
                        }));
                    assert(false);
                }
            }
            return Err(GrowError::NoDimers);
        }
        proof {
            let d0 = dimers@[0];
            assert(system.dimer_bonds(d0.t1, d0.t2, d0.orientation) && system.dimer_rate(
                d0.t1,
                d0.t2,
                d0.orientation,
            ) > 0);
            assert(has_dimers(system));
        }
        let mut weights: Vec<u64> = Vec::new();
        let mut total128: u128 = 0;
        let mut di: usize = 0;
        while di < dimers.len()
            invariant
                di <= dimers@.len(),
                weights@.len() == di,
                total128 == seq_rate_sum(weights@),
                total128 <= di as int * 0xffff_ffff_ffff_ffff,
                forall|i: int| 0 <= i < di ==> #[trigger] weights@[i]
                    == dimers@[i].formation_rate,
            decreases dimers@.len() - di,
        {
            proof {
                assert(weights@.push(dimers@[di as int].formation_rate).drop_last() =~= weights@);
                assert(di as int * 0xffff_ffff_ffff_ffff + 0xffff_ffff_ffff_ffff == (di as int + 1)
                    * 0xffff_ffff_ffff_ffff) by (nonlinear_arith);
                assert((di as int + 1) * 0xffff_ffff_ffff_ffff <= 0xffff_ffff_ffff_ffff
                    * 0xffff_ffff_ffff_ffff) by (nonlinear_arith)
                    requires di as int + 1 <= 0xffff_ffff_ffff_ffff;
            }
            weights.push(dimers[di].formation_rate);
            total128 = total128 + (weights[di] as u128);
            di += 1;
        }
        proof {
            assert(weights@ =~= dimer_weights(dimers@));
            assert(total128 == system.dimer_rate_total());
        }
        if total128 > 0xffff_ffff_ffff_ffffu128 {
            return Err(GrowError::RateOverflow);
        }
        let total: u64 = total128 as u64;
        if total == 0 {
            proof {
                crate::base::lemma_seq_rate_sum_bounds(weights@, 0);
                assert(weights@[0] == dimers@[0].formation_rate);
                assert(false);
            }
            return Err(GrowError::NoDimers);
        }
        let mid: usize = side / 2;
        let mut state_list: Vec<State2DQT> = Vec::new();
        let mut dimer_state_list: Vec<State2DQT> = Vec::new();
        let mut previous_list: Vec<usize> = Vec::new();
        let mut tile_list: Vec<usize> = Vec::new();
        let mut trials: u64 = 0;
        while state_list.len() < config.max_configs
            invariant
                system.swf(),
                config_ok(*config),
                has_dimers(system),
                system.dimer_rate_total() <= u64::MAX,
                side == config.canvas_size,
                mid == side / 2,
                seq_rate_sum(weights@) == total,
                total > 0,
                weights@.len() == dimers@.len(),
                forall|i: int| 0 <= i < dimers@.len() ==> #[trigger] weights@[i]
                    == dimers@[i].formation_rate,
                forall|i: int| 0 <= i < dimers@.len() ==> {
                    let dm = #[trigger] dimers@[i];
                    &&& 0 < dm.t1 < system.nspecies()
                    &&& 0 < dm.t2 < system.nspecies()
                },
                state_list@.len() == previous_list@.len(),
                state_list@.len() == dimer_state_list@.len(),
                state_list@.len() == tile_list@.len(),
                state_list@.len() <= config.max_configs,
                state_list@.len() <= trials,
                trials <= TRIAL_CAP,
                forall|i: int| 0 <= i < state_list@.len() ==> (#[trigger] state_list@[i]).wf(
                    system,
                ),
                forall|i: int|
                    0 <= i < state_list@.len() ==> (#[trigger] state_list@[i]).canvas.side()
                        == side,
                forall|i: int|
                    0 <= i < state_list@.len() ==> (#[trigger] state_list@[i]).canvas.variant
                        == config.canvas_type,
                forall|i: int|
                    0 <= i < state_list@.len() ==> (#[trigger] state_list@[i]).ntiles
                        >= config.start_size,
                forall|i: int|
                    0 <= i < dimer_state_list@.len() ==> (#[trigger] dimer_state_list@[i]).wf(
                        system,
                    ),
                forall|i: int|
                    0 <= i < dimer_state_list@.len()
                        ==> (#[trigger] dimer_state_list@[i]).canvas.side() == side,
                forall|i: int|
                    0 <= i < dimer_state_list@.len()
                        ==> (#[trigger] dimer_state_list@[i]).canvas.variant
                        == config.canvas_type,
                forall|i: int|
                    0 <= i < dimer_state_list@.len() ==> is_midpoint_dimer(
                        #[trigger] dimer_state_list@[i],
                        mid as int,
                    ),
                forall|i: int|
                    0 <= i < previous_list@.len() ==> (#[trigger] previous_list@[i]) < i + 1,
            ensures
                state_list@.len() == config.max_configs || (config.constant_variance
                    && state_list@.len() >= config.min_configs && var_below(
                    state_list@.len() as int,
                    trials as int,
                    config.var_per_mean2_num as int,
                    config.var_per_mean2_den as int,
                )),
            decreases TRIAL_CAP - trials,
        {
            let canvas = Canvas2D::new_empty(side, config.canvas_type);
            proof {
                system.lemma_nspecies_pos();
                assert(crate::system::tiles_in_range(&canvas, system.nspecies()));
            }
            let mut st = match State2DQT::create(canvas, system) {
                Ok(s) => s,
                Err(_) => {
                    proof {
                        assert(false);
                    }
                    return Err(GrowError::TooManyTrials);
                }
            };
            let mut chosen: usize = 0;
            let mut success: bool = false;
            let t_floor: u64 = trials;
            loop
                invariant_except_break
                    success == false,
                    st.ntiles == 0,
                invariant
                    system.swf(),
                    config_ok(*config),
                    has_dimers(system),
                    system.dimer_rate_total() <= u64::MAX,
                    side == config.canvas_size,
                    mid == side / 2,
                    seq_rate_sum(weights@) == total,
                    total > 0,
                    weights@.len() == dimers@.len(),
                    forall|i: int| 0 <= i < dimers@.len() ==> {
                        let dm = #[trigger] dimers@[i];
                        &&& 0 < dm.t1 < system.nspecies()
                        &&& 0 < dm.t2 < system.nspecies()
                    },
                    st.wf(system),
                    st.canvas.side() == side,
                    st.canvas.variant == config.canvas_type,
                    t_floor <= trials <= TRIAL_CAP,
                ensures
                    st.wf(system),
                    st.canvas.side() == side,
                    st.canvas.variant == config.canvas_type,
                    t_floor < trials,
                    trials <= TRIAL_CAP,
                    success && st.ntiles >= config.start_size && chosen < dimers@.len(),
                decreases TRIAL_CAP - trials,
            {
                if trials >= TRIAL_CAP {
                    return Err(GrowError::TooManyTrials);
                }
                let u = rng_below(rng, total);
                chosen = weighted_choice(&weights, total, u);
                let dm = dimers[chosen];
                place_dimer(&mut st, system, &dm, mid);
                if st.total_events() > u64::MAX - evb {
                    return Err(GrowError::TooManyTrials);
                }
                st.evolve_in_size_range(system, 0, config.start_size, evb, rng);
                trials = trials + 1;
                if st.ntiles() >= config.start_size {
                    success = true;
                    break;
                }
                if st.ntiles() == 0 {
                    continue;
                }
                return Err(GrowError::OutOfEvents);
            }
            if success {
                let dm = dimers[chosen];
                let canvas2 = Canvas2D::new_empty(side, config.canvas_type);
                proof {
                    system.lemma_nspecies_pos();
                    assert(crate::system::tiles_in_range(&canvas2, system.nspecies()));
                }
                let mut dimer_state = match State2DQT::create(canvas2, system) {
                    Ok(s) => s,
                    Err(_) => {
                        proof {
                            assert(false);
                        }
                        return Err(GrowError::TooManyTrials);
                    }
                };
                place_dimer(&mut dimer_state, system, &dm, mid);
                let t_choice: usize = if rng_bool(rng) {
                    dm.t1
                } else {
                    dm.t2
                };
                previous_list.push(state_list.len());
                state_list.push(st);
                dimer_state_list.push(dimer_state);
                tile_list.push(t_choice);
            }
            let ns: u64 = state_list.len() as u64;
            if config.constant_variance && state_list.len() >= config.min_configs && ns >= 1
                && variance_over_mean2_below(
                ns,
                trials,
                config.var_per_mean2_num,
                config.var_per_mean2_den,
            ) {
                break;
            }
        }
        let num_states: usize = state_list.len();
        if num_states == 0 {
            return Err(GrowError::TooManyTrials);
        }
        proof {
            assert(num_states as int <= trials as int);
        }
        Ok(
            (
                FFSLevel {
                    state_list,
                    previous_list,
                    num_states,
                    num_trials: trials,
                    target_size: config.start_size,
                },
                FFSLevel {
                    state_list: dimer_state_list,
                    previous_list: tile_list,
                    num_states,
                    num_trials: num_states as u64,
                    target_size: 2,
                },
            ),
        )
    }
}

/// The state holds exactly one dimer at the canvas midpoint: two tiles,
/// one at (`mid`, `mid`) and the other at its southern or eastern
/// neighbour, and nothing anywhere else.
pub open spec fn is_midpoint_dimer(st: State2DQT, mid: int) -> bool {
    &&& st.ntiles == 2
    &&& st.canvas.tile_at(mid, mid) != 0usize
    &&& (st.canvas.tile_at(mid + 1, mid) != 0usize || st.canvas.tile_at(mid, mid + 1) != 0usize)
    &&& forall|r: int, c: int|
        0 <= r < st.canvas.side() && 0 <= c < st.canvas.side() && !(r == mid && c == mid) && !(r
            == mid + 1 && c == mid) && !(r == mid && c == mid + 1)
            ==> #[trigger] st.canvas.tile_at(r, c) == 0usize
}

/// Place the two tiles of a dimer at and beside the canvas midpoint.
fn place_dimer<S: System>(st: &mut State2DQT, system: &S, dm: &Dimer, mid: usize)
    requires
        system.swf(),
        old(st).wf(system),
        0 < dm.t1 < system.nspecies(),
        0 < dm.t2 < system.nspecies(),
        mid == old(st).canvas.side() / 2,
        8 <= old(st).canvas.side() <= MAX_CANVAS_SIZE,
        old(st).ntiles == 0,
    ensures
        final(st).wf(system),
        final(st).canvas.side() == old(st).canvas.side(),
        final(st).canvas.variant == old(st).canvas.variant,
        final(st).ntiles == 2,
        final(st).total_events == old(st).total_events,
        final(st).canvas.tile_at(mid as int, mid as int) == dm.t1,
        dm.orientation is NS ==> final(st).canvas.tile_at(mid as int + 1, mid as int) == dm.t2,
        dm.orientation is WE ==> final(st).canvas.tile_at(mid as int, mid as int + 1) == dm.t2,
        forall|r: int, c: int|
            0 <= r < old(st).canvas.side() && 0 <= c < old(st).canvas.side() && !(r == mid && c
                == mid) && !(r == mid + 1 && c == mid) && !(r == mid && c == mid + 1)
                ==> #[trigger] final(st).canvas.tile_at(r, c) == 0usize,
{
    proof {
        let side = st.canvas.side();
        crate::grid::lemma_count_nonzero_zero(st.canvas.canvas.cells@);
        assert forall|r: int, c: int|
            0 <= r < side && 0 <= c < side implies #[trigger] st.canvas.tile_at(r, c)
            == 0usize by {
            crate::grid::lemma_grid_index(side, r, c);
        }
        assert(st.canvas.inb(mid as int, mid as int));
        assert(st.canvas.inb(mid as int + 1, mid as int));
        assert(st.canvas.inb(mid as int, mid as int + 1));
    }
    match dm.orientation {
        Orientation::NS => {
            st.set_point(system, (mid, mid), dm.t1);
            st.set_point(system, (mid + 1, mid), dm.t2);
        }
        Orientation::WE => {
            st.set_point(system, (mid, mid), dm.t1);
            st.set_point(system, (mid, mid + 1), dm.t2);
        }
    }
}


/// How far `a` still is below `b`, or zero once past it.
pub open spec fn dist_to(a: int, b: int) -> int {
    if a < b {
        b - a
    } else {
        0
    }
}

/// Some pair of real species bonds in some orientation with positive
/// formation rate: the model can nucleate.
pub open spec fn has_dimers<S: SystemWithDimers>(sys: &S) -> bool {
    exists|a: Tile, b: Tile, o: Orientation|
        0 < a < sys.nspecies() && 0 < b < sys.nspecies() && #[trigger] sys.dimer_bonds(a, b, o)
            && sys.dimer_rate(a, b, o) > 0
}

/// Success/trial pairs that stand for probabilities in (0, 1].
pub open spec fn probs_ok(s: Seq<(u64, u64)>) -> bool {
    forall|i: int| 0 <= i < s.len() ==> 1 <= (#[trigger] s[i]).0 <= s[i].1
}

/// The running nucleation-rate estimate: the dimerization rate multiplied
/// by each forward probability in turn, rounding down at each step.
pub open spec fn nuc_est(d: u64, probs: Seq<(u64, u64)>) -> int
    decreases probs.len(),
{
    if probs.len() == 0 {
        d as int
    } else {
        (nuc_est(d, probs.drop_last()) * probs.last().0 as int) / (probs.last().1 as int)
    }
}

/// Compute the nucleation-rate estimate; it never exceeds the
/// dimerization rate, because every factor is at most one.
pub fn nuc_rate_from(d: u64, probs: &Vec<(u64, u64)>) -> (r: u64)
    requires
        probs_ok(probs@),
    ensures
        r as int == nuc_est(d, probs@),
        r <= d,
{
    let n: usize = probs.len();
    let mut est: u64 = d;
    let mut i: usize = 0;
    proof {
        assert(probs@.take(0) =~= Seq::<(u64, u64)>::empty());
    }
    while i < n
        invariant
            i <= n,
            n == probs@.len(),
            probs_ok(probs@),
            est as int == nuc_est(d, probs@.take(i as int)),
            est <= d,
        decreases n - i,
    {
        let pair = probs[i];
        let s: u64 = pair.0;
        let t: u64 = pair.1;
        proof {
            assert(probs@.take(i as int + 1).drop_last() =~= probs@.take(i as int));
            assert(probs@.take(i as int + 1).last() == probs@[i as int]);
            assert((est as int * s as int) / (t as int) <= est as int) by (nonlinear_arith)
                requires 1 <= s as int <= t as int, est as int >= 0;
            assert((est as int * s as int) / (t as int) >= 0) by (nonlinear_arith)
                requires s as int >= 0, t as int >= 1, est as int >= 0;
        }
        proof {
            assert(est as int * s as int <= 0xffff_ffff_ffff_ffff * 0xffff_ffff_ffff_ffff)
                by (nonlinear_arith)
                requires est <= 0xffff_ffff_ffff_ffffu64, s <= 0xffff_ffff_ffff_ffffu64;
        }
        let prod: u128 = (est as u128) * (s as u128);
        let q: u128 = prod / (t as u128);
        est = q as u64;
        i += 1;
    }
    proof {
        assert(probs@.take(n as int) =~= probs@);
    }
    est
}

/// A full forward-flux-sampling result: the ladder of levels, the total
/// dimer formation rate, and each level's exact success/trial pair.
#[derive(Debug)]
pub struct FFSRun {
    /// The ladder, with the dimer level first.
    pub level_list: Vec<FFSLevel>,
    /// The total dimer formation rate.
    pub dimerization_rate: u64,
    /// The success/trial pair of each sampled level, dimer level excluded.
    pub forward_prob: Vec<(u64, u64)>,
}

/// The run invariant: a dimer level with forward probability one, one
/// success/trial pair in (0, 1] per sampled level, and a well-formed
/// ensemble at every level.
pub open spec fn run_wf<S: System>(r: FFSRun, sys: &S, side: int, variant: CanvasType) -> bool {
    &&& r.level_list@.len() >= 2
    &&& r.forward_prob@.len() == r.level_list@.len() - 1
    &&& probs_ok(r.forward_prob@)
    &&& forall|i: int|
        0 <= i < r.level_list@.len() ==> level_wf(#[trigger] r.level_list@[i], sys, side, variant)
    &&& r.level_list@[0].num_states as int == r.level_list@[0].num_trials as int
    &&& forall|i: int|
        0 <= i < r.forward_prob@.len() ==> (#[trigger] r.forward_prob@[i]) == (
            r.level_list@[i + 1].num_states as u64,
            r.level_list@[i + 1].num_trials,
        )
}

impl FFSRun {
    /// Run the whole ladder: build the dimer and first levels, then climb
    /// by `size_step` until the target size, an early cutoff, or the
    /// minimum-rate threshold ends the run.
    #[verifier::rlimit(100)]
    pub fn create<S: SystemWithDimers>(
        system: &S,
        config: &FFSRunConfig,
        rng: &mut SmallRng,
    ) -> (res: Result<FFSRun, GrowError>)
        requires
            system.swf(),
        ensures
            !config_ok(*config) ==> res == Err::<FFSRun, GrowError>(GrowError::BadConfig),
            match res {
                Ok(r) => {
                    &&& config_ok(*config)
                    &&& run_wf(r, system, config.canvas_size as int, config.canvas_type)
                    &&& r.level_list@[0].target_size == 2
                    &&& r.level_list@[1].target_size == config.start_size
                    &&& r.dimerization_rate as int == system.dimer_rate_total()
                    &&& forall|i: int|
                        1 <= i < r.level_list@.len() ==> (#[trigger] r.level_list@[i]).target_size
                            == config.start_size + (i - 1) * config.size_step
                    &&& (!config.early_cutoff && config.min_nuc_rate is None
                        ==> r.level_list@[r.level_list@.len() - 1].target_size
                        >= config.target_size)
                    &&& (config.keep_configs ==> forall|i: int|
                        0 <= i < r.level_list@.len()
                            ==> (#[trigger] r.level_list@[i]).state_list@.len()
                            == r.level_list@[i].num_states)
                    &&& (!config.keep_configs ==> r.level_list@[0].state_list@.len()
                        == r.level_list@[0].num_states && r.level_list@[r.level_list@.len()
                        - 1].state_list@.len() == r.level_list@[r.level_list@.len() - 1].num_states
                        && (forall|i: int|
                        1 <= i < r.level_list@.len() - 1
                            ==> (#[trigger] r.level_list@[i]).state_list@.len() == 0))
                },
                Err(e) => {
                    ||| e == GrowError::BadConfig && !config_ok(*config)
                    ||| e == GrowError::TooManyTrials
                    ||| e == GrowError::OutOfEvents
                    ||| e == GrowError::NoDimers
                    ||| e == GrowError::RateOverflow
                },
            },
            res == Err::<FFSRun, GrowError>(GrowError::NoDimers) <==> (config_ok(*config)
                && !has_dimers(system)),
            res == Err::<FFSRun, GrowError>(GrowError::RateOverflow)
                ==> system.dimer_rate_total() > u64::MAX,
            config_ok(*config) && system.dimer_rate_total() > u64::MAX ==> res == Err::<
                FFSRun,
                GrowError,
            >(GrowError::RateOverflow),
    {
        if !validate_config(config) {
            return Err(GrowError::BadConfig);
        }
        let dimers = system.calc_dimers();
        let mut total128: u128 = 0;
        let mut di: usize = 0;
        proof {
            assert(dimer_weights(dimers@.take(0)) =~= Seq::<u64>::empty());
        }
        while di < dimers.len()
            invariant
                di <= dimers@.len(),
                total128 <= di as int * 0xffff_ffff_ffff_ffff,
                total128 == seq_rate_sum(dimer_weights(dimers@.take(di as int))),
            decreases dimers@.len() - di,
        {
            proof {
                assert(di as int * 0xffff_ffff_ffff_ffff + 0xffff_ffff_ffff_ffff == (di as int + 1)
                    * 0xffff_ffff_ffff_ffff) by (nonlinear_arith);
                assert((di as int + 1) * 0xffff_ffff_ffff_ffff <= 0xffff_ffff_ffff_ffff
                    * 0xffff_ffff_ffff_ffff) by (nonlinear_arith)
                    requires di as int + 1 <= 0xffff_ffff_ffff_ffff;
                assert(dimer_weights(dimers@.take(di as int + 1)) =~= dimer_weights(
                    dimers@.take(di as int),
                ).push(dimers@[di as int].formation_rate));
                assert(dimer_weights(dimers@.take(di as int + 1)).drop_last() =~= dimer_weights(
                    dimers@.take(di as int),
                ));
            }
            total128 = total128 + (dimers[di].formation_rate as u128);
            di += 1;
        }
        proof {
            assert(dimers@.take(dimers@.len() as int) =~= dimers@);
            assert(total128 == system.dimer_rate_total());
        }
        if total128 > 0xffff_ffff_ffff_ffffu128 {
            proof {
                if dimers@.len() == 0 {
                    assert(dimer_weights(dimers@) =~= Seq::<u64>::empty());
                    assert(false);
                }
                let d0 = dimers@[0];
                assert(system.dimer_bonds(d0.t1, d0.t2, d0.orientation) && system.dimer_rate(
                    d0.t1,
                    d0.t2,
                    d0.orientation,
                ) > 0);
                assert(has_dimers(system));
            }
            return Err(GrowError::RateOverflow);
        }
        let dimerization_rate: u64 = total128 as u64;
        let pair = FFSLevel::nmers_from_dimers(system, config, rng)?;
        let (first_level, dimer_level) = pair;
        let mut level_list: Vec<FFSLevel> = Vec::new();
        let mut forward_prob: Vec<(u64, u64)> = Vec::new();
        forward_prob.push((first_level.num_states as u64, first_level.num_trials));
        let mut current: usize = first_level.target_size;
        level_list.push(dimer_level);
        level_list.push(first_level);
        proof {
            assert((1int - 1) * config.size_step as int == 0) by (nonlinear_arith);
            assert forall|i: int|
                1 <= i < level_list@.len() implies (#[trigger] level_list@[i]).target_size
                == config.start_size + (i - 1) * config.size_step by {
                assert(i == 1);
            }
        }
        let mut above_cutoff: usize = 0;
        while current < config.target_size
            invariant
                system.swf(),
                config_ok(*config),
                has_dimers(system),
                system.dimer_rate_total() <= u64::MAX,
                dimerization_rate as int == system.dimer_rate_total(),
                level_list@.len() >= 2,
                forward_prob@.len() == level_list@.len() - 1,
                probs_ok(forward_prob@),
                forall|i: int|
                    0 <= i < level_list@.len() ==> level_wf(
                        #[trigger] level_list@[i],
                        system,
                        config.canvas_size as int,
                        config.canvas_type,
                    ),
                level_list@[0].num_states as int == level_list@[0].num_trials as int,
                forall|i: int|
                    0 <= i < forward_prob@.len() ==> (#[trigger] forward_prob@[i]) == (
                        level_list@[i + 1].num_states as u64,
                        level_list@[i + 1].num_trials,
                    ),
                level_list@[0].target_size == 2,
                level_list@[1].target_size == config.start_size,
                level_list@[level_list@.len() - 1].state_list@.len() == level_list@[level_list@.len()
                    - 1].num_states,
                level_list@[level_list@.len() - 1].target_size == current,
                forall|i: int|
                    1 <= i < level_list@.len() ==> (#[trigger] level_list@[i]).target_size
                        == config.start_size + (i - 1) * config.size_step,
                config.keep_configs ==> forall|i: int|
                    0 <= i < level_list@.len() ==> (#[trigger] level_list@[i]).state_list@.len()
                        == level_list@[i].num_states,
                !config.keep_configs ==> level_list@[0].state_list@.len()
                    == level_list@[0].num_states && (forall|i: int|
                    1 <= i < level_list@.len() - 1
                        ==> (#[trigger] level_list@[i]).state_list@.len() == 0),
                above_cutoff <= config.cutoff_number,
            ensures
                !config.early_cutoff && config.min_nuc_rate is None
                    ==> level_list@[level_list@.len() - 1].target_size >= config.target_size,
            decreases dist_to(current as int, config.target_size as int),
        {
            let li: usize = level_list.len() - 1;
            let next = level_list[li].next_level(system, config, rng)?;
            if !config.keep_configs {
                let lm = &mut level_list[li];
                lm.drop_states();
            }
            forward_prob.push((next.num_states as u64, next.num_trials));
            current = next.target_size;
            let pf_above = prob_above_exec(
                next.num_states as u64,
                next.num_trials,
                config.cutoff_prob_num,
                config.cutoff_prob_den,
            );
            level_list.push(next);
            proof {
                let ll = level_list@.len() as int;
                assert(config.start_size + (ll - 2 - 1) * config.size_step + config.size_step
                    == config.start_size + (ll - 1 - 1) * config.size_step) by (nonlinear_arith);
                assert(level_list@[ll - 1].target_size == config.start_size + (ll - 1 - 1)
                    * config.size_step);
            }
            if config.early_cutoff {
                if pf_above {
                    if above_cutoff < config.cutoff_number {
                        above_cutoff = above_cutoff + 1;
                    }
                    if above_cutoff >= config.cutoff_number && current >= config.min_cutoff_size {
                        break;
                    }
                } else {
                    above_cutoff = 0;
                }
            }
            match config.min_nuc_rate {
                Some(m) => {
                    let est = nuc_rate_from(dimerization_rate, &forward_prob);
                    if est < m {
                        break;
                    }
                }
                None => {}
            }
        }
        Ok(FFSRun { level_list, dimerization_rate, forward_prob })
    }

    /// Run the ladder without keeping each level's states once the next
    /// level has been drawn from it: as `create`, with every level between
    /// the dimer level and the final one emptied.
    pub fn create_without_history<S: SystemWithDimers>(
        system: &S,
        config: &FFSRunConfig,
        rng: &mut SmallRng,
    ) -> (res: Result<FFSRun, GrowError>)
        requires
            system.swf(),
        ensures
            !config_ok(*config) ==> res == Err::<FFSRun, GrowError>(GrowError::BadConfig),
            match res {
                Ok(r) => {
                    &&& config_ok(*config)
                    &&& run_wf(r, system, config.canvas_size as int, config.canvas_type)
                    &&& r.level_list@[0].target_size == 2
                    &&& r.level_list@[1].target_size == config.start_size
                    &&& r.dimerization_rate as int == system.dimer_rate_total()
                    &&& forall|i: int|
                        1 <= i < r.level_list@.len() ==> (#[trigger] r.level_list@[i]).target_size
                            == config.start_size + (i - 1) * config.size_step
                    &&& (!config.early_cutoff && config.min_nuc_rate is None
                        ==> r.level_list@[r.level_list@.len() - 1].target_size
                        >= config.target_size)
                    &&& r.level_list@[0].state_list@.len() == r.level_list@[0].num_states
                    &&& r.level_list@[r.level_list@.len() - 1].state_list@.len()
                        == r.level_list@[r.level_list@.len() - 1].num_states
                    &&& forall|i: int|
                        1 <= i < r.level_list@.len() - 1
                            ==> (#[trigger] r.level_list@[i]).state_list@.len() == 0
                },
                Err(e) => {
                    ||| e == GrowError::BadConfig && !config_ok(*config)
                    ||| e == GrowError::TooManyTrials
                    ||| e == GrowError::OutOfEvents
                    ||| e == GrowError::NoDimers
                    ||| e == GrowError::RateOverflow
                },
            },
            res == Err::<FFSRun, GrowError>(GrowError::NoDimers) <==> (config_ok(*config)
                && !has_dimers(system)),
            res == Err::<FFSRun, GrowError>(GrowError::RateOverflow)
                ==> system.dimer_rate_total() > u64::MAX,
            config_ok(*config) && system.dimer_rate_total() > u64::MAX ==> res == Err::<
                FFSRun,
                GrowError,
            >(GrowError::RateOverflow),
    {
        let mut c2 = *config;
        c2.keep_configs = false;
        proof {
            assert(config_ok(c2) == config_ok(*config));
        }
        let r = Self::create(system, &c2, rng)?;
        Ok(r)
    }

    /// The nucleation-rate estimate: the dimerization rate times every
    /// forward probability, in exact rounded-down arithmetic.
    pub fn nucleation_rate(&self) -> (r: u64)
        requires
            probs_ok(self.forward_prob@),
        ensures
            r as int == nuc_est(self.dimerization_rate, self.forward_prob@),
            r <= self.dimerization_rate,
    {
        nuc_rate_from(self.dimerization_rate, &self.forward_prob)
    }

    /// The success/trial pair of each sampled level.
    pub fn forward_vec(&self) -> (v: Vec<(u64, u64)>)
        ensures
            v@ == self.forward_prob@,
    {
        let mut v: Vec<(u64, u64)> = Vec::new();
        let mut i: usize = 0;
        while i < self.forward_prob.len()
            invariant
                i <= self.forward_prob@.len(),
                v@ == self.forward_prob@.take(i as int),
            decreases self.forward_prob@.len() - i,
        {
            proof {
                assert(self.forward_prob@.take(i as int).push(self.forward_prob@[i as int])
                    =~= self.forward_prob@.take(i as int + 1));
            }
            v.push(self.forward_prob[i]);
            i += 1;
        }
        proof {
            assert(self.forward_prob@.take(self.forward_prob@.len() as int)
                =~= self.forward_prob@);
        }
        v
    }

    /// The total dimer formation rate.
    pub fn dimerization_rate(&self) -> (d: u64)
        ensures
            d == self.dimerization_rate,
    {
        self.dimerization_rate
    }

    /// The dimer level's success/trial pair, which is always one.
    pub fn dimer_conc(&self) -> (p: (u64, u64))
        requires
            self.level_list@.len() >= 1,
        ensures
            p == (self.level_list@[0].num_states as u64, self.level_list@[0].num_trials),
    {
        let l0 = &self.level_list[0];
        (l0.num_states as u64, l0.num_trials)
    }

    /// The ladder of levels, dimer level first.
    pub fn surfaces(&self) -> (s: &Vec<FFSLevel>)
        ensures
            s == &self.level_list,
    {
        &self.level_list
    }
}

/// Every forward probability of a well-formed run lies in (0, 1], and the
/// dimer level's successes equal its trials: its probability is exactly
/// one.
pub proof fn lemma_forward_probabilities<S: System>(
    r: FFSRun,
    sys: &S,
    side: int,
    variant: CanvasType,
)
    requires
        run_wf(r, sys, side, variant),
    ensures
        forall|i: int|
            0 <= i < r.forward_prob@.len() ==> 0 < (#[trigger] r.forward_prob@[i]).0
                <= r.forward_prob@[i].1,
        r.level_list@[0].num_states as int == r.level_list@[0].num_trials as int,
{
}

/// In a seedless kTAM model whose detachment rates are all positive, a
/// dead state is empty: zero total rate forces every cell to be empty.
pub proof fn lemma_ktam_dead_is_empty(st: State2DQT, sys: &StaticKTAM)
    requires
        sys.swf(),
        sys.detach_positive(),
        sys.seed is NoSeed,
        st.wf(sys),
        st.total_rate == 0,
    ensures
        st.ntiles == 0,
{
    let side = st.canvas.side();
    if st.ntiles != 0 {
        crate::grid::lemma_count_nonzero_zero(st.canvas.canvas.cells@);
        let k = choose|k: int|
            0 <= k < st.canvas.canvas.cells@.len() && st.canvas.canvas.cells@[k] != 0usize;
        let r = k / side;
        let c = k % side;
        vstd::arithmetic::div_mod::lemma_fundamental_div_mod(k, side);
        assert(0 <= r < side && 0 <= c < side) by (nonlinear_arith)
            requires
                0 <= k < side * side,
                side > 0,
                k == side * (k / side) + k % side,
                r == k / side,
                c == k % side,
        ;
        assert(r * side + c == k) by (nonlinear_arith)
            requires k == side * (k / side) + k % side, r == k / side, c == k % side;
        assert(st.canvas.tile_at(r, c) != 0usize);
        assert(st.canvas.inb(r, c));
        sys.lemma_occupied_positive(&st.canvas, r, c);
        assert(st.rates@[0].at(r, c) >= 1u64);
        crate::ratetree::lemma_root_is_total(st.rates@, side);
        st.rates@[0].lemma_cell_le_sum(r, c);
        assert(false);
    }
}

/// Round-trip cloning: a zeroed copy from the non-zero-rate support of a
/// seedless kTAM state with positive detachment rates reproduces the
/// source canvas cell for cell, and therefore its total rate exactly.
pub proof fn lemma_clone_roundtrip(src: State2DQT, dst: State2DQT, sys: &StaticKTAM)
    requires
        sys.swf(),
        sys.detach_positive(),
        sys.seed is NoSeed,
        src.wf(sys),
        dst.wf(sys),
        dst.canvas.variant == src.canvas.variant,
        dst.canvas.side() == src.canvas.side(),
        forall|r: int, c: int|
            0 <= r < src.canvas.side() && 0 <= c < src.canvas.side()
                ==> #[trigger] dst.canvas.tile_at(r, c) == (
                if src.rates@[0].at(r, c) != 0u64 {
                    src.canvas.tile_at(r, c)
                } else {
                    0usize
                }),
    ensures
        forall|r: int, c: int|
            0 <= r < src.canvas.side() && 0 <= c < src.canvas.side()
                ==> #[trigger] dst.canvas.tile_at(r, c) == src.canvas.tile_at(r, c),
        dst.total_rate == src.total_rate,
{
    let side = src.canvas.side();
    assert forall|r: int, c: int|
        0 <= r < side && 0 <= c < side implies #[trigger] dst.canvas.tile_at(r, c)
        == src.canvas.tile_at(r, c) by {
        if src.canvas.tile_at(r, c) != 0usize {
            assert(src.canvas.inb(r, c));
            sys.lemma_occupied_positive(&src.canvas, r, c);
            assert(src.rates@[0].at(r, c) != 0u64);
        }
    }
    lemma_same_canvas_same_total(dst, src, sys);
}


/// Read access to one sampling surface: its stored configurations, parent
/// indices, and exact counts.
pub trait FFSSurface {
    /// How many configurations are still stored.
    spec fn stored_configs(&self) -> int;

    /// The canvas of the stored configuration at `i`.
    spec fn config_at(&self, i: int) -> TileGrid;

    /// How many configurations the surface collected.
    spec fn num_configs_spec(&self) -> int;

    /// How many trials were run to collect them.
    spec fn num_trials_spec(&self) -> int;

    /// The surface's assembly-size threshold.
    spec fn target_size_spec(&self) -> int;

    /// The parent index of each collected configuration.
    spec fn previous_spec(&self) -> Seq<usize>;

    /// The stored canvas at `i`, as a read-only grid.
    fn get_config(&self, i: usize) -> (g: &TileGrid)
        requires
            i < self.stored_configs(),
        ensures
            *g == self.config_at(i as int);

    /// The number of collected configurations.
    fn num_configs(&self) -> (n: usize)
        ensures
            n == self.num_configs_spec();

    /// The number of trials run.
    fn num_trials(&self) -> (n: u64)
        ensures
            n == self.num_trials_spec();

    /// The assembly-size threshold.
    fn target_size(&self) -> (n: NumTiles)
        ensures
            n == self.target_size_spec();

    /// The parent index of each collected configuration.
    fn previous_list(&self) -> (v: Vec<usize>)
        ensures
            v@ == self.previous_spec();
}

impl FFSSurface for FFSLevel {
    open spec fn stored_configs(&self) -> int {
        self.state_list@.len() as int
    }

    open spec fn config_at(&self, i: int) -> TileGrid {
        self.state_list@[i].canvas.canvas
    }

    open spec fn num_configs_spec(&self) -> int {
        self.num_states as int
    }

    open spec fn num_trials_spec(&self) -> int {
        self.num_trials as int
    }

    open spec fn target_size_spec(&self) -> int {
        self.target_size as int
    }

    open spec fn previous_spec(&self) -> Seq<usize> {
        self.previous_list@
    }

    fn get_config(&self, i: usize) -> (g: &TileGrid) {
        &self.state_list[i].canvas.canvas
    }

    fn num_configs(&self) -> (n: usize) {
        self.num_states
    }

    fn num_trials(&self) -> (n: u64) {
        self.num_trials
    }

    fn target_size(&self) -> (n: NumTiles) {
        self.target_size
    }

    fn previous_list(&self) -> (v: Vec<usize>) {
        let mut v: Vec<usize> = Vec::new();
        let mut i: usize = 0;
        while i < self.previous_list.len()
            invariant
                i <= self.previous_list@.len(),
                v@ == self.previous_list@.take(i as int),
            decreases self.previous_list@.len() - i,
        {
            proof {
                assert(self.previous_list@.take(i as int).push(self.previous_list@[i as int])
                    =~= self.previous_list@.take(i as int + 1));
            }
            v.push(self.previous_list[i]);
            i += 1;
        }
        proof {
            assert(self.previous_list@.take(self.previous_list@.len() as int)
                =~= self.previous_list@);
        }
        v
    }
}

/// Read access to a whole sampling result.
pub trait FFSResult {
    /// The success/trial pair of each sampled level.
    spec fn forward_spec(&self) -> Seq<(u64, u64)>;

    /// The total dimer formation rate.
    spec fn dimerization_spec(&self) -> u64;

    /// The ladder of surfaces.
    spec fn surfaces_spec(&self) -> Seq<FFSLevel>;

    /// The nucleation-rate estimate.
    fn nucleation_rate(&self) -> (r: u64)
        requires
            probs_ok(self.forward_spec()),
        ensures
            r as int == nuc_est(self.dimerization_spec(), self.forward_spec()),
            r <= self.dimerization_spec();

    /// The success/trial pair of each sampled level.
    fn forward_vec(&self) -> (v: Vec<(u64, u64)>)
        ensures
            v@ == self.forward_spec();

    /// The total dimer formation rate.
    fn dimerization_rate(&self) -> (d: u64)
        ensures
            d == self.dimerization_spec();

    /// The ladder of surfaces, dimer level first.
    fn surfaces(&self) -> (s: &Vec<FFSLevel>)
        ensures
            s@ == self.surfaces_spec();
}

impl FFSResult for FFSRun {
    open spec fn forward_spec(&self) -> Seq<(u64, u64)> {
        self.forward_prob@
    }

    open spec fn dimerization_spec(&self) -> u64 {
        self.dimerization_rate
    }

    open spec fn surfaces_spec(&self) -> Seq<FFSLevel> {
        self.level_list@
    }

    fn nucleation_rate(&self) -> (r: u64) {
        FFSRun::nucleation_rate(self)
    }

    fn forward_vec(&self) -> (v: Vec<(u64, u64)>) {
        FFSRun::forward_vec(self)
    }

    fn dimerization_rate(&self) -> (d: u64) {
        self.dimerization_rate
    }

    fn surfaces(&self) -> (s: &Vec<FFSLevel>) {
        &self.level_list
    }
}

} // verus!
