//! The trusted boundary to the random number generator. Nothing is
//! promised of a random draw beyond its range, so every proof holds for
//! every outcome.

use vstd::prelude::*;
use rand::Rng;
use rand::SeedableRng;
use rand::rngs::SmallRng;

verus! {

#[verifier::external_type_specification]
#[verifier::external_body]
/// rand's small fast generator, carried opaquely.
pub struct ExSmallRng(SmallRng);

/// Relies on rand's `SeedableRng::seed_from_u64`: a generator built from
/// the given seed. The stream is platform-dependent, so nothing is stated
/// about it.
#[verifier::external_body]
pub fn rng_from_seed(seed: u64) -> SmallRng {
    SmallRng::seed_from_u64(seed)
}

/// Relies on rand's `Rng::gen_range` over `0..bound`: a draw within the
/// half-open range. The range is non-empty, so the call cannot panic; only
/// the bound holds of every outcome.
#[verifier::external_body]
pub fn rng_below(rng: &mut SmallRng, bound: u64) -> (r: u64)
    requires
        bound > 0,
    ensures
        r < bound,
{
    rng.gen_range(0..bound)
}

/// Relies on rand's `Rng::gen` at `bool`: a fair coin flip, with nothing
/// promised of the outcome.
#[verifier::external_body]
pub fn rng_bool(rng: &mut SmallRng) -> bool {
    rng.gen()
}

} // verus!
