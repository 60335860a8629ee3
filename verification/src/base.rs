//! Shared base types: tiles, points, rates, error kinds, and the summation
//! spec functions used throughout the rate index.

use vstd::prelude::*;

verus! {

/// A tile species identifier; `0` denotes an empty cell.
pub type Tile = usize;

/// A canvas coordinate, as (row, column).
pub type Point = (usize, usize);

/// An event propensity in fixed-point rate units.
pub type Rate = u64;

/// Count of non-empty cells in a state.
pub type NumTiles = usize;

/// Count of executed events.
pub type NumEvents = u64;

/// Largest allowed per-site propensity. With canvas sides capped at
/// `MAX_CANVAS_SIZE`, every partial sum in the rate index then fits in `u64`.
pub const MAX_SITE_RATE: u64 = 0x100_0000_0000;

/// Largest allowed canvas side length.
pub const MAX_CANVAS_SIZE: usize = 1024;

/// A glue identifier; `0` is the null glue, which never bonds.
pub type Glue = usize;

/// Largest allowed bond strength, so a sum of four strengths fits in `u64`.
pub const MAX_STRENGTH: u64 = 0x1_0000_0000;

/// Edge glues of one tile species, in (north, east, south, west) order.
pub type TileEdges = (Glue, Glue, Glue, Glue);

/// Error kinds for model and state construction and for the FFS driver.
#[derive(Clone, Copy, PartialEq, Eq, Structural, Debug)]
pub enum GrowError {
    /// The canvas side length is not a power of two.
    NotPowerOfTwo,
    /// The canvas side length is below the supported minimum.
    CanvasTooSmall,
    /// The canvas side length is above the supported maximum.
    CanvasTooLarge,
    /// A glue was given two different strengths.
    InconsistentGlueStrength,
    /// A bond list names the same glue twice.
    DuplicateGlueName,
    /// FFS was requested for the aTAM, which has no detachments.
    FFSCannotRunATAM,
    /// An FFS trial ran out of events away from both size boundaries.
    OutOfEvents,
    /// A model table would exceed the per-site rate cap.
    RateOverflow,
    /// The model has no dimers, so FFS cannot start.
    NoDimers,
    /// A sampling loop exceeded the trial budget.
    TooManyTrials,
    /// An FFS configuration field is out of its supported range.
    BadConfig,
    /// A state index does not name a state.
    NoSuchState,
}

/// Whether `n` is a power of two.
pub open spec fn is_pow2(n: int) -> bool
    decreases n,
{
    if n <= 1 {
        n == 1
    } else {
        n % 2 == 0 && is_pow2(n / 2)
    }
}

/// Decide whether `n` is a power of two.
pub fn is_pow2_exec(n: usize) -> (b: bool)
    ensures
        b == is_pow2(n as int),
{
    let mut m: usize = n;
    while m > 1
        invariant
            is_pow2(n as int) == is_pow2(m as int),
            m >= 0,
        decreases m,
    {
        if m % 2 != 0 {
            return false;
        }
        m = m / 2;
    }
    m == 1
}

/// Sum of a sequence of rates, as an unbounded integer.
pub open spec fn seq_rate_sum(s: Seq<u64>) -> int
    decreases s.len(),
{
    if s.len() == 0 {
        0
    } else {
        seq_rate_sum(s.drop_last()) + s.last()
    }
}

/// Every element of a sequence is bounded by the sum of the whole sequence.
pub proof fn lemma_seq_rate_sum_bounds(s: Seq<u64>, i: int)
    requires
        0 <= i < s.len(),
    ensures
        s[i] <= seq_rate_sum(s),
        seq_rate_sum(s) >= 0,
    decreases s.len(),
{
    lemma_seq_rate_sum_nonneg(s.drop_last());
    if i == s.len() - 1 {
    } else {
        lemma_seq_rate_sum_bounds(s.drop_last(), i);
    }
}

/// A sum of rates is non-negative.
pub proof fn lemma_seq_rate_sum_nonneg(s: Seq<u64>)
    ensures
        seq_rate_sum(s) >= 0,
    decreases s.len(),
{
    if s.len() > 0 {
        lemma_seq_rate_sum_nonneg(s.drop_last());
    }
}

/// A prefix never sums to more than the whole sequence.
pub proof fn lemma_seq_rate_sum_take_le(s: Seq<u64>, k: int)
    requires
        0 <= k <= s.len(),
    ensures
        seq_rate_sum(s.take(k)) <= seq_rate_sum(s),
    decreases s.len() - k,
{
    if k == s.len() {
        assert(s.take(k) =~= s);
    } else {
        lemma_seq_rate_sum_take_le(s, k + 1);
        assert(s.take(k + 1).drop_last() =~= s.take(k));
    }
}

/// Updating one element changes the sum by the difference at that element.
pub proof fn lemma_seq_rate_sum_update(s: Seq<u64>, i: int, v: u64)
    requires
        0 <= i < s.len(),
    ensures
        seq_rate_sum(s.update(i, v)) == seq_rate_sum(s) - s[i] + v,
    decreases s.len(),
{
    let t = s.update(i, v);
    if i == s.len() - 1 {
        assert(t.drop_last() =~= s.drop_last());
    } else {
        assert(t.drop_last() =~= s.drop_last().update(i, v));
        lemma_seq_rate_sum_update(s.drop_last(), i, v);
    }
}

} // verus!
