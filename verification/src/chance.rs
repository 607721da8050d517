//! Draws from the thread's random number generator.

use vstd::prelude::*;
use rand::distributions::{Distribution, Uniform};
use rand::Rng;

verus! {

/// One of `0`, .., `high - 1`, drawn through a uniform distribution over
/// them.
///
/// Calls `rand::distributions::Uniform::from` on the range from `0` up to,
/// not including, `high`, and `sample` on the result with `rand::thread_rng`.
/// The first panics on an empty range, which `requires` leaves out; of the
/// draw the contract claims only that it lies in the range.
#[verifier::external_body]
pub(crate) fn uniform_below(high: usize) -> (drawn: usize)
    requires
        high > 0,
    ensures
        drawn < high,
{
    Uniform::from(0..high).sample(&mut rand::thread_rng())
}

/// One of `0`, .., `high - 1`, drawn in a single step.
///
/// Calls `rand::Rng::gen_range` on `rand::thread_rng` with the range from `0`
/// up to, not including, `high`. It panics on an empty range, which
/// `requires` leaves out; of the draw the contract claims only that it lies
/// in the range.
#[verifier::external_body]
pub(crate) fn range_below(high: usize) -> (drawn: usize)
    requires
        high > 0,
    ensures
        drawn < high,
{
    rand::thread_rng().gen_range(0..high)
}

} // verus!
