//! The one source of chance in the simulation.

use vstd::prelude::*;
use rand::Rng;

verus! {

/// A number drawn from `low` up to, but not including, `high`.
///
/// Calls `rand::thread_rng` and `rand::Rng::gen_range`, which gives a
/// value of the half-open range and panics where the range is empty.
/// Nothing is claimed of which value comes, so two calls on one range may
/// differ.
#[verifier::external_body]
pub(crate) fn random_in_range(low: i32, high: i32) -> (drawn: i32)
    requires
        low < high,
    ensures
        low <= drawn < high,
{
    rand::thread_rng().gen_range(low, high)
}

} // verus!
