//! Random draws, taken from the `rand` crate behind trusted wrappers.
//!
//! Nothing is assumed of which value comes back, only of its range; every
//! caller is verified for every outcome the contracts admit.

use vstd::prelude::*;

verus! {

/// Relies on `rand::Rng::gen_range` over `0..n`: the drawn value lies within
/// the (non-empty) range, so it is below `n`.
#[verifier::external_body]
pub(crate) fn rand_below(n: usize) -> (r: usize)
    requires
        n > 0,
    ensures
        r < n,
{
    rand::Rng::gen_range(&mut rand::thread_rng(), 0..n)
}

/// Relies on `rand::random::<bool>`: a coin flip; nothing is promised of the
/// outcome.
#[verifier::external_body]
pub(crate) fn rand_flip() -> bool {
    rand::random::<bool>()
}

} // verus!
