//! Random choices.

use rand::RngExt;
use vstd::prelude::*;

verus! {

/// Calls `rand::rng` for the generator of this thread and
/// `RngExt::random_range` on it with the range from 0 up to, not
/// including, `n`. The documentation promises a value in the range, and a
/// panic on an empty one. Which value comes is left to chance. The
/// generator itself panics if the system gives it no seed.
#[verifier::external_body]
pub(crate) fn random_below(n: usize) -> (index: usize)
    requires
        n > 0,
    ensures
        index < n,
{
    rand::rng().random_range(0..n)
}

} // verus!
