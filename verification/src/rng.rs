//! Randomness, through the `rand` crate.
//!
//! The estimator draws its samples from `rand`'s thread-local generator.
//! Nothing can be promised about a random value beyond its range, so the
//! contracts here state only that; every function that consumes a draw is
//! verified for all values in that range.

use rand::Rng;
use vstd::prelude::*;

verus! {

#[verifier::external_type_specification]
#[verifier::external_body]
pub struct ExThreadRng(rand::rngs::ThreadRng);

/// Relies on rand::thread_rng: a handle to the thread-local generator.
#[verifier::external_body]
pub fn fresh_rng() -> rand::rngs::ThreadRng {
    rand::thread_rng()
}

/// Relies on rand::Rng::gen_range over `0..n`: a value at least zero and
/// below `n`, which is all that can be said of a random draw.  The range is
/// non-empty by the precondition, so the call cannot panic.
#[verifier::external_body]
pub fn rand_below(rng: &mut rand::rngs::ThreadRng, n: i64) -> (r: i64)
    requires
        n >= 1,
    ensures
        0 <= r < n,
{
    rng.gen_range(0..n)
}

} // verus!
