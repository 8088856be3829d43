//! Randomness, drawn from the `rand` crate behind trusted wrappers.
//!
//! Nothing can be promised about which value comes back, so each wrapper
//! states only what holds of every outcome; the functions that consume a
//! draw are verified for every value the wrapper may hand them.

use vstd::prelude::*;

verus! {

/// Relies on rand::random_range over `lo..hi`: returns a value uniformly
/// drawn from the half-open range. It panics on an empty range, so that
/// case is excluded here.
#[verifier::external_body]
pub(crate) fn rand_range_u32(lo: u32, hi: u32) -> (r: u32)
    requires
        lo < hi,
    ensures
        lo <= r < hi,
{
    rand::random_range(lo..hi)
}

/// Relies on rand::random::<bool>: a fair coin flip. Nothing is known of
/// the outcome.
#[verifier::external_body]
pub(crate) fn rand_bool() -> (r: bool) {
    rand::random::<bool>()
}

} // verus!
