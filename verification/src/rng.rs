//! Random numbers from the `rand` crate's thread-local generator.

use vstd::prelude::*;
use rand::Rng;

verus! {

/// `rand::thread_rng().gen::<u32>()`: a random 32-bit number; nothing is
/// known of which.
#[verifier::external_body]
pub(crate) fn random_u32() -> (r: u32) {
    rand::thread_rng().gen::<u32>()
}

/// `rand::thread_rng().gen_range(lo..hi)`: a random number in `lo..hi`
/// (the range must not be empty, or `gen_range` panics).
#[verifier::external_body]
pub(crate) fn random_range(lo: u32, hi: u32) -> (r: u32)
    requires
        lo < hi,
    ensures
        lo <= r < hi,
{
    rand::thread_rng().gen_range(lo..hi)
}

} // verus!
