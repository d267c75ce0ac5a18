use vstd::prelude::*;
use rand::Rng;

verus! {

/// Draws a uniformly distributed integer from the inclusive range
/// `lo..=hi` with `rand::Rng::gen_range` on the thread-local generator.
/// The contract claims only that the result lies in the range: which value
/// comes back is left to chance.
#[verifier::external_body]
pub(crate) fn random_in_range(lo: i32, hi: i32) -> (r: i32)
    requires
        lo <= hi,
    ensures
        lo <= r <= hi,
{
    rand::thread_rng().gen_range(lo..=hi)
}

} // verus!
