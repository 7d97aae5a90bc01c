//! The source of random cell indices.

use rand::Rng;
use vstd::prelude::*;

verus! {

/// Draws an index below `limit` from the thread's generator, by
/// `rand::Rng::gen_range` on `rand::thread_rng()` with the range
/// `0..limit`. Nothing is proved of the draw; the contract claims only what
/// holds of every outcome: the index lies in the range. An empty range is
/// left out, since `gen_range` panics on it.
#[verifier::external_body]
pub(crate) fn random_index(limit: u32) -> (index: u32)
    requires
        limit > 0,
    ensures
        index < limit,
{
    rand::thread_rng().gen_range(0..limit)
}

} // verus!
