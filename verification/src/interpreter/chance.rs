//! The source of random draws.
use rand::Rng;
use vstd::prelude::*;

verus! {

/// `Rng::gen_range` of `rand`, on the thread's generator and the range from 0
/// up to, and without, `bound`. Nothing is known of the draw but that it lies
/// in that range.
#[verifier::external_body]
pub(crate) fn random_below(bound: usize) -> (r: usize)
    requires
        bound > 0,
    ensures
        r < bound,
{
    rand::thread_rng().gen_range(0..bound)
}

} // verus!
