use vstd::prelude::*;
use rand::Rng;

verus! {

/// The thread-local generator of the `rand` crate, carried through opaque.
#[verifier::external_type_specification]
#[verifier::external_body]
pub struct ExThreadRng(rand::rngs::ThreadRng);

/// Relies on `rand::thread_rng`: a handle to the thread-local generator.
pub assume_specification[ rand::thread_rng ]() -> rand::rngs::ThreadRng;

/// Relies on `rand::Rng::gen_range` (rand 0.7): a number drawn uniformly
/// from `[lo, hi)`; the call panics unless `lo < hi`.
#[verifier::external_body]
pub(crate) fn draw(rng: &mut rand::rngs::ThreadRng, lo: i128, hi: i128) -> (r: i128)
    requires
        lo < hi,
    ensures
        lo <= r < hi,
{
    rng.gen_range(lo, hi)
}

} // verus!
