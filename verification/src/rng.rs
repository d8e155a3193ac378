//! The random number generator of `rand`, as the simulations use it.
use vstd::prelude::*;
use rand::rngs::ThreadRng;
use rand::Rng;

verus! {

/// `rand::rngs::ThreadRng`, the thread-local generator; opaque to verification.
#[verifier::external_type_specification]
#[verifier::external_body]
pub struct ExThreadRng(ThreadRng);

/// Calls `rand::thread_rng`, which hands out the thread-local generator.
/// Nothing is claimed of the generator it returns.
#[verifier::external_body]
pub(crate) fn thread_rng() -> (rng: ThreadRng) {
    rand::thread_rng()
}

/// Calls `Rng::gen_range(0..upper)` on `rng`. Its documentation promises a value of
/// the range and a panic on an empty range, so `upper > 0` is required and the
/// result is below `upper`. Which value comes is random: nothing more is claimed.
#[verifier::external_body]
pub(crate) fn gen_index(rng: &mut ThreadRng, upper: usize) -> (r: usize)
    requires
        upper > 0,
    ensures
        r < upper,
{
    rng.gen_range(0..upper)
}

} // verus!
