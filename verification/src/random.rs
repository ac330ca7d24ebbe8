//! The library's only randomness: the thread-local generator of the `rand`
//! crate, behind two trusted wrappers. Every draw is handed onward as a
//! plain integer, and all scheduling logic is verified for every value a
//! draw may take.

use vstd::prelude::*;
use rand::Rng;

verus! {

#[verifier::external_type_specification]
#[verifier::external_body]
pub struct ExThreadRng(rand::rngs::ThreadRng);

/// Relies on rand::thread_rng: a handle to the thread-local random number
/// generator. Nothing is assumed of the values it will yield.
#[verifier::external_body]
pub(crate) fn fresh_rng() -> rand::rngs::ThreadRng {
    rand::thread_rng()
}

/// Relies on rand::Rng::gen_range over the range `0..bound`: a value
/// uniformly drawn from that range, so strictly below `bound`. The call
/// panics only on an empty range, which `requires` rules out.
#[verifier::external_body]
pub(crate) fn draw_below(rng: &mut rand::rngs::ThreadRng, bound: u32) -> (r: u32)
    requires
        bound >= 1,
    ensures
        r < bound,
{
    rng.gen_range(0..bound)
}

} // verus!
