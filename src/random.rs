//! The random source that picks each new piece.

use rand::rngs::ThreadRng;
use rand::Rng;
use vstd::prelude::*;

verus! {

#[verifier::external_type_specification]
#[verifier::external_body]
pub struct ExThreadRng(ThreadRng);

/// Relies on rand::rng: hands out the generator of the calling thread.
#[verifier::external_body]
pub(crate) fn thread_source() -> ThreadRng {
    rand::rng()
}

/// Relies on rand::Rng::random_range over `0..n`: a value in that range,
/// which panics only when the range is empty.
#[verifier::external_body]
pub(crate) fn draw_below(rng: &mut ThreadRng, n: u8) -> (r: u8)
    requires
        0 < n,
    ensures
        r < n,
{
    rng.random_range(0..n)
}

} // verus!
