//! The die: random rolls from the thread's generator.

use rand::rngs::ThreadRng;
use vstd::prelude::*;

verus! {

/// The handle to the thread-local random number generator of `rand`.
#[verifier::external_type_specification]
#[verifier::external_body]
pub struct ExThreadRng(ThreadRng);

/// `rand::thread_rng`: hands out the thread's generator. Nothing is claimed
/// of it. The call fails only where the system cannot seed the generator.
pub assume_specification[ rand::thread_rng ]() -> (rng: ThreadRng)
;

/// `rand::Rng::gen_range` on an inclusive range of `usize`: the value drawn
/// lies within the range, bounds included. Which value it is remains open.
/// The range must not be empty.
#[verifier::external_body]
pub(crate) fn gen_range_inclusive(rng: &mut ThreadRng, low: usize, high: usize) -> (value: usize)
    requires
        low <= high,
    ensures
        low <= value <= high,
{
    rand::Rng::gen_range(rng, low..=high)
}

} // verus!
