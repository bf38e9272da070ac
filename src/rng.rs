//! The random source behind the `CXNN` instruction.
use vstd::prelude::*;

use rand::Rng;

verus! {

/// The per-thread generator of the `rand` crate, carried by each machine.
#[verifier::external_type_specification]
#[verifier::external_body]
pub struct ExThreadRng(rand::rngs::ThreadRng);

/// Relies on `rand::thread_rng`: it returns a handle to the thread's
/// generator, seeding it on first use (it panics only when the operating
/// system cannot provide a seed).
pub assume_specification[ rand::thread_rng ]() -> rand::rngs::ThreadRng;

/// Relies on `rand::Rng::gen::<u8>` for `ThreadRng`: one byte drawn from the
/// generator. Any of the 256 values may come back, so nothing is promised.
#[verifier::external_body]
pub(crate) fn random_byte(rng: &mut rand::rngs::ThreadRng) -> u8 {
    rng.gen::<u8>()
}

} // verus!
