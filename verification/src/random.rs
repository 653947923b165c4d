//! Random numbers, drawn from the generator of the `rand` crate.

use rand::rngs::StdRng;
use rand::RngCore;
use vstd::prelude::*;

verus! {

/// `rand::rngs::StdRng`, the generator that initial values are drawn from.
/// Its state is not described.
#[verifier::external_type_specification]
#[verifier::external_body]
pub struct ExStdRng(StdRng);

/// `RngCore::next_u32` of `StdRng`: the generator's next 32 bits. They
/// depend on the state of the generator, so nothing is said of them.
#[verifier::external_body]
pub(crate) fn next_word(rng: &mut StdRng) -> u32 {
    rng.next_u32()
}

} // verus!
