//! The one source of randomness the instruction set needs.

use vstd::prelude::*;

verus! {

/// Relies on rand::random: one byte drawn from the thread-local generator.
/// Nothing is assumed about its value; callers state what holds of every
/// outcome.
#[verifier::external_body]
pub(crate) fn random_byte() -> u8 {
    rand::random::<u8>()
}

} // verus!
