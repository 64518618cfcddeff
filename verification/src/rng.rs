use vstd::prelude::*;

verus! {

/// Relies on rand::random: draws one byte from the thread-local generator.
/// Nothing is promised of the value; callers must be correct for every byte.
#[verifier::external_body]
pub(crate) fn random_byte() -> u8 {
    rand::random()
}

} // verus!
