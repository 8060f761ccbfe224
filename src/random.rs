//! Random bytes for keys and initialization vectors.
use vstd::prelude::*;

verus! {

/// Relies on `rand::fill`, which overwrites every byte of the array with
/// output of the thread-local generator. Nothing is promised of the values.
#[verifier::external_body]
pub(crate) fn random_bytes<const N: usize>() -> [u8; N] {
    let mut bytes = [0u8; N];
    rand::fill(&mut bytes);
    bytes
}

} // verus!
