//! Random bits.
use vstd::prelude::*;

verus! {

/// One byte of `ring::rand::SystemRandom`, the operating system's random number
/// generator, or nothing where it has none to give. Nothing is claimed of the
/// byte.
#[verifier::external_body]
fn system_random_byte() -> (res: Option<u8>) {
    let mut byte: [u8; 1] = [0];
    match ring::rand::SecureRandom::fill(&ring::rand::SystemRandom::new(), &mut byte) {
        Ok(_) => Some(byte[0]),
        Err(_) => None,
    }
}

/// A random byte for bits that carry no meaning. They are zero where the system
/// has no random byte to give. Any byte can come back: what is done with the one
/// that the system gives is stated of [`byte_or_zero`].
pub(crate) fn rand_u8() -> (res: u8) {
    byte_or_zero(system_random_byte())
}

/// The byte, or zero where there is none.
fn byte_or_zero(byte: Option<u8>) -> (res: u8)
    ensures
        res == (match byte {
            Some(b) => b,
            None => 0,
        }),
{
    match byte {
        Some(b) => b,
        None => 0,
    }
}

} // verus!
