use vstd::prelude::*;

verus! {

/// What can go wrong with a packet.
#[derive(Clone, Copy, Debug, PartialEq, Eq, Structural)]
pub enum Error {
    /// The buffer ends before what has to be read from it, or has no room for
    /// what has to be written to it.
    BufferTooShort,

    /// The packet is not one that the protocol allows.
    InvalidPacket,

    /// A cryptographic operation failed.
    CryptoFail,
}

} // verus!
