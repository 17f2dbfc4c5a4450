//! QUIC packets: their headers, their packet numbers, and their protection.
use vstd::prelude::*;

pub mod crypto;
pub mod delivery;
pub mod error;
pub mod fields;
pub mod format;
pub mod header;
pub mod header_laws;
pub mod octets;
pub mod pkt_num;
pub mod primitives;
pub mod protect;
mod rand;
pub mod ranges;
pub mod reply;
pub mod space;
pub mod stream;
pub mod text;
pub mod window;
pub mod wire;

pub use crate::error::Error;
pub use crate::header::{Epoch, Header, Type};
pub use crate::octets::Octets;
pub use crate::pkt_num::{decode_pkt_num, encode_pkt_num, pkt_num_len};
pub use crate::protect::{decrypt_hdr, decrypt_pkt, encrypt_hdr, encrypt_pkt};
pub use crate::reply::{negotiate_version, retry};
pub use crate::space::PktNumSpace;
pub use crate::window::PktNumWindow;

verus! {

/// The version of the protocol that packets are written in.
pub const PROTOCOL_VERSION: u32 = 0xff00_0017;

} // verus!
