//! Packet types and packet headers.
use vstd::prelude::*;

use crate::error::Error;
use crate::fields::{flat, put_fields};
use crate::fields::{lemma_put_concat, lemma_put_fields_whole, lemma_put_step};
use crate::octets::Octets;
use crate::wire::{be_at, be_bytes, lemma_be_bytes_len, overwrite};
use crate::wire::{varint_at, varint_bytes, varint_len, varint_size, varint_tag, VARINT_LIMIT};
use crate::PROTOCOL_VERSION;

verus! {

pub const FORM_BIT: u8 = 0x80;

pub const FIXED_BIT: u8 = 0x40;

pub const KEY_PHASE_BIT: u8 = 0x04;

pub const TYPE_MASK: u8 = 0x30;

/// The longest connection ID that the protocol's own version allows.
pub const MAX_CID_LEN: u8 = 20;

pub const EPOCH_INITIAL: usize = 0;

pub const EPOCH_HANDSHAKE: usize = 1;

pub const EPOCH_APPLICATION: usize = 2;

pub const EPOCH_COUNT: usize = 3;

/// Packet number space epoch.
///
/// This should only ever be one of `EPOCH_INITIAL`, `EPOCH_HANDSHAKE` or
/// `EPOCH_APPLICATION`, and can be used to index state specific to a packet
/// number space.
pub type Epoch = usize;

/// QUIC packet type.
#[derive(Clone, Copy, Debug, PartialEq, Eq, Structural)]
pub enum Type {
    /// Initial packet.
    Initial,

    /// Retry packet.
    Retry,

    /// Handshake packet.
    Handshake,

    /// 0-RTT packet.
    ZeroRTT,

    /// Version negotiation packet.
    VersionNegotiation,

    /// Short header packet.
    Application,
}

/// The epoch that packets of type `ty` belong to, if there is one.
pub open spec fn epoch_of(ty: Type) -> Option<Epoch> {
    match ty {
        Type::Initial => Some(EPOCH_INITIAL),
        Type::Handshake => Some(EPOCH_HANDSHAKE),
        Type::ZeroRTT | Type::Application => Some(EPOCH_APPLICATION),
        Type::Retry | Type::VersionNegotiation => None,
    }
}

impl Type {
    /// The type of the packets that an endpoint sends in epoch `e`.
    pub fn from_epoch(e: Epoch) -> (ty: Type)
        requires
            e < EPOCH_COUNT,
        ensures
            ty == (if e == EPOCH_INITIAL {
                Type::Initial
            } else if e == EPOCH_HANDSHAKE {
                Type::Handshake
            } else {
                Type::Application
            }),
            epoch_of(ty) == Some(e),
    {
        if e == EPOCH_INITIAL {
            Type::Initial
        } else if e == EPOCH_HANDSHAKE {
            Type::Handshake
        } else {
            Type::Application
        }
    }

    /// The epoch that packets of this type belong to.
    pub fn to_epoch(self) -> (res: Result<Epoch, Error>)
        ensures
            match epoch_of(self) {
                Some(e) => res == Ok::<Epoch, Error>(e),
                None => res == Err::<Epoch, Error>(Error::InvalidPacket),
            },
    {
        match self {
            Type::Initial => Ok(EPOCH_INITIAL),
            Type::ZeroRTT => Ok(EPOCH_APPLICATION),
            Type::Handshake => Ok(EPOCH_HANDSHAKE),
            Type::Application => Ok(EPOCH_APPLICATION),
            _ => Err(Error::InvalidPacket),
        }
    }
}

/// A QUIC packet's header.
#[derive(Clone, PartialEq)]
pub struct Header {
    /// The type of the packet.
    pub ty: Type,
    /// The version of the packet.
    pub version: u32,
    /// The destination connection ID of the packet.
    pub dcid: Vec<u8>,
    /// The source connection ID of the packet.
    pub scid: Vec<u8>,
    /// The original destination connection ID. Only present in `Retry`
    /// packets.
    pub odcid: Option<Vec<u8>>,
    /// The packet number. It's only meaningful after the header protection is
    /// removed.
    pub pkt_num: u64,
    /// The length of the packet number. It's only meaningful after the header
    /// protection is removed.
    pub pkt_num_len: usize,
    /// The address verification token of the packet. Only present in `Initial`
    /// and `Retry` packets.
    pub token: Option<Vec<u8>>,
    /// The list of versions in the packet. Only present in
    /// `VersionNegotiation` packets.
    pub versions: Option<Vec<u32>>,
    /// The key phase bit of the packet. It's only meaningful after the header
    /// protection is removed.
    pub key_phase: bool,
}

/// What a [`Header`] holds.
#[verifier::ext_equal]
pub struct HeaderView {
    pub ty: Type,
    pub version: u32,
    pub dcid: Seq<u8>,
    pub scid: Seq<u8>,
    pub odcid: Option<Seq<u8>>,
    pub pkt_num: u64,
    pub pkt_num_len: usize,
    pub token: Option<Seq<u8>>,
    pub versions: Option<Seq<u32>>,
    pub key_phase: bool,
}

/// The contents of an optional vector.
pub open spec fn view_opt<T>(v: Option<Vec<T>>) -> Option<Seq<T>> {
    match v {
        Some(v) => Some(v@),
        None => None,
    }
}

impl View for Header {
    type V = HeaderView;

    open spec fn view(&self) -> HeaderView {
        HeaderView {
            ty: self.ty,
            version: self.version,
            dcid: self.dcid@,
            scid: self.scid@,
            odcid: view_opt(self.odcid),
            pkt_num: self.pkt_num,
            pkt_num_len: self.pkt_num_len,
            token: view_opt(self.token),
            versions: view_opt(self.versions),
            key_phase: self.key_phase,
        }
    }
}

/// What came of reading something: where the reading stopped, and what was read.
pub struct Parsed<T> {
    pub end: int,
    pub res: Result<T, Error>,
}

/// The bytes ended at `end` before what was to be read.
pub open spec fn too_short<T>(end: int) -> Parsed<T> {
    Parsed { end, res: Err(Error::BufferTooShort) }
}

/// The fields of a long header that depend on the packet's type.
#[verifier::ext_equal]
pub struct Tail {
    pub odcid: Option<Seq<u8>>,
    pub token: Option<Seq<u8>>,
    pub versions: Option<Seq<u32>>,
}

/// The first byte of a packet says that its header is long.
pub open spec fn long_form(first: u8) -> bool {
    first >= 0x80
}

/// The type of a packet with a long header.
pub open spec fn long_type(first: u8, version: u32) -> Type {
    let bits = (first / 16) % 4;
    if version == 0 {
        Type::VersionNegotiation
    } else if bits == 0 {
        Type::Initial
    } else if bits == 1 {
        Type::ZeroRTT
    } else if bits == 2 {
        Type::Handshake
    } else {
        Type::Retry
    }
}

/// A short header, as it is read from a packet.
pub open spec fn short_header(dcid: Seq<u8>) -> HeaderView {
    HeaderView {
        ty: Type::Application,
        version: 0,
        dcid,
        scid: Seq::empty(),
        odcid: None,
        pkt_num: 0,
        pkt_num_len: 0,
        token: None,
        versions: None,
        key_phase: false,
    }
}

/// A long header, as it is read from a packet.
pub open spec fn long_header(
    ty: Type,
    version: u32,
    dcid: Seq<u8>,
    scid: Seq<u8>,
    tail: Tail,
) -> HeaderView {
    HeaderView {
        ty,
        version,
        dcid,
        scid,
        odcid: tail.odcid,
        pkt_num: 0,
        pkt_num_len: 0,
        token: tail.token,
        versions: tail.versions,
        key_phase: false,
    }
}

/// Reads a connection ID with its length before it; `capped` says that it may
/// not be longer than [`MAX_CID_LEN`].
pub open spec fn parse_cid(s: Seq<u8>, pos: int, capped: bool) -> Parsed<Seq<u8>> {
    let len = s[pos];
    if s.len() < pos + 1 {
        too_short(pos)
    } else if capped && len > MAX_CID_LEN {
        Parsed { end: pos + 1, res: Err(Error::InvalidPacket) }
    } else if s.len() < pos + 1 + len {
        too_short(pos + 1)
    } else {
        Parsed { end: pos + 1 + len, res: Ok(s.subrange(pos + 1, pos + 1 + len)) }
    }
}

/// Reads a token with its length before it.
pub open spec fn parse_token(s: Seq<u8>, pos: int) -> Parsed<Seq<u8>> {
    let size = varint_size(s[pos]);
    let start = pos + size;
    let len = varint_at(s, pos) as usize;
    if s.len() < pos + 1 || s.len() < start {
        too_short(pos)
    } else if s.len() < start + len {
        too_short(start)
    } else {
        Parsed { end: start + len, res: Ok(s.subrange(start, start + len)) }
    }
}

/// The list of the first `n` versions that stand at `pos`.
pub open spec fn versions_at(s: Seq<u8>, pos: int, n: int) -> Seq<u32> {
    Seq::new(n as nat, |i: int| be_at(s, pos + 4 * i, 4) as u32)
}

/// Reads a list of versions that goes on to the end of the packet.
pub open spec fn parse_versions(s: Seq<u8>, pos: int) -> Parsed<Seq<u32>> {
    let n = (s.len() - pos) / 4;
    if (s.len() - pos) % 4 == 0 {
        Parsed { end: s.len() as int, res: Ok(versions_at(s, pos, n)) }
    } else {
        too_short(pos + 4 * n)
    }
}

/// Reads what follows the connection IDs in a long header. The token of a
/// `Retry` packet is all that is left of the packet, and is not moved past.
pub open spec fn parse_tail(s: Seq<u8>, pos: int, ty: Type) -> Parsed<Tail> {
    let nothing = Tail { odcid: None, token: None, versions: None };
    match ty {
        Type::Initial => {
            let p = parse_token(s, pos);
            Parsed {
                end: p.end,
                res: match p.res {
                    Ok(token) => Ok(Tail { token: Some(token), ..nothing }),
                    Err(e) => Err(e),
                },
            }
        },
        Type::Retry => {
            let p = parse_cid(s, pos, true);
            Parsed {
                end: p.end,
                res: match p.res {
                    Ok(odcid) => Ok(
                        Tail { odcid: Some(odcid), token: Some(s.skip(p.end)), ..nothing },
                    ),
                    Err(e) => Err(e),
                },
            }
        },
        Type::VersionNegotiation => {
            let p = parse_versions(s, pos);
            Parsed {
                end: p.end,
                res: match p.res {
                    Ok(versions) => Ok(Tail { versions: Some(versions), ..nothing }),
                    Err(e) => Err(e),
                },
            }
        },
        _ => Parsed { end: pos, res: Ok(nothing) },
    }
}

/// Reads a long header from the version on.
pub open spec fn parse_long(s: Seq<u8>, pos: int, first: u8) -> Parsed<HeaderView> {
    let version = be_at(s, pos, 4) as u32;
    let ty = long_type(first, version);
    let capped = version == PROTOCOL_VERSION;
    if s.len() < pos + 4 {
        too_short(pos)
    } else {
        let d = parse_cid(s, pos + 4, capped);
        match d.res {
            Err(e) => Parsed { end: d.end, res: Err(e) },
            Ok(dcid) => {
                let c = parse_cid(s, d.end, capped);
                match c.res {
                    Err(e) => Parsed { end: c.end, res: Err(e) },
                    Ok(scid) => {
                        let t = parse_tail(s, c.end, ty);
                        match t.res {
                            Err(e) => Parsed { end: t.end, res: Err(e) },
                            Ok(tail) => Parsed {
                                end: t.end,
                                res: Ok(long_header(ty, version, dcid, scid, tail)),
                            },
                        }
                    },
                }
            },
        }
    }
}

/// Reads a header. The destination connection ID of a short header has no
/// length before it: `dcid_len` is the one that the receiver gave out.
pub open spec fn parse_header(s: Seq<u8>, pos: int, dcid_len: int) -> Parsed<HeaderView> {
    if s.len() < pos + 1 {
        too_short(pos)
    } else if long_form(s[pos]) {
        parse_long(s, pos + 1, s[pos])
    } else if s.len() < pos + 1 + dcid_len {
        too_short(pos + 1)
    } else {
        Parsed {
            end: pos + 1 + dcid_len,
            res: Ok(short_header(s.subrange(pos + 1, pos + 1 + dcid_len))),
        }
    }
}

/// The result of a function that reads, as contracts speak of it.
pub open spec fn header_result(res: Result<Header, Error>) -> Result<HeaderView, Error> {
    match res {
        Ok(h) => Ok(h@),
        Err(e) => Err(e),
    }
}

/// The result of a function that reads a vector, as contracts speak of it.
pub open spec fn vec_result<T>(res: Result<Vec<T>, Error>) -> Result<Seq<T>, Error> {
    match res {
        Ok(v) => Ok(v@),
        Err(e) => Err(e),
    }
}

/// Reads `len` bytes.
fn get_copy(b: &mut Octets, len: usize) -> (res: Result<Vec<u8>, Error>)
    requires
        old(b).wf(),
    ensures
        final(b).wf(),
        final(b).data() == old(b).data(),
        final(final(b).buf)@ == final(old(b).buf)@,
        match res {
            Ok(v) => {
                &&& len <= old(b).left()
                &&& final(b).off == old(b).off + len
                &&& v@ == old(b).data().subrange(old(b).off as int, old(b).off + len)
            },
            Err(e) => {
                &&& e == Error::BufferTooShort
                &&& len > old(b).left()
                &&& final(b).off == old(b).off
            },
        },
{
    let bytes = b.get_bytes(len)?.to_vec();
    assert(b.data() =~= old(b).data());
    assert(bytes@ =~= old(b).data().subrange(old(b).off as int, old(b).off + len));
    Ok(bytes)
}

/// Reads a connection ID with its length before it.
fn get_cid(b: &mut Octets, capped: bool) -> (res: Result<Vec<u8>, Error>)
    requires
        old(b).wf(),
    ensures
        final(b).wf(),
        final(b).data() == old(b).data(),
        final(final(b).buf)@ == final(old(b).buf)@,
        ({
            let p = parse_cid(old(b).data(), old(b).off as int, capped);
            &&& final(b).off == p.end
            &&& vec_result(res) == p.res
        }),
{
    let len: u8 = b.get_u8()?;
    if capped && len > MAX_CID_LEN {
        return Err(Error::InvalidPacket);
    }
    get_copy(b, len as usize)
}

/// Reads a token with its length before it.
fn get_token(b: &mut Octets) -> (res: Result<Vec<u8>, Error>)
    requires
        old(b).wf(),
    ensures
        final(b).wf(),
        final(b).data() == old(b).data(),
        final(final(b).buf)@ == final(old(b).buf)@,
        ({
            let p = parse_token(old(b).data(), old(b).off as int);
            &&& final(b).off == p.end
            &&& vec_result(res) == p.res
        }),
{
    let token = b.get_bytes_with_varint_length()?.to_vec();
    assert(b.data() =~= old(b).data());
    assert(parse_token(old(b).data(), old(b).off as int).res->Ok_0 =~= token@);
    Ok(token)
}

/// Reads versions up to the end of the buffer.
fn get_versions(b: &mut Octets) -> (res: Result<Vec<u32>, Error>)
    requires
        old(b).wf(),
    ensures
        final(b).wf(),
        final(b).data() == old(b).data(),
        final(final(b).buf)@ == final(old(b).buf)@,
        ({
            let p = parse_versions(old(b).data(), old(b).off as int);
            &&& final(b).off == p.end
            &&& vec_result(res) == p.res
        }),
{
    let ghost s = b.data();
    let ghost pos = b.off as int;
    let mut list: Vec<u32> = Vec::new();

    while b.cap() > 0
        invariant
            b.wf(),
            b.data() == s,
            final(b.buf)@ == final(old(b).buf)@,
            b.off == pos + 4 * list@.len(),
            list@ =~= versions_at(s, pos, list@.len() as int),
            s == old(b).data(),
            pos == old(b).off,
        decreases b.left(),
    {
        let version: u32 = b.get_u32()?;
        list.push(version);
    }

    Ok(list)
}

/// The last byte of a length.
pub open spec fn len_byte(len: nat) -> u8 {
    (len % 256) as u8
}

/// The bits that tell the types of long headers apart.
pub open spec fn type_bits(ty: Type) -> u8 {
    match ty {
        Type::Initial => 0,
        Type::ZeroRTT => 1,
        Type::Handshake => 2,
        _ => 3,
    }
}

/// What the first byte of a header says of the length of the packet number: the
/// length, less one.
pub open spec fn len_bits(pkt_num_len: usize) -> u8 {
    if pkt_num_len == 0 {
        0
    } else {
        len_byte((pkt_num_len - 1) as nat)
    }
}

/// The first byte of a header. A packet number takes at most four bytes: a header
/// that says it takes more than sixteen also sets bits that have another meaning.
pub open spec fn first_byte(h: HeaderView) -> u8 {
    let n = len_bits(h.pkt_num_len);
    if h.ty == Type::Application {
        let key_phase: int = if h.key_phase {
            4
        } else {
            0
        };
        (0x40 + 8 * ((n / 8) % 8) + key_phase + n % 4) as u8
    } else if n < 16 {
        (0xc0 + 16 * type_bits(h.ty) + n) as u8
    } else {
        n | (FORM_BIT | FIXED_BIT | (type_bits(h.ty) << 4))
    }
}

/// The fields of a long header that every type has.
pub open spec fn long_fields(h: HeaderView) -> Seq<Seq<u8>> {
    seq![
        seq![first_byte(h)],
        be_bytes(h.version as nat, 4),
        seq![len_byte(h.dcid.len())],
        h.dcid,
        seq![len_byte(h.scid.len())],
        h.scid,
    ]
}

/// The fields that follow the connection IDs in a long header.
pub open spec fn tail_fields(h: HeaderView) -> Seq<Seq<u8>> {
    match h.ty {
        Type::Initial => match h.token {
            Some(token) => seq![varint_bytes(token.len()), token],
            None => seq![varint_bytes(0)],
        },
        Type::Retry => seq![seq![len_byte(h.odcid->0.len())], h.odcid->0, h.token->0],
        _ => Seq::empty(),
    }
}

/// The fields of a header, in the order in which they are written.
pub open spec fn header_fields(h: HeaderView) -> Seq<Seq<u8>> {
    if h.ty == Type::Application {
        seq![seq![first_byte(h)], h.dcid]
    } else {
        long_fields(h) + tail_fields(h)
    }
}

/// The bytes of a header.
pub open spec fn header_bytes(h: HeaderView) -> Seq<u8> {
    flat(header_fields(h))
}

/// Writing `h` where there is room for `room` bytes asks for no field that `h`
/// does not have, and for no token that is longer than its length can say.
pub open spec fn encodable(h: HeaderView, room: int) -> bool {
    let ids = 7 + h.dcid.len() + h.scid.len();
    room < ids || match h.ty {
        Type::Initial => h.token matches Some(token) ==> token.len() < VARINT_LIMIT,
        Type::Retry => h.odcid matches Some(odcid) && (room < ids + 1 + odcid.len()
            || h.token is Some),
        _ => true,
    }
}

/// The fields that every long header has, written, take as many bytes as they
/// are long.
proof fn lemma_long_fields_fit(h: HeaderView, data: Seq<u8>, off: int)
    requires
        0 <= off <= data.len(),
    ensures
        ({
            let w = put_fields(data, off, long_fields(h));
            w.ok ==> w.off == off + 7 + h.dcid.len() + h.scid.len() && w.data.len() == data.len()
        }),
{
    lemma_put_fields_whole(data, off, long_fields(h));
    lemma_be_bytes_len(h.version as nat, 4);
    reveal_with_fuel(flat, 7);
}

/// The last byte of `len`.
pub(crate) fn low_byte(len: usize) -> (res: u8)
    ensures
        res == len_byte(len as nat),
{
    assert(len as u8 == len % 256) by (bit_vector);
    len as u8
}

impl Header {
    /// Parses a QUIC packet header from the given buffer.
    ///
    /// The `dcid_len` parameter is the length of the destination connection ID,
    /// required to parse short header packets.
    pub fn from_slice(buf: &mut [u8], dcid_len: usize) -> (res: Result<Header, Error>)
        ensures
            final(buf)@ == old(buf)@,
            header_result(res) == parse_header(old(buf)@, 0, dcid_len as int).res,
    {
        let mut b = Octets::with_slice(buf);
        Header::from_bytes(&mut b, dcid_len)
    }

    /// Parses a QUIC packet header at the position of `b`.
    pub fn from_bytes(b: &mut Octets, dcid_len: usize) -> (res: Result<Header, Error>)
        requires
            old(b).wf(),
        ensures
            final(b).wf(),
            final(b).data() == old(b).data(),
            final(final(b).buf)@ == final(old(b).buf)@,
            ({
                let p = parse_header(old(b).data(), old(b).off as int, dcid_len as int);
                &&& final(b).off == p.end
                &&& header_result(res) == p.res
            }),
    {
        let ghost s = b.data();
        let ghost pos = b.off as int;
        let first: u8 = b.get_u8()?;

        if !Header::is_long(first) {
            // Decode short header.
            let dcid = get_copy(b, dcid_len)?;
            let hdr = Header {
                ty: Type::Application,
                version: 0,
                dcid,
                scid: Vec::new(),
                odcid: None,
                pkt_num: 0,
                pkt_num_len: 0,
                token: None,
                versions: None,
                key_phase: false,
            };
            assert(hdr@ =~= short_header(dcid@));
            return Ok(hdr);
        }
        // Decode long header.

        let version: u32 = b.get_u32()?;

        let ty = if version == 0 {
            Type::VersionNegotiation
        } else {
            assert((first & 0x30) >> 4 == (first / 16) % 4) by (bit_vector);
            match (first & TYPE_MASK) >> 4 {
                0x00 => Type::Initial,
                0x01 => Type::ZeroRTT,
                0x02 => Type::Handshake,
                0x03 => Type::Retry,
                _ => return Err(Error::InvalidPacket),
            }
        };

        let dcid = get_cid(b, version == PROTOCOL_VERSION)?;
        let scid = get_cid(b, version == PROTOCOL_VERSION)?;

        // End of invariants.

        let mut odcid: Option<Vec<u8>> = None;
        let mut token: Option<Vec<u8>> = None;
        let mut versions: Option<Vec<u32>> = None;

        match ty {
            Type::Initial => {
                token = Some(get_token(b)?);
            },
            Type::Retry => {
                odcid = Some(get_cid(b, true)?);
                token = Some(b.to_vec());
            },
            Type::VersionNegotiation => {
                versions = Some(get_versions(b)?);
            },
            _ => (),
        }

        Ok(
            Header {
                ty,
                version,
                dcid,
                scid,
                odcid,
                pkt_num: 0,
                pkt_num_len: 0,
                token,
                versions,
                key_phase: false,
            },
        )
    }

    /// Writes the header at the position of `out`.
    pub fn to_bytes(&self, out: &mut Octets) -> (res: Result<(), Error>)
        requires
            old(out).wf(),
            encodable(self@, old(out).left()),
        ensures
            final(out).wf(),
            final(final(out).buf)@ == final(old(out).buf)@,
            self.ty == Type::VersionNegotiation ==> {
                &&& res == Err::<(), Error>(Error::InvalidPacket)
                &&& final(out).data() == old(out).data()
                &&& final(out).off == old(out).off
            },
            self.ty != Type::VersionNegotiation ==> {
                let w = put_fields(old(out).data(), old(out).off as int, header_fields(self@));
                &&& res == (if w.ok {
                    Ok::<(), Error>(())
                } else {
                    Err::<(), Error>(Error::BufferTooShort)
                })
                &&& final(out).data() == w.data
                &&& final(out).off == w.off
            },
            self.ty != Type::VersionNegotiation ==> {
                let bytes = header_bytes(self@);
                &&& res is Ok <==> bytes.len() <= old(out).left()
                &&& res is Ok ==> {
                    &&& final(out).off == old(out).off + bytes.len()
                    &&& final(out).data() == overwrite(
                        old(out).data(),
                        old(out).off as int,
                        bytes,
                    )
                }
            },
    {
        let ghost h = self@;
        let ghost fields = header_fields(h);
        let ghost data = out.data();
        let ghost off = out.off as int;
        proof {
            assert(fields.skip(0) =~= fields);
            assert(fields.skip(fields.len() as int) =~= Seq::empty());
            lemma_put_fields_whole(data, off, fields);
        }

        let mut first: u8 = 0;

        // Encode pkt num length.
        let n: u8 = low_byte(self.pkt_num_len.saturating_sub(1));
        assert(0u8 | n == n) by (bit_vector);
        first = first | n;

        // Encode short header.
        if self.ty == Type::Application {
            // Unset form bit for short header.
            first = first & !FORM_BIT;

            // Set fixed bit.
            first = first | FIXED_BIT;

            // Set key phase bit.
            if self.key_phase {
                first = first | KEY_PHASE_BIT;
            } else {
                first = first & !KEY_PHASE_BIT;
            }

            proof {
                assert(((n & !0x80u8) | 0x40u8) | 0x04u8 == 0x40 + 8 * ((n / 8) % 8) + 4 + n % 4
                    && ((n & !0x80u8) | 0x40u8) & !0x04u8 == 0x40 + 8 * ((n / 8) % 8) + n % 4)
                    by (bit_vector);
                lemma_put_step(data, off, fields, 0);
            }
            out.put_u8(first)?;
            proof {
                lemma_put_step(out.data(), out.off as int, fields, 1);
            }
            out.put_bytes(&self.dcid)?;

            return Ok(());
        }
        // Encode long header.

        let ty: u8 = match self.ty {
            Type::Initial => 0x00,
            Type::ZeroRTT => 0x01,
            Type::Handshake => 0x02,
            Type::Retry => 0x03,
            _ => return Err(Error::InvalidPacket),
        };

        first = first | (FORM_BIT | FIXED_BIT | (ty << 4));
        assert(n < 16 ==> n | (0x80u8 | 0x40u8 | (ty << 4)) == 0xc0 + 16 * ty + n) by (bit_vector)
            requires
                ty < 4,
        ;

        proof {
            lemma_put_concat(data, off, long_fields(h), tail_fields(h));
            lemma_long_fields_fit(h, data, off);
        }
        self.put_long_fields(first, out)?;
        self.put_tail_fields(out)
    }

    /// Writes the fields of a long header that every type has.
    fn put_long_fields(&self, first: u8, out: &mut Octets) -> (res: Result<(), Error>)
        requires
            old(out).wf(),
            first == first_byte(self@),
        ensures
            final(out).wf(),
            final(final(out).buf)@ == final(old(out).buf)@,
            ({
                let w = put_fields(old(out).data(), old(out).off as int, long_fields(self@));
                &&& res == (if w.ok {
                    Ok::<(), Error>(())
                } else {
                    Err::<(), Error>(Error::BufferTooShort)
                })
                &&& final(out).data() == w.data
                &&& final(out).off == w.off
            }),
    {
        let ghost fields = long_fields(self@);
        proof {
            assert(fields.skip(0) =~= fields);
            assert(fields.skip(6) =~= Seq::empty());
            lemma_be_bytes_len(self.version as nat, 4);
            lemma_put_step(out.data(), out.off as int, fields, 0);
        }
        out.put_u8(first)?;
        proof {
            lemma_put_step(out.data(), out.off as int, fields, 1);
        }
        out.put_u32(self.version)?;
        proof {
            lemma_put_step(out.data(), out.off as int, fields, 2);
        }
        out.put_u8(low_byte(self.dcid.len()))?;
        proof {
            lemma_put_step(out.data(), out.off as int, fields, 3);
        }
        out.put_bytes(&self.dcid)?;
        proof {
            lemma_put_step(out.data(), out.off as int, fields, 4);
        }
        out.put_u8(low_byte(self.scid.len()))?;
        proof {
            lemma_put_step(out.data(), out.off as int, fields, 5);
        }
        out.put_bytes(&self.scid)?;
        Ok(())
    }

    /// Writes the fields that follow the connection IDs in a long header.
    fn put_tail_fields(&self, out: &mut Octets) -> (res: Result<(), Error>)
        requires
            old(out).wf(),
            self.ty == Type::Initial && self.token is Some ==> self.token->0@.len()
                < VARINT_LIMIT,
            self.ty == Type::Retry ==> self.odcid is Some && (self.token is Some || old(out).left()
                < 1 + self.odcid->0@.len()),
        ensures
            final(out).wf(),
            final(final(out).buf)@ == final(old(out).buf)@,
            ({
                let w = put_fields(old(out).data(), old(out).off as int, tail_fields(self@));
                &&& res == (if w.ok {
                    Ok::<(), Error>(())
                } else {
                    Err::<(), Error>(Error::BufferTooShort)
                })
                &&& final(out).data() == w.data
                &&& final(out).off == w.off
            }),
    {
        let ghost fields = tail_fields(self@);
        proof {
            assert(fields.skip(0) =~= fields);
            assert(fields.skip(fields.len() as int) =~= Seq::empty());
        }
        if self.ty == Type::Retry {
            let odcid = self.odcid.as_ref().unwrap();
            proof {
                lemma_put_step(out.data(), out.off as int, fields, 0);
            }
            out.put_u8(low_byte(odcid.len()))?;
            proof {
                lemma_put_step(out.data(), out.off as int, fields, 1);
            }
            out.put_bytes(odcid)?;

            // Retry packets don't have a token length.
            proof {
                lemma_put_step(out.data(), out.off as int, fields, 2);
            }
            out.put_bytes(self.token.as_ref().unwrap())?;
        }
        // Only Initial and Retry packets have a token.

        if self.ty == Type::Initial {
            match &self.token {
                Some(v) => {
                    proof {
                        let len = v@.len();
                        lemma_be_bytes_len(len + varint_tag(varint_len(len)), varint_len(len));
                        lemma_put_step(out.data(), out.off as int, fields, 0);
                    }
                    out.put_varint(v.len() as u64)?;
                    proof {
                        lemma_put_step(out.data(), out.off as int, fields, 1);
                    }
                    out.put_bytes(v)?;
                },
                // No token, so length = 0.
                None => {
                    proof {
                        lemma_be_bytes_len(0, 1);
                        lemma_put_step(out.data(), out.off as int, fields, 0);
                    }
                    out.put_varint(0)?;
                },
            }
        }
        Ok(())
    }

    /// Returns true if the packet has a long header.
    ///
    /// The `b` parameter represents the first byte of the QUIC header.
    pub fn is_long(b: u8) -> (res: bool)
        ensures
            res == long_form(b),
    {
        assert(b & 0x80 != 0 <==> b >= 0x80) by (bit_vector);
        b & FORM_BIT != 0
    }
}

/// The epochs and the types of their packets.
pub proof fn epochs_of_types(ty: Type)
    ensures
        ty == Type::Initial ==> epoch_of(ty) == Some(0usize),
        ty == Type::Handshake ==> epoch_of(ty) == Some(1usize),
        ty == Type::ZeroRTT || ty == Type::Application ==> epoch_of(ty) == Some(2usize),
        ty == Type::Retry || ty == Type::VersionNegotiation ==> epoch_of(ty) is None,
        EPOCH_INITIAL == 0,
        EPOCH_HANDSHAKE == 1,
        EPOCH_APPLICATION == 2,
        EPOCH_COUNT == 3,
{
}

/// A header is long if and only if the highest bit of its first byte is set.
pub proof fn form_of_header(first: u8)
    ensures
        long_form(first) <==> first & 0x80 == 0x80,
{
    assert(first & 0x80 == 0x80 <==> first >= 0x80) by (bit_vector);
}

/// What a contract says of a header, it says of each of its fields.
pub proof fn fields_of_header(h: Header)
    ensures
        h@.ty == h.ty,
        h@.version == h.version,
        h@.dcid == h.dcid@,
        h@.scid == h.scid@,
        h.odcid matches Some(v) ==> h@.odcid == Some(v@),
        h.odcid is None ==> h@.odcid is None,
        h@.pkt_num == h.pkt_num,
        h@.pkt_num_len == h.pkt_num_len,
        h.token matches Some(v) ==> h@.token == Some(v@),
        h.token is None ==> h@.token is None,
        h.versions matches Some(v) ==> h@.versions == Some(v@),
        h.versions is None ==> h@.versions is None,
        h@.key_phase == h.key_phase,
{
}

/// What a contract says of the result of reading a header, it says of the header
/// or of the error.
pub proof fn parts_of_result(res: Result<Header, Error>)
    ensures
        res matches Ok(h) ==> header_result(res) == Ok::<HeaderView, Error>(h@),
        res matches Err(e) ==> header_result(res) == Err::<HeaderView, Error>(e),
{
}

} // verus!
