//! What a receiver gets of a packet that was sent.
use vstd::prelude::*;

use crate::crypto::Keys;
use crate::error::Error;
use crate::fields::{flat, lemma_put_fields_whole};
use crate::format::{first_byte_bits, masked_header_is_read, written_bytes};
use crate::header::{first_byte, header_bytes, header_fields, parse_header, HeaderView, Type};
use crate::header_laws::{header_read_back, sendable_header_tells_type};
use crate::protect::{content, content_sealed, filled_in, hdr_protected, payload_sample};
use crate::protect::{header_protection_is_removed, protect, sample_at, unprotect};
use crate::wire::{be_bytes, be_value, lemma_be_round_trip, lemma_pow256_values, overwrite};

verus! {

/// A header of a packet that is protected, with fields that a receiver takes.
pub open spec fn sendable(h: HeaderView) -> bool {
    &&& 1 <= h.pkt_num_len <= 4
    &&& h.ty != Type::Retry
    &&& h.ty != Type::VersionNegotiation
    &&& h.ty != Type::Application ==> {
        &&& h.version != 0
        &&& h.dcid.len() <= 255
        &&& h.scid.len() <= 255
        &&& h.version == 0xff00_0017 ==> h.dcid.len() <= 20 && h.scid.len() <= 20
    }
    &&& h.ty == Type::Initial ==> (h.token matches Some(token) ==> token.len()
        < 0x4000_0000_0000_0000 && token.len() <= usize::MAX)
}

/// `pn` fits in `n` bytes.
pub open spec fn fits(pn: int, n: int) -> bool {
    &&& 0 <= pn
    &&& n == 1 ==> pn < 0x100
    &&& n == 2 ==> pn < 0x1_0000
    &&& n == 3 ==> pn < 0x100_0000
    &&& n == 4 ==> pn < 0x1_0000_0000
}

/// The header of a packet that starts with `header_bytes(h)` is read, whatever
/// follows it and whatever mask lies over its first byte.
proof fn lemma_header_is_read(h: HeaderView, s: Seq<u8>, dcid_len: int, m: u8)
    requires
        sendable(h),
        header_bytes(h).len() <= s.len(),
        s.len() > 0,
        s.take(header_bytes(h).len() as int) == header_bytes(h),
        h.ty == Type::Application ==> dcid_len == h.dcid.len(),
        0 <= dcid_len,
    ensures
        ({
            let t = s.update(
                0,
                if s[0] >= 0x80 {
                    s[0] ^ (m & 0x0f)
                } else {
                    s[0] ^ (m & 0x1f)
                },
            );
            let p = parse_header(t, 0, dcid_len);
            &&& p.end == header_bytes(h).len()
            &&& p.res matches Ok(r)
            &&& r.ty == h.ty
            &&& r.dcid == h.dcid
            &&& h.ty != Type::Application ==> r.version == h.version && r.scid == h.scid
            &&& h.ty == Type::Initial && h.token is Some ==> r.token == h.token
        }),
{
    let fields = header_fields(h);
    lemma_put_fields_whole(s, 0, fields);
    assert(overwrite(s, 0, flat(fields)) =~= s);
    sendable_header_tells_type(h);
    header_read_back(h, s, 0, dcid_len);
    masked_header_is_read(s, 0, dcid_len, m);
}

/// How a packet starts: with the first byte of its header; the packet number is at
/// the end of what stands before its content.
proof fn lemma_start_of_packet(h: HeaderView, header: Seq<u8>, between: Seq<u8>, pn: u64)
    requires
        sendable(h),
        fits(pn as int, h.pkt_num_len as int),
        header == header_bytes(h) + between + be_bytes(pn as nat, h.pkt_num_len as nat),
    ensures
        ({
            let n = h.pkt_num_len as int;
            let w = header_bytes(h).len() as int;
            &&& w >= 1
            &&& header.len() == w + between.len() + n
            &&& header[0] == first_byte(h)
            &&& header.take(w) == header_bytes(h)
            &&& (header[0] & 0x03) + 1 == n
            &&& h.ty == Type::Application ==> (header[0] & 0x04 == 0x04 <==> h.key_phase)
            &&& header.skip(header.len() - n) == be_bytes(pn as nat, n as nat)
            &&& be_value(be_bytes(pn as nat, n as nat)) == pn
        }),
{
    let n = h.pkt_num_len as int;
    let w = header_bytes(h).len() as int;
    lemma_pow256_values();
    lemma_be_round_trip(pn as nat, n as nat);
    first_byte_bits(h);
    written_bytes(h);
    assert(header_bytes(h)[0] == first_byte(h));
    assert(header.take(w) =~= header_bytes(h));
    assert(header.skip(header.len() - n) =~= be_bytes(pn as nat, n as nat));
}

/// The protection of a header is removed by a receiver that takes the sample from
/// the packet.
proof fn lemma_packet_is_unprotected(
    header: Seq<u8>,
    sealed: Seq<u8>,
    off: int,
    len: int,
    n: int,
    mask: Seq<u8>,
    after: Seq<u8>,
    pn: u64,
)
    requires
        1 <= n <= 4,
        n < off,
        0 <= 20 - n <= len,
        off + len <= sealed.len(),
        sealed.take(off) == header,
        (header[0] & 0x03) + 1 == n,
        be_value(header.skip(off - n)) == pn,
        after == protect(header, n, mask) + sealed.skip(off),
    ensures
        sample_at(after, off - n) == payload_sample(sealed.subrange(off, off + len), n),
        ({
            let u = unprotect(after, off - n, mask);
            &&& u.data == sealed
            &&& u.first == header[0]
            &&& u.pn == pn
            &&& u.pn_len == n
        }),
{
    let at = off - n;
    let f = header[0];
    assert(f & 0x03 == f % 4) by (bit_vector);
    assert(sealed[0] == f);
    header_protection_is_removed(sealed, off, n, mask);
    assert(sealed.subrange(at, off) =~= header.skip(at));
    let payload = sealed.subrange(off, off + len);
    assert(protect(header, n, mask).len() == off);
    assert(sample_at(after, at) =~= payload_sample(payload, n));
}

/// The header of a protected packet is read.
proof fn lemma_packet_is_read(
    h: HeaderView,
    header: Seq<u8>,
    between: Seq<u8>,
    off: int,
    n: int,
    mask: Seq<u8>,
    after: Seq<u8>,
)
    requires
        sendable(h),
        n == h.pkt_num_len,
        header.len() == off,
        off <= after.len(),
        ({
            let w = header_bytes(h).len() as int;
            &&& w >= 1
            &&& off == w + between.len() + n
            &&& header.take(w) == header_bytes(h)
        }),
        after.take(off) == protect(header, n, mask),
    ensures
        ({
            let p = parse_header(after, 0, h.dcid.len() as int);
            &&& p.end == header_bytes(h).len()
            &&& p.res matches Ok(r)
            &&& r.ty == h.ty
            &&& r.dcid == h.dcid
            &&& h.ty != Type::Application ==> r.version == h.version && r.scid == h.scid
            &&& h.ty == Type::Initial && h.token is Some ==> r.token == h.token
        }),
{
    let w = header_bytes(h).len() as int;
    let f = header[0];
    let s = after.update(0, f);
    assert forall|i: int| 0 < i < w implies s[i] == header_bytes(h)[i] by {
        assert(after[i] == after.take(off)[i]);
        assert(header.take(w)[i] == header[i]);
    }
    assert(header.take(w)[0] == f);
    assert(s.take(w) =~= header_bytes(h));
    lemma_header_is_read(h, s, h.dcid.len() as int, mask[0]);
    assert(after.take(off)[0] == after[0]);
    assert(s.update(
        0,
        if f >= 0x80 {
            f ^ (mask[0] & 0x0f)
        } else {
            f ^ (mask[0] & 0x1f)
        },
    ) =~= after);
}

/// A packet is delivered: its header is written, with the packet number behind it,
/// the packet is protected, and the receiver, with the same keys, reads the header
/// that was written, gets the packet number in as many bytes as the header gave
/// it, the key phase of a short header, and the content that was sealed.
///
/// `between` is what stands between the header and the packet number. What is
/// required of `after` is what `encrypt_pkt` states of the packet that it protects.
pub proof fn sent_packet_is_received(
    h: HeaderView,
    between: Seq<u8>,
    pn: u64,
    counter: u64,
    data: Seq<u8>,
    off: int,
    len: int,
    keys: Keys,
    after: Seq<u8>,
)
    requires
        sendable(h),
        fits(pn as int, h.pkt_num_len as int),
        0 <= off,
        off + len <= data.len(),
        20 - h.pkt_num_len <= len,
        data.take(off) == header_bytes(h) + between + be_bytes(pn as nat, h.pkt_num_len as nat),
        after.len() == data.len(),
        ({
            let n = h.pkt_num_len as int;
            let sealed = content_sealed(data, off, len, counter, keys);
            &&& keys.sealed(counter, data.take(off), data.subrange(off, off + len - 16)).len()
                == len
            &&& content(sealed, off, len, counter, keys) == Some(
                data.subrange(off, off + len - 16),
            )
            &&& hdr_protected(
                data.take(off),
                n,
                keys.mask(payload_sample(sealed.subrange(off, off + len), n)),
                after.take(off),
                Ok::<(), Error>(()),
            )
            &&& after.skip(off) == sealed.skip(off)
        }),
    ensures
        ({
            let at = off - h.pkt_num_len;
            let p = parse_header(after, 0, h.dcid.len() as int);
            let u = unprotect(after, at, keys.mask(sample_at(after, at)));
            &&& p.end == header_bytes(h).len()
            &&& p.res matches Ok(r)
            &&& r.ty == h.ty
            &&& r.dcid == h.dcid
            &&& h.ty != Type::Application ==> r.version == h.version && r.scid == h.scid
            &&& h.ty == Type::Initial && h.token is Some ==> r.token == h.token
            &&& filled_in(r, u).pkt_num == pn
            &&& filled_in(r, u).pkt_num_len == h.pkt_num_len
            &&& h.ty == Type::Application ==> filled_in(r, u).key_phase == h.key_phase
            &&& u.data.take(off) == data.take(off)
            &&& content(u.data, off, len, counter, keys) == Some(
                data.subrange(off, off + len - 16),
            )
        }),
{
    let n = h.pkt_num_len as int;
    let header = data.take(off);
    let sealed = content_sealed(data, off, len, counter, keys);
    let mask = keys.mask(payload_sample(sealed.subrange(off, off + len), n));
    lemma_start_of_packet(h, header, between, pn);
    assert(sealed.len() == data.len());
    assert(sealed.take(off) =~= header);
    assert(after =~= after.take(off) + after.skip(off));
    assert(after =~= protect(header, n, mask) + sealed.skip(off));
    lemma_packet_is_unprotected(header, sealed, off, len, n, mask, after, pn);
    lemma_packet_is_read(h, header, between, off, n, mask, after);
    let f = header[0];
    assert(f & 0x03 == f % 4 && (f & 0x04 == 0x04 <==> (f / 4) % 2 == 1)) by (bit_vector);
}

} // verus!
