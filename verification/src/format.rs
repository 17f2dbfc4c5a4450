//! How headers stand in packets, byte by byte.
use vstd::prelude::*;

use crate::error::Error;
use crate::header::{parse_cid, parse_header, parse_tail, parse_token, parse_versions};
use crate::fields::flat;
use crate::header::{first_byte, header_bytes, header_fields, len_bits, long_fields, tail_fields};
use crate::header::{versions_at, HeaderView, Type};
use crate::wire::{be_at, be_bytes, numbers_are_read_big_endian, numbers_are_written_big_endian};
use crate::wire::{varint_at, varint_bytes, varint_size, varints_are_written_short};
use crate::PROTOCOL_VERSION;

verus! {

/// The number that four bytes stand for, the most significant first.
pub open spec fn number(v: Seq<u8>) -> int {
    v[0] * 0x100_0000 + v[1] * 0x1_0000 + v[2] * 0x100 + v[3]
}

/// From `pos` on there stand the first byte and the version of a long header, the
/// connection IDs, each with its length before it, and `rest`.
pub open spec fn long_layout(
    s: Seq<u8>,
    pos: int,
    first: u8,
    v: Seq<u8>,
    dcid: Seq<u8>,
    scid: Seq<u8>,
    rest: Seq<u8>,
) -> bool {
    &&& 0 <= pos <= s.len()
    &&& first >= 0x80
    &&& v.len() == 4
    &&& dcid.len() <= 255
    &&& scid.len() <= 255
    &&& s.subrange(pos, s.len() as int) == seq![first] + v + seq![dcid.len() as u8] + dcid
        + seq![scid.len() as u8] + scid + rest
}

/// Connection IDs that a header with the version in `v` may have: those of the
/// version 0xff000017 have at most 20 bytes.
pub open spec fn ids_allowed(v: Seq<u8>, dcid: Seq<u8>, scid: Seq<u8>) -> bool {
    number(v) != 0xff00_0017 || dcid.len() <= 20 && scid.len() <= 20
}

proof fn lemma_layout(
    s: Seq<u8>,
    pos: int,
    first: u8,
    v: Seq<u8>,
    dcid: Seq<u8>,
    scid: Seq<u8>,
    rest: Seq<u8>,
)
    requires
        long_layout(s, pos, first, v, dcid, scid, rest),
    ensures
        s[pos] == first,
        be_at(s, pos + 1, 4) == number(v),
        0 <= number(v) <= u32::MAX,
        s[pos + 5] == dcid.len(),
        s.subrange(pos + 6, pos + 6 + dcid.len()) == dcid,
        s[pos + 6 + dcid.len()] == scid.len(),
        s.subrange(pos + 7 + dcid.len(), pos + 7 + dcid.len() + scid.len()) == scid,
        s.len() == pos + 7 + dcid.len() + scid.len() + rest.len(),
        s.skip(pos + 7 + dcid.len() + scid.len()) == rest,
        forall|i: int|
            0 <= i < rest.len() ==> #[trigger] rest[i] == s[pos + 7 + dcid.len() + scid.len() + i],
{
    let d = dcid.len() as int;
    let ids = pos + 7 + d + scid.len();
    let all = s.subrange(pos, s.len() as int);
    assert(all.len() == 7 + d + scid.len() + rest.len());
    assert(all[0] == first && all[5] == dcid.len() as u8 && all[6 + d] == scid.len() as u8);
    assert forall|i: int| 0 <= i < 4 implies s[pos + 1 + i] == v[i] by {
        assert(all[1 + i] == v[i]);
    }
    assert(s.subrange(pos + 1, pos + 5) =~= v);
    assert forall|i: int| 0 <= i < d implies s[pos + 6 + i] == dcid[i] by {
        assert(all[6 + i] == dcid[i]);
    }
    assert(s.subrange(pos + 6, pos + 6 + d) =~= dcid);
    assert forall|i: int| 0 <= i < scid.len() implies s[pos + 7 + d + i] == scid[i] by {
        assert(all[7 + d + i] == scid[i]);
    }
    assert(s.subrange(pos + 7 + d, ids) =~= scid);
    assert forall|i: int| 0 <= i < rest.len() implies #[trigger] rest[i] == s[ids + i] by {
        assert(all[7 + d + scid.len() + i] == rest[i]);
    }
    assert(s.skip(ids) =~= rest);
    numbers_are_read_big_endian(v);
}

/// The type of a long header: the version zero is that of version negotiation; of
/// any other, two bits of the first byte tell the type, and no other bit counts.
/// What precedes the fields of the type is read as it stands.
pub proof fn long_header_is_read(
    s: Seq<u8>,
    pos: int,
    dcid_len: int,
    first: u8,
    v: Seq<u8>,
    dcid: Seq<u8>,
    scid: Seq<u8>,
    rest: Seq<u8>,
)
    requires
        long_layout(s, pos, first, v, dcid, scid, rest),
        ids_allowed(v, dcid, scid),
    ensures
        parse_header(s, pos, dcid_len).res matches Ok(h) ==> {
            &&& number(v) == 0 ==> h.ty == Type::VersionNegotiation
            &&& number(v) != 0 && first & 0x30 == 0x00 ==> h.ty == Type::Initial
            &&& number(v) != 0 && first & 0x30 == 0x10 ==> h.ty == Type::ZeroRTT
            &&& number(v) != 0 && first & 0x30 == 0x20 ==> h.ty == Type::Handshake
            &&& number(v) != 0 && first & 0x30 == 0x30 ==> h.ty == Type::Retry
            &&& h.version == number(v)
            &&& h.dcid == dcid
            &&& h.scid == scid
            &&& h.pkt_num == 0
            &&& h.pkt_num_len == 0
            &&& !h.key_phase
        },
{
    lemma_layout(s, pos, first, v, dcid, scid, rest);
    lemma_type_bits(first);
}

proof fn lemma_type_bits(first: u8)
    ensures
        first & 0x30 == 0x00 <==> (first / 16) % 4 == 0,
        first & 0x30 == 0x10 <==> (first / 16) % 4 == 1,
        first & 0x30 == 0x20 <==> (first / 16) % 4 == 2,
        first & 0x30 == 0x30 <==> (first / 16) % 4 == 3,
{
    assert({
        &&& first & 0x30 == 0x00 <==> (first / 16) % 4 == 0
        &&& first & 0x30 == 0x10 <==> (first / 16) % 4 == 1
        &&& first & 0x30 == 0x20 <==> (first / 16) % 4 == 2
        &&& first & 0x30 == 0x30 <==> (first / 16) % 4 == 3
    }) by (bit_vector);
}

/// A header of a 0-RTT or of a handshake packet ends with its connection IDs.
pub proof fn plain_header_is_read(
    s: Seq<u8>,
    pos: int,
    dcid_len: int,
    first: u8,
    v: Seq<u8>,
    dcid: Seq<u8>,
    scid: Seq<u8>,
    rest: Seq<u8>,
)
    requires
        long_layout(s, pos, first, v, dcid, scid, rest),
        ids_allowed(v, dcid, scid),
        number(v) != 0,
        first & 0x30 == 0x10 || first & 0x30 == 0x20,
    ensures
        ({
            let p = parse_header(s, pos, dcid_len);
            &&& p.end == pos + 7 + dcid.len() + scid.len()
            &&& p.res matches Ok(h)
            &&& h.odcid is None
            &&& h.token is None
            &&& h.versions is None
        }),
{
    lemma_layout(s, pos, first, v, dcid, scid, rest);
    lemma_type_bits(first);
}

/// A token of an initial packet stands behind its length, a variable-length
/// integer, and the header ends with it.
pub proof fn initial_header_is_read(
    s: Seq<u8>,
    pos: int,
    dcid_len: int,
    first: u8,
    v: Seq<u8>,
    dcid: Seq<u8>,
    scid: Seq<u8>,
    size: Seq<u8>,
    token: Seq<u8>,
    rest: Seq<u8>,
)
    requires
        long_layout(s, pos, first, v, dcid, scid, size + token + rest),
        ids_allowed(v, dcid, scid),
        number(v) != 0,
        first & 0x30 == 0x00,
        size.len() > 0,
        varint_size(size[0]) == size.len(),
        varint_at(size, 0) == token.len(),
        token.len() <= usize::MAX,
    ensures
        ({
            let p = parse_header(s, pos, dcid_len);
            &&& p.end == s.len() - rest.len()
            &&& p.res matches Ok(h)
            &&& h.token == Some(token)
            &&& h.odcid is None
            &&& h.versions is None
        }),
{
    let tail = size + token + rest;
    let ids = pos + 7 + dcid.len() + scid.len();
    let n = size.len() as int;
    lemma_layout(s, pos, first, v, dcid, scid, tail);
    lemma_type_bits(first);
    assert(tail[0] == size[0]);
    assert forall|i: int| 0 <= i < n implies s[ids + i] == size[i] by {
        assert(tail[i] == size[i]);
    }
    assert(s.subrange(ids, ids + n) =~= size.subrange(0, n));
    assert forall|i: int| 0 <= i < token.len() implies s[ids + n + i] == token[i] by {
        assert(tail[n + i] == token[i]);
    }
    assert(s.subrange(ids + n, ids + n + token.len()) =~= token);
}

/// An initial packet that ends in the length of its token, or in the token, is too
/// short.
pub proof fn initial_header_is_cut_off(
    s: Seq<u8>,
    pos: int,
    dcid_len: int,
    first: u8,
    v: Seq<u8>,
    dcid: Seq<u8>,
    scid: Seq<u8>,
    rest: Seq<u8>,
)
    requires
        long_layout(s, pos, first, v, dcid, scid, rest),
        ids_allowed(v, dcid, scid),
        number(v) != 0,
        first & 0x30 == 0x00,
    ensures
        ({
            let p = parse_header(s, pos, dcid_len);
            let ids = pos + 7 + dcid.len() + scid.len();
            let n = varint_size(rest[0]);
            &&& rest.len() == 0 || rest.len() < n ==> {
                &&& p.end == ids
                &&& p.res == Err::<HeaderView, Error>(Error::BufferTooShort)
            }
            &&& rest.len() > 0 && n <= rest.len() < n + varint_at(rest, 0) && varint_at(rest, 0)
                <= usize::MAX ==> {
                &&& p.end == ids + n
                &&& p.res == Err::<HeaderView, Error>(Error::BufferTooShort)
            }
        }),
{
    let ids = pos + 7 + dcid.len() + scid.len();
    lemma_layout(s, pos, first, v, dcid, scid, rest);
    lemma_type_bits(first);
    if rest.len() > 0 {
        let n = varint_size(rest[0]);
        assert(rest[0] == s[ids + 0]);
        if n <= rest.len() {
            assert(s.subrange(ids, ids + n) =~= rest.subrange(0, n as int)) by {
                assert forall|i: int| 0 <= i < n implies s[ids + i] == rest[i] by {}
            }
        }
    }
}

/// In a retry packet the original connection ID stands behind its length, which is
/// at most 20, and all that follows is the token.
pub proof fn retry_header_is_read(
    s: Seq<u8>,
    pos: int,
    dcid_len: int,
    first: u8,
    v: Seq<u8>,
    dcid: Seq<u8>,
    scid: Seq<u8>,
    odcid: Seq<u8>,
    token: Seq<u8>,
)
    requires
        long_layout(s, pos, first, v, dcid, scid, seq![odcid.len() as u8] + odcid + token),
        ids_allowed(v, dcid, scid),
        number(v) != 0,
        first & 0x30 == 0x30,
        odcid.len() <= 20,
    ensures
        ({
            let p = parse_header(s, pos, dcid_len);
            &&& p.end == s.len() - token.len()
            &&& p.res matches Ok(h)
            &&& h.odcid == Some(odcid)
            &&& h.token == Some(token)
            &&& h.versions is None
        }),
{
    let tail = seq![odcid.len() as u8] + odcid + token;
    let ids = pos + 7 + dcid.len() + scid.len();
    let n = odcid.len() as int;
    lemma_layout(s, pos, first, v, dcid, scid, tail);
    lemma_type_bits(first);
    assert(tail[0] == odcid.len() as u8);
    assert forall|i: int| 0 <= i < n implies s[ids + 1 + i] == odcid[i] by {
        assert(tail[1 + i] == odcid[i]);
    }
    assert(s.subrange(ids + 1, ids + 1 + n) =~= odcid);
    assert forall|i: int| 0 <= i < token.len() implies s[ids + 1 + n + i] == token[i] by {
        assert(tail[1 + n + i] == token[i]);
    }
    assert(s.skip(ids + 1 + n) =~= token);
}

/// A retry packet whose original connection ID is said to have more than 20 bytes
/// is refused, and one that ends before or in it is too short.
pub proof fn retry_header_is_refused(
    s: Seq<u8>,
    pos: int,
    dcid_len: int,
    first: u8,
    v: Seq<u8>,
    dcid: Seq<u8>,
    scid: Seq<u8>,
    rest: Seq<u8>,
)
    requires
        long_layout(s, pos, first, v, dcid, scid, rest),
        ids_allowed(v, dcid, scid),
        number(v) != 0,
        first & 0x30 == 0x30,
    ensures
        ({
            let p = parse_header(s, pos, dcid_len);
            let ids = pos + 7 + dcid.len() + scid.len();
            &&& rest.len() == 0 ==> {
                &&& p.end == ids
                &&& p.res == Err::<HeaderView, Error>(Error::BufferTooShort)
            }
            &&& rest.len() > 0 && rest[0] > 20 ==> {
                &&& p.end == ids + 1
                &&& p.res == Err::<HeaderView, Error>(Error::InvalidPacket)
            }
            &&& rest.len() > 0 && rest[0] <= 20 && rest.len() < 1 + rest[0] ==> {
                &&& p.end == ids + 1
                &&& p.res == Err::<HeaderView, Error>(Error::BufferTooShort)
            }
        }),
{
    let ids = pos + 7 + dcid.len() + scid.len();
    lemma_layout(s, pos, first, v, dcid, scid, rest);
    lemma_type_bits(first);
    if rest.len() > 0 {
        assert(rest[0] == s[ids + 0]);
    }
}

/// The versions in a version negotiation packet take four bytes each and go on to
/// its end; one that ends in a version is too short.
pub proof fn versions_are_read(
    s: Seq<u8>,
    pos: int,
    dcid_len: int,
    first: u8,
    v: Seq<u8>,
    dcid: Seq<u8>,
    scid: Seq<u8>,
    rest: Seq<u8>,
)
    requires
        long_layout(s, pos, first, v, dcid, scid, rest),
        number(v) == 0,
    ensures
        ({
            let p = parse_header(s, pos, dcid_len);
            &&& rest.len() % 4 == 0 ==> {
                &&& p.end == s.len()
                &&& p.res matches Ok(h)
                &&& h.odcid is None
                &&& h.token is None
                &&& h.versions matches Some(list)
                &&& list.len() * 4 == rest.len()
                &&& forall|i: int|
                    0 <= i < list.len() ==> #[trigger] list[i] == number(
                        rest.subrange(4 * i, 4 * i + 4),
                    )
            }
            &&& rest.len() % 4 != 0 ==> {
                &&& p.end == s.len() - rest.len() % 4
                &&& p.res == Err::<HeaderView, Error>(Error::BufferTooShort)
            }
        }),
{
    let ids = pos + 7 + dcid.len() + scid.len();
    lemma_layout(s, pos, first, v, dcid, scid, rest);
    let p = parse_header(s, pos, dcid_len);
    let count = rest.len() / 4;
    let list = versions_at(s, ids as int, count as int);
    if rest.len() % 4 == 0 {
        assert(parse_versions(s, ids as int).res == Ok::<Seq<u32>, Error>(list));
        assert forall|i: int| 0 <= i < list.len() implies #[trigger] list[i] == number(
            rest.subrange(4 * i, 4 * i + 4),
        ) by {
            let part = rest.subrange(4 * i, 4 * i + 4);
            assert forall|j: int| 0 <= j < 4 implies s[ids + 4 * i + j] == part[j] by {
                assert(rest[4 * i + j] == s[ids + (4 * i + j)]);
            }
            assert(s.subrange(ids + 4 * i, ids + 4 * i + 4) =~= part);
            numbers_are_read_big_endian(part);
        }
    }
}

/// Where the reading of a long header stops that is not whole, or whose connection
/// IDs are too long, and with which error.
pub proof fn long_header_is_refused(s: Seq<u8>, pos: int, dcid_len: int)
    requires
        0 <= pos < s.len(),
        s[pos] >= 0x80,
    ensures
        ({
            let p = parse_header(s, pos, dcid_len);
            let len = s.len() - pos;
            let own = s[pos + 1] == 0xff && s[pos + 2] == 0 && s[pos + 3] == 0 && s[pos + 4]
                == 0x17;
            let d = s[pos + 5] as int;
            let c = s[pos + 6 + d] as int;
            let too_short = Err::<HeaderView, Error>(Error::BufferTooShort);
            let invalid = Err::<HeaderView, Error>(Error::InvalidPacket);
            &&& len < 5 ==> p.end == pos + 1 && p.res == too_short
            &&& len == 5 ==> p.end == pos + 5 && p.res == too_short
            &&& len >= 6 && own && d > 20 ==> p.end == pos + 6 && p.res == invalid
            &&& len >= 6 && !(own && d > 20) ==> {
                &&& len < 6 + d ==> p.end == pos + 6 && p.res == too_short
                &&& len == 6 + d ==> p.end == pos + 6 + d && p.res == too_short
                &&& len >= 7 + d && own && c > 20 ==> p.end == pos + 7 + d && p.res == invalid
                &&& len >= 7 + d && !(own && c > 20) && len < 7 + d + c ==> p.end == pos + 7 + d
                    && p.res == too_short
            }
        }),
{
    if s.len() - pos >= 5 {
        let v = s.subrange(pos + 1, pos + 5);
        numbers_are_read_big_endian(v);
        assert(v[0] == s[pos + 1] && v[1] == s[pos + 2] && v[2] == s[pos + 3] && v[3] == s[pos
            + 4]);
    }
}

/// A short header is its first byte and a connection ID of the length that the
/// receiver knows; nothing else is read of it.
pub proof fn short_header_is_read(s: Seq<u8>, pos: int, dcid_len: int)
    requires
        0 <= pos <= s.len(),
        0 <= dcid_len,
        pos < s.len() ==> s[pos] < 0x80,
    ensures
        ({
            let p = parse_header(s, pos, dcid_len);
            let len = s.len() - pos;
            let too_short = Err::<HeaderView, Error>(Error::BufferTooShort);
            &&& len == 0 ==> p.end == pos && p.res == too_short
            &&& 1 <= len < 1 + dcid_len ==> p.end == pos + 1 && p.res == too_short
            &&& len >= 1 + dcid_len ==> {
                &&& p.end == pos + 1 + dcid_len
                &&& p.res matches Ok(h)
                &&& h.ty == Type::Application
                &&& h.version == 0
                &&& h.dcid == s.subrange(pos + 1, pos + 1 + dcid_len)
                &&& h.scid.len() == 0
                &&& h.odcid is None
                &&& h.pkt_num == 0
                &&& h.pkt_num_len == 0
                &&& h.token is None
                &&& h.versions is None
                &&& !h.key_phase
            }
        }),
{
}

/// The header that is read of a packet does not depend on the bits of its first
/// byte that are protected: it is the same with any mask over them.
pub proof fn masked_header_is_read(s: Seq<u8>, pos: int, dcid_len: int, m: u8)
    requires
        0 <= pos < s.len(),
        0 <= dcid_len,
    ensures
        ({
            let flipped = if s[pos] >= 0x80 {
                s[pos] ^ (m & 0x0f)
            } else {
                s[pos] ^ (m & 0x1f)
            };
            parse_header(s.update(pos, flipped), pos, dcid_len) == parse_header(s, pos, dcid_len)
        }),
{
    let f = s[pos];
    assert({
        &&& f >= 0x80 ==> f ^ (m & 0x0f) >= 0x80
        &&& f < 0x80 ==> f ^ (m & 0x1f) < 0x80
        &&& ((f ^ (m & 0x0f)) / 16) % 4 == (f / 16) % 4
    }) by (bit_vector);
    let g = if f >= 0x80 {
        f ^ (m & 0x0f)
    } else {
        f ^ (m & 0x1f)
    };
    let t = s.update(pos, g);
    if f >= 0x80 {
        lemma_same_tail(s, t, pos);
        if s.len() >= pos + 5 {
            assert(s.subrange(pos + 1, pos + 5) =~= t.subrange(pos + 1, pos + 5));
            let capped = be_at(s, pos + 1, 4) as u32 == PROTOCOL_VERSION;
            let d = parse_cid(s, pos + 5, capped);
            assert(parse_cid(t, pos + 5, capped) == d);
            if d.res is Ok {
                let c = parse_cid(s, d.end, capped);
                assert(parse_cid(t, d.end, capped) == c);
            }
        }
    } else if s.len() >= pos + 1 + dcid_len {
        assert(t.subrange(pos + 1, pos + 1 + dcid_len) =~= s.subrange(pos + 1, pos + 1 + dcid_len));
    }
}

/// What is read behind `pos` depends on the bytes behind `pos` alone.
proof fn lemma_same_tail(s: Seq<u8>, t: Seq<u8>, pos: int)
    requires
        0 <= pos < s.len(),
        t == s.update(pos, t[pos]),
    ensures
        forall|at: int, capped: bool|
            at > pos ==> #[trigger] parse_cid(t, at, capped) == parse_cid(s, at, capped),
        forall|at: int, ty: Type|
            pos < at <= s.len() ==> #[trigger] parse_tail(t, at, ty) == parse_tail(s, at, ty),
{
    assert forall|at: int, capped: bool| at > pos implies #[trigger] parse_cid(t, at, capped)
        == parse_cid(s, at, capped) by {
        lemma_same_cid(s, t, pos, at, capped);
    }
    assert forall|at: int, ty: Type| pos < at <= s.len() implies #[trigger] parse_tail(t, at, ty)
        == parse_tail(s, at, ty) by {
        lemma_same_cid(s, t, pos, at, true);
        lemma_same_token(s, t, pos, at);
        lemma_same_versions(s, t, pos, at);
        let p = parse_cid(s, at, true);
        if p.res is Ok {
            assert(t.skip(p.end) =~= s.skip(p.end));
        }
    }
}

proof fn lemma_same_cid(s: Seq<u8>, t: Seq<u8>, pos: int, at: int, capped: bool)
    requires
        0 <= pos < s.len(),
        t == s.update(pos, t[pos]),
        at > pos,
    ensures
        parse_cid(t, at, capped) == parse_cid(s, at, capped),
{
    if at < s.len() {
        let n = s[at] as int;
        if at + 1 + n <= s.len() {
            assert(t.subrange(at + 1, at + 1 + n) =~= s.subrange(at + 1, at + 1 + n));
        }
    }
}

proof fn lemma_same_token(s: Seq<u8>, t: Seq<u8>, pos: int, at: int)
    requires
        0 <= pos < s.len(),
        t == s.update(pos, t[pos]),
        at > pos,
    ensures
        parse_token(t, at) == parse_token(s, at),
{
    if at < s.len() {
        let n = varint_size(s[at]);
        if at + n <= s.len() {
            assert(t.subrange(at, at + n) =~= s.subrange(at, at + n));
            let len = varint_at(s, at) as usize;
            if at + n + len <= s.len() {
                assert(t.subrange(at + n, at + n + len) =~= s.subrange(at + n, at + n + len));
            }
        }
    }
}

proof fn lemma_same_versions(s: Seq<u8>, t: Seq<u8>, pos: int, at: int)
    requires
        0 <= pos < s.len(),
        t == s.update(pos, t[pos]),
        pos < at <= s.len(),
    ensures
        parse_versions(t, at) == parse_versions(s, at),
{
    let n = (s.len() - at) / 4;
    assert forall|i: int| 0 <= i < n implies #[trigger] versions_at(t, at, n)[i] == versions_at(
        s,
        at,
        n,
    )[i] by {
        assert(t.subrange(at + 4 * i, at + 4 * i + 4) =~= s.subrange(at + 4 * i, at + 4 * i + 4));
    }
    assert(versions_at(t, at, n) =~= versions_at(s, at, n));
}

/// The bits of the first byte of a header that is written: the form bit, the fixed
/// bit, and the type of a long header or the key phase of a short one. The lowest
/// two are the length of the packet number, less one; a length of more than four
/// bytes, which no packet number has, goes on into the others.
pub proof fn first_byte_bits(h: HeaderView)
    ensures
        ({
            let f = first_byte(h);
            let n: u8 = if h.pkt_num_len == 0 {
                0
            } else {
                ((h.pkt_num_len - 1) % 256) as u8
            };
            &&& h.ty == Type::Application && h.key_phase ==> f == ((n & 0x7f) | 0x40) | 0x04
            &&& h.ty == Type::Application && !h.key_phase ==> f == ((n & 0x7f) | 0x40) & 0xfb
            &&& h.ty == Type::Initial ==> f == n | 0xc0
            &&& h.ty == Type::ZeroRTT ==> f == n | 0xd0
            &&& h.ty == Type::Handshake ==> f == n | 0xe0
            &&& h.ty == Type::Retry ==> f == n | 0xf0
            &&& 1 <= h.pkt_num_len <= 4 ==> {
                &&& (f & 0x03) + 1 == h.pkt_num_len
                &&& h.ty == Type::Application ==> f & 0xf8 == 0x40 && (f & 0x04 == 0x04
                    <==> h.key_phase)
                &&& h.ty == Type::Initial ==> f & 0xfc == 0xc0
                &&& h.ty == Type::ZeroRTT ==> f & 0xfc == 0xd0
                &&& h.ty == Type::Handshake ==> f & 0xfc == 0xe0
                &&& h.ty == Type::Retry ==> f & 0xfc == 0xf0
            }
        }),
{
    let n: u8 = if h.pkt_num_len == 0 {
        0
    } else {
        ((h.pkt_num_len - 1) % 256) as u8
    };
    assert(n == len_bits(h.pkt_num_len));
    assert({
        &&& ((n & 0x7f) | 0x40) | 0x04 == 0x40 + 8 * ((n / 8) % 8) + 4 + n % 4
        &&& ((n & 0x7f) | 0x40) & 0xfb == 0x40 + 8 * ((n / 8) % 8) + n % 4
        &&& n < 16 ==> n | 0xc0 == 0xc0 + n && n | 0xd0 == 0xd0 + n && n | 0xe0 == 0xe0 + n && n
            | 0xf0 == 0xf0 + n
        &&& 0x80u8 | 0x40u8 | (0u8 << 4) == 0xc0
        &&& 0x80u8 | 0x40u8 | (1u8 << 4) == 0xd0
        &&& 0x80u8 | 0x40u8 | (2u8 << 4) == 0xe0
        &&& 0x80u8 | 0x40u8 | (3u8 << 4) == 0xf0
    }) by (bit_vector);
    let f = first_byte(h);
    assert({
        &&& f & 0x03 == f % 4
        &&& f & 0xf8 == 8 * (f / 8)
        &&& f & 0xfc == 4 * (f / 4)
        &&& (f & 0x04 == 0x04 <==> (f / 4) % 2 == 1)
    }) by (bit_vector);
}

/// The bytes of a header that is written: those of a short one are its first byte
/// and the destination connection ID; a long one has its version and both
/// connection IDs, each with the last byte of its length before it, and what its
/// type adds.
pub proof fn written_bytes(h: HeaderView)
    ensures
        h.ty == Type::Application ==> header_bytes(h) == seq![first_byte(h)] + h.dcid,
        h.ty != Type::Application ==> {
            let v = h.version;
            let tail = if h.ty == Type::Retry {
                seq![(h.odcid->0.len() % 256) as u8] + h.odcid->0 + h.token->0
            } else if h.ty == Type::Initial && h.token is Some {
                varint_bytes(h.token->0.len()) + h.token->0
            } else if h.ty == Type::Initial {
                seq![0u8]
            } else {
                Seq::empty()
            };
            header_bytes(h) == seq![first_byte(h)] + seq![
                (v / 0x100_0000) as u8,
                ((v / 0x1_0000) % 256) as u8,
                ((v / 0x100) % 256) as u8,
                (v % 256) as u8,
            ] + seq![(h.dcid.len() % 256) as u8] + h.dcid + seq![(h.scid.len() % 256) as u8]
                + h.scid + tail
        },
{
    let f = header_fields(h);
    if h.ty == Type::Application {
        reveal_with_fuel(flat, 3);
        assert(f.drop_first().drop_first() =~= Seq::empty());
        assert(flat(f) =~= seq![first_byte(h)] + h.dcid);
    } else {
        let a = long_fields(h);
        let b = tail_fields(h);
        numbers_are_written_big_endian(h.version as nat);
        lemma_flat_concat(a, b);
        lemma_flat_long(h);
        lemma_flat_tail(h);
        assert(flat(f) =~= flat(a) + flat(b));
    }
}

proof fn lemma_flat_concat(a: Seq<Seq<u8>>, b: Seq<Seq<u8>>)
    ensures
        flat(a + b) == flat(a) + flat(b),
    decreases a.len(),
{
    if a.len() == 0 {
        assert(a + b =~= b);
        assert(flat(a) + flat(b) =~= flat(b));
    } else {
        assert((a + b).drop_first() =~= a.drop_first() + b);
        lemma_flat_concat(a.drop_first(), b);
        assert(flat(a + b) =~= flat(a) + flat(b));
    }
}

proof fn lemma_flat_long(h: HeaderView)
    ensures
        flat(long_fields(h)) == seq![first_byte(h)] + be_bytes(h.version as nat, 4) + seq![
            (h.dcid.len() % 256) as u8,
        ] + h.dcid + seq![(h.scid.len() % 256) as u8] + h.scid,
{
    let f = long_fields(h);
    reveal_with_fuel(flat, 7);
    let f1 = f.drop_first();
    let f2 = f1.drop_first();
    let f3 = f2.drop_first();
    let f4 = f3.drop_first();
    let f5 = f4.drop_first();
    assert(f5.drop_first().len() == 0);
    assert(flat(f) =~= f[0] + (f1[0] + (f2[0] + (f3[0] + (f4[0] + f5[0])))));
    assert(f[0] + (f1[0] + (f2[0] + (f3[0] + (f4[0] + f5[0])))) =~= f[0] + f1[0] + f2[0] + f3[0]
        + f4[0] + f5[0]);
}

proof fn lemma_flat_tail(h: HeaderView)
    ensures
        h.ty == Type::Retry ==> flat(tail_fields(h)) == seq![(h.odcid->0.len() % 256) as u8]
            + h.odcid->0 + h.token->0,
        h.ty == Type::Initial && h.token is Some ==> flat(tail_fields(h)) == varint_bytes(
            h.token->0.len(),
        ) + h.token->0,
        h.ty == Type::Initial && h.token is None ==> flat(tail_fields(h)) == seq![0u8],
        h.ty != Type::Initial && h.ty != Type::Retry ==> flat(tail_fields(h)) == Seq::<u8>::empty(),
{
    let f = tail_fields(h);
    reveal_with_fuel(flat, 4);
    varints_are_written_short(0);
    if h.ty == Type::Retry {
        assert(f.drop_first().drop_first().drop_first().len() == 0);
        assert(flat(f) =~= f[0] + f[1] + f[2]);
    } else if h.ty == Type::Initial && h.token is Some {
        assert(f.drop_first().drop_first().len() == 0);
        assert(flat(f) =~= f[0] + f[1]);
    } else if h.ty == Type::Initial {
        assert(f.drop_first().len() == 0);
        assert(flat(f) =~= f[0]);
    }
}

/// The steps in which a header is written: where there is no room for all of it,
/// it ends after one of them.
pub proof fn written_steps(h: HeaderView)
    ensures
        ({
            let f = header_fields(h);
            let d = h.dcid.len();
            let c = h.scid.len();
            &&& h.ty == Type::Application ==> {
                &&& f.len() == 2
                &&& f[0].len() == 1
                &&& f[1].len() == d
            }
            &&& h.ty != Type::Application ==> {
                &&& f[0].len() == 1
                &&& f[1].len() == 4
                &&& f[2].len() == 1
                &&& f[3].len() == d
                &&& f[4].len() == 1
                &&& f[5].len() == c
                &&& h.ty == Type::Retry ==> {
                    &&& f.len() == 9
                    &&& f[6].len() == 1
                    &&& f[7].len() == h.odcid->0.len()
                    &&& f[8].len() == h.token->0.len()
                }
                &&& h.ty == Type::Initial && h.token is Some ==> {
                    &&& f.len() == 8
                    &&& f[6] == varint_bytes(h.token->0.len())
                    &&& f[7].len() == h.token->0.len()
                }
                &&& h.ty == Type::Initial && h.token is None ==> f.len() == 7 && f[6].len() == 1
                &&& h.ty == Type::ZeroRTT || h.ty == Type::Handshake ==> f.len() == 6
            }
        }),
{
    numbers_are_written_big_endian(h.version as nat);
    varints_are_written_short(0);
}

} // verus!
