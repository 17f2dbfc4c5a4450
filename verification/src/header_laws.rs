//! What is read of a header that was written.
use vstd::prelude::*;

use crate::error::Error;
use crate::fields::{flat, lemma_put_fields_whole, put_fields};
use crate::header::{first_byte, header_fields, len_bits, long_fields, tail_fields, type_bits};
use crate::header::{long_form, long_header, long_type, short_header};
use crate::header::{parse_cid, parse_header, parse_tail, parse_token};
use crate::header::{HeaderView, Parsed, Tail, Type, MAX_CID_LEN};
use crate::protect::MAX_PKT_NUM_LEN;
use crate::wire::{be_at, be_bytes, lemma_be_bytes_len, lemma_be_round_trip};
use crate::wire::{lemma_be_value_first, lemma_pow256_values, lemma_varint_round_trip};
use crate::wire::{varint_at, varint_len, varint_size, varint_tag, VARINT_LIMIT};
use crate::PROTOCOL_VERSION;

verus! {

/// `bytes` stand at `pos`.
pub open spec fn stands_at(s: Seq<u8>, pos: int, bytes: Seq<u8>) -> bool {
    &&& pos + bytes.len() <= s.len()
    &&& s.subrange(pos, pos + bytes.len()) == bytes
}

/// The fields stand one after the other from `pos` on.
pub open spec fn fields_at(s: Seq<u8>, pos: int, fields: Seq<Seq<u8>>) -> bool
    decreases fields.len(),
{
    fields.len() == 0 || (stands_at(s, pos, fields[0]) && fields_at(
        s,
        pos + fields[0].len(),
        fields.drop_first(),
    ))
}

proof fn lemma_fields_at(s: Seq<u8>, pos: int, fields: Seq<Seq<u8>>)
    requires
        0 <= pos,
        stands_at(s, pos, flat(fields)),
    ensures
        fields_at(s, pos, fields),
    decreases fields.len(),
{
    if fields.len() > 0 {
        let all = flat(fields);
        let rest = flat(fields.drop_first());
        let next = pos + fields[0].len();
        assert(s.subrange(pos, next) =~= all.subrange(0, fields[0].len() as int));
        assert(all.subrange(0, fields[0].len() as int) =~= fields[0]);
        assert(s.subrange(next, next + rest.len()) =~= all.subrange(
            fields[0].len() as int,
            all.len() as int,
        ));
        assert(all.subrange(fields[0].len() as int, all.len() as int) =~= rest);
        lemma_fields_at(s, next, fields.drop_first());
    }
}

proof fn lemma_fields_at_concat(s: Seq<u8>, pos: int, a: Seq<Seq<u8>>, b: Seq<Seq<u8>>)
    requires
        fields_at(s, pos, a + b),
    ensures
        fields_at(s, pos, a),
        fields_at(s, pos + flat(a).len(), b),
        flat(a + b).len() == flat(a).len() + flat(b).len(),
    decreases a.len(),
{
    if a.len() == 0 {
        assert(a + b =~= b);
    } else {
        assert((a + b).drop_first() =~= a.drop_first() + b);
        lemma_fields_at_concat(s, pos + a[0].len(), a.drop_first(), b);
    }
}

/// Fields that were written whole stand in the buffer, and what was behind them
/// still does.
pub proof fn lemma_written_fields_stand(data: Seq<u8>, off: int, fields: Seq<Seq<u8>>)
    requires
        0 <= off <= data.len(),
        put_fields(data, off, fields).ok,
    ensures
        ({
            let w = put_fields(data, off, fields);
            &&& fields_at(w.data, off, fields)
            &&& w.data.len() == data.len()
            &&& w.off == off + flat(fields).len()
            &&& w.data.take(off) == data.take(off)
            &&& w.data.skip(w.off) == data.skip(w.off)
        }),
{
    let w = put_fields(data, off, fields);
    lemma_put_fields_whole(data, off, fields);
    assert(w.data.subrange(off, w.off) =~= flat(fields));
    lemma_fields_at(w.data, off, fields);
    assert(w.data.take(off) =~= data.take(off));
    assert(w.data.skip(w.off) =~= data.skip(w.off));
}

/// The connection ID can stand in a long header of version `version`.
pub open spec fn cid_fits(version: u32, cid: Seq<u8>) -> bool {
    if version == PROTOCOL_VERSION {
        cid.len() <= MAX_CID_LEN
    } else {
        cid.len() <= 255
    }
}

/// The first byte and the version of the header tell its type. They do for every
/// type but `VersionNegotiation`, unless the version is zero, or the length of
/// the packet number, one of more than sixteen bytes, changes the bits of the type.
pub open spec fn tells_type(h: HeaderView) -> bool {
    h.ty == Type::Application || long_type(first_byte(h), h.version) == h.ty
}

/// A header that a packet can have: its fields are those of its type, and none
/// is longer than the packet can say.
pub open spec fn valid_header(h: HeaderView) -> bool {
    &&& h.ty != Type::VersionNegotiation
    &&& tells_type(h)
    &&& h.ty != Type::Application ==> {
        &&& cid_fits(h.version, h.dcid)
        &&& cid_fits(h.version, h.scid)
    }
    &&& h.ty == Type::Initial ==> (h.token matches Some(token) ==> token.len() < VARINT_LIMIT
        && token.len() <= usize::MAX)
    &&& h.ty == Type::Retry ==> {
        &&& h.odcid matches Some(odcid)
        &&& odcid.len() <= MAX_CID_LEN
        &&& h.token is Some
    }
}

/// What a receiver reads of the header `h` when `rest` stands behind it in the
/// packet. The packet number and the key phase are protected and not read yet,
/// and the token of a `Retry` packet goes on to the end of the packet.
pub open spec fn as_read(h: HeaderView, rest: Seq<u8>) -> HeaderView {
    if h.ty == Type::Application {
        short_header(h.dcid)
    } else {
        long_header(
            h.ty,
            h.version,
            h.dcid,
            h.scid,
            Tail {
                odcid: if h.ty == Type::Retry {
                    h.odcid
                } else {
                    None
                },
                token: if h.ty == Type::Retry {
                    Some(h.token->0 + rest)
                } else if h.ty != Type::Initial {
                    None
                } else if h.token is Some {
                    h.token
                } else {
                    Some(Seq::empty())
                },
                versions: None,
            },
        )
    }
}

/// The first byte of a header says whether the header is long.
proof fn lemma_first_byte(h: HeaderView)
    ensures
        long_form(first_byte(h)) <==> h.ty != Type::Application,
{
    let n = len_bits(h.pkt_num_len);
    let t = type_bits(h.ty);
    assert(n | (0x80u8 | 0x40u8 | (t << 4)) >= 0x80) by (bit_vector);
}

/// A header with a packet number that takes no more bytes than one can take tells
/// its type.
pub proof fn sendable_header_tells_type(h: HeaderView)
    requires
        h.pkt_num_len <= MAX_PKT_NUM_LEN,
        h.ty != Type::VersionNegotiation,
        h.ty != Type::Application ==> h.version != 0,
    ensures
        tells_type(h),
{
}

/// A connection ID that stands in the packet with its length before it is read.
pub(crate) proof fn lemma_cid_read(s: Seq<u8>, pos: int, capped: bool, cid: Seq<u8>)
    requires
        0 <= pos,
        stands_at(s, pos, seq![(cid.len() % 256) as u8]),
        stands_at(s, pos + 1, cid),
        cid.len() <= 255,
        capped ==> cid.len() <= MAX_CID_LEN,
    ensures
        parse_cid(s, pos, capped) == (Parsed { end: pos + 1 + cid.len(), res: Ok(cid) }),
{
    assert(s[pos] == s.subrange(pos, pos + 1)[0]);
}

/// Where each of the fields stands that every long header has.
proof fn lemma_long_fields_stand(h: HeaderView, s: Seq<u8>, pos: int)
    requires
        0 <= pos,
        fields_at(s, pos, long_fields(h)),
    ensures
        stands_at(s, pos, seq![first_byte(h)]),
        stands_at(s, pos + 1, be_bytes(h.version as nat, 4)),
        stands_at(s, pos + 5, seq![(h.dcid.len() % 256) as u8]),
        stands_at(s, pos + 6, h.dcid),
        stands_at(s, pos + 6 + h.dcid.len(), seq![(h.scid.len() % 256) as u8]),
        stands_at(s, pos + 7 + h.dcid.len(), h.scid),
        be_bytes(h.version as nat, 4).len() == 4,
        flat(long_fields(h)).len() == 7 + h.dcid.len() + h.scid.len(),
{
    let f = long_fields(h);
    lemma_be_bytes_len(h.version as nat, 4);
    reveal_with_fuel(fields_at, 7);
    reveal_with_fuel(flat, 7);
    let f1 = f.drop_first();
    let f2 = f1.drop_first();
    let f3 = f2.drop_first();
    let f4 = f3.drop_first();
    let f5 = f4.drop_first();
    assert(stands_at(s, pos, f[0]));
    assert(stands_at(s, pos + 1, f1[0]));
    assert(stands_at(s, pos + 5, f2[0]));
    assert(stands_at(s, pos + 6, f3[0]));
    assert(stands_at(s, pos + 6 + h.dcid.len(), f4[0]));
    assert(stands_at(s, pos + 7 + h.dcid.len(), f5[0]));
}

/// What every long header has is read, up to where the rest starts.
proof fn lemma_long_fields_read(h: HeaderView, s: Seq<u8>, pos: int)
    requires
        valid_header(h),
        h.ty != Type::Application,
        0 <= pos,
        fields_at(s, pos, long_fields(h)),
    ensures
        ({
            let capped = h.version == PROTOCOL_VERSION;
            let ids = pos + 7 + h.dcid.len() + h.scid.len();
            &&& s[pos] == first_byte(h)
            &&& ids <= s.len()
            &&& be_at(s, pos + 1, 4) == h.version
            &&& parse_cid(s, pos + 5, capped) == (Parsed {
                end: pos + 6 + h.dcid.len(),
                res: Ok(h.dcid),
            })
            &&& parse_cid(s, pos + 6 + h.dcid.len(), capped) == (Parsed {
                end: ids,
                res: Ok(h.scid),
            })
            &&& flat(long_fields(h)).len() == 7 + h.dcid.len() + h.scid.len()
        }),
{
    let capped = h.version == PROTOCOL_VERSION;
    lemma_long_fields_stand(h, s, pos);
    lemma_pow256_values();
    lemma_be_round_trip(h.version as nat, 4);
    assert(s[pos] == s.subrange(pos, pos + 1)[0]);
    lemma_cid_read(s, pos + 5, capped, h.dcid);
    lemma_cid_read(s, pos + 6 + h.dcid.len(), capped, h.scid);
}

/// What follows the connection IDs is read.
proof fn lemma_tail_read(h: HeaderView, s: Seq<u8>, pos: int)
    requires
        valid_header(h),
        h.ty != Type::Application,
        0 <= pos <= s.len(),
        fields_at(s, pos, tail_fields(h)),
    ensures
        ({
            let end = pos + flat(tail_fields(h)).len();
            let p = parse_tail(s, pos, h.ty);
            let t = as_read(h, s.skip(end));
            &&& end <= s.len()
            &&& p.res == Ok::<Tail, Error>(
                Tail { odcid: t.odcid, token: t.token, versions: t.versions },
            )
            &&& h.ty != Type::Retry ==> p.end == end
        }),
{
    let f = tail_fields(h);
    let end = pos + flat(f).len();
    let p = parse_tail(s, pos, h.ty);
    reveal_with_fuel(fields_at, 4);
    reveal_with_fuel(flat, 4);
    let f1 = f.drop_first();
    let f2 = f1.drop_first();
    match h.ty {
        Type::Initial => {
            let token = match h.token {
                Some(t) => t,
                None => Seq::empty(),
            };
            let n = varint_len(token.len());
            lemma_be_bytes_len(token.len() + varint_tag(n), n);
            assert(stands_at(s, pos, f[0]));
            lemma_varint_round_trip(token.len(), s, pos);
            if h.token is Some {
                assert(stands_at(s, pos + n, f1[0]));
            }
            assert(s.subrange(pos + n, pos + n + token.len()) =~= token);
        },
        Type::Retry => {
            let odcid = h.odcid->0;
            let token = h.token->0;
            assert(stands_at(s, pos, f[0]));
            assert(stands_at(s, pos + 1, f1[0]));
            assert(stands_at(s, pos + 1 + odcid.len(), f2[0]));
            lemma_cid_read(s, pos, true, odcid);
            let at = pos + 1 + odcid.len();
            assert(s.skip(at) =~= s.subrange(at, at + token.len()) + s.skip(end));
        },
        _ => {},
    }
}

/// A header that was written whole is read back: the receiver gets each field
/// that the packet carries as the sender gave it.
pub proof fn header_read_back(h: HeaderView, data: Seq<u8>, off: int, dcid_len: int)
    requires
        valid_header(h),
        0 <= off <= data.len(),
        put_fields(data, off, header_fields(h)).ok,
        h.ty == Type::Application ==> dcid_len == h.dcid.len(),
    ensures
        ({
            let w = put_fields(data, off, header_fields(h));
            let p = parse_header(w.data, off, dcid_len);
            &&& p.res == Ok::<HeaderView, Error>(as_read(h, data.skip(w.off)))
            &&& h.ty != Type::Retry ==> p.end == w.off
        }),
{
    let fields = header_fields(h);
    let w = put_fields(data, off, fields);
    let s = w.data;
    let p = parse_header(s, off, dcid_len);
    lemma_written_fields_stand(data, off, fields);
    lemma_first_byte(h);
    if h.ty == Type::Application {
        reveal_with_fuel(fields_at, 3);
        reveal_with_fuel(flat, 3);
        assert(stands_at(s, off, fields[0]));
        assert(stands_at(s, off + 1, fields.drop_first()[0]));
        assert(s[off] == s.subrange(off, off + 1)[0]);
        assert(fields.drop_first().drop_first() =~= Seq::empty());
        assert(flat(fields) =~= seq![first_byte(h)] + h.dcid);
    } else {
        lemma_fields_at_concat(s, off, long_fields(h), tail_fields(h));
        lemma_long_fields_read(h, s, off);
        lemma_tail_read(h, s, off + 7 + h.dcid.len() + h.scid.len());
    }
}

/// What a receiver does with a connection ID whose length, as the packet gives
/// it, is more than it takes.
proof fn lemma_long_cid_refused(s: Seq<u8>, pos: int, cid: Seq<u8>)
    requires
        0 <= pos,
        stands_at(s, pos, seq![(cid.len() % 256) as u8]),
        cid.len() % 256 > MAX_CID_LEN,
    ensures
        parse_cid(s, pos, true).res == Err::<Seq<u8>, Error>(Error::InvalidPacket),
{
    assert(s[pos] == s.subrange(pos, pos + 1)[0]);
}

/// A packet of the protocol's own version with a connection ID longer than
/// [`MAX_CID_LEN`] is refused, and so is a `Retry` packet of any version with an
/// original connection ID longer than that.
///
/// The length is the one that the packet gives, which has only one byte for it.
pub proof fn long_cid_is_refused(h: HeaderView, data: Seq<u8>, off: int, dcid_len: int)
    requires
        h.ty != Type::VersionNegotiation,
        h.ty != Type::Application,
        0 <= off <= data.len(),
        put_fields(data, off, header_fields(h)).ok,
        ({
            let dcid_long = h.dcid.len() % 256 > MAX_CID_LEN;
            let scid_long = h.scid.len() % 256 > MAX_CID_LEN;
            ||| h.version == PROTOCOL_VERSION && dcid_long
            ||| h.version == PROTOCOL_VERSION && scid_long && h.dcid.len() <= MAX_CID_LEN
            ||| {
                &&& h.ty == Type::Retry && tells_type(h)
                &&& h.odcid->0.len() % 256 > MAX_CID_LEN
                &&& cid_fits(h.version, h.dcid)
                &&& cid_fits(h.version, h.scid)
            }
        }),
    ensures
        ({
            let w = put_fields(data, off, header_fields(h));
            parse_header(w.data, off, dcid_len).res == Err::<HeaderView, Error>(
                Error::InvalidPacket,
            )
        }),
{
    let fields = header_fields(h);
    let w = put_fields(data, off, fields);
    let s = w.data;
    let capped = h.version == PROTOCOL_VERSION;
    lemma_written_fields_stand(data, off, fields);
    lemma_first_byte(h);
    lemma_fields_at_concat(s, off, long_fields(h), tail_fields(h));
    lemma_long_fields_stand(h, s, off);
    lemma_pow256_values();
    lemma_be_round_trip(h.version as nat, 4);
    assert(s[off] == s.subrange(off, off + 1)[0]);
    if capped && h.dcid.len() % 256 > MAX_CID_LEN {
        lemma_long_cid_refused(s, off + 5, h.dcid);
    } else {
        lemma_cid_read(s, off + 5, capped, h.dcid);
        if capped && h.scid.len() % 256 > MAX_CID_LEN {
            lemma_long_cid_refused(s, off + 6 + h.dcid.len(), h.scid);
        } else {
            let ids = off + 7 + h.dcid.len() + h.scid.len();
            lemma_cid_read(s, off + 6 + h.dcid.len(), capped, h.scid);
            assert(stands_at(s, ids, tail_fields(h)[0]));
            lemma_long_cid_refused(s, ids, h.odcid->0);
        }
    }
}

/// A variable-length integer that was read is one that can be written.
proof fn lemma_varint_at_bound(s: Seq<u8>, pos: int)
    requires
        0 <= pos,
        pos < s.len(),
        pos + varint_size(s[pos]) <= s.len(),
    ensures
        varint_at(s, pos) < VARINT_LIMIT,
{
    let n = varint_size(s[pos]);
    let b = s.subrange(pos, pos + n);
    lemma_pow256_values();
    if n == 1 {
        lemma_be_value_first(b, 1);
    } else if n == 2 {
        lemma_be_value_first(b, 0x100);
    } else if n == 4 {
        lemma_be_value_first(b, 0x100_0000);
    } else {
        lemma_be_value_first(b, 0x100_0000_0000_0000);
    }
}

/// A header that was read is one that a packet can have, and reading it again,
/// after it was written, gives the same header: see [`header_read_back`].
pub proof fn read_header_is_valid(s: Seq<u8>, pos: int, dcid_len: int)
    requires
        0 <= pos <= s.len(),
        s.len() <= usize::MAX,
        0 <= dcid_len,
    ensures
        parse_header(s, pos, dcid_len).res matches Ok(h) ==> h.ty != Type::VersionNegotiation ==> {
            &&& valid_header(h)
            &&& as_read(h, Seq::empty()) == h
        },
{
    let p = parse_header(s, pos, dcid_len);
    if let Ok(h) = p.res {
        if h.ty != Type::VersionNegotiation {
            if h.ty == Type::Initial {
                let ids = pos + 7 + h.dcid.len() + h.scid.len();
                let size = varint_size(s[ids]);
                assert(parse_token(s, ids).res is Ok);
                lemma_varint_at_bound(s, ids);
            }
            if h.ty == Type::Retry {
                assert(h.token->0 + Seq::<u8>::empty() =~= h.token->0);
            }
            assert(as_read(h, Seq::empty()) =~= h);
        }
    }
}

} // verus!
