//! Packets that a server answers with before there is a connection.
use vstd::prelude::*;

use crate::error::Error;
use crate::fields::{flat, put_fields};
use crate::fields::{lemma_put_fields_whole, lemma_put_step};
use crate::format::{first_byte_bits, long_header_is_read, number, retry_header_is_read};
use crate::format::written_bytes;
use crate::header::{header_bytes, header_fields, len_byte, long_header, parse_header, versions_at};
use crate::header::{Header, HeaderView, Tail, Type, FORM_BIT, MAX_CID_LEN};
use crate::header_laws::{as_read, fields_at, header_read_back, stands_at};
use crate::header_laws::{lemma_cid_read, lemma_written_fields_stand};
use crate::octets::Octets;
use crate::rand;
use crate::wire::{be_bytes, lemma_be_bytes_len, lemma_be_round_trip, lemma_pow256_values};
use crate::wire::{numbers_are_written_big_endian, overwrite};
use crate::PROTOCOL_VERSION;

verus! {

/// The byte `r` with the bit set that says that a header is long.
pub open spec fn with_form_bit(r: u8) -> u8 {
    if r < 0x80 {
        (r + 0x80) as u8
    } else {
        r
    }
}

/// The fields of a version negotiation packet whose first byte is `first`.
pub open spec fn negotiation_fields(first: u8, scid: Seq<u8>, dcid: Seq<u8>) -> Seq<Seq<u8>> {
    seq![
        seq![first],
        be_bytes(0, 4),
        seq![len_byte(scid.len())],
        scid,
        seq![len_byte(dcid.len())],
        dcid,
        be_bytes(PROTOCOL_VERSION as nat, 4),
    ]
}

/// The header of the packet that asks a client for its address again.
pub open spec fn retry_header(
    scid: Seq<u8>,
    dcid: Seq<u8>,
    new_scid: Seq<u8>,
    token: Seq<u8>,
) -> HeaderView {
    HeaderView {
        ty: Type::Retry,
        version: PROTOCOL_VERSION,
        dcid: scid,
        scid: new_scid,
        odcid: Some(dcid),
        pkt_num: 0,
        pkt_num_len: 0,
        token: Some(token),
        versions: None,
        key_phase: false,
    }
}

/// `buf` and `res` are what comes of writing the fields to the start of a buffer
/// that held `data`.
pub open spec fn reply_written(
    data: Seq<u8>,
    fields: Seq<Seq<u8>>,
    buf: Seq<u8>,
    res: Result<usize, Error>,
) -> bool {
    let w = put_fields(data, 0, fields);
    let bytes = flat(fields);
    &&& buf == w.data
    &&& match res {
        Ok(n) => {
            &&& w.ok
            &&& n == bytes.len()
            &&& bytes.len() <= data.len()
            &&& buf == overwrite(data, 0, bytes)
        },
        Err(e) => {
            &&& !w.ok
            &&& bytes.len() > data.len()
            &&& e == Error::BufferTooShort
        },
    }
}

/// Writes a version negotiation packet to `out` and returns its length. The
/// packet answers one whose source and destination connection IDs were `scid`
/// and `dcid`. The bits of its first byte that carry no meaning are random.
pub fn negotiate_version(scid: &[u8], dcid: &[u8], out: &mut [u8]) -> (res: Result<usize, Error>)
    ensures
        exists|r: u8|
            #[trigger] reply_written(
                old(out)@,
                negotiation_fields(with_form_bit(r), scid@, dcid@),
                final(out)@,
                res,
            ),
{
    let r: u8 = rand::rand_u8();
    negotiate_version_with(r, scid, dcid, out)
}

/// Like [`negotiate_version`], with the random bits given.
pub fn negotiate_version_with(r: u8, scid: &[u8], dcid: &[u8], out: &mut [u8]) -> (res: Result<
    usize,
    Error,
>)
    ensures
        reply_written(
            old(out)@,
            negotiation_fields(with_form_bit(r), scid@, dcid@),
            final(out)@,
            res,
        ),
{
    let ghost fields = negotiation_fields(with_form_bit(r), scid@, dcid@);
    let mut b = Octets::with_slice(out);
    proof {
        assert(fields.skip(0) =~= fields);
        assert(fields.skip(7) =~= Seq::empty());
        lemma_be_bytes_len(0, 4);
        lemma_be_bytes_len(PROTOCOL_VERSION as nat, 4);
        lemma_put_fields_whole(b.data(), 0, fields);
        lemma_put_step(b.data(), 0, fields, 0);
    }

    let first: u8 = r | FORM_BIT;
    assert(r | 0x80 == (if r < 0x80 {
        r + 0x80
    } else {
        r as int
    })) by (bit_vector);

    b.put_u8(first)?;
    proof {
        lemma_put_step(b.data(), b.off as int, fields, 1);
    }
    b.put_u32(0)?;

    proof {
        lemma_put_step(b.data(), b.off as int, fields, 2);
    }
    b.put_u8(crate::header::low_byte(scid.len()))?;
    proof {
        lemma_put_step(b.data(), b.off as int, fields, 3);
    }
    b.put_bytes(scid)?;
    proof {
        lemma_put_step(b.data(), b.off as int, fields, 4);
    }
    b.put_u8(crate::header::low_byte(dcid.len()))?;
    proof {
        lemma_put_step(b.data(), b.off as int, fields, 5);
    }
    b.put_bytes(dcid)?;
    proof {
        lemma_put_step(b.data(), b.off as int, fields, 6);
    }
    b.put_u32(PROTOCOL_VERSION)?;

    Ok(b.off())
}

/// Writes a retry packet to `out` and returns its length. The packet answers
/// one whose source and destination connection IDs were `scid` and `dcid`, asks
/// the client to go on with `new_scid`, and hands it `token`.
pub fn retry(scid: &[u8], dcid: &[u8], new_scid: &[u8], token: &[u8], out: &mut [u8]) -> (res:
    Result<usize, Error>)
    ensures
        reply_written(
            old(out)@,
            header_fields(retry_header(scid@, dcid@, new_scid@, token@)),
            final(out)@,
            res,
        ),
{
    let mut b = Octets::with_slice(out);

    let hdr = Header {
        ty: Type::Retry,
        version: PROTOCOL_VERSION,
        dcid: vstd::slice::slice_to_vec(scid),
        scid: vstd::slice::slice_to_vec(new_scid),
        pkt_num: 0,
        pkt_num_len: 0,
        odcid: Some(vstd::slice::slice_to_vec(dcid)),
        token: Some(vstd::slice::slice_to_vec(token)),
        versions: None,
        key_phase: false,
    };
    assert(hdr@ =~= retry_header(scid@, dcid@, new_scid@, token@));

    hdr.to_bytes(&mut b)?;

    Ok(b.off())
}

/// Cutting a buffer off behind what was written to its start leaves what would
/// have been written to a buffer of just that length.
proof fn lemma_written_cut(data: Seq<u8>, fields: Seq<Seq<u8>>)
    requires
        put_fields(data, 0, fields).ok,
    ensures
        ({
            let w = put_fields(data, 0, fields);
            let c = put_fields(data.take(w.off), 0, fields);
            &&& 0 <= w.off <= data.len()
            &&& c.ok
            &&& c.off == w.off
            &&& c.data == w.data.take(w.off)
        }),
{
    let w = put_fields(data, 0, fields);
    lemma_put_fields_whole(data, 0, fields);
    lemma_put_fields_whole(data.take(w.off), 0, fields);
    assert(overwrite(data.take(w.off), 0, flat(fields)) =~= overwrite(data, 0, flat(fields)).take(
        w.off,
    ));
}

/// The client reads from a version negotiation packet, back to front, the
/// connection IDs that it was sent in answer to, and that the server speaks
/// [`PROTOCOL_VERSION`].
pub proof fn negotiation_read_back(
    r: u8,
    scid: Seq<u8>,
    dcid: Seq<u8>,
    data: Seq<u8>,
    dcid_len: int,
)
    requires
        scid.len() <= 255,
        dcid.len() <= 255,
        put_fields(data, 0, negotiation_fields(with_form_bit(r), scid, dcid)).ok,
    ensures
        ({
            let w = put_fields(data, 0, negotiation_fields(with_form_bit(r), scid, dcid));
            parse_header(w.data.take(w.off), 0, dcid_len).res == Ok::<HeaderView, Error>(
                long_header(
                    Type::VersionNegotiation,
                    0,
                    scid,
                    dcid,
                    Tail { odcid: None, token: None, versions: Some(seq![PROTOCOL_VERSION]) },
                ),
            )
        }),
{
    let first = with_form_bit(r);
    let f = negotiation_fields(first, scid, dcid);
    lemma_written_cut(data, f);
    let w = put_fields(data, 0, f);
    let c = put_fields(data.take(w.off), 0, f);
    let s = c.data;
    lemma_written_fields_stand(data.take(w.off), 0, f);
    lemma_be_bytes_len(0, 4);
    lemma_be_bytes_len(PROTOCOL_VERSION as nat, 4);
    lemma_pow256_values();
    lemma_be_round_trip(0, 4);
    lemma_be_round_trip(PROTOCOL_VERSION as nat, 4);
    reveal_with_fuel(fields_at, 8);
    reveal_with_fuel(flat, 8);
    let f1 = f.drop_first();
    let f2 = f1.drop_first();
    let f3 = f2.drop_first();
    let f4 = f3.drop_first();
    let f5 = f4.drop_first();
    let f6 = f5.drop_first();
    let ids = 7 + scid.len() + dcid.len();
    assert(stands_at(s, 0, f[0]));
    assert(stands_at(s, 1, f1[0]));
    assert(stands_at(s, 5, f2[0]));
    assert(stands_at(s, 6, f3[0]));
    assert(stands_at(s, 6 + scid.len() as int, f4[0]));
    assert(stands_at(s, 7 + scid.len() as int, f5[0]));
    assert(stands_at(s, ids as int, f6[0]));
    assert(flat(f).len() == ids + 4);
    assert(s[0] == s.subrange(0, 1)[0]);
    lemma_cid_read(s, 5, false, scid);
    lemma_cid_read(s, 6 + scid.len() as int, false, dcid);
    assert(versions_at(s, ids as int, 1) =~= seq![PROTOCOL_VERSION]);
}

/// The client reads from a retry packet, back to front, the connection IDs that
/// it was sent in answer to, the server's new connection ID and the token.
pub proof fn retry_read_back(
    scid: Seq<u8>,
    dcid: Seq<u8>,
    new_scid: Seq<u8>,
    token: Seq<u8>,
    data: Seq<u8>,
    dcid_len: int,
)
    requires
        scid.len() <= MAX_CID_LEN,
        dcid.len() <= MAX_CID_LEN,
        new_scid.len() <= MAX_CID_LEN,
        put_fields(data, 0, header_fields(retry_header(scid, dcid, new_scid, token))).ok,
    ensures
        ({
            let h = retry_header(scid, dcid, new_scid, token);
            let w = put_fields(data, 0, header_fields(h));
            parse_header(w.data.take(w.off), 0, dcid_len).res == Ok::<HeaderView, Error>(h)
        }),
{
    let h = retry_header(scid, dcid, new_scid, token);
    let w = put_fields(data, 0, header_fields(h));
    lemma_written_cut(data, header_fields(h));
    header_read_back(h, data.take(w.off), 0, dcid_len);
    assert(data.take(w.off).skip(w.off) =~= Seq::empty());
    assert(token + Seq::<u8>::empty() =~= token);
    assert(as_read(h, Seq::empty()) =~= h);
}

/// What is written of a reply, and what is returned: all its bytes and their
/// number where there is room for them, and `BufferTooShort` where there is not.
pub proof fn reply_bytes(
    data: Seq<u8>,
    fields: Seq<Seq<u8>>,
    buf: Seq<u8>,
    res: Result<usize, Error>,
    i: int,
)
    requires
        reply_written(data, fields, buf, res),
    ensures
        buf.len() == data.len(),
        res is Ok <==> flat(fields).len() <= data.len(),
        res matches Err(e) ==> e == Error::BufferTooShort,
        res matches Ok(n) ==> {
            &&& n == flat(fields).len()
            &&& 0 <= i < n ==> buf[i] == flat(fields)[i]
            &&& n <= i < data.len() ==> buf[i] == data[i]
        },
{
    lemma_put_fields_whole(data, 0, fields);
}

/// The bytes of a version negotiation packet: a first byte with its highest bit
/// set, the version zero, the connection IDs of the packet that it answers, back to
/// front, each behind the last byte of its length, and the version 0xff000017.
pub proof fn negotiation_bytes(r: u8, scid: Seq<u8>, dcid: Seq<u8>)
    ensures
        with_form_bit(r) == r | 0x80,
        flat(negotiation_fields(with_form_bit(r), scid, dcid)) == seq![r | 0x80, 0, 0, 0, 0]
            + seq![(scid.len() % 256) as u8] + scid + seq![(dcid.len() % 256) as u8] + dcid + seq![
            0xffu8, 0x00, 0x00, 0x17,
        ],
        ({
            let f = negotiation_fields(with_form_bit(r), scid, dcid);
            &&& f.len() == 7
            &&& f[0].len() == 1
            &&& f[1].len() == 4
            &&& f[2].len() == 1
            &&& f[3].len() == scid.len()
            &&& f[4].len() == 1
            &&& f[5].len() == dcid.len()
            &&& f[6].len() == 4
        }),
{
    assert(r | 0x80 == (if r < 0x80 {
        r + 0x80
    } else {
        r as int
    })) by (bit_vector);
    numbers_are_written_big_endian(0);
    numbers_are_written_big_endian(0xff00_0017);
    let f = negotiation_fields(with_form_bit(r), scid, dcid);
    reveal_with_fuel(flat, 8);
    let f1 = f.drop_first();
    let f2 = f1.drop_first();
    let f3 = f2.drop_first();
    let f4 = f3.drop_first();
    let f5 = f4.drop_first();
    let f6 = f5.drop_first();
    assert(f6.drop_first().len() == 0);
    assert(flat(f) =~= f[0] + (f1[0] + (f2[0] + (f3[0] + (f4[0] + (f5[0] + f6[0]))))));
    assert(f[0] + f1[0] =~= seq![r | 0x80, 0, 0, 0, 0]);
    assert(f[0] + (f1[0] + (f2[0] + (f3[0] + (f4[0] + (f5[0] + f6[0]))))) =~= (f[0] + f1[0]) + f2[0]
        + f3[0] + f4[0] + f5[0] + f6[0]);
}

/// The bytes of a retry packet: the version 0xff000017, the client's connection ID,
/// the new one of the server, the one that the client had sent its packet to, each
/// behind the last byte of its length, and the token.
pub proof fn retry_bytes(scid: Seq<u8>, dcid: Seq<u8>, new_scid: Seq<u8>, token: Seq<u8>)
    ensures
        header_bytes(retry_header(scid, dcid, new_scid, token)) == seq![
            0xf0u8, 0xff, 0x00, 0x00, 0x17,
        ] + seq![(scid.len() % 256) as u8] + scid + seq![(new_scid.len() % 256) as u8] + new_scid
            + seq![(dcid.len() % 256) as u8] + dcid + token,
{
    let h = retry_header(scid, dcid, new_scid, token);
    written_bytes(h);
    first_byte_bits(h);
    assert(0u8 | 0xf0 == 0xf0) by (bit_vector);
    assert(header_bytes(h) =~= seq![0xf0u8, 0xff, 0x00, 0x00, 0x17] + seq![
        (scid.len() % 256) as u8,
    ] + scid + seq![(new_scid.len() % 256) as u8] + new_scid + seq![(dcid.len() % 256) as u8] + dcid
        + token);
}

/// What the client reads of a retry packet, field by field.
#[verifier::spinoff_prover]
#[verifier::rlimit(50)]
pub proof fn retry_fields_read(
    scid: Seq<u8>,
    dcid: Seq<u8>,
    new_scid: Seq<u8>,
    token: Seq<u8>,
    dcid_len: int,
)
    requires
        scid.len() <= 20,
        dcid.len() <= 20,
        new_scid.len() <= 20,
    ensures
        ({
            let bytes = header_bytes(retry_header(scid, dcid, new_scid, token));
            &&& parse_header(bytes, 0, dcid_len).res matches Ok(h)
            &&& h.ty == Type::Retry
            &&& h.version == 0xff00_0017
            &&& h.dcid == scid
            &&& h.scid == new_scid
            &&& h.odcid == Some(dcid)
            &&& h.token == Some(token)
            &&& h.versions is None
        }),
{
    let bytes = header_bytes(retry_header(scid, dcid, new_scid, token));
    let v = seq![0xffu8, 0x00, 0x00, 0x17];
    let tail = seq![dcid.len() as u8] + dcid + token;
    assert(number(v) == 0xff00_0017);
    assert(0xf0u8 & 0x30 == 0x30) by (bit_vector);
    retry_bytes(scid, dcid, new_scid, token);
    assert(bytes =~= seq![0xf0u8] + v + seq![scid.len() as u8] + scid + seq![new_scid.len() as u8]
        + new_scid + tail);
    assert(bytes.subrange(0, bytes.len() as int) =~= bytes);
    long_header_is_read(bytes, 0, dcid_len, 0xf0, v, scid, new_scid, tail);
    retry_header_is_read(bytes, 0, dcid_len, 0xf0, v, scid, new_scid, dcid, token);
}

} // verus!
