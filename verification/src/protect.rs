//! The protection of packets: of their content, and of what in their headers
//! others need not see.
use vstd::prelude::*;

use crate::crypto::{Keys, Mask, Open, Seal, SAMPLE_LEN, TAG_LEN};
use crate::error::Error;
use crate::header::{long_form, Header, HeaderView, Type, KEY_PHASE_BIT};
use crate::octets::Octets;
use crate::wire::{be_at, be_value, numbers_are_read_big_endian, overwrite};

verus! {

/// The most bytes that a packet number takes.
pub const MAX_PKT_NUM_LEN: usize = 4;

pub const PKT_NUM_MASK: u8 = 0x03;

/// A first byte of a header, protected, or with its protection removed: the low
/// four bits of a long one, and the low five of a short one, are masked.
pub open spec fn flip_first(first: u8, m: u8) -> u8 {
    if long_form(first) {
        first ^ (m & 0x0f)
    } else {
        first ^ (m & 0x1f)
    }
}

/// The bytes of a packet number, protected, or with their protection removed.
pub open spec fn flip_bytes(s: Seq<u8>, mask: Seq<u8>) -> Seq<u8> {
    Seq::new(s.len(), |i: int| s[i] ^ mask[i + 1])
}

/// The length of the packet number, as the first byte of a header says.
pub open spec fn said_len(first: u8) -> int {
    first % 4 + 1
}

/// What the header protection of a packet hid.
pub struct Unprotected {
    /// The packet without its header protection.
    pub data: Seq<u8>,
    /// The first byte.
    pub first: u8,
    /// The packet number, as it was sent.
    pub pn: nat,
    /// The length of the packet number.
    pub pn_len: int,
}

/// Removes the header protection of a packet whose packet number starts at `off`.
pub open spec fn unprotect(data: Seq<u8>, off: int, mask: Seq<u8>) -> Unprotected {
    let first = flip_first(data[0], mask[0]);
    let pn_len = said_len(first);
    let pn = flip_bytes(data.subrange(off, off + pn_len), mask);
    Unprotected {
        data: overwrite(data, off, pn).update(0, first),
        first,
        pn: be_value(pn),
        pn_len,
    }
}

/// The header `h` with what its protection hid filled in.
pub open spec fn filled_in(h: HeaderView, u: Unprotected) -> HeaderView {
    HeaderView {
        pkt_num: u.pn as u64,
        pkt_num_len: u.pn_len as usize,
        key_phase: if h.ty == Type::Application {
            (u.first / 4) % 2 == 1
        } else {
            h.key_phase
        },
        ..h
    }
}

/// The part of a packet that its header protection depends on, where its packet
/// number starts at `off`.
pub open spec fn sample_at(data: Seq<u8>, off: int) -> Seq<u8> {
    data.subrange(off + MAX_PKT_NUM_LEN, off + MAX_PKT_NUM_LEN + SAMPLE_LEN)
}

/// Removes the header protection of the packet in `b`, whose packet number is at
/// the position of `b`, moves past the packet number, and fills in `hdr` what was
/// hidden.
pub fn decrypt_hdr(b: &mut Octets, hdr: &mut Header, aead: &Open) -> (res: Result<(), Error>)
    requires
        old(b).wf(),
    ensures
        final(b).wf(),
        final(final(b).buf)@ == final(old(b).buf)@,
        if old(b).left() < MAX_PKT_NUM_LEN + SAMPLE_LEN {
            &&& res == Err::<(), Error>(Error::BufferTooShort)
            &&& final(b).data() == old(b).data()
            &&& final(b).off == old(b).off
            &&& *final(hdr) == *old(hdr)
        } else {
            let u = unprotect(
                old(b).data(),
                old(b).off as int,
                aead@.mask(sample_at(old(b).data(), old(b).off as int)),
            );
            &&& res == Ok::<(), Error>(())
            &&& final(b).data() == u.data
            &&& final(b).off == old(b).off + u.pn_len
            &&& final(hdr)@ == filled_in(old(hdr)@, u)
        },
{
    let ghost data = b.data();
    let ghost off = b.off as int;
    let mask: Mask = {
        let pn_and_sample = b.peek_bytes(MAX_PKT_NUM_LEN + SAMPLE_LEN)?;
        let (_, sample) = pn_and_sample.buf.split_at(MAX_PKT_NUM_LEN);
        assert(sample@ =~= sample_at(data, off));
        aead.new_mask(sample)?
    };
    assert(b.data() =~= data);
    unprotect_hdr(b, hdr, &mask)
}

/// Like [`decrypt_hdr`], with the mask of the packet given.
pub fn unprotect_hdr(b: &mut Octets, hdr: &mut Header, mask: &Mask) -> (res: Result<(), Error>)
    requires
        old(b).wf(),
        old(b).left() >= MAX_PKT_NUM_LEN,
    ensures
        final(b).wf(),
        final(final(b).buf)@ == final(old(b).buf)@,
        res == Ok::<(), Error>(()),
        ({
            let u = unprotect(old(b).data(), old(b).off as int, mask@);
            &&& final(b).data() == u.data
            &&& final(b).off == old(b).off + u.pn_len
            &&& final(hdr)@ == filled_in(old(hdr)@, u)
        }),
{
    let ghost data = b.data();
    let ghost off = b.off as int;
    let ghost u = unprotect(data, off, mask@);

    let mut first: u8 = b.buf[0];

    if Header::is_long(first) {
        first = first ^ (mask[0] & 0x0f);
    } else {
        first = first ^ (mask[0] & 0x1f);
    }

    assert(first & 0x03 == first % 4) by (bit_vector);
    let pn_len: usize = ((first & PKT_NUM_MASK) + 1) as usize;

    flip_at(b.buf, b.off, pn_len, mask);
    let ghost flipped = b.data();
    let ghost pn_bytes = flip_bytes(data.subrange(off, off + pn_len), mask@);
    assert(flipped == overwrite(data, off, pn_bytes));
    assert(flipped.subrange(off, off + pn_len) =~= pn_bytes);
    proof {
        reveal_with_fuel(be_value, 2);
    }

    // Extract packet number corresponding to the decoded length.
    let pn: u64 = match pn_len {
        1 => b.get_u8()? as u64,
        2 => b.get_u16()? as u64,
        3 => b.get_u24()? as u64,
        4 => b.get_u32()? as u64,
        _ => return Err(Error::InvalidPacket),
    };

    // Write decrypted first byte back into the input buffer.
    b.buf[0] = first;

    hdr.pkt_num = pn;
    hdr.pkt_num_len = pn_len;

    if hdr.ty == Type::Application {
        assert(first & 0x04 != 0 <==> (first / 4) % 2 == 1) by (bit_vector);
        hdr.key_phase = (first & KEY_PHASE_BIT) != 0;
    }
    assert(hdr@ =~= filled_in(old(hdr)@, u));
    Ok(())
}

/// Masks the `n` bytes of a packet number that start at `at`.
fn flip_at(buf: &mut [u8], at: usize, n: usize, mask: &Mask)
    requires
        at + n <= old(buf)@.len(),
        n <= MAX_PKT_NUM_LEN,
    ensures
        final(buf)@ == overwrite(
            old(buf)@,
            at as int,
            flip_bytes(old(buf)@.subrange(at as int, at + n), mask@),
        ),
{
    let mut i: usize = 0;
    let ghost before = buf@;
    while i < n
        invariant
            i <= n <= 4,
            at + n <= buf.len(),
            buf@.len() == before.len(),
            forall|j: int|
                0 <= j < before.len() && !(at <= j < at + i) ==> #[trigger] buf@[j] == before[j],
            forall|j: int|
                at <= j < at + i ==> #[trigger] buf@[j] == before[j] ^ mask@[j - at + 1],
        decreases n - i,
    {
        buf[at + i] = buf[at + i] ^ mask[i + 1];
        i += 1;
    }
    assert(buf@ =~= overwrite(
        before,
        at as int,
        flip_bytes(before.subrange(at as int, at + n), mask@),
    ));
}

/// What the content of a packet is, if it is authentic: `off` is where the
/// content starts, `len` how long it is, with its tag, and all before it is the
/// header.
pub open spec fn content(data: Seq<u8>, off: int, len: int, pn: u64, keys: Keys) -> Option<
    Seq<u8>,
> {
    keys.opened(pn, data.take(off), data.subrange(off, off + len))
}

/// Opens, in place, the content of the packet in `b`, which is at the position of
/// `b` and has the packet number `pn`, and returns it. `payload_len` is the length
/// of the content and of the packet number, which takes `pn_len` bytes.
pub fn decrypt_pkt<'a>(
    b: &'a mut Octets,
    pn: u64,
    pn_len: usize,
    payload_len: usize,
    aead: &Open,
) -> (res: Result<Octets<'a>, Error>)
    requires
        old(b).wf(),
        pn_len <= payload_len,
    ensures
        final(final(b).buf)@ == final(old(b).buf)@,
        ({
            let data = old(b).data();
            let off = old(b).off as int;
            let len = payload_len - pn_len;
            match res {
                Ok(o) => {
                    &&& len <= old(b).left()
                    &&& content(data, off, len, pn, aead@) == Some(o.data())
                    &&& o.wf()
                    &&& o.off == 0
                    &&& o.data().len() + TAG_LEN == len
                    &&& final(b).off == off + o.data().len()
                    &&& final(b).data() == data.take(off) + final(o.buf)@ + data.skip(
                        off + o.data().len(),
                    )
                },
                Err(e) => {
                    &&& final(b).off == off
                    &&& final(b).data().len() == data.len()
                    &&& if len > old(b).left() {
                        &&& e == Error::BufferTooShort
                        &&& final(b).data() == data
                    } else {
                        &&& content(data, off, len, pn, aead@) is None
                        &&& e == Error::CryptoFail
                        &&& final(b).data().take(off) == data.take(off)
                        &&& final(b).data().skip(off + len) == data.skip(off + len)
                    }
                },
            }
        }),
{
    let ghost data = b.data();
    let payload_offset: usize = b.off();
    let ghost off = payload_offset as int;
    let len: usize = payload_len - pn_len;

    let opened: Result<usize, Error> = {
        let (header, mut payload) = b.split_at(payload_offset)?;
        let ciphertext = payload.slice(len)?;
        assert(ciphertext@ =~= data.subrange(off, off + len));
        assert(header.data().skip(0) =~= data.take(off));
        aead.open_with_u64_counter(pn, header.as_ref(), ciphertext)
    };

    match opened {
        Ok(n) => {
            let ghost plain = content(data, off, len as int, pn, aead@)->0;
            assert(b.data() =~= data.take(off) + plain + data.skip(off + n));
            let o = b.get_bytes(n)?;
            assert(o.data() =~= plain);
            Ok(o)
        },
        Err(e) => Err(e),
    }
}

/// A packet's header with protection, where the last `pn_len` bytes of it are the
/// packet number.
pub open spec fn protect(header: Seq<u8>, pn_len: int, mask: Seq<u8>) -> Seq<u8> {
    let at = header.len() - pn_len;
    overwrite(
        header.update(0, flip_first(header[0], mask[0])),
        at,
        flip_bytes(header.skip(at), mask),
    )
}

/// `after` and `res` are what comes of protecting `header`. Where the header has
/// no room for the packet number, only its first byte is masked.
pub open spec fn hdr_protected(
    header: Seq<u8>,
    pn_len: int,
    mask: Seq<u8>,
    after: Seq<u8>,
    res: Result<(), Error>,
) -> bool {
    if header.len() < 1 {
        &&& res == Err::<(), Error>(Error::BufferTooShort)
        &&& after == header
    } else if header.len() < 1 + pn_len {
        &&& res == Err::<(), Error>(Error::BufferTooShort)
        &&& after == header.update(0, flip_first(header[0], mask[0]))
    } else {
        &&& res == Ok::<(), Error>(())
        &&& after == protect(header, pn_len, mask)
    }
}

/// The part of the sealed content of a packet that the protection of its header
/// depends on, where its packet number takes `pn_len` bytes.
pub open spec fn payload_sample(payload: Seq<u8>, pn_len: int) -> Seq<u8> {
    payload.subrange(MAX_PKT_NUM_LEN - pn_len, MAX_PKT_NUM_LEN - pn_len + SAMPLE_LEN)
}

/// Protects the header in `b`, whose last `pn_len` bytes are the packet number,
/// of the packet with the sealed content `payload`.
pub fn encrypt_hdr(b: &mut Octets, pn_len: usize, payload: &[u8], aead: &Seal) -> (res: Result<
    (),
    Error,
>)
    requires
        pn_len <= MAX_PKT_NUM_LEN,
        payload@.len() >= MAX_PKT_NUM_LEN - pn_len + SAMPLE_LEN,
    ensures
        final(final(b).buf)@ == final(old(b).buf)@,
        final(b).off == old(b).off,
        hdr_protected(
            old(b).data(),
            pn_len as int,
            aead@.mask(payload_sample(payload@, pn_len as int)),
            final(b).data(),
            res,
        ),
{
    let sample = vstd::slice::slice_subrange(
        payload,
        MAX_PKT_NUM_LEN - pn_len,
        SAMPLE_LEN + (MAX_PKT_NUM_LEN - pn_len),
    );

    let mask: Mask = aead.new_mask(sample)?;

    protect_hdr(b, pn_len, &mask)
}

/// Like [`encrypt_hdr`], with the mask of the packet given.
pub fn protect_hdr(b: &mut Octets, pn_len: usize, mask: &Mask) -> (res: Result<(), Error>)
    requires
        pn_len <= MAX_PKT_NUM_LEN,
    ensures
        final(final(b).buf)@ == final(old(b).buf)@,
        final(b).off == old(b).off,
        hdr_protected(old(b).data(), pn_len as int, mask@, final(b).data(), res),
{
    let ghost header = b.data();
    let (first, mut rest) = b.split_at(1)?;

    if Header::is_long(first.buf[0]) {
        first.buf[0] = first.buf[0] ^ (mask[0] & 0x0f);
    } else {
        first.buf[0] = first.buf[0] ^ (mask[0] & 0x1f);
    }

    match rest.slice_last(pn_len) {
        Ok(pn_buf) => {
            assert(pn_buf@.subrange(0, pn_len as int) =~= header.skip(header.len() - pn_len));
            flip_at(pn_buf, 0, pn_len, mask);
        },
        Err(e) => {
            assert(b.data() =~= header.update(0, flip_first(header[0], mask@[0])));
            return Err(e);
        },
    }
    assert(b.data() =~= protect(header, pn_len as int, mask@));

    Ok(())
}

/// The packet `data` with its content sealed, where the content, with room for
/// its tag, has `len` bytes and starts at `off`.
pub open spec fn content_sealed(data: Seq<u8>, off: int, len: int, pn: u64, keys: Keys) -> Seq<u8> {
    overwrite(data, off, keys.sealed(pn, data.take(off), data.subrange(off, off + len - TAG_LEN)))
}

/// There is room in `data` for a content of `len` bytes at `off`.
pub open spec fn has_content(data: Seq<u8>, off: int, len: int) -> bool {
    off + len <= data.len()
}

/// A content of `len` bytes, with its tag, can be sealed.
pub open spec fn can_seal(keys: Keys, len: int) -> bool {
    TAG_LEN <= len <= TAG_LEN + keys.alg.spec_max_plain_len()
}

/// Whether a packet was protected.
pub open spec fn without_len(res: Result<usize, Error>) -> Result<(), Error> {
    match res {
        Ok(_) => Ok(()),
        Err(e) => Err(e),
    }
}

/// Protects the packet in `b`: its content, and what in its header others need
/// not see. The content starts at `payload_offset` and has `payload_len` bytes, of
/// which the last [`TAG_LEN`] are room for the tag; the packet number `pn` takes
/// the `pn_len` bytes before it. Returns the length of the packet.
///
/// A receiver with the same keys that removes the protection of the header finds
/// the header as it was, and the content that it then opens is the one that was
/// sealed.
pub fn encrypt_pkt(
    b: &mut Octets,
    pn: u64,
    pn_len: usize,
    payload_len: usize,
    payload_offset: usize,
    aead: &Seal,
) -> (res: Result<usize, Error>)
    requires
        has_content(old(b).data(), payload_offset as int, payload_len as int) && can_seal(
            aead@,
            payload_len as int,
        ) ==> pn_len <= MAX_PKT_NUM_LEN && payload_len >= MAX_PKT_NUM_LEN - pn_len + SAMPLE_LEN,
    ensures
        final(final(b).buf)@ == final(old(b).buf)@,
        final(b).off == old(b).off,
        final(b).data().len() == old(b).data().len(),
        ({
            let data = old(b).data();
            let off = payload_offset as int;
            let len = payload_len as int;
            if !has_content(data, off, len) {
                &&& res == Err::<usize, Error>(Error::BufferTooShort)
                &&& final(b).data() == data
            } else if !can_seal(aead@, len) {
                &&& res == Err::<usize, Error>(Error::CryptoFail)
                &&& final(b).data() == data
            } else {
                let sealed = content_sealed(data, off, len, pn, aead@);
                let mask = aead@.mask(
                    payload_sample(sealed.subrange(off, off + len), pn_len as int),
                );
                let after = final(b).data();
                &&& hdr_protected(
                    data.take(off),
                    pn_len as int,
                    mask,
                    after.take(off),
                    without_len(res),
                )
                &&& aead@.sealed(
                    pn,
                    data.take(off),
                    data.subrange(off, off + len - TAG_LEN),
                ).len() == len
                &&& after.skip(off) == sealed.skip(off)
                &&& after.skip(off + len) == data.skip(off + len)
                &&& res matches Ok(n) ==> n == off + len
            }
        }),
        res is Ok ==> {
            let data = old(b).data();
            let off = payload_offset as int;
            let len = payload_len as int;
            let sealed = content_sealed(data, off, len, pn, aead@);
            &&& sealed.take(off) == data.take(off)
            &&& content(sealed, off, len, pn, aead@) == Some(
                data.subrange(off, off + len - TAG_LEN),
            )
            &&& pn_len == said_len(data[0]) ==> {
                let after = final(b).data();
                let at = off - pn_len;
                unprotect(after, at, aead@.mask(sample_at(after, at))) == (Unprotected {
                    data: sealed,
                    first: data[0],
                    pn: be_at(data, at, pn_len as nat),
                    pn_len: pn_len as int,
                })
            }
        },
{
    let ghost data = b.data();
    let ghost off = payload_offset as int;
    let ghost len = payload_len as int;
    let ghost sealed = content_sealed(data, off, len, pn, aead@);
    let ghost sealed_content = aead@.sealed(
        pn,
        data.take(off),
        data.subrange(off, off + len - TAG_LEN),
    );
    let total: usize = b.len();
    let (mut header, mut payload) = b.split_at(payload_offset)?;

    // Encrypt + authenticate payload.
    let ciphertext = payload.slice(payload_len)?;
    proof {
        assert(header.data().skip(0) =~= data.take(off));
        if len >= TAG_LEN {
            assert(ciphertext@.take(len - TAG_LEN) =~= data.subrange(off, off + len - TAG_LEN));
        }
    }
    aead.seal_with_u64_counter(pn, header.as_ref(), ciphertext)?;
    assert(ciphertext@ == sealed_content);
    assert(sealed.subrange(off, off + len) =~= sealed_content);
    assert(sealed.take(off) =~= data.take(off));
    assert(sealed.skip(off) =~= sealed_content + data.skip(off + len));

    let protected: Result<(), Error> = encrypt_hdr(&mut header, pn_len, ciphertext, aead);
    let ghost header_after = header.data();
    assert(b.data() =~= header_after + sealed.skip(off));
    assert(b.data().take(off) =~= header_after);
    assert(b.data().skip(off) =~= sealed.skip(off));
    assert(b.data().skip(off + len) =~= data.skip(off + len));
    protected?;

    proof {
        let mask = aead@.mask(payload_sample(sealed_content, pn_len as int));
        if pn_len == said_len(data[0]) {
            header_protection_is_removed(sealed, off, pn_len as int, mask);
            let at = off - pn_len;
            assert(sample_at(b.data(), at) =~= payload_sample(sealed_content, pn_len as int));
            assert(sealed.subrange(at, off) =~= data.subrange(at, off));
        }
    }

    Ok(payload_offset + payload_len)
}

/// Removing the protection of a header undoes protecting it, as long as the
/// first byte says how long the packet number is.
pub proof fn header_protection_is_removed(data: Seq<u8>, off: int, pn_len: int, mask: Seq<u8>)
    requires
        pn_len < off <= data.len(),
        pn_len == said_len(data[0]),
    ensures
        unprotect(protect(data.take(off), pn_len, mask) + data.skip(off), off - pn_len, mask) == (
        Unprotected {
            data,
            first: data[0],
            pn: be_at(data, off - pn_len, pn_len as nat),
            pn_len,
        }),
{
    let header = data.take(off);
    let after = protect(header, pn_len, mask) + data.skip(off);
    let at = off - pn_len;
    let first = data[0];
    let m = mask[0];
    assert((first ^ (m & 0x0f)) ^ (m & 0x0f) == first && (first ^ (m & 0x1f)) ^ (m & 0x1f) == first
        && (first ^ (m & 0x0f) >= 0x80 <==> first >= 0x80) && (first ^ (m & 0x1f) >= 0x80
        <==> first >= 0x80)) by (bit_vector);
    assert(after[0] == flip_first(first, m));
    assert(flip_first(after[0], m) == first);
    let flipped = flip_bytes(data.subrange(at, off), mask);
    assert(after.subrange(at, off) =~= flipped);
    assert forall|i: int| 0 <= i < pn_len implies flip_bytes(flipped, mask)[i] == data.subrange(
        at,
        off,
    )[i] by {
        let x = data.subrange(at, off)[i];
        let y = mask[i + 1];
        assert((x ^ y) ^ y == x) by (bit_vector);
    }
    assert(flip_bytes(flipped, mask) =~= data.subrange(at, off));
    assert(overwrite(after, at, data.subrange(at, off)).update(0, first) =~= data);
}

/// The lengths that the protection of packets rests on.
pub proof fn protection_lengths()
    ensures
        MAX_PKT_NUM_LEN == 4,
        SAMPLE_LEN == 16,
        TAG_LEN == 16,
{
}

/// What protecting a header changes, byte by byte: the low four bits of the first
/// byte of a long header, or the low five of a short one, and the packet number at
/// the end, each masked with its byte of the mask. A header without room for the
/// packet number is refused.
pub proof fn protected_header_bytes(
    header: Seq<u8>,
    pn_len: int,
    mask: Seq<u8>,
    after: Seq<u8>,
    res: Result<(), Error>,
    i: int,
)
    requires
        0 <= pn_len,
        hdr_protected(header, pn_len, mask, after, res),
    ensures
        after.len() == header.len(),
        res is Ok <==> header.len() > pn_len,
        res matches Err(e) ==> e == Error::BufferTooShort,
        header.len() > 0 && header[0] >= 0x80 ==> after[0] ^ header[0] == mask[0] & 0x0f,
        header.len() > 0 && header[0] < 0x80 ==> after[0] ^ header[0] == mask[0] & 0x1f,
        0 < i < header.len() ==> after[i] ^ header[i] == (if res is Ok && i >= header.len()
            - pn_len {
            mask[i - (header.len() - pn_len) + 1]
        } else {
            0
        }),
{
    if header.len() > 0 {
        let f = header[0];
        let m = mask[0];
        assert((f ^ (m & 0x0f)) ^ f == m & 0x0f && (f ^ (m & 0x1f)) ^ f == m & 0x1f)
            by (bit_vector);
    }
    if 0 < i < header.len() {
        let x = header[i];
        let y = mask[i - (header.len() - pn_len) + 1];
        assert((x ^ y) ^ x == y && x ^ x == 0) by (bit_vector);
        if header.len() > pn_len && i >= header.len() - pn_len {
            assert(after[i] == x ^ y);
        } else {
            assert(after[i] == x);
        }
    }
}

/// What removing the protection of a header changes, byte by byte, and what is read
/// of it: the first byte is unmasked as it was masked; its two lowest bits, and one,
/// are the length of the packet number; as many bytes are unmasked, and they are
/// the packet number, the most significant first.
pub proof fn unprotected_header_bytes(data: Seq<u8>, off: int, mask: Seq<u8>, i: int)
    requires
        0 <= off,
        off + 4 <= data.len(),
        0 <= i < data.len(),
    ensures
        ({
            let u = unprotect(data, off, mask);
            &&& data[0] >= 0x80 ==> u.first ^ data[0] == mask[0] & 0x0f
            &&& data[0] < 0x80 ==> u.first ^ data[0] == mask[0] & 0x1f
            &&& u.pn_len == (u.first & 0x03) + 1
            &&& u.data.len() == data.len()
            &&& u.data[0] == u.first
            &&& 0 < i ==> u.data[i] ^ data[i] == (if off <= i < off + u.pn_len {
                mask[i - off + 1]
            } else {
                0
            })
            &&& ({
                let a = data[off] ^ mask[1];
                let b = data[off + 1] ^ mask[2];
                let c = data[off + 2] ^ mask[3];
                let d = data[off + 3] ^ mask[4];
                &&& u.pn_len == 1 ==> u.pn == a
                &&& u.pn_len == 2 ==> u.pn == a * 0x100 + b
                &&& u.pn_len == 3 ==> u.pn == a * 0x1_0000 + b * 0x100 + c
                &&& u.pn_len == 4 ==> u.pn == a * 0x100_0000 + b * 0x1_0000 + c * 0x100 + d
            })
        }),
{
    let u = unprotect(data, off, mask);
    let f = data[0];
    let m = mask[0];
    let g = u.first;
    assert((f ^ (m & 0x0f)) ^ f == m & 0x0f && (f ^ (m & 0x1f)) ^ f == m & 0x1f && g & 0x03 == g
        % 4) by (bit_vector);
    let pn = flip_bytes(data.subrange(off, off + u.pn_len), mask);
    numbers_are_read_big_endian(pn);
    let x = data[i];
    let y = mask[i - off + 1];
    assert((x ^ y) ^ x == y && x ^ x == 0) by (bit_vector);
    if 0 < i && off <= i < off + u.pn_len {
        assert(u.data[i] == x ^ y);
    }
}

/// What a header gets from the removal of its protection: the packet number, its
/// length and, for a short header, the key phase, which is the third lowest bit of
/// the first byte. All else stays.
pub proof fn filled_in_fields(h: HeaderView, u: Unprotected)
    requires
        0 <= u.pn <= u64::MAX,
        1 <= u.pn_len <= 4,
    ensures
        ({
            let g = filled_in(h, u);
            &&& g.pkt_num == u.pn
            &&& g.pkt_num_len == u.pn_len
            &&& g.ty == Type::Application ==> (g.key_phase <==> u.first & 0x04 == 0x04)
            &&& g.ty != Type::Application ==> g.key_phase == h.key_phase
            &&& g.ty == h.ty
            &&& g.version == h.version
            &&& g.dcid == h.dcid
            &&& g.scid == h.scid
            &&& g.odcid == h.odcid
            &&& g.token == h.token
            &&& g.versions == h.versions
        }),
{
    let f = u.first;
    assert(f & 0x04 == 0x04 <==> (f / 4) % 2 == 1) by (bit_vector);
}

/// The sample is the 16 bytes that follow the place of a packet number of four
/// bytes, and sender and receiver take the same one: where `payload` follows a
/// packet number of `pn_len` bytes, both find it in the packet.
pub proof fn samples_agree(header: Seq<u8>, payload: Seq<u8>, pn_len: int)
    requires
        0 <= pn_len <= 4,
        pn_len <= header.len(),
        payload.len() >= 20 - pn_len,
    ensures
        ({
            let at = header.len() - pn_len;
            &&& payload_sample(payload, pn_len) == payload.subrange(4 - pn_len, 20 - pn_len)
            &&& sample_at(header + payload, at) == (header + payload).subrange(at + 4, at + 20)
            &&& payload_sample(payload, pn_len) == sample_at(header + payload, at)
        }),
{
    let at = header.len() - pn_len;
    assert(payload_sample(payload, pn_len) =~= sample_at(header + payload, at));
}

/// What is sealed, and what is opened: the content alone, under the packet number,
/// with all of the header, as it is before its protection, as associated data.
pub proof fn sealed_and_opened_parts(data: Seq<u8>, off: int, len: int, pn: u64, keys: Keys)
    requires
        0 <= off,
        16 <= len,
        off + len <= data.len(),
    ensures
        content(data, off, len, pn, keys) == keys.opened(
            pn,
            data.subrange(0, off),
            data.subrange(off, off + len),
        ),
        ({
            let sealed = keys.sealed(
                pn,
                data.subrange(0, off),
                data.subrange(off, off + len - 16),
            );
            sealed.len() == len ==> content_sealed(data, off, len, pn, keys) == data.subrange(
                0,
                off,
            ) + sealed + data.subrange(off + len, data.len() as int)
        }),
{
    assert(data.take(off) =~= data.subrange(0, off));
    assert(data.skip(off + len) =~= data.subrange(off + len, data.len() as int));
}

/// When a content has room in the packet, and when it can be sealed: not without
/// the 16 bytes for its tag.
pub proof fn when_a_content_is_sealed(data: Seq<u8>, off: int, len: int, keys: Keys)
    ensures
        has_content(data, off, len) <==> off + len <= data.len(),
        can_seal(keys, len) <==> len >= 16 && len - 16 <= keys.alg.spec_max_plain_len(),
{
}

/// Whether a packet was protected is what `encrypt_pkt` returns, without the length.
pub proof fn protected_or_not(res: Result<usize, Error>)
    ensures
        res is Ok ==> without_len(res) is Ok,
        res matches Err(e) ==> without_len(res) == Err::<(), Error>(e),
{
}

} // verus!
