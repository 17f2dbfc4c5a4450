//! Packet numbers: how many bytes they take, and how a receiver gets them back
//! from the bytes that were sent.
use vstd::prelude::*;

use crate::error::Error;
use crate::octets::Octets;
use crate::wire::{be_bytes, be_value, lemma_be_round_trip, lemma_pow256_values};
use crate::wire::{numbers_are_written_big_endian, overwrite, pow256};

verus! {

/// How many bytes the packet number `pn` is sent in, if it can be sent.
pub open spec fn sent_len(pn: u64) -> Option<nat> {
    if pn < 0xff {
        Some(1)
    } else if pn < 0xffff {
        Some(2)
    } else if pn < 0xffff_ffff {
        Some(4)
    } else {
        None
    }
}

/// The number of bytes that the packet number `pn` is sent in.
pub fn pkt_num_len(pn: u64) -> (res: Result<usize, Error>)
    ensures
        match res {
            Ok(len) => sent_len(pn) == Some(len as nat),
            Err(e) => sent_len(pn) is None && e == Error::InvalidPacket,
        },
{
    let len: usize = if pn < u8::MAX as u64 {
        1
    } else if pn < u16::MAX as u64 {
        2
    } else if pn < u32::MAX as u64 {
        4
    } else {
        return Err(Error::InvalidPacket);
    };

    Ok(len)
}

/// Writes the packet number `pn` at the position of `b`.
pub fn encode_pkt_num(pn: u64, b: &mut Octets) -> (res: Result<(), Error>)
    requires
        old(b).wf(),
    ensures
        final(b).wf(),
        final(final(b).buf)@ == final(old(b).buf)@,
        match res {
            Ok(_) => {
                &&& sent_len(pn) matches Some(n)
                &&& n <= old(b).left()
                &&& final(b).off == old(b).off + n
                &&& final(b).data() == overwrite(
                    old(b).data(),
                    old(b).off as int,
                    be_bytes(pn as nat, n),
                )
            },
            Err(e) => {
                &&& final(b).off == old(b).off
                &&& final(b).data() == old(b).data()
                &&& match sent_len(pn) {
                    Some(n) => n > old(b).left() && e == Error::BufferTooShort,
                    None => e == Error::InvalidPacket,
                }
            },
        },
{
    let len: usize = pkt_num_len(pn)?;

    match len {
        1 => {
            assert(be_bytes(pn as nat, 1) =~= seq![pn as u8]) by {
                reveal_with_fuel(be_bytes, 2);
            }
            b.put_u8(pn as u8)?
        },
        2 => b.put_u16(pn as u16)?,
        3 => b.put_u24(pn as u32)?,
        4 => b.put_u32(pn as u32)?,
        _ => return Err(Error::InvalidPacket),
    }

    Ok(())
}

/// How many packet numbers `pn_len` bytes tell apart.
pub open spec fn window(pn_len: nat) -> int {
    pow256(pn_len) as int
}

/// The number with the high bits of the one that is expected after `largest_pn`,
/// and with `truncated_pn` for its low bits. A `truncated_pn` that is too large
/// for them adds its bits to the high ones.
pub open spec fn candidate(largest_pn: u64, truncated_pn: u64, win: int) -> int {
    let expected = largest_pn + 1;
    if truncated_pn < win {
        expected - expected % win + truncated_pn
    } else {
        (((expected as u64) & !((win - 1) as u64)) | truncated_pn) as int
    }
}

/// The packet number that `truncated_pn`, sent in `pn_len` bytes, stands for
/// after `largest_pn`: the candidate, or the next or previous number with the
/// same low bits where that is nearer to the one expected.
pub open spec fn decoded(largest_pn: u64, truncated_pn: u64, pn_len: nat) -> int {
    let expected = largest_pn + 1;
    let win = window(pn_len);
    let c = candidate(largest_pn, truncated_pn, win);
    if c + win / 2 <= expected {
        c + win
    } else if c > expected + win / 2 && c > win {
        c - win
    } else {
        c
    }
}

/// Nothing on the way to the packet number is too large for 64 bits. That is so of
/// all the packet numbers of the protocol, which stay below 2^62 and are sent in
/// at most four bytes.
pub open spec fn decodable(largest_pn: u64, truncated_pn: u64, pn_len: nat) -> bool {
    let expected = largest_pn + 1;
    let win = window(pn_len);
    let c = candidate(largest_pn, truncated_pn, win);
    &&& largest_pn < u64::MAX
    &&& pn_len < 8
    &&& c + win / 2 <= u64::MAX
    &&& if c + win / 2 <= expected {
        c + win <= u64::MAX
    } else {
        expected + win / 2 <= u64::MAX
    }
}

/// The packet number that `truncated_pn`, sent in `pn_len` bytes, stands for
/// when `largest_pn` is the largest packet number received so far.
pub fn decode_pkt_num(largest_pn: u64, truncated_pn: u64, pn_len: usize) -> (pn: u64)
    requires
        decodable(largest_pn, truncated_pn, pn_len as nat),
    ensures
        pn == decoded(largest_pn, truncated_pn, pn_len as nat),
{
    let pn_nbits: usize = pn_len * 8;
    let expected_pn: u64 = largest_pn + 1;
    let pn_win: u64 = 1u64 << pn_nbits;
    proof {
        lemma_pow256_values();
        assert(1u64 << 0usize == 1 && 1u64 << 8usize == 0x100 && 1u64 << 16usize == 0x1_0000
            && 1u64 << 24usize == 0x100_0000 && 1u64 << 32usize == 0x1_0000_0000 && 1u64
            << 40usize == 0x100_0000_0000 && 1u64 << 48usize == 0x1_0000_0000_0000 && 1u64
            << 56usize == 0x100_0000_0000_0000) by (bit_vector);
        assert(pn_win == window(pn_len as nat));
        if truncated_pn < pn_win {
            lemma_low_bits(expected_pn, truncated_pn, pn_len as nat);
        }
    }
    let pn_hwin: u64 = pn_win / 2;
    let pn_mask: u64 = pn_win - 1;
    let candidate_pn: u64 = (expected_pn & !pn_mask) | truncated_pn;

    if candidate_pn + pn_hwin <= expected_pn {
        return candidate_pn + pn_win;
    }
    if candidate_pn > expected_pn + pn_hwin && candidate_pn > pn_win {
        return candidate_pn - pn_win;
    }
    candidate_pn
}

/// Putting the low bits of one number in the place of another's is arithmetic.
proof fn lemma_low_bits(e: u64, t: u64, pn_len: nat)
    requires
        pn_len < 8,
        t < window(pn_len),
    ensures
        (e & !((window(pn_len) - 1) as u64)) | t == e - e as int % window(pn_len) + t,
{
    lemma_pow256_values();
    assert({
        &&& (e & !0u64) | 0 == e
        &&& t < 0x100 ==> (e & !0xffu64) | t == e - e % 0x100 + t
        &&& t < 0x1_0000 ==> (e & !0xffffu64) | t == e - e % 0x1_0000 + t
        &&& t < 0x100_0000 ==> (e & !0xff_ffffu64) | t == e - e % 0x100_0000 + t
        &&& t < 0x1_0000_0000 ==> (e & !0xffff_ffffu64) | t == e - e % 0x1_0000_0000 + t
        &&& t < 0x100_0000_0000 ==> (e & !0xff_ffff_ffffu64) | t == e - e % 0x100_0000_0000 + t
        &&& t < 0x1_0000_0000_0000 ==> (e & !0xffff_ffff_ffffu64) | t == e - e % 0x1_0000_0000_0000
            + t
        &&& t < 0x100_0000_0000_0000 ==> (e & !0xff_ffff_ffff_ffffu64) | t == e - e
            % 0x100_0000_0000_0000 + t
    }) by (bit_vector);
}

/// The low `n` bytes of the packet number `pn`.
pub open spec fn truncated(pn: u64, n: nat) -> u64 {
    (pn as int % window(n)) as u64
}

/// A receiver gets a packet number back from its low bytes as long as it is no
/// further than half a window from the one that the receiver expects.
pub proof fn pkt_num_is_recovered(largest_pn: u64, pn: u64, pn_len: nat)
    requires
        decodable(largest_pn, truncated(pn, pn_len), pn_len),
        largest_pn + 1 - window(pn_len) / 2 < pn <= largest_pn + 1 + window(pn_len) / 2,
    ensures
        decoded(largest_pn, truncated(pn, pn_len), pn_len) == pn,
{
    let win = window(pn_len);
    let t = truncated(pn, pn_len) as int;
    assert(0 <= pn as int % win < win && pn as int % win <= pn) by (nonlinear_arith)
        requires
            win > 0,
    ;
    let e = largest_pn + 1;
    let c = e - e % win + t;
    let k = pn as int / win - e / win;
    assert(pn - c == k * win && 0 <= e % win < win) by (nonlinear_arith)
        requires
            win > 0,
            t == pn as int % win,
            c == e - e % win + t,
            k == pn as int / win - e / win,
    ;
    assert({
        &&& k >= 2 ==> k * win >= 2 * win
        &&& k == 1 ==> k * win == win
        &&& k == 0 ==> k * win == 0
        &&& k == -1 ==> k * win == -win
        &&& k <= -2 ==> k * win <= -2 * win
    }) by (nonlinear_arith)
        requires
            win > 0,
    ;
}

/// How far apart two packet numbers are.
pub open spec fn distance(a: int, b: int) -> int {
    if a < b {
        b - a
    } else {
        a - b
    }
}

/// The decoded packet number has the bytes that were sent for its low bytes, and
/// of all the numbers that do it is the nearest to the one that is expected: no
/// other such number is nearer, and one that is as near is smaller.
pub proof fn decoded_is_nearest(largest_pn: u64, truncated_pn: u64, pn_len: nat, other: nat)
    requires
        pn_len > 0,
        truncated_pn < window(pn_len),
        other as int % window(pn_len) == truncated_pn,
    ensures
        ({
            let pn = decoded(largest_pn, truncated_pn, pn_len);
            let expected = largest_pn + 1;
            &&& pn >= 0
            &&& pn % window(pn_len) == truncated_pn
            &&& distance(pn, expected) <= distance(other as int, expected)
            &&& distance(pn, expected) == distance(other as int, expected) ==> other <= pn
        }),
{
    let win = window(pn_len);
    let half = win / 2;
    let t = truncated_pn as int;
    let e = largest_pn + 1;
    let c = e - e % win + t;
    let k = other as int / win - e / win;
    let q = e / win;
    assert(win == 256 * pow256((pn_len - 1) as nat));
    assert(win == 2 * half);
    assert(c == q * win + t && other - c == k * win && 0 <= e % win < win && 0 <= q) by (nonlinear_arith)
        requires
            win > 0,
            e >= 0,
            t == other as int % win,
            c == e - e % win + t,
            q == e / win,
            k == other as int / win - q,
    ;
    assert({
        &&& k >= 2 ==> k * win >= 2 * win
        &&& k == 1 ==> k * win == win
        &&& k == 0 ==> k * win == 0
        &&& k == -1 ==> k * win == -win
        &&& k <= -2 ==> k * win <= -2 * win
        &&& q == 0 ==> q * win == 0
        &&& q >= 1 ==> q * win >= win
        &&& (q + 1) * win == q * win + win
        &&& (q - 1) * win == q * win - win
    }) by (nonlinear_arith)
        requires
            win > 0,
    ;
    vstd::arithmetic::div_mod::lemma_fundamental_div_mod_converse(c, win, q, t);
    vstd::arithmetic::div_mod::lemma_fundamental_div_mod_converse(c + win, win, q + 1, t);
    vstd::arithmetic::div_mod::lemma_fundamental_div_mod_converse(c - win, win, q - 1, t);
}

/// The packet numbers of the protocol are always decodable: they stay below
/// 2^62 and are sent in at most four bytes.
pub proof fn pkt_num_is_decodable(largest_pn: u64, truncated_pn: u64, pn_len: nat)
    requires
        largest_pn < 0x4000_0000_0000_0000,
        pn_len <= 4,
        truncated_pn < window(pn_len),
    ensures
        decodable(largest_pn, truncated_pn, pn_len),
{
    lemma_pow256_values();
}

/// What a sender writes for a packet number is what a receiver reads, and stands
/// for that packet number where the receiver expects one less than half a window
/// away.
pub proof fn sent_pkt_num_is_recovered(largest_pn: u64, pn: u64)
    requires
        largest_pn < 0x4000_0000_0000_0000,
    ensures
        sent_len(pn) matches Some(n) ==> {
            &&& pn < pow256(n)
            &&& be_value(be_bytes(pn as nat, n)) == pn
            &&& decodable(largest_pn, pn, n)
            &&& largest_pn + 1 - window(n) / 2 < pn <= largest_pn + 1 + window(n) / 2
                ==> decoded(largest_pn, pn, n) == pn
        },
{
    if let Some(n) = sent_len(pn) {
        lemma_pow256_values();
        lemma_be_round_trip(pn as nat, n);
        pkt_num_is_decodable(largest_pn, pn, n);
        vstd::arithmetic::div_mod::lemma_small_mod(pn as nat, window(n) as nat);
        if largest_pn + 1 - window(n) / 2 < pn <= largest_pn + 1 + window(n) / 2 {
            pkt_num_is_recovered(largest_pn, pn, n);
        }
    }
}

/// Every packet number below 2^32 - 1 can be sent, and no other: it takes the
/// least of one, two and four bytes that leave their largest value free.
pub proof fn sendable_pkt_nums(pn: u64)
    ensures
        pn < 0xffff_ffff <==> sent_len(pn) is Some,
        sent_len(pn) matches Some(n) ==> {
            &&& n == 1 || n == 2 || n == 4
            &&& n == 1 <==> pn < 0xff
            &&& n <= 2 <==> pn < 0xffff
        },
{
}

/// The bytes of a packet number that is sent are its digits to the base 256, and
/// a byte less would not hold it with its largest value left free.
pub proof fn sent_pkt_num_bytes(pn: u64)
    requires
        pn < 0xffff_ffff,
    ensures
        ({
            let bytes = be_bytes(pn as nat, sent_len(pn)->0);
            ||| bytes.len() == 1 && pn < 0xff && bytes[0] == pn
            ||| bytes.len() == 2 && 0xff <= pn < 0xffff && bytes[0] * 0x100 + bytes[1] == pn
            ||| bytes.len() == 4 && 0xffff <= pn && bytes[0] * 0x100_0000 + bytes[1] * 0x1_0000
                + bytes[2] * 0x100 + bytes[3] == pn
        }),
{
    numbers_are_written_big_endian(pn as nat);
}

/// How many packet numbers up to seven bytes tell apart.
pub proof fn window_sizes()
    ensures
        window(0) == 1,
        window(5) == 0x100_0000_0000,
        window(6) == 0x1_0000_0000_0000,
        window(7) == 0x100_0000_0000_0000,
        window(1) == 0x100,
        window(2) == 0x1_0000,
        window(3) == 0x100_0000,
        window(4) == 0x1_0000_0000,
{
    lemma_pow256_values();
}

/// The low bits of a candidate are those of `truncated_pn`, and its high bits are
/// those of the number that is expected together with any that `truncated_pn` has
/// there.
proof fn lemma_candidate(largest_pn: u64, truncated_pn: u64, pn_len: nat)
    requires
        largest_pn < u64::MAX,
        pn_len < 8,
    ensures
        ({
            let win = window(pn_len) as u64;
            let expected = (largest_pn + 1) as u64;
            let c = candidate(largest_pn, truncated_pn, window(pn_len));
            &&& 0 < window(pn_len) <= u64::MAX
            &&& 0 <= c <= u64::MAX
            &&& c % (win as int) == truncated_pn as int % (win as int)
            &&& c / (win as int) == (expected / win) | (truncated_pn / win)
        }),
{
    lemma_pow256_values();
    let e = (largest_pn + 1) as u64;
    let t = truncated_pn;
    if t < window(pn_len) {
        lemma_low_bits(e, t, pn_len);
    }
    assert({
        let c0 = (e & !0u64) | t;
        let c1 = (e & !0xffu64) | t;
        let c2 = (e & !0xffffu64) | t;
        let c3 = (e & !0xff_ffffu64) | t;
        &&& c0 / 1 == (e / 1) | (t / 1)
        &&& c1 % 0x100 == t % 0x100 && c1 / 0x100 == (e / 0x100) | (t / 0x100)
        &&& c2 % 0x1_0000 == t % 0x1_0000 && c2 / 0x1_0000 == (e / 0x1_0000) | (t / 0x1_0000)
        &&& c3 % 0x100_0000 == t % 0x100_0000 && c3 / 0x100_0000 == (e / 0x100_0000) | (t
            / 0x100_0000)
    }) by (bit_vector);
    assert({
        let c4 = (e & !0xffff_ffffu64) | t;
        let c5 = (e & !0xff_ffff_ffffu64) | t;
        let c6 = (e & !0xffff_ffff_ffffu64) | t;
        let c7 = (e & !0xff_ffff_ffff_ffffu64) | t;
        &&& c4 % 0x1_0000_0000 == t % 0x1_0000_0000 && c4 / 0x1_0000_0000 == (e / 0x1_0000_0000) | (
        t / 0x1_0000_0000)
        &&& c5 % 0x100_0000_0000 == t % 0x100_0000_0000 && c5 / 0x100_0000_0000 == (e
            / 0x100_0000_0000) | (t / 0x100_0000_0000)
        &&& c6 % 0x1_0000_0000_0000 == t % 0x1_0000_0000_0000 && c6 / 0x1_0000_0000_0000 == (e
            / 0x1_0000_0000_0000) | (t / 0x1_0000_0000_0000)
        &&& c7 % 0x100_0000_0000_0000 == t % 0x100_0000_0000_0000 && c7 / 0x100_0000_0000_0000 == (e
            / 0x100_0000_0000_0000) | (t / 0x100_0000_0000_0000)
    }) by (bit_vector);
}

/// What is decoded of any `truncated_pn`, also of one that is too large for its
/// bytes: its bits above them are added to those of the number that is expected,
/// and the result is moved by one window where it is half a window or more below
/// that number, or further above it and above the first window.
pub proof fn decoded_of_any_bits(largest_pn: u64, truncated_pn: u64, pn_len: nat)
    requires
        largest_pn < u64::MAX,
        pn_len < 8,
    ensures
        ({
            let win = window(pn_len);
            let expected = (largest_pn + 1) as u64;
            let high = (expected / (win as u64)) | (truncated_pn / (win as u64));
            let c = high * win + truncated_pn as int % win;
            let pn = decoded(largest_pn, truncated_pn, pn_len);
            &&& pn == c || pn == c + win || pn == c - win
            &&& pn == c + win <==> expected - c >= win / 2
            &&& pn == c - win <==> c - expected > win / 2 && c > win
        }),
{
    lemma_pow256_values();
    lemma_candidate(largest_pn, truncated_pn, pn_len);
    let win = window(pn_len);
    let c = candidate(largest_pn, truncated_pn, win);
    vstd::arithmetic::div_mod::lemma_fundamental_div_mod(c, win);
    assert((c / win) * win == win * (c / win)) by (nonlinear_arith);
}

} // verus!
