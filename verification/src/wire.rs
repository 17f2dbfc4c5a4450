//! How integers stand in a packet: big-endian, and as variable-length integers.
use vstd::prelude::*;

verus! {

/// The first value that a variable-length integer cannot hold.
pub const VARINT_LIMIT: u64 = 0x4000_0000_0000_0000;

/// The number of values that `n` bytes can take.
pub open spec fn pow256(n: nat) -> nat
    decreases n,
{
    if n == 0 {
        1
    } else {
        256 * pow256((n - 1) as nat)
    }
}

/// The low `n` bytes of `v`, the most significant first.
pub open spec fn be_bytes(v: nat, n: nat) -> Seq<u8>
    decreases n,
{
    if n == 0 {
        Seq::empty()
    } else {
        be_bytes(v / 256, (n - 1) as nat).push((v % 256) as u8)
    }
}

/// The number that the bytes of `s` stand for, the most significant first.
pub open spec fn be_value(s: Seq<u8>) -> nat
    decreases s.len(),
{
    if s.len() == 0 {
        0
    } else {
        256 * be_value(s.drop_last()) + s.last() as nat
    }
}

/// The number in the `n` bytes of `s` that start at `pos`.
pub open spec fn be_at(s: Seq<u8>, pos: int, n: nat) -> nat {
    be_value(s.subrange(pos, pos + n))
}

/// `data` with the bytes from `pos` on replaced by `bytes`.
pub open spec fn overwrite(data: Seq<u8>, pos: int, bytes: Seq<u8>) -> Seq<u8> {
    data.take(pos) + bytes + data.skip(pos + bytes.len())
}

/// How many bytes the variable-length integer `v` takes.
pub open spec fn varint_len(v: nat) -> nat {
    if v < 0x40 {
        1
    } else if v < 0x4000 {
        2
    } else if v < 0x4000_0000 {
        4
    } else {
        8
    }
}

/// What the two length bits add to an integer of `n` bytes.
pub open spec fn varint_tag(n: nat) -> nat {
    if n == 1 {
        0
    } else if n == 2 {
        0x4000
    } else if n == 4 {
        0x8000_0000
    } else {
        0xc000_0000_0000_0000
    }
}

/// The encoding of `v` as a variable-length integer.
pub open spec fn varint_bytes(v: nat) -> Seq<u8> {
    be_bytes(v + varint_tag(varint_len(v)), varint_len(v))
}

/// How many bytes the variable-length integer takes that starts with `first`.
pub open spec fn varint_size(first: u8) -> nat {
    if first < 0x40 {
        1
    } else if first < 0x80 {
        2
    } else if first < 0xc0 {
        4
    } else {
        8
    }
}

/// The variable-length integer that stands at `pos`.
pub open spec fn varint_at(s: Seq<u8>, pos: int) -> nat {
    let n = varint_size(s[pos]);
    (be_at(s, pos, n) - varint_tag(n)) as nat
}

pub proof fn lemma_pow256_values()
    ensures
        pow256(0) == 1,
        pow256(1) == 0x100,
        pow256(2) == 0x1_0000,
        pow256(3) == 0x100_0000,
        pow256(4) == 0x1_0000_0000,
        pow256(5) == 0x100_0000_0000,
        pow256(6) == 0x1_0000_0000_0000,
        pow256(7) == 0x100_0000_0000_0000,
        pow256(8) == 0x1_0000_0000_0000_0000,
{
    reveal_with_fuel(pow256, 9);
}

pub proof fn lemma_be_bytes_len(v: nat, n: nat)
    ensures
        be_bytes(v, n).len() == n,
    decreases n,
{
    if n > 0 {
        lemma_be_bytes_len(v / 256, (n - 1) as nat);
    }
}

/// A number that fits in `n` bytes is read back from the `n` bytes that it is
/// written as.
pub proof fn lemma_be_round_trip(v: nat, n: nat)
    requires
        v < pow256(n),
    ensures
        be_bytes(v, n).len() == n,
        be_value(be_bytes(v, n)) == v,
    decreases n,
{
    lemma_be_bytes_len(v, n);
    if n > 0 {
        lemma_be_round_trip(v / 256, (n - 1) as nat);
        assert(be_bytes(v, n).drop_last() =~= be_bytes(v / 256, (n - 1) as nat));
    }
}

/// The first byte of a number bounds it from both sides.
pub proof fn lemma_be_value_first(s: Seq<u8>, unit: int)
    requires
        s.len() > 0,
        unit == pow256((s.len() - 1) as nat),
    ensures
        s[0] * unit <= be_value(s) < (s[0] + 1) * unit,
    decreases s.len(),
{
    let v = be_value(s.drop_last()) as int;
    let a = s[0] as int;
    if s.len() == 1 {
        assert(s.drop_last().len() == 0);
        assert(a * 1 == a && (a + 1) * 1 == a + 1) by (nonlinear_arith);
    } else {
        let p = pow256((s.len() - 2) as nat) as int;
        lemma_be_value_first(s.drop_last(), p);
        assert(a * unit <= 256 * v && 256 * v + 256 <= (a + 1) * unit) by (nonlinear_arith)
            requires
                unit == 256 * p,
                a * p <= v,
                v + 1 <= (a + 1) * p,
        ;
    }
}

/// A variable-length integer is read back from the bytes that it is written
/// as, whatever follows them.
pub proof fn lemma_varint_round_trip(v: nat, s: Seq<u8>, pos: int)
    requires
        v < VARINT_LIMIT,
        0 <= pos,
        pos + varint_len(v) <= s.len(),
        s.subrange(pos, pos + varint_len(v)) == varint_bytes(v),
    ensures
        varint_size(s[pos]) == varint_len(v),
        varint_at(s, pos) == v,
{
    let n = varint_len(v);
    let w = v + varint_tag(n);
    lemma_pow256_values();
    lemma_be_round_trip(w, n);
    let b = varint_bytes(v);
    assert(s[pos] == b[0]);
    reveal_with_fuel(be_bytes, 9);
}

/// A number is written with its most significant byte first.
pub proof fn numbers_are_written_big_endian(v: nat)
    ensures
        be_bytes(v, 1) == seq![(v % 256) as u8],
        be_bytes(v, 2) == seq![((v / 0x100) % 256) as u8, (v % 256) as u8],
        be_bytes(v, 3) == seq![
            ((v / 0x1_0000) % 256) as u8,
            ((v / 0x100) % 256) as u8,
            (v % 256) as u8,
        ],
        be_bytes(v, 4) == seq![
            ((v / 0x100_0000) % 256) as u8,
            ((v / 0x1_0000) % 256) as u8,
            ((v / 0x100) % 256) as u8,
            (v % 256) as u8,
        ],
        be_bytes(v, 8) == seq![
            ((v / 0x100_0000_0000_0000) % 256) as u8,
            ((v / 0x1_0000_0000_0000) % 256) as u8,
            ((v / 0x100_0000_0000) % 256) as u8,
            ((v / 0x1_0000_0000) % 256) as u8,
            ((v / 0x100_0000) % 256) as u8,
            ((v / 0x1_0000) % 256) as u8,
            ((v / 0x100) % 256) as u8,
            (v % 256) as u8,
        ],
{
    reveal_with_fuel(be_bytes, 9);
}

/// A number is read with its most significant byte first.
pub proof fn numbers_are_read_big_endian(s: Seq<u8>)
    ensures
        s.len() == 1 ==> be_value(s) == s[0],
        s.len() == 2 ==> be_value(s) == s[0] * 0x100 + s[1],
        s.len() == 3 ==> be_value(s) == s[0] * 0x1_0000 + s[1] * 0x100 + s[2],
        s.len() == 4 ==> be_value(s) == s[0] * 0x100_0000 + s[1] * 0x1_0000 + s[2] * 0x100 + s[3],
        s.len() == 8 ==> be_value(s) == s[0] * 0x100_0000_0000_0000 + s[1] * 0x1_0000_0000_0000
            + s[2] * 0x100_0000_0000 + s[3] * 0x1_0000_0000 + s[4] * 0x100_0000 + s[5] * 0x1_0000
            + s[6] * 0x100 + s[7],
{
    reveal_with_fuel(be_value, 9);
}

/// Bytes that are overwritten are those from `pos` on, one for one; all others
/// stay.
pub proof fn other_bytes_stay(data: Seq<u8>, pos: int, bytes: Seq<u8>, i: int)
    requires
        0 <= pos,
        pos + bytes.len() <= data.len(),
        0 <= i < data.len(),
    ensures
        overwrite(data, pos, bytes).len() == data.len(),
        pos <= i < pos + bytes.len() ==> overwrite(data, pos, bytes)[i] == bytes[i - pos],
        !(pos <= i < pos + bytes.len()) ==> overwrite(data, pos, bytes)[i] == data[i],
{
}

proof fn lemma_varint_digits_4(v: nat)
    requires
        v < 0x4000_0000,
    ensures
        ({
            let w = v + 0x8000_0000;
            &&& (w / 0x100_0000) % 256 == 0x80 + v / 0x100_0000
            &&& (w / 0x1_0000) % 256 == (v / 0x1_0000) % 256
            &&& (w / 0x100) % 256 == (v / 0x100) % 256
            &&& w % 256 == v % 256
        }),
{
    let x = v as u32;
    assert({
        let w = (x + 0x8000_0000u32) as u32;
        &&& w == x + 0x8000_0000
        &&& (w / 0x100_0000) % 256 == 0x80 + x / 0x100_0000
        &&& (w / 0x1_0000) % 256 == (x / 0x1_0000) % 256
        &&& (w / 0x100) % 256 == (x / 0x100) % 256
        &&& w % 256 == x % 256
    }) by (bit_vector)
        requires
            x < 0x4000_0000,
    ;
}

proof fn lemma_varint_digits_8(v: nat)
    requires
        v < 0x4000_0000_0000_0000,
    ensures
        ({
            let w = v + 0xc000_0000_0000_0000;
            &&& (w / 0x100_0000_0000_0000) % 256 == 0xc0 + v / 0x100_0000_0000_0000
            &&& (w / 0x1_0000_0000_0000) % 256 == (v / 0x1_0000_0000_0000) % 256
            &&& (w / 0x100_0000_0000) % 256 == (v / 0x100_0000_0000) % 256
            &&& (w / 0x1_0000_0000) % 256 == (v / 0x1_0000_0000) % 256
            &&& (w / 0x100_0000) % 256 == (v / 0x100_0000) % 256
            &&& (w / 0x1_0000) % 256 == (v / 0x1_0000) % 256
            &&& (w / 0x100) % 256 == (v / 0x100) % 256
            &&& w % 256 == v % 256
        }),
{
    let x = v as u64;
    assert({
        let w = (x + 0xc000_0000_0000_0000u64) as u64;
        &&& w == x + 0xc000_0000_0000_0000
        &&& (w / 0x100_0000_0000_0000) % 256 == 0xc0 + x / 0x100_0000_0000_0000
        &&& (w / 0x1_0000_0000_0000) % 256 == (x / 0x1_0000_0000_0000) % 256
        &&& (w / 0x100_0000_0000) % 256 == (x / 0x100_0000_0000) % 256
        &&& (w / 0x1_0000_0000) % 256 == (x / 0x1_0000_0000) % 256
        &&& (w / 0x100_0000) % 256 == (x / 0x100_0000) % 256
        &&& (w / 0x1_0000) % 256 == (x / 0x1_0000) % 256
        &&& (w / 0x100) % 256 == (x / 0x100) % 256
        &&& w % 256 == x % 256
    }) by (bit_vector)
        requires
            x < 0x4000_0000_0000_0000,
    ;
}

/// A variable-length integer is written in the fewest of one, two, four and eight
/// bytes whose bits but two hold it; the two highest bits say how many they are.
pub proof fn varints_are_written_short(v: nat)
    requires
        v < 0x4000_0000_0000_0000,
    ensures
        v < 0x40 ==> varint_bytes(v) == seq![v as u8],
        0x40 <= v < 0x4000 ==> varint_bytes(v) == seq![(0x40 + v / 0x100) as u8, (v % 256) as u8],
        0x4000 <= v < 0x4000_0000 ==> varint_bytes(v) == seq![
            (0x80 + v / 0x100_0000) as u8,
            ((v / 0x1_0000) % 256) as u8,
            ((v / 0x100) % 256) as u8,
            (v % 256) as u8,
        ],
        0x4000_0000 <= v ==> varint_bytes(v) == seq![
            (0xc0 + v / 0x100_0000_0000_0000) as u8,
            ((v / 0x1_0000_0000_0000) % 256) as u8,
            ((v / 0x100_0000_0000) % 256) as u8,
            ((v / 0x1_0000_0000) % 256) as u8,
            ((v / 0x100_0000) % 256) as u8,
            ((v / 0x1_0000) % 256) as u8,
            ((v / 0x100) % 256) as u8,
            (v % 256) as u8,
        ],
        varint_len(v) == varint_bytes(v).len(),
{
    let w = v + varint_tag(varint_len(v));
    lemma_be_bytes_len(w, varint_len(v));
    numbers_are_written_big_endian(w);
    if v < 0x40 {
    } else if v < 0x4000 {
        assert(w / 0x100 == v / 0x100 + 0x40);
        assert(w % 256 == v % 256);
    } else if v < 0x4000_0000 {
        lemma_varint_digits_4(v);
    } else {
        lemma_varint_digits_8(v);
    }
}

/// A variable-length integer takes one, two, four or eight bytes, as its two
/// highest bits say, and its value is in the other bits.
pub proof fn varints_are_read(s: Seq<u8>, pos: int)
    requires
        0 <= pos < s.len(),
    ensures
        s[pos] < 0x40 ==> varint_size(s[pos]) == 1 && varint_at(s, pos) == s[pos],
        0x40 <= s[pos] < 0x80 ==> {
            &&& varint_size(s[pos]) == 2
            &&& pos + 2 <= s.len() ==> varint_at(s, pos) == (s[pos] - 0x40) * 0x100 + s[pos + 1]
        },
        0x80 <= s[pos] < 0xc0 ==> {
            &&& varint_size(s[pos]) == 4
            &&& pos + 4 <= s.len() ==> varint_at(s, pos) == (s[pos] - 0x80) * 0x100_0000 + s[pos
                + 1] * 0x1_0000 + s[pos + 2] * 0x100 + s[pos + 3]
        },
        0xc0 <= s[pos] ==> {
            &&& varint_size(s[pos]) == 8
            &&& pos + 8 <= s.len() ==> varint_at(s, pos) == (s[pos] - 0xc0) * 0x100_0000_0000_0000
                + s[pos + 1] * 0x1_0000_0000_0000 + s[pos + 2] * 0x100_0000_0000 + s[pos + 3]
                * 0x1_0000_0000 + s[pos + 4] * 0x100_0000 + s[pos + 5] * 0x1_0000 + s[pos + 6]
                * 0x100 + s[pos + 7]
        },
{
    let n = varint_size(s[pos]);
    if pos + n <= s.len() {
        numbers_are_read_big_endian(s.subrange(pos, pos + n));
    }
}

} // verus!
