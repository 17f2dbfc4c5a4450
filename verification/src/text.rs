//! Headers as text.
use vstd::arithmetic::power::pow;
use vstd::prelude::*;

use crate::header::{Header, HeaderView, Type};

verus! {

/// The hexadecimal digit for `n`.
pub open spec fn digit(n: u8) -> Seq<char> {
    match n {
        0 => "0"@,
        1 => "1"@,
        2 => "2"@,
        3 => "3"@,
        4 => "4"@,
        5 => "5"@,
        6 => "6"@,
        7 => "7"@,
        8 => "8"@,
        9 => "9"@,
        10 => "a"@,
        11 => "b"@,
        12 => "c"@,
        13 => "d"@,
        14 => "e"@,
        _ => "f"@,
    }
}

/// The bytes of `s`, in two hexadecimal digits each.
pub open spec fn hex_bytes(s: Seq<u8>) -> Seq<char>
    decreases s.len(),
{
    if s.len() == 0 {
        Seq::empty()
    } else {
        hex_bytes(s.drop_last()) + digit(s.last() / 16) + digit(s.last() % 16)
    }
}

/// The number `v` in hexadecimal digits, without zeros before it.
pub open spec fn hex_number(v: nat) -> Seq<char>
    decreases v,
{
    if v < 16 {
        digit(v as u8)
    } else {
        hex_number(v / 16) + digit((v % 16) as u8)
    }
}

/// The numbers of `s` in hexadecimal digits, with commas between them.
pub open spec fn hex_list(s: Seq<u32>) -> Seq<char>
    decreases s.len(),
{
    if s.len() == 0 {
        Seq::empty()
    } else if s.len() == 1 {
        hex_number(s[0] as nat)
    } else {
        hex_list(s.drop_last()) + ", "@ + hex_number(s.last() as nat)
    }
}

/// The name of a packet type.
pub open spec fn packet_type_text(ty: Type) -> Seq<char> {
    match ty {
        Type::Initial => "Initial"@,
        Type::Retry => "Retry"@,
        Type::Handshake => "Handshake"@,
        Type::ZeroRTT => "ZeroRTT"@,
        Type::VersionNegotiation => "VersionNegotiation"@,
        Type::Application => "Application"@,
    }
}

/// The bytes of a field, if it is there, behind its name.
pub open spec fn field_text(name: Seq<char>, field: Option<Seq<u8>>) -> Seq<char> {
    match field {
        Some(s) => name + hex_bytes(s),
        None => Seq::empty(),
    }
}

/// A header as text: its type, and its fields with their names. A short header
/// has no version and no source connection ID, and a long one no key phase.
pub open spec fn header_text(h: HeaderView) -> Seq<char> {
    let long = h.ty != Type::Application;
    let version = if long {
        " version="@ + hex_number(h.version as nat)
    } else {
        Seq::empty()
    };
    let scid = if long {
        " scid="@ + hex_bytes(h.scid)
    } else {
        Seq::empty()
    };
    let versions = match h.versions {
        Some(list) => " versions=["@ + hex_list(list) + "]"@,
        None => Seq::empty(),
    };
    let key_phase = if long {
        Seq::empty()
    } else if h.key_phase {
        " key_phase=true"@
    } else {
        " key_phase=false"@
    };
    packet_type_text(h.ty) + version + " dcid="@ + hex_bytes(h.dcid) + scid + field_text(
        " odcid="@,
        h.odcid,
    ) + field_text(" token="@, h.token) + versions + key_phase
}

/// The hexadecimal digit for `n`.
fn digit_str(n: u8) -> (res: &'static str)
    requires
        n < 16,
    ensures
        res@ == digit(n),
{
    match n {
        0 => "0",
        1 => "1",
        2 => "2",
        3 => "3",
        4 => "4",
        5 => "5",
        6 => "6",
        7 => "7",
        8 => "8",
        9 => "9",
        10 => "a",
        11 => "b",
        12 => "c",
        13 => "d",
        14 => "e",
        _ => "f",
    }
}

/// Appends the bytes of `s`.
fn push_bytes(out: &mut String, s: &[u8])
    ensures
        final(out)@ == old(out)@ + hex_bytes(s@),
{
    let mut i: usize = 0;
    let ghost before = out@;
    assert(s@.take(0) =~= Seq::empty());
    assert(before + hex_bytes(s@.take(0)) =~= before);
    while i < s.len()
        invariant
            i <= s@.len(),
            out@ == before + hex_bytes(s@.take(i as int)),
        decreases s@.len() - i,
    {
        let b: u8 = s[i];
        out.append(digit_str(b / 16));
        out.append(digit_str(b % 16));
        i += 1;
        proof {
            let t = s@.take(i as int);
            assert(t.drop_last() =~= s@.take(i - 1));
            assert(out@ =~= before + hex_bytes(t));
        }
    }
    assert(s@.take(i as int) =~= s@);
}

/// Appends the number `v`.
fn push_number(out: &mut String, v: u32)
    ensures
        final(out)@ == old(out)@ + hex_number(v as nat),
    decreases v,
{
    if v >= 16 {
        push_number(out, v / 16);
    }
    out.append(digit_str((v % 16) as u8));
    assert(out@ =~= old(out)@ + hex_number(v as nat));
}

/// Appends the numbers of `s`.
fn push_list(out: &mut String, s: &[u32])
    ensures
        final(out)@ == old(out)@ + hex_list(s@),
{
    let mut i: usize = 0;
    let ghost before = out@;
    assert(s@.take(0) =~= Seq::empty());
    assert(before + hex_list(s@.take(0)) =~= before);
    while i < s.len()
        invariant
            i <= s@.len(),
            out@ == before + hex_list(s@.take(i as int)),
        decreases s@.len() - i,
    {
        if i > 0 {
            out.append(", ");
        }
        push_number(out, s[i]);
        i += 1;
        proof {
            let t = s@.take(i as int);
            assert(t.drop_last() =~= s@.take(i - 1));
            assert(out@ =~= before + hex_list(t));
        }
    }
    assert(s@.take(i as int) =~= s@);
}

/// Appends the bytes of a field, if it is there, behind its name.
fn push_field(out: &mut String, name: &str, field: &Option<Vec<u8>>)
    ensures
        final(out)@ == old(out)@ + field_text(name@, crate::header::view_opt(*field)),
{
    match field {
        Some(s) => {
            out.append(name);
            push_bytes(out, s);
        },
        None => (),
    }
    assert(out@ =~= old(out)@ + field_text(name@, crate::header::view_opt(*field)));
}

impl Header {
    /// The header as text.
    pub fn fmt(&self) -> (res: String)
        ensures
            res@ == header_text(self@),
    {
        let mut out: String = String::new();
        out.append(
            match self.ty {
                Type::Initial => "Initial",
                Type::Retry => "Retry",
                Type::Handshake => "Handshake",
                Type::ZeroRTT => "ZeroRTT",
                Type::VersionNegotiation => "VersionNegotiation",
                Type::Application => "Application",
            },
        );

        if self.ty != Type::Application {
            out.append(" version=");
            push_number(&mut out, self.version);
        }
        out.append(" dcid=");
        push_bytes(&mut out, &self.dcid);

        if self.ty != Type::Application {
            out.append(" scid=");
            push_bytes(&mut out, &self.scid);
        }
        push_field(&mut out, " odcid=", &self.odcid);
        push_field(&mut out, " token=", &self.token);

        match &self.versions {
            Some(versions) => {
                out.append(" versions=[");
                push_list(&mut out, versions);
                out.append("]");
            },
            None => (),
        }

        if self.ty == Type::Application {
            out.append(
                if self.key_phase {
                    " key_phase=true"
                } else {
                    " key_phase=false"
                },
            );
        }
        assert(out@ =~= header_text(self@));
        out
    }
}

/// Where text is written to, `std::fmt::Formatter`. Nothing is known of what is
/// behind it.
#[verifier::external_type_specification]
#[verifier::external_body]
pub struct ExFormatter<'a>(std::fmt::Formatter<'a>);

/// What writing text fails with, `std::fmt::Error`.
#[verifier::external_type_specification]
#[verifier::external_body]
pub struct ExFmtError(std::fmt::Error);

/// Calls `std::fmt::Formatter::write_str`, which hands `text` to the writer behind
/// `f`. Whether that writer takes it rests on the writer, and nothing is claimed
/// of it.
#[verifier::external_body]
fn write_text(f: &mut std::fmt::Formatter<'_>, text: &str) -> (res: Result<(), std::fmt::Error>) {
    f.write_str(text)
}

impl std::fmt::Debug for Header {
    /// Writes the text that [`Header::fmt`] makes of the header.
    fn fmt(&self, f: &mut std::fmt::Formatter<'_>) -> (res: Result<(), std::fmt::Error>) {
        let text: String = Header::fmt(self);
        write_text(f, text.as_str())
    }
}

/// The digits are those from `0` to `9` and from `a` to `f`.
pub proof fn digits(n: u8)
    requires
        n < 16,
    ensures
        digit(n).len() == 1,
        n < 10 ==> digit(n)[0] as int == '0' as int + n,
        n >= 10 ==> digit(n)[0] as int == 'a' as int + (n - 10),
{
    reveal_strlit("0");
    reveal_strlit("1");
    reveal_strlit("2");
    reveal_strlit("3");
    reveal_strlit("4");
    reveal_strlit("5");
    reveal_strlit("6");
    reveal_strlit("7");
    reveal_strlit("8");
    reveal_strlit("9");
    reveal_strlit("a");
    reveal_strlit("b");
    reveal_strlit("c");
    reveal_strlit("d");
    reveal_strlit("e");
    reveal_strlit("f");
}

/// Bytes have two digits each, the higher one first.
pub proof fn digits_of_bytes(s: Seq<u8>, i: int)
    requires
        0 <= i < s.len(),
    ensures
        hex_bytes(s).len() == 2 * s.len(),
        seq![hex_bytes(s)[2 * i]] == digit(s[i] / 16),
        seq![hex_bytes(s)[2 * i + 1]] == digit(s[i] % 16),
        hex_bytes(Seq::<u8>::empty()) == Seq::<char>::empty(),
    decreases s.len(),
{
    let b = s.last();
    digits(b / 16);
    digits(b % 16);
    let init = s.drop_last();
    if init.len() > 0 {
        digits_of_bytes(
            init,
            if i < init.len() {
                i
            } else {
                0
            },
        );
    }
    assert(hex_bytes(s) == hex_bytes(init) + digit(b / 16) + digit(b % 16));
    assert(hex_bytes(init).len() == 2 * init.len());
    if i < init.len() {
        assert(hex_bytes(s)[2 * i] == hex_bytes(init)[2 * i]);
        assert(hex_bytes(s)[2 * i + 1] == hex_bytes(init)[2 * i + 1]);
        assert(s[i] == init[i]);
    } else {
        assert(hex_bytes(s)[2 * i] == digit(b / 16)[0]);
        assert(hex_bytes(s)[2 * i + 1] == digit(b % 16)[0]);
        assert(seq![hex_bytes(s)[2 * i]] =~= digit(s[i] / 16));
        assert(seq![hex_bytes(s)[2 * i + 1]] =~= digit(s[i] % 16));
    }
}

/// A number has its digits to the base 16, the highest first, and no more than it
/// needs.
pub proof fn digits_of_number(v: nat, j: nat)
    requires
        j < hex_number(v).len(),
    ensures
        ({
            let n = hex_number(v).len();
            &&& n >= 1
            &&& v < pow(16, n)
            &&& n > 1 ==> v >= pow(16, (n - 1) as nat)
            &&& seq![hex_number(v)[n - 1 - j]] == digit(((v as int / pow(16, j)) % 16) as u8)
        }),
    decreases v,
{
    reveal(pow);
    let n = hex_number(v).len();
    if v < 16 {
        digits(v as u8);
        assert(pow(16, 0) == 1 && pow(16, 1) == 16) by {
            reveal_with_fuel(pow, 2);
        }
        assert(seq![hex_number(v)[0]] =~= digit(v as u8));
    } else {
        let u = v / 16;
        digits((v % 16) as u8);
        lemma_number_is_not_empty(u);
        let m = hex_number(u).len();
        assert(n == m + 1);
        digits_of_number(
            u,
            if j > 0 {
                (j - 1) as nat
            } else {
                0
            },
        );
        vstd::arithmetic::power::lemma_pow_positive(16, m);
        assert(pow(16, n) == 16 * pow(16, m));
        assert(pow(16, m) == 16 * pow(16, (m - 1) as nat));
        vstd::arithmetic::power::lemma_pow_positive(16, (m - 1) as nat);
        assert(pow(16, 0) == 1);
        if j == 0 {
            assert(seq![hex_number(v)[n - 1]] =~= digit((v % 16) as u8));
            assert(v as int / 1 == v);
        } else {
            assert(pow(16, j) == 16 * pow(16, (j - 1) as nat));
            vstd::arithmetic::power::lemma_pow_positive(16, (j - 1) as nat);
            vstd::arithmetic::div_mod::lemma_div_denominator(
                v as int,
                16,
                pow(16, (j - 1) as nat),
            );
            assert(hex_number(v)[n - 1 - j] == hex_number(u)[m - 1 - (j - 1)]);
        }
    }
}

proof fn lemma_number_is_not_empty(v: nat)
    ensures
        hex_number(v).len() >= 1,
    decreases v,
{
    if v < 16 {
        digits(v as u8);
    } else {
        digits((v % 16) as u8);
        lemma_number_is_not_empty(v / 16);
    }
}

/// The numbers of a list stand one after the other, with a comma and a space
/// before each but the first.
pub proof fn numbers_of_list(s: Seq<u32>, v: u32)
    ensures
        hex_list(Seq::<u32>::empty()) == Seq::<char>::empty(),
        hex_list(seq![v]) == hex_number(v as nat),
        s.len() > 0 ==> hex_list(s.push(v)) == hex_list(s) + ", "@ + hex_number(v as nat),
{
    assert(s.push(v).drop_last() =~= s);
}

/// The text of a long header, field by field.
pub proof fn text_of_long_header(h: HeaderView)
    requires
        h.ty != Type::Application,
    ensures
        ({
            let name = match h.ty {
                Type::Initial => "Initial"@,
                Type::Retry => "Retry"@,
                Type::Handshake => "Handshake"@,
                Type::ZeroRTT => "ZeroRTT"@,
                _ => "VersionNegotiation"@,
            };
            let start = name + " version="@ + hex_number(h.version as nat) + " dcid="@ + hex_bytes(
                h.dcid,
            ) + " scid="@ + hex_bytes(h.scid);
            let odcid = if h.odcid is Some {
                " odcid="@ + hex_bytes(h.odcid->0)
            } else {
                Seq::empty()
            };
            let token = if h.token is Some {
                " token="@ + hex_bytes(h.token->0)
            } else {
                Seq::empty()
            };
            let versions = if h.versions is Some {
                " versions=["@ + hex_list(h.versions->0) + "]"@
            } else {
                Seq::empty()
            };
            header_text(h) == start + odcid + token + versions
        }),
{
    let name = packet_type_text(h.ty);
    let start = name + " version="@ + hex_number(h.version as nat) + " dcid="@ + hex_bytes(h.dcid)
        + " scid="@ + hex_bytes(h.scid);
    let odcid = field_text(" odcid="@, h.odcid);
    let token = field_text(" token="@, h.token);
    let versions = match h.versions {
        Some(list) => " versions=["@ + hex_list(list) + "]"@,
        None => Seq::empty(),
    };
    assert(header_text(h) =~= start + odcid + token + versions);
}

/// The text of a short header, field by field.
pub proof fn text_of_short_header(h: HeaderView)
    requires
        h.ty == Type::Application,
    ensures
        ({
            let odcid = if h.odcid is Some {
                " odcid="@ + hex_bytes(h.odcid->0)
            } else {
                Seq::empty()
            };
            let token = if h.token is Some {
                " token="@ + hex_bytes(h.token->0)
            } else {
                Seq::empty()
            };
            let versions = if h.versions is Some {
                " versions=["@ + hex_list(h.versions->0) + "]"@
            } else {
                Seq::empty()
            };
            let key_phase = if h.key_phase {
                " key_phase=true"@
            } else {
                " key_phase=false"@
            };
            header_text(h) == "Application"@ + " dcid="@ + hex_bytes(h.dcid) + odcid + token
                + versions + key_phase
        }),
{
    let odcid = field_text(" odcid="@, h.odcid);
    let token = field_text(" token="@, h.token);
    let versions = match h.versions {
        Some(list) => " versions=["@ + hex_list(list) + "]"@,
        None => Seq::empty(),
    };
    let key_phase = if h.key_phase {
        " key_phase=true"@
    } else {
        " key_phase=false"@
    };
    assert(header_text(h) =~= "Application"@ + " dcid="@ + hex_bytes(h.dcid) + odcid + token
        + versions + key_phase);
}

} // verus!
