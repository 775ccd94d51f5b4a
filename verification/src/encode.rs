//! Byte-string encodings at the edges of the protocol: lowercase
//! hexadecimal rendering and parsing, and the UTF-8 reading of decrypted
//! bytes.  The hexadecimal codec is written and verified here; only the
//! UTF-8 validation call is taken on trust, against vstd's UTF-8 model.
use vstd::prelude::*;
use vstd::string::{StringExecFns, StrSliceExecFns, StringSliceAdditionalSpecFns};
use vstd::utf8::{valid_utf8, decode_utf8, is_ascii_chars};
use num_bigint::BigUint;
use crate::big::{unat, u_from, u_add, u_mul};
use crate::arith::be_val;

verus! {

/// The lowercase hexadecimal character of a value below sixteen.
pub open spec fn hex_digit_char(n: u8) -> char {
    if n < 10 {
        ((n + 0x30) as u8) as char
    } else {
        ((n + 0x57) as u8) as char
    }
}

/// Two lowercase hexadecimal characters for each byte, high nibble first.
pub open spec fn hex_of(s: Seq<u8>) -> Seq<char>
    decreases s.len(),
{
    if s.len() == 0 {
        Seq::empty()
    } else {
        hex_of(s.drop_last()) + seq![
            hex_digit_char(s.last() / 16),
            hex_digit_char(s.last() % 16),
        ]
    }
}

/// The byte is the ASCII code of a hexadecimal digit, either case.
pub open spec fn is_hex_digit_byte(b: u8) -> bool {
    0x30 <= b <= 0x39 || 0x61 <= b <= 0x66 || 0x41 <= b <= 0x46
}

/// The value of a hexadecimal digit given as its ASCII code.
pub open spec fn hex_digit_val(b: u8) -> nat {
    if 0x30 <= b <= 0x39 {
        (b - 0x30) as nat
    } else if 0x61 <= b <= 0x66 {
        (b - 0x57) as nat
    } else {
        (b - 0x37) as nat
    }
}

/// All bytes are hexadecimal digits.
pub open spec fn all_hex_digits(s: Seq<u8>) -> bool {
    forall|i: int| 0 <= i < s.len() ==> is_hex_digit_byte(#[trigger] s[i])
}

/// The value of a big-endian string of hexadecimal digit bytes.
pub open spec fn hex_val(s: Seq<u8>) -> nat
    decreases s.len(),
{
    if s.len() == 0 {
        0
    } else {
        hex_val(s.drop_last()) * 16 + hex_digit_val(s.last())
    }
}

/// One lowercase hexadecimal digit as a borrowed one-character string.
fn hex_digit_str(nibble: u8) -> (r: &'static str)
    requires
        nibble < 16,
    ensures
        r@ == seq![hex_digit_char(nibble)],
{
    let r: &'static str = match nibble {
        0 => "0",
        1 => "1",
        2 => "2",
        3 => "3",
        4 => "4",
        5 => "5",
        6 => "6",
        7 => "7",
        8 => "8",
        9 => "9",
        10 => "a",
        11 => "b",
        12 => "c",
        13 => "d",
        14 => "e",
        _ => "f",
    };
    proof {
        reveal_strlit("0");
        reveal_strlit("1");
        reveal_strlit("2");
        reveal_strlit("3");
        reveal_strlit("4");
        reveal_strlit("5");
        reveal_strlit("6");
        reveal_strlit("7");
        reveal_strlit("8");
        reveal_strlit("9");
        reveal_strlit("a");
        reveal_strlit("b");
        reveal_strlit("c");
        reveal_strlit("d");
        reveal_strlit("e");
        reveal_strlit("f");
        assert(r@ =~= seq![hex_digit_char(nibble)]);
    }
    r
}

/// The decimal rendering of a number, most significant digit first.
pub open spec fn dec_str_of(v: nat) -> Seq<char>
    decreases v,
{
    if v < 10 {
        seq![hex_digit_char(v as u8)]
    } else {
        dec_str_of(v / 10).push(hex_digit_char((v % 10) as u8))
    }
}

/// Render a machine integer in decimal.
pub fn dec_render(v: usize) -> (r: String)
    ensures
        r@ == dec_str_of(v as nat),
    decreases v,
{
    if v < 10 {
        String::from_str(hex_digit_str((v % 10) as u8))
    } else {
        let mut s = dec_render(v / 10);
        s.append(hex_digit_str((v % 10) as u8));
        proof {
            assert(s@ =~= dec_str_of(v as nat));
        }
        s
    }
}

/// Render a byte string as lowercase hexadecimal, two characters a byte.
pub fn hex_encode(bytes: &Vec<u8>) -> (r: String)
    ensures
        r@ == hex_of(bytes@),
{
    let mut out = String::new();
    let mut i: usize = 0;
    while i < bytes.len()
        invariant
            i <= bytes@.len(),
            out@ == hex_of(bytes@.take(i as int)),
        decreases bytes@.len() - i,
    {
        let b = bytes[i];
        out.append(hex_digit_str(b / 16));
        out.append(hex_digit_str(b % 16));
        i += 1;
        proof {
            let prefix = bytes@.take(i as int);
            assert(prefix.drop_last() =~= bytes@.take(i - 1));
            assert(out@ =~= hex_of(prefix));
        }
    }
    proof {
        assert(bytes@.take(bytes@.len() as int) =~= bytes@);
    }
    out
}

/// Parse a hexadecimal string into a big integer; `None` when the string
/// is empty or holds a character that is no hexadecimal digit.
pub fn hex_parse(s: &str) -> (r: Option<BigUint>)
    ensures
        r is Some <==> (s.spec_bytes().len() >= 1 && all_hex_digits(s.spec_bytes())),
        r matches Some(v) ==> unat(v) == hex_val(s.spec_bytes()),
{
    let bytes = s.as_bytes_vec();
    if bytes.len() == 0 {
        return None;
    }
    let sixteen = u_from(16);
    let mut value = u_from(0);
    let mut i: usize = 0;
    while i < bytes.len()
        invariant
            i <= bytes@.len(),
            bytes@ == s.spec_bytes(),
            unat(sixteen) == 16,
            forall|j: int| 0 <= j < i ==> is_hex_digit_byte(#[trigger] bytes@[j]),
            unat(value) == hex_val(bytes@.take(i as int)),
        decreases bytes@.len() - i,
    {
        let b = bytes[i];
        let digit: u8 = if 0x30 <= b && b <= 0x39 {
            b - 0x30
        } else if 0x61 <= b && b <= 0x66 {
            b - 0x57
        } else if 0x41 <= b && b <= 0x46 {
            b - 0x37
        } else {
            return None;
        };
        value = u_add(&u_mul(&value, &sixteen), &u_from(digit as u64));
        i += 1;
        proof {
            let prefix = bytes@.take(i as int);
            assert(prefix.drop_last() =~= bytes@.take(i - 1));
        }
    }
    proof {
        assert(bytes@.take(bytes@.len() as int) =~= bytes@);
    }
    Some(value)
}

/// The hexadecimal rendering of a byte string is ASCII, two digits a
/// byte, and parses back to the value of the byte string.
pub proof fn lemma_hex_of_parses(s: Seq<u8>)
    ensures
        is_ascii_chars(hex_of(s)),
        hex_of(s).len() == 2 * s.len(),
        all_hex_digits(hex_of(s).map_values(|c: char| c as u8)),
        hex_val(hex_of(s).map_values(|c: char| c as u8)) == be_val(s),
    decreases s.len(),
{
    let mapped = hex_of(s).map_values(|c: char| c as u8);
    if s.len() == 0 {
        assert(mapped =~= Seq::<u8>::empty());
        assert(hex_val(Seq::<u8>::empty()) == 0);
    } else {
        let front = s.drop_last();
        lemma_hex_of_parses(front);
        let b = s.last();
        let hi: u8 = b / 16;
        let lo: u8 = b % 16;
        let c1 = hex_digit_char(hi);
        let c2 = hex_digit_char(lo);
        let mf = hex_of(front).map_values(|c: char| c as u8);
        assert(c1 as u8 == if hi < 10 { (hi + 0x30) as u8 } else { (hi + 0x57) as u8 });
        assert(c2 as u8 == if lo < 10 { (lo + 0x30) as u8 } else { (lo + 0x57) as u8 });
        assert(is_hex_digit_byte(c1 as u8) && hex_digit_val(c1 as u8) == hi);
        assert(is_hex_digit_byte(c2 as u8) && hex_digit_val(c2 as u8) == lo);
        assert(mapped =~= mf.push(c1 as u8).push(c2 as u8));
        assert(mapped.drop_last() =~= mf.push(c1 as u8));
        assert(mf.push(c1 as u8).drop_last() =~= mf);
        assert(mapped.last() == c2 as u8);
        assert(mf.push(c1 as u8).last() == c1 as u8);
        assert(hex_val(mf.push(c1 as u8)) == hex_val(mf) * 16 + hex_digit_val(c1 as u8));
        assert(hex_val(mapped) == hex_val(mapped.drop_last()) * 16 + hex_digit_val(c2 as u8));
        assert(hex_val(mapped)
            == (hex_val(mf) * 16 + hex_digit_val(c1 as u8)) * 16 + hex_digit_val(c2 as u8));
        assert((hex_val(mf) * 16 + hi) * 16 + lo == hex_val(mf) * 256 + (hi * 16 + lo))
            by (nonlinear_arith);
        vstd::arithmetic::div_mod::lemma_fundamental_div_mod(b as int, 16);
        assert(hex_val(mapped) == be_val(front) * 256 + b);
        assert(forall|i: int| 0 <= i < hex_of(s).len()
            ==> '\0' <= #[trigger] hex_of(s)[i] <= '\u{7f}') by {
            assert(forall|i: int| 0 <= i < hex_of(front).len()
                ==> hex_of(s)[i] == #[trigger] hex_of(front)[i]);
        }
    }
}

/// Relies on `String::from_utf8`, which succeeds exactly on valid UTF-8
/// and then returns the string those bytes spell, as vstd's UTF-8 model
/// states it.
#[verifier::external_body]
pub(crate) fn string_from_utf8(bytes: Vec<u8>) -> (r: Option<String>)
    ensures
        r is Some <==> valid_utf8(bytes@),
        r matches Some(s) ==> s@ == decode_utf8(bytes@),
{
    String::from_utf8(bytes).ok()
}

} // verus!
