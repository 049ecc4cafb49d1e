//! Hexadecimal encoding and decoding of byte strings, verified against a
//! direct mathematical statement: two lowercase digits per byte.

use vstd::prelude::*;
use crate::text::{ascii_string, ascii_view};

verus! {

/// The ASCII byte of one lowercase hex digit, for `d < 16`.
pub open spec fn hex_digit(d: u8) -> u8 {
    if d < 10 {
        (0x30 + d) as u8
    } else {
        (0x61 + (d - 10)) as u8
    }
}

/// The lowercase hex encoding of a byte string: two digits per byte,
/// high nibble first.
pub open spec fn hex_of(s: Seq<u8>) -> Seq<u8> {
    Seq::new(
        2 * s.len(),
        |i: int| if i % 2 == 0 {
            hex_digit((s[i / 2] / 16) as u8)
        } else {
            hex_digit((s[i / 2] % 16) as u8)
        },
    )
}

/// Encodes bytes as lowercase hex digits.
pub fn hex_encode(bytes: &[u8]) -> (r: Vec<u8>)
    ensures
        r@ == hex_of(bytes@),
{
    let mut out: Vec<u8> = Vec::new();
    let mut i: usize = 0;
    while i < bytes.len()
        invariant
            i <= bytes@.len(),
            out@ =~= hex_of(bytes@.take(i as int)),
        decreases bytes@.len() - i,
    {
        let b = bytes[i];
        let hi: u8 = b / 16;
        let lo: u8 = b % 16;
        let hi_digit: u8 = if hi < 10 { 0x30 + hi } else { 0x61 + (hi - 10) };
        let lo_digit: u8 = if lo < 10 { 0x30 + lo } else { 0x61 + (lo - 10) };
        out.push(hi_digit);
        out.push(lo_digit);
        i = i + 1;
        proof {
            assert(out@ =~= hex_of(bytes@.take(i as int)));
        }
    }
    proof {
        assert(bytes@.take(bytes@.len() as int) =~= bytes@);
    }
    out
}

/// The characters of the `0x`-prefixed lowercase hex rendering of bytes.
pub open spec fn hex_chars_0x(s: Seq<u8>) -> Seq<char> {
    seq!['0', 'x'] + ascii_view(hex_of(s))
}

/// Renders bytes as a lowercase `0x`-prefixed hex string.
pub fn bytes_to_hex(bytes: &[u8]) -> (r: String)
    ensures
        r@ == hex_chars_0x(bytes@),
{
    let digits = hex_encode(bytes);
    let mut s = String::new();
    proof {
        reveal_strlit("0x");
    }
    s.append("0x");
    assert(forall|i: int| 0 <= i < digits@.len() ==> digits@[i] < 0x80) by {
        assert(forall|i: int| 0 <= i < digits@.len() ==> #[trigger] digits@[i] == hex_of(
            bytes@,
        )[i]);
    }
    let tail = ascii_string(digits);
    s.append(tail.as_str());
    proof {
        assert(s@ =~= hex_chars_0x(bytes@));
    }
    s
}

/// Whether a byte is an ASCII hex digit, either case.
pub open spec fn is_hex_digit_byte(b: u8) -> bool {
    (0x30 <= b <= 0x39) || (0x61 <= b <= 0x66) || (0x41 <= b <= 0x46)
}

/// The value of an ASCII hex digit.
pub open spec fn hex_val(b: u8) -> u8 {
    if 0x30 <= b <= 0x39 {
        (b - 0x30) as u8
    } else if 0x61 <= b <= 0x66 {
        (b - 0x61 + 10) as u8
    } else {
        (b - 0x41 + 10) as u8
    }
}

/// Whether a sequence of ASCII bytes is a well-formed hex string: even
/// length, hex digits throughout.
pub open spec fn is_hex_body(s: Seq<u8>) -> bool {
    s.len() % 2 == 0 && (forall|i: int| 0 <= i < s.len() ==> is_hex_digit_byte(#[trigger] s[i]))
}

/// The bytes a well-formed hex string decodes to.
pub open spec fn hex_decoded(s: Seq<u8>) -> Seq<u8> {
    Seq::new(s.len() / 2, |i: int| (hex_val(s[2 * i]) * 16 + hex_val(s[2 * i + 1])) as u8)
}

/// Decodes a hex digit byte, or reports that it is none.
fn hex_val_exec(b: u8) -> (r: Option<u8>)
    ensures
        r is Some <==> is_hex_digit_byte(b),
        r is Some ==> r->0 == hex_val(b),
{
    if 0x30 <= b && b <= 0x39 {
        Some(b - 0x30)
    } else if 0x61 <= b && b <= 0x66 {
        Some(b - 0x61 + 10)
    } else if 0x41 <= b && b <= 0x46 {
        Some(b - 0x41 + 10)
    } else {
        None
    }
}

/// Decodes a hex byte string. Fails exactly when the length is odd or a
/// byte is no hex digit.
pub fn hex_decode(digits: &[u8]) -> (r: Option<Vec<u8>>)
    ensures
        r is Some <==> is_hex_body(digits@),
        r is Some ==> r->0@ == hex_decoded(digits@),
{
    if digits.len() % 2 != 0 {
        return None;
    }
    let mut out: Vec<u8> = Vec::new();
    let mut i: usize = 0;
    while i < digits.len()
        invariant
            i % 2 == 0,
            i <= digits@.len(),
            digits@.len() % 2 == 0,
            forall|j: int| 0 <= j < i ==> is_hex_digit_byte(#[trigger] digits@[j]),
            out@ =~= hex_decoded(digits@.take(i as int)),
        decreases digits@.len() - i,
    {
        let hi = match hex_val_exec(digits[i]) {
            Some(v) => v,
            None => {
                return None;
            },
        };
        let lo = match hex_val_exec(digits[i + 1]) {
            Some(v) => v,
            None => {
                return None;
            },
        };
        out.push(hi * 16 + lo);
        i = i + 2;
        proof {
            assert(out@ =~= hex_decoded(digits@.take(i as int)));
        }
    }
    proof {
        assert(digits@.take(digits@.len() as int) =~= digits@);
    }
    Some(out)
}

} // verus!
