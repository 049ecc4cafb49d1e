//! ASCII text building: the pipeline renders identifiers, index keys and
//! error messages from plain bytes and integers.

use vstd::prelude::*;

verus! {

/// The characters that a sequence of ASCII bytes decodes to.
pub open spec fn ascii_view(bytes: Seq<u8>) -> Seq<char> {
    bytes.map_values(|b: u8| b as char)
}

/// Relies on `String::from_utf8`: bytes below 0x80 are valid UTF-8 and decode
/// to one character per byte, each with the byte's own value.
#[verifier::external_body]
pub fn ascii_string(bytes: Vec<u8>) -> (r: String)
    requires
        forall|i: int| 0 <= i < bytes@.len() ==> bytes@[i] < 0x80,
    ensures
        r@ == ascii_view(bytes@),
{
    String::from_utf8(bytes).unwrap_or_default()
}

/// The decimal digits of `n`, most significant first, as ASCII bytes.
pub open spec fn dec_bytes(n: nat) -> Seq<u8>
    decreases n,
{
    if n < 10 {
        seq![(0x30 + n) as u8]
    } else {
        dec_bytes(n / 10).push((0x30 + n % 10) as u8)
    }
}

/// The decimal rendering of `n` as characters.
pub open spec fn dec_chars(n: nat) -> Seq<char> {
    ascii_view(dec_bytes(n))
}

/// Renders `n` in decimal.
pub fn u64_dec_string(n: u64) -> (s: String)
    ensures
        s@ == dec_chars(n as nat),
    decreases n,
{
    if n < 10 {
        let digit: u8 = 0x30 + (n as u8);
        let s = ascii_string(vec![digit]);
        proof {
            assert(dec_bytes(n as nat) =~= seq![digit]);
        }
        s
    } else {
        let mut s = u64_dec_string(n / 10);
        let digit: u8 = 0x30 + ((n % 10) as u8);
        let tail = ascii_string(vec![digit]);
        proof {
            assert(ascii_view(dec_bytes(n as nat)) =~= ascii_view(dec_bytes((n / 10) as nat))
                + ascii_view(seq![digit]));
        }
        s.append(tail.as_str());
        s
    }
}

/// Bytes are printable ASCII when they lie in `0x20 ..= 0x7E`.
pub open spec fn is_printable_ascii(b: u8) -> bool {
    0x20 <= b <= 0x7E
}

} // verus!
