//! The structured group nonce key: a 32-byte lane selector whose layout is
//! magic, version, kind, a flags word, and three fields (scope, group,
//! memo), each encoded either as a big-endian number or as zero-padded
//! printable ASCII. Also the all-zero-prefixed `random` key convention.

use vstd::prelude::*;
use crate::bigend::{be_u32, be_u64, be_val};
use crate::hexcode::{bytes_to_hex, hex_chars_0x};
use crate::text::{ascii_string, ascii_view, dec_chars, is_printable_ascii, u64_dec_string};

verus! {

/// How one field of a group nonce key is encoded.
#[derive(Debug, Clone, Copy, PartialEq, Eq, Structural)]
pub enum NonceKeyEncoding {
    Numeric,
    Ascii,
}

/// The wire name of an encoding.
pub open spec fn spec_encoding_name(e: NonceKeyEncoding) -> Seq<char> {
    match e {
        NonceKeyEncoding::Numeric => "numeric"@,
        NonceKeyEncoding::Ascii => "ascii"@,
    }
}

impl NonceKeyEncoding {
    /// The wire name of this encoding.
    pub fn as_str(&self) -> (r: &'static str)
        ensures
            r@ == spec_encoding_name(*self),
    {
        match self {
            NonceKeyEncoding::Numeric => "numeric",
            NonceKeyEncoding::Ascii => "ascii",
        }
    }

    /// The encoding a flag value denotes: 0 is numeric, 1 is ASCII,
    /// anything else is reserved.
    pub fn try_from(value: u16) -> (r: Result<NonceKeyEncoding, ()>)
        ensures
            r == spec_encoding_of(value as int),
    {
        match value {
            0 => Ok(NonceKeyEncoding::Numeric),
            1 => Ok(NonceKeyEncoding::Ascii),
            _ => Err(()),
        }
    }
}

/// The encoding a flag value denotes.
pub open spec fn spec_encoding_of(v: int) -> Result<NonceKeyEncoding, ()> {
    if v == 0 {
        Ok(NonceKeyEncoding::Numeric)
    } else if v == 1 {
        Ok(NonceKeyEncoding::Ascii)
    } else {
        Err(())
    }
}

/// One decoded field of a group nonce key.
#[derive(Debug, Clone)]
pub struct DecodedNonceKeyField {
    pub encoding: NonceKeyEncoding,
    pub value: String,
}

impl PartialEq for DecodedNonceKeyField {
    fn eq(&self, other: &DecodedNonceKeyField) -> (r: bool) {
        self.encoding == other.encoding && self.value == other.value
    }
}

impl vstd::std_specs::cmp::PartialEqSpecImpl for DecodedNonceKeyField {
    open spec fn obeys_eq_spec() -> bool {
        true
    }

    open spec fn eq_spec(&self, other: &DecodedNonceKeyField) -> bool {
        self.encoding == other.encoding && self.value@ == other.value@
    }
}

/// A decoded group nonce key.
#[derive(Debug, Clone)]
pub struct DecodedNonceKey {
    pub kind: u8,
    pub scope: DecodedNonceKeyField,
    pub group: DecodedNonceKeyField,
    pub memo: DecodedNonceKeyField,
}

impl PartialEq for DecodedNonceKey {
    fn eq(&self, other: &DecodedNonceKey) -> (r: bool) {
        self.kind == other.kind && self.scope == other.scope && self.group == other.group
            && self.memo == other.memo
    }
}

impl vstd::std_specs::cmp::PartialEqSpecImpl for DecodedNonceKey {
    open spec fn obeys_eq_spec() -> bool {
        true
    }

    open spec fn eq_spec(&self, other: &DecodedNonceKey) -> bool {
        &&& self.kind == other.kind
        &&& self.scope.encoding == other.scope.encoding && self.scope.value@ == other.scope.value@
        &&& self.group.encoding == other.group.encoding && self.group.value@ == other.group.value@
        &&& self.memo.encoding == other.memo.encoding && self.memo.value@ == other.memo.value@
    }
}

/// Which field of the key a byte range holds; numeric scopes are 64-bit,
/// numeric groups 32-bit, and memos render as hex.
#[derive(Debug, Clone, Copy)]
pub enum FieldKind {
    Scope,
    Group,
    Memo,
}

/// The bytes before position `k` are printable and the bytes from `k` on
/// are zero.
pub open spec fn padded_at(s: Seq<u8>, k: int) -> bool {
    &&& 0 <= k <= s.len()
    &&& (forall|i: int| 0 <= i < k ==> is_printable_ascii(#[trigger] s[i]))
    &&& (forall|i: int| k <= i < s.len() ==> s[i] == 0)
}

/// A field is zero-padded printable ASCII: a run of printable bytes
/// followed only by zeros.
pub open spec fn spec_is_padded_ascii(s: Seq<u8>) -> bool {
    exists|k: int| #[trigger] padded_at(s, k)
}

/// Whether 32 bytes form a well-formed group nonce key: the `NKG1` magic,
/// version one, no reserved flag bits, recognized field encodings, and
/// well-formed ASCII fields where the flags say so.
pub open spec fn spec_is_group_nonce_key(s: Seq<u8>) -> bool {
    &&& s.len() == 32
    &&& s[0] == 0x4e && s[1] == 0x4b && s[2] == 0x47 && s[3] == 0x31
    &&& s[4] == 0x01
    &&& s[6] == 0x00
    &&& s[7] < 0x40
    &&& spec_scope_flag(s) <= 1 && spec_group_flag(s) <= 1 && spec_memo_flag(s) <= 1
    &&& (spec_scope_flag(s) == 1 ==> spec_is_padded_ascii(s.subrange(8, 16)))
    &&& (spec_group_flag(s) == 1 ==> spec_is_padded_ascii(s.subrange(16, 20)))
    &&& (spec_memo_flag(s) == 1 ==> spec_is_padded_ascii(s.subrange(20, 32)))
}

/// The scope-encoding flag: the low two bits of the flags word.
pub open spec fn spec_scope_flag(s: Seq<u8>) -> int {
    s[7] as int % 4
}

/// The group-encoding flag: the next two bits.
pub open spec fn spec_group_flag(s: Seq<u8>) -> int {
    (s[7] as int / 4) % 4
}

/// The memo-encoding flag: the two bits above those.
pub open spec fn spec_memo_flag(s: Seq<u8>) -> int {
    (s[7] as int / 16) % 4
}

/// Checks a byte range for the zero-padded printable ASCII discipline.
fn ascii_field_range(bytes: &[u8], lo: usize, hi: usize) -> (r: bool)
    requires
        lo <= hi <= bytes@.len(),
    ensures
        r == spec_is_padded_ascii(bytes@.subrange(lo as int, hi as int)),
{
    let ghost field = bytes@.subrange(lo as int, hi as int);
    let mut i: usize = lo;
    let mut zero_seen = false;
    let ghost mut pad_start: int = hi as int;
    while i < hi
        invariant
            lo <= i <= hi <= bytes@.len(),
            field == bytes@.subrange(lo as int, hi as int),
            !zero_seen ==> pad_start == hi,
            !zero_seen ==> forall|j: int| 0 <= j < i - lo ==> is_printable_ascii(#[trigger] field[j]),
            zero_seen ==> lo <= pad_start < i,
            zero_seen ==> forall|j: int|
                0 <= j < pad_start - lo ==> is_printable_ascii(#[trigger] field[j]),
            zero_seen ==> forall|j: int| pad_start - lo <= j < i - lo ==> field[j] == 0,
        decreases hi - i,
    {
        let b = bytes[i];
        assert(field[i - lo] == b);
        if b == 0 {
            if !zero_seen {
                proof {
                    pad_start = i as int;
                }
            }
            zero_seen = true;
        } else if zero_seen {
            assert(!spec_is_padded_ascii(field)) by {
                assert forall|k: int| !#[trigger] padded_at(field, k) by {
                    if padded_at(field, k) {
                        if k <= i - lo {
                            assert(field[i - lo] != 0);
                        } else {
                            assert(field[pad_start - lo] == 0);
                            assert(!is_printable_ascii(field[pad_start - lo]));
                        }
                    }
                }
            }
            return false;
        } else if !(0x20 <= b && b <= 0x7e) {
            assert(!spec_is_padded_ascii(field)) by {
                assert forall|k: int| !#[trigger] padded_at(field, k) by {
                    if padded_at(field, k) {
                        if k > i - lo {
                            assert(!is_printable_ascii(field[i - lo]));
                        } else {
                            assert(field[i - lo] != 0);
                        }
                    }
                }
            }
            return false;
        }
        i = i + 1;
    }
    proof {
        assert(padded_at(field, pad_start - lo));
    }
    true
}

/// Checks bytes for the zero-padded printable ASCII discipline.
pub fn is_ascii_field(bytes: &[u8]) -> (r: bool)
    ensures
        r == spec_is_padded_ascii(bytes@),
{
    let r = ascii_field_range(bytes, 0, bytes.len());
    proof {
        assert(bytes@.subrange(0, bytes@.len() as int) =~= bytes@);
    }
    r
}

/// Whether bytes form a well-formed group nonce key.
pub fn is_group_nonce_key(bytes: &[u8]) -> (r: bool)
    ensures
        r == spec_is_group_nonce_key(bytes@),
{
    if bytes.len() != 32 {
        return false;
    }
    if !(bytes[0] == 0x4e && bytes[1] == 0x4b && bytes[2] == 0x47 && bytes[3] == 0x31) {
        return false;
    }
    if bytes[4] != 0x01 {
        return false;
    }
    if bytes[6] != 0x00 || bytes[7] >= 0x40 {
        return false;
    }
    let flags = bytes[7];
    let scope_encoding = flags % 4;
    let group_encoding = (flags / 4) % 4;
    let memo_encoding = (flags / 16) % 4;
    if scope_encoding > 1 || group_encoding > 1 || memo_encoding > 1 {
        return false;
    }
    if scope_encoding == 1 && !ascii_field_range(bytes, 8, 16) {
        return false;
    }
    if group_encoding == 1 && !ascii_field_range(bytes, 16, 20) {
        return false;
    }
    if memo_encoding == 1 && !ascii_field_range(bytes, 20, 32) {
        return false;
    }
    true
}

/// The bytes of a field with its trailing zero padding removed.
pub open spec fn trim_zeros(s: Seq<u8>) -> Seq<u8>
    decreases s.len(),
{
    if s.len() > 0 && s.last() == 0 {
        trim_zeros(s.drop_last())
    } else {
        s
    }
}

proof fn lemma_decode_ascii_hex(s: Seq<u8>, i: int)
    requires
        0 <= i < trim_zeros(s).len(),
        !is_printable_ascii(trim_zeros(s)[i]),
    ensures
        spec_decode_ascii(s) == hex_chars_0x(s),
{
    assert(!(forall|j: int|
        0 <= j < trim_zeros(s).len() ==> is_printable_ascii(#[trigger] trim_zeros(s)[j])));
}

proof fn lemma_trim_zeros(s: Seq<u8>, end: int)
    requires
        0 <= end <= s.len(),
        forall|j: int| end <= j < s.len() ==> s[j] == 0,
        end > 0 ==> s[end - 1] != 0,
    ensures
        trim_zeros(s) == s.take(end),
    decreases s.len(),
{
    if s.len() == end {
        assert(s.take(end) =~= s);
    } else {
        assert(s.last() == 0);
        lemma_trim_zeros(s.drop_last(), end);
        assert(s.drop_last().take(end) =~= s.take(end));
    }
}

/// The characters an ASCII-encoded field renders to: the unpadded bytes
/// as characters where all are printable, else the hex rendering of the
/// whole field.
pub open spec fn spec_decode_ascii(s: Seq<u8>) -> Seq<char> {
    let t = trim_zeros(s);
    if forall|i: int| 0 <= i < t.len() ==> is_printable_ascii(#[trigger] t[i]) {
        ascii_view(t)
    } else {
        hex_chars_0x(s)
    }
}

/// Renders an ASCII-encoded field.
pub fn decode_ascii(bytes: &[u8]) -> (r: String)
    ensures
        r@ == spec_decode_ascii(bytes@),
{
    let mut end: usize = bytes.len();
    while end > 0 && bytes[end - 1] == 0
        invariant
            end <= bytes@.len(),
            forall|j: int| end <= j < bytes@.len() ==> bytes@[j] == 0,
        decreases end,
    {
        end = end - 1;
    }
    proof {
        lemma_trim_zeros(bytes@, end as int);
    }
    let ghost t = trim_zeros(bytes@);
    let mut out: Vec<u8> = Vec::new();
    let mut i: usize = 0;
    while i < end
        invariant
            i <= end <= bytes@.len(),
            t == trim_zeros(bytes@),
            t == bytes@.take(end as int),
            out@ =~= t.take(i as int),
            forall|j: int| 0 <= j < i ==> is_printable_ascii(#[trigger] t[j]),
        decreases end - i,
    {
        let b = bytes[i];
        if !(0x20 <= b && b <= 0x7e) {
            proof {
                assert(!is_printable_ascii(t[i as int]));
                lemma_decode_ascii_hex(bytes@, i as int);
            }
            return bytes_to_hex(bytes);
        }
        out.push(b);
        i = i + 1;
    }
    proof {
        assert(t.take(t.len() as int) =~= t);
        assert(forall|j: int| 0 <= j < out@.len() ==> out@[j] < 0x80);
    }
    ascii_string(out)
}

/// The characters a numeric field renders to: scope fields read as 64-bit
/// integers, group fields as 32-bit integers (zero where the width is
/// wrong), memo fields as hex.
pub open spec fn spec_decode_numeric(s: Seq<u8>, kind: FieldKind) -> Seq<char> {
    match kind {
        FieldKind::Scope => dec_chars(if s.len() == 8 { be_val(s) } else { 0 }),
        FieldKind::Group => dec_chars(if s.len() == 4 { be_val(s) } else { 0 }),
        FieldKind::Memo => hex_chars_0x(s),
    }
}

/// Renders a numeric field.
pub fn decode_numeric(bytes: &[u8], kind: FieldKind) -> (r: String)
    ensures
        r@ == spec_decode_numeric(bytes@, kind),
{
    match kind {
        FieldKind::Scope => {
            let value: u64 = if bytes.len() == 8 {
                be_u64(bytes)
            } else {
                0
            };
            u64_dec_string(value)
        },
        FieldKind::Group => {
            let value: u32 = if bytes.len() == 4 {
                be_u32(bytes)
            } else {
                0
            };
            u64_dec_string(value as u64)
        },
        FieldKind::Memo => bytes_to_hex(bytes),
    }
}

/// The characters one field renders to under its encoding.
pub open spec fn spec_decode_field(s: Seq<u8>, encoding: NonceKeyEncoding, kind: FieldKind) -> Seq<
    char,
> {
    match encoding {
        NonceKeyEncoding::Numeric => spec_decode_numeric(s, kind),
        NonceKeyEncoding::Ascii => spec_decode_ascii(s),
    }
}

/// Renders one field of a group nonce key.
pub fn decode_field(bytes: &[u8], encoding: NonceKeyEncoding, kind: FieldKind) -> (r:
    DecodedNonceKeyField)
    ensures
        r.encoding == encoding,
        r.value@ == spec_decode_field(bytes@, encoding, kind),
{
    let value = match encoding {
        NonceKeyEncoding::Numeric => decode_numeric(bytes, kind),
        NonceKeyEncoding::Ascii => decode_ascii(bytes),
    };
    DecodedNonceKeyField { encoding, value }
}

/// The encoding the flags word assigns to a field flag value of 0 or 1.
pub open spec fn spec_flag_encoding(v: int) -> NonceKeyEncoding {
    if v == 0 {
        NonceKeyEncoding::Numeric
    } else {
        NonceKeyEncoding::Ascii
    }
}

/// Decodes a well-formed group nonce key into its kind and three fields;
/// rejects anything `is_group_nonce_key` rejects.
pub fn decode_group_nonce_key(bytes: &[u8]) -> (r: Option<DecodedNonceKey>)
    ensures
        r is Some <==> spec_is_group_nonce_key(bytes@),
        r is Some ==> {
            let d = r->0;
            &&& d.kind == bytes@[5]
            &&& d.scope.encoding == spec_flag_encoding(spec_scope_flag(bytes@))
            &&& d.group.encoding == spec_flag_encoding(spec_group_flag(bytes@))
            &&& d.memo.encoding == spec_flag_encoding(spec_memo_flag(bytes@))
            &&& d.scope.value@ == spec_decode_field(
                bytes@.subrange(8, 16),
                d.scope.encoding,
                FieldKind::Scope,
            )
            &&& d.group.value@ == spec_decode_field(
                bytes@.subrange(16, 20),
                d.group.encoding,
                FieldKind::Group,
            )
            &&& d.memo.value@ == spec_decode_field(
                bytes@.subrange(20, 32),
                d.memo.encoding,
                FieldKind::Memo,
            )
        },
{
    if !is_group_nonce_key(bytes) {
        return None;
    }
    let flags = bytes[7] as u16;
    let scope_encoding = match NonceKeyEncoding::try_from(flags % 4) {
        Ok(e) => e,
        Err(_) => {
            return None;
        },
    };
    let group_encoding = match NonceKeyEncoding::try_from((flags / 4) % 4) {
        Ok(e) => e,
        Err(_) => {
            return None;
        },
    };
    let memo_encoding = match NonceKeyEncoding::try_from((flags / 16) % 4) {
        Ok(e) => e,
        Err(_) => {
            return None;
        },
    };

    let scope = decode_field(&bytes[8..16], scope_encoding, FieldKind::Scope);
    let group = decode_field(&bytes[16..20], group_encoding, FieldKind::Group);
    let memo = decode_field(&bytes[20..32], memo_encoding, FieldKind::Memo);

    Some(DecodedNonceKey { kind: bytes[5], scope, group, memo })
}

/// Whether a nonce key is the `random` convention: any number of leading
/// zero bytes followed by exactly the ASCII letters `random`.
pub open spec fn spec_is_random_nonce_key(s: Seq<u8>) -> bool {
    &&& s.len() >= 6
    &&& (forall|i: int| 0 <= i < s.len() - 6 ==> s[i] == 0)
    &&& s[s.len() - 6] == 0x72
    &&& s[s.len() - 5] == 0x61
    &&& s[s.len() - 4] == 0x6e
    &&& s[s.len() - 3] == 0x64
    &&& s[s.len() - 2] == 0x6f
    &&& s[s.len() - 1] == 0x6d
}

/// Recognizes the `random` nonce key: such keys are non-monotonic lanes,
/// exempt from supersession checks and from `valid_after` bounds.
pub fn is_random_nonce_key(bytes: &[u8]) -> (r: bool)
    ensures
        r == spec_is_random_nonce_key(bytes@),
{
    let n = bytes.len();
    if n < 6 {
        return false;
    }
    let mut i: usize = 0;
    while i < n - 6
        invariant
            n == bytes@.len(),
            6 <= n,
            i <= n - 6,
            forall|j: int| 0 <= j < i ==> bytes@[j] == 0,
        decreases n - 6 - i,
    {
        if bytes[i] != 0 {
            return false;
        }
        i = i + 1;
    }
    bytes[n - 6] == 0x72 && bytes[n - 5] == 0x61 && bytes[n - 4] == 0x6e && bytes[n - 3] == 0x64
        && bytes[n - 2] == 0x6f && bytes[n - 1] == 0x6d
}

} // verus!
