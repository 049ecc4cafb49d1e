use watchtower::nonce_key::{
    decode_group_nonce_key, is_group_nonce_key, is_random_nonce_key, DecodedNonceKey,
    DecodedNonceKeyField, NonceKeyEncoding,
};

const GROUP_NONCE_MAGIC: [u8; 4] = *b"NKG1";
const GROUP_NONCE_VERSION: u8 = 0x01;

fn build_key(flags: u16, scope: [u8; 8], group: [u8; 4], memo: [u8; 12]) -> [u8; 32] {
    let mut bytes = [0u8; 32];
    bytes[..4].copy_from_slice(&GROUP_NONCE_MAGIC);
    bytes[4] = GROUP_NONCE_VERSION;
    bytes[6..8].copy_from_slice(&flags.to_be_bytes());
    bytes[8..16].copy_from_slice(&scope);
    bytes[16..20].copy_from_slice(&group);
    bytes[20..32].copy_from_slice(&memo);
    bytes
}

fn padded_ascii<const N: usize>(value: &str) -> [u8; N] {
    let bytes = value.as_bytes();
    assert!(bytes.len() <= N);
    let mut out = [0u8; N];
    out[..bytes.len()].copy_from_slice(bytes);
    out
}

#[test]
fn accepts_numeric_format() {
    let key = build_key(0, [0u8; 8], [0u8; 4], [0u8; 12]);
    assert!(is_group_nonce_key(&key));
}

#[test]
fn accepts_ascii_format() {
    let flags = 0b01 | (0b01 << 2) | (0b01 << 4);
    let key = build_key(
        flags,
        padded_ascii("PAYROLL"),
        padded_ascii("G1"),
        padded_ascii("JAN-2026"),
    );
    assert!(is_group_nonce_key(&key));
}

#[test]
fn rejects_wrong_length() {
    let bytes = [0u8; 31];
    assert!(!is_group_nonce_key(&bytes));
}

#[test]
fn rejects_wrong_magic() {
    let mut key = build_key(0, [0u8; 8], [0u8; 4], [0u8; 12]);
    key[0] = 0x00;
    assert!(!is_group_nonce_key(&key));
}

#[test]
fn rejects_wrong_version() {
    let mut key = build_key(0, [0u8; 8], [0u8; 4], [0u8; 12]);
    key[4] = 0x02;
    assert!(!is_group_nonce_key(&key));
}

#[test]
fn rejects_reserved_bits() {
    let key = build_key(0x0040, [0u8; 8], [0u8; 4], [0u8; 12]);
    assert!(!is_group_nonce_key(&key));
}

#[test]
fn rejects_reserved_encodings() {
    let flags = 0b10 | (0b11 << 2) | (0b10 << 4);
    let key = build_key(flags, [0u8; 8], [0u8; 4], [0u8; 12]);
    assert!(!is_group_nonce_key(&key));
}

#[test]
fn rejects_non_printable_ascii() {
    let flags = 0b01 | (0b01 << 2) | (0b01 << 4);
    let mut memo = [0u8; 12];
    memo[0] = b'H';
    memo[1] = 0x19;
    let key = build_key(flags, padded_ascii("SCOPE"), padded_ascii("G1"), memo);
    assert!(!is_group_nonce_key(&key));
}

#[test]
fn rejects_ascii_with_embedded_zero() {
    let flags = 0b01;
    let mut scope = [0u8; 8];
    scope[0] = b'A';
    scope[1] = 0;
    scope[2] = b'B';
    let key = build_key(flags, scope, [0u8; 4], [0u8; 12]);
    assert!(!is_group_nonce_key(&key));
}

#[test]
fn decodes_numeric_fields() {
    let mut key = build_key(0, [0u8; 8], [0u8; 4], [0u8; 12]);
    key[5] = 0x02;
    key[8..16].copy_from_slice(&1u64.to_be_bytes());
    key[16..20].copy_from_slice(&42u32.to_be_bytes());
    key[20..32].copy_from_slice(&[1, 2, 3, 4, 5, 6, 7, 8, 9, 10, 11, 12]);

    let decoded = decode_group_nonce_key(&key).expect("decoded");
    assert_eq!(
        decoded,
        DecodedNonceKey {
            kind: 0x02,
            scope: DecodedNonceKeyField {
                encoding: NonceKeyEncoding::Numeric,
                value: "1".to_string(),
            },
            group: DecodedNonceKeyField {
                encoding: NonceKeyEncoding::Numeric,
                value: "42".to_string(),
            },
            memo: DecodedNonceKeyField {
                encoding: NonceKeyEncoding::Numeric,
                value: "0x0102030405060708090a0b0c".to_string(),
            },
        }
    );
}

#[test]
fn decodes_ascii_fields() {
    let flags = 0b01 | (0b01 << 2) | (0b01 << 4);
    let key = build_key(
        flags,
        padded_ascii("PAYROLL"),
        padded_ascii("G1"),
        padded_ascii("JAN-2026"),
    );
    let decoded = decode_group_nonce_key(&key).expect("decoded");
    assert_eq!(decoded.kind, 0x00);
    assert_eq!(decoded.scope.value, "PAYROLL");
    assert_eq!(decoded.group.value, "G1");
    assert_eq!(decoded.memo.value, "JAN-2026");
    assert_eq!(decoded.scope.encoding, NonceKeyEncoding::Ascii);
    assert_eq!(decoded.group.encoding, NonceKeyEncoding::Ascii);
    assert_eq!(decoded.memo.encoding, NonceKeyEncoding::Ascii);
}

#[test]
fn recognizes_random_nonce_key() {
    let mut key = [0u8; 32];
    key[26..32].copy_from_slice(b"random");
    assert!(is_random_nonce_key(&key));
    assert!(is_random_nonce_key(b"random"));
    assert!(!is_random_nonce_key(&[0u8; 32]));
    let mut wrong = [0u8; 32];
    wrong[25] = 1;
    wrong[26..32].copy_from_slice(b"random");
    assert!(!is_random_nonce_key(&wrong));
}

#[test]
fn encoding_names_round() {
    assert_eq!(NonceKeyEncoding::Numeric.as_str(), "numeric");
    assert_eq!(NonceKeyEncoding::Ascii.as_str(), "ascii");
    assert_eq!(NonceKeyEncoding::try_from(0u16), Ok(NonceKeyEncoding::Numeric));
    assert_eq!(NonceKeyEncoding::try_from(1u16), Ok(NonceKeyEncoding::Ascii));
    assert_eq!(NonceKeyEncoding::try_from(2u16), Err(()));
}
