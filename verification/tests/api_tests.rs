use watchtower::hexcode::{bytes_to_hex, hex_decode, hex_encode};
use watchtower::ingress::{
    datetime_from_ts, parse_fixed_hex, parse_hex, u256_bytes_to_hex,
    validate_nonce_valid_before_order, ApiErrorKind, RpcError,
};
use watchtower::text::u64_dec_string;

#[test]
fn parse_fixed_hex_enforces_length() {
    let ok = parse_fixed_hex("0x0102", 2).expect("valid");
    assert_eq!(ok, vec![0x01, 0x02]);

    let err = parse_fixed_hex("0x01", 2).unwrap_err();
    assert!(err.message.contains("expected 2 bytes"));
}

#[test]
fn u256_from_bytes_handles_short() {
    assert_eq!(u256_bytes_to_hex(&[0x01]), "0x1");
    assert_eq!(u256_bytes_to_hex(&[0x01, 0x00]), "0x100");
    assert_eq!(u256_bytes_to_hex(&[0x00, 0x00]), "0x0");
    assert_eq!(u256_bytes_to_hex(&[0xab, 0xcd]), "0xabcd");
    let mut random_key = [0u8; 32];
    random_key[26..32].copy_from_slice(b"random");
    assert_eq!(u256_bytes_to_hex(&random_key), "random");
}

#[test]
fn validate_nonce_valid_before_order_accepts_monotonic() {
    let ok = validate_nonce_valid_before_order(&vec![
        (1, Some(10)),
        (2, Some(10)),
        (3, Some(12)),
    ]);
    assert!(ok.is_ok());
}

#[test]
fn validate_nonce_valid_before_order_rejects_decreasing() {
    let err = validate_nonce_valid_before_order(&vec![(1, Some(10)), (2, Some(9))])
        .expect_err("expected error");
    assert!(err.message.contains("valid_before order"));
}

#[test]
fn hex_codec_matches_reference() {
    let data: Vec<u8> = vec![0x00, 0x01, 0xfe, 0xff, 0x4e, 0x4b, 0x47, 0x31];
    let mine = hex_encode(&data);
    assert_eq!(String::from_utf8(mine.clone()).unwrap(), hex::encode(&data));
    let decoded = hex_decode(&mine).expect("round trip");
    assert_eq!(decoded, data);
    assert_eq!(bytes_to_hex(&data), format!("0x{}", hex::encode(&data)));
}

#[test]
fn hex_decode_rejects_bad_input() {
    assert!(hex_decode(b"0").is_none());
    assert!(hex_decode(b"zz").is_none());
    assert_eq!(hex_decode(b"ABCDEF"), Some(vec![0xab, 0xcd, 0xef]));
    let odd = parse_hex("0x012").unwrap_err();
    assert_eq!(odd.message, "invalid hex length");
    assert!(matches!(odd.kind, ApiErrorKind::BadRequest));
}

#[test]
fn decimal_rendering_is_exact() {
    assert_eq!(u64_dec_string(0), "0");
    assert_eq!(u64_dec_string(42), "42");
    assert_eq!(u64_dec_string(u64::MAX), "18446744073709551615");
}

#[test]
fn timestamps_materialize_in_milliseconds() {
    assert_eq!(datetime_from_ts(0).unwrap(), 0);
    assert_eq!(datetime_from_ts(1_700_000_000).unwrap(), 1_700_000_000_000);
    let err = datetime_from_ts(u64::MAX).unwrap_err();
    assert_eq!(err.message, "timestamp out of range");
}

#[test]
fn rpc_error_codes_are_fixed() {
    let a = RpcError::invalid_request("expected JSON object");
    assert_eq!(a.code, -32600);
    assert_eq!(a.message, "expected JSON object");
    let b = RpcError::invalid_params("params must be an array");
    assert_eq!(b.code, -32602);
}
