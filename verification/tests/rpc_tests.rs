use watchtower::config::to_ws_url;
use watchtower::digest::group_id_from_nonce_key;

#[test]
fn to_ws_url_converts_http() {
    assert_eq!(
        to_ws_url("http://example.com"),
        Some("ws://example.com".to_string())
    );
    assert_eq!(
        to_ws_url("https://example.com"),
        Some("wss://example.com".to_string())
    );
}

#[test]
fn to_ws_url_ignores_ws() {
    assert_eq!(to_ws_url("ws://example.com"), None);
    assert_eq!(to_ws_url("wss://example.com"), None);
}

#[test]
fn group_id_is_keccak_prefix() {
    let key = [0x11u8; 32];
    let group_id = group_id_from_nonce_key(&key);
    let digest = alloy::primitives::keccak256(&key);
    assert_eq!(group_id.len(), 16);
    assert_eq!(group_id.as_slice(), &digest.as_slice()[..16]);
    let other = group_id_from_nonce_key(&[0x22u8; 32]);
    assert_ne!(group_id, other);
}
