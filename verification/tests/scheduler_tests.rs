use watchtower::index::{ready_key, retry_key};
use watchtower::scheduler::{retry_backoff_ms, schedule_next_attempt};

#[test]
fn retry_backoff_respects_bounds() {
    assert_eq!(retry_backoff_ms(0, 250, 5000), 250);
    assert_eq!(retry_backoff_ms(1, 250, 5000), 250);
    assert_eq!(retry_backoff_ms(2, 250, 5000), 500);
    assert_eq!(retry_backoff_ms(3, 250, 5000), 1000);
    assert_eq!(retry_backoff_ms(10, 250, 5000), 5000);
    assert_eq!(retry_backoff_ms(20, 250, 5000), 5000);
}

#[test]
fn retry_backoff_shift_caps_at_ten() {
    assert_eq!(retry_backoff_ms(11, 1, u64::MAX), 1024);
    assert_eq!(retry_backoff_ms(100, 1, u64::MAX), 1024);
    assert_eq!(retry_backoff_ms(64, 3, u64::MAX), 3072);
}

#[test]
fn retry_backoff_saturates() {
    let max = u64::MAX;
    assert_eq!(retry_backoff_ms(10, max - 5, max), max);
    assert_eq!(retry_backoff_ms(1, max, max), max);
}

#[test]
fn next_attempt_clamps_to_expiry() {
    assert_eq!(schedule_next_attempt(1_000, None, 1, 250, 5000), 1_250);
    assert_eq!(schedule_next_attempt(1_000, Some(1_100), 1, 250, 5000), 1_100);
    assert_eq!(schedule_next_attempt(1_000, Some(9_000), 3, 250, 5000), 2_000);
}

#[test]
fn index_zone_keys_embed_the_chain() {
    assert_eq!(ready_key(42431), "watchtower:ready:42431");
    assert_eq!(retry_key(42431), "watchtower:retry:42431");
    assert_eq!(ready_key(0), "watchtower:ready:0");
}
