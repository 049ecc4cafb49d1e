use watchtower::memo::{extract_group_memo, parse_group_memo};

const GROUP_MAGIC: [u8; 4] = *b"TWGR";
const GROUP_TYPE: [u8; 2] = [0x00, 0x01];
const GROUP_VERSION: u8 = 0x01;

fn build_group_memo(group_id: [u8; 16], aux: [u8; 8], flags: u8) -> [u8; 32] {
    let mut memo = [0u8; 32];
    memo[0..4].copy_from_slice(&GROUP_MAGIC);
    memo[4] = GROUP_VERSION;
    memo[5] = flags;
    memo[6..8].copy_from_slice(&GROUP_TYPE);
    memo[8..24].copy_from_slice(&group_id);
    memo[24..32].copy_from_slice(&aux);
    memo
}

#[test]
fn parse_group_memo_accepts_valid() {
    let mut memo = [0u8; 32];
    memo[0..4].copy_from_slice(&GROUP_MAGIC);
    memo[4] = GROUP_VERSION;
    memo[5] = 0x03;
    memo[6..8].copy_from_slice(&GROUP_TYPE);
    memo[8..24].copy_from_slice(&[0x11; 16]);
    memo[24..32].copy_from_slice(&[0x22; 8]);

    let parsed = parse_group_memo(&memo).expect("group memo parsed");
    assert_eq!(parsed.version, 0x01);
    assert_eq!(parsed.flags, 0x03);
    assert_eq!(parsed.group_id, [0x11; 16]);
    assert_eq!(parsed.aux, [0x22; 8]);
}

#[test]
fn parse_group_memo_rejects_bad_magic() {
    let mut memo = [0u8; 32];
    memo[0..4].copy_from_slice(b"NOPE");
    memo[6..8].copy_from_slice(&GROUP_TYPE);
    assert!(parse_group_memo(&memo).is_none());
}

#[test]
fn parse_group_memo_rejects_unknown_version() {
    let mut memo = [0u8; 32];
    memo[0..4].copy_from_slice(&GROUP_MAGIC);
    memo[4] = GROUP_VERSION + 1;
    memo[6..8].copy_from_slice(&GROUP_TYPE);
    assert!(parse_group_memo(&memo).is_none());
}

#[test]
fn extract_group_memo_rejects_multiple_groups_over_one_call() {
    let memo_a = build_group_memo([0x11; 16], [0x22; 8], 0x00);
    let memo_b = build_group_memo([0x33; 16], [0x44; 8], 0x00);
    let memos = vec![memo_a, memo_a, memo_b];

    let err = extract_group_memo(&memos).unwrap_err();
    assert!(err.contains("more than one memo call"));
}

#[test]
fn extract_group_memo_accepts_transfer_from_with_memo() {
    let memo = build_group_memo([0x55; 16], [0x66; 8], 0x00);
    let memos = vec![memo];

    let group = extract_group_memo(&memos)
        .expect("extract group memo")
        .expect("group memo present");
    assert_eq!(group.group_id, [0x55; 16]);
    assert_eq!(group.aux, [0x66; 8]);
}

#[test]
fn extract_group_memo_ignores_non_memo_transfers() {
    let not_a_memo = [0u8; 32];
    let memos = vec![not_a_memo];
    let group = extract_group_memo(&memos).expect("extract group memo");
    assert!(group.is_none());
}
