use watchtower::index::ReadyIndex;
use watchtower::ingress::{prepare_new_tx_from_parsed, store_transactions, ParsedTx};
use watchtower::scheduler::scheduler_tick;
use watchtower::status::TxStatus;
use watchtower::store::Store;

const CHAIN_ID: u64 = 42431;
const NOW: i64 = 1_700_000_000_000;

fn seed_tx(store: &mut Store, index: &mut ReadyIndex, seed: u8) -> watchtower::models::TxRecord {
    let mut tx_hash = vec![seed; 32];
    tx_hash[0] = seed.wrapping_add(1);
    let parsed = ParsedTx {
        tx_hash,
        sender: vec![0xaa; 20],
        fee_payer: None,
        chain_id: CHAIN_ID,
        nonce_key: vec![0u8; 32],
        nonce: seed as u64,
        valid_after: None,
        valid_before: None,
        raw_tx: vec![seed, 1, 2],
        group: None,
    };
    let new_tx = prepare_new_tx_from_parsed(&parsed, NOW).expect("prepared");
    let (records, _) = store_transactions(store, index, &vec![new_tx], NOW).expect("stored");
    records.into_iter().next().unwrap()
}

#[test]
fn terminal_states_are_absorbing() {
    let mut store = Store::new();
    let mut index = ReadyIndex::new();
    let rec = seed_tx(&mut store, &mut index, 1);
    assert!(store.mark_executed(rec.id, "{}".to_string(), NOW + 1));

    // No later write moves the row out of its terminal state.
    assert!(!store.mark_expired(rec.id, NOW + 2));
    assert!(!store.mark_stale_by_nonce(rec.id, NOW + 3));
    assert!(!store.mark_invalid(rec.id, "late".to_string(), NOW + 4));
    let canceled = store.cancel_group(&rec.sender, rec.group_id.as_ref().unwrap(), NOW + 5);
    assert!(canceled.is_empty());
    store.apply_observed_nonce(CHAIN_ID, &rec.sender, &rec.nonce_key, 99, NOW + 6);

    let row = store.get_tx_by_hash(Some(CHAIN_ID), &rec.tx_hash).unwrap();
    assert!(matches!(row.status, TxStatus::Executed));
    assert_eq!(row.updated_at, NOW + 1);
}

#[test]
fn two_lease_passes_never_share_a_row() {
    let mut store = Store::new();
    let mut index = ReadyIndex::new();
    seed_tx(&mut store, &mut index, 1);
    seed_tx(&mut store, &mut index, 2);
    seed_tx(&mut store, &mut index, 3);

    let first = scheduler_tick(&mut store, &mut index, CHAIN_ID, NOW, 2, "worker-a", NOW + 30_000);
    let second = scheduler_tick(&mut store, &mut index, CHAIN_ID, NOW, 2, "worker-b", NOW + 30_000);
    assert_eq!(first.len(), 2);
    assert_eq!(second.len(), 1);
    for a in &first {
        for b in &second {
            assert_ne!(a.id, b.id);
        }
    }

    let third = scheduler_tick(&mut store, &mut index, CHAIN_ID, NOW, 2, "worker-c", NOW + 30_000);
    assert!(third.is_empty());
}

#[test]
fn attempts_never_decrease() {
    let mut store = Store::new();
    let mut index = ReadyIndex::new();
    let rec = seed_tx(&mut store, &mut index, 4);

    let mut last = 0u32;
    let mut now = NOW;
    for _ in 0..3 {
        let leased =
            scheduler_tick(&mut store, &mut index, CHAIN_ID, now, 1, "worker", now + 1_000);
        assert_eq!(leased.len(), 1);
        let snapshot = &leased[0];
        assert!(snapshot.attempts >= last);
        let moved = store.reschedule_tx_if_leased(
            snapshot.id,
            "worker",
            TxStatus::RetryScheduled,
            now,
            snapshot.attempts + 1,
            None,
            now,
        );
        assert!(moved);
        let row = store.get_tx_by_hash(Some(CHAIN_ID), &rec.tx_hash).unwrap();
        assert!(row.attempts >= last);
        last = row.attempts;
        now += 10_000;
    }
    assert_eq!(last, 3);
}

#[test]
fn random_lanes_are_exempt_from_supersession() {
    let mut store = Store::new();
    let mut index = ReadyIndex::new();
    let mut random_key = vec![0u8; 32];
    random_key[26..32].copy_from_slice(b"random");
    let parsed = ParsedTx {
        tx_hash: vec![0x42; 32],
        sender: vec![0xaa; 20],
        fee_payer: None,
        chain_id: CHAIN_ID,
        nonce_key: random_key.clone(),
        nonce: 0,
        valid_after: None,
        valid_before: None,
        raw_tx: vec![1, 2, 3],
        group: None,
    };
    let new_tx = prepare_new_tx_from_parsed(&parsed, NOW).expect("prepared");
    store_transactions(&mut store, &mut index, &vec![new_tx], NOW).expect("stored");

    let pending = store.list_active_txs(CHAIN_ID);
    assert_eq!(pending.len(), 1);
    let lanes = watchtower::watcher::pending_lanes(&pending);
    assert!(lanes.is_empty());
}

#[test]
fn group_rows_share_one_nonce_key() {
    let mut store = Store::new();
    let mut index = ReadyIndex::new();
    let a = seed_tx(&mut store, &mut index, 5);
    let b = seed_tx(&mut store, &mut index, 6);
    // the zero nonce key puts both rows in one group with one lane
    assert_eq!(a.group_id, b.group_id);
    let key = store
        .get_group_nonce_key(CHAIN_ID, &a.sender, a.group_id.as_ref().unwrap())
        .expect("group exists");
    assert_eq!(key, a.nonce_key);
    assert_eq!(key, b.nonce_key);
}
