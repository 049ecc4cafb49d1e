use watchtower::index::ReadyIndex;
use watchtower::ingress::{prepare_new_tx_from_parsed, store_transactions, ParsedTx};
use watchtower::models::TxFilters;
use watchtower::scheduler::scheduler_tick;
use watchtower::status::TxStatus;
use watchtower::store::Store;

const CHAIN_ID: u64 = 42431;
const NOW: i64 = 1_700_000_000_000;

fn submit_one(
    store: &mut Store,
    index: &mut ReadyIndex,
    nonce: u64,
    valid_after: Option<u64>,
    seed: u8,
    now: i64,
) -> watchtower::models::TxRecord {
    let mut tx_hash = vec![seed; 32];
    tx_hash[0] = seed.wrapping_add(1);
    let parsed = ParsedTx {
        tx_hash,
        sender: vec![0xaa; 20],
        fee_payer: None,
        chain_id: CHAIN_ID,
        nonce_key: vec![0u8; 32],
        nonce,
        valid_after,
        valid_before: None,
        raw_tx: vec![seed, 9],
        group: None,
    };
    let new_tx = prepare_new_tx_from_parsed(&parsed, now).expect("prepared");
    let (records, _) = store_transactions(store, index, &vec![new_tx], now).expect("stored");
    records.into_iter().next().unwrap()
}

#[test]
fn active_listing_orders_by_next_action_with_parked_rows_last() {
    let mut store = Store::new();
    let mut index = ReadyIndex::new();
    let now_s = (NOW / 1000) as u64;
    // three rows due at NOW+9s, NOW+3s, NOW+6s, inserted out of order
    let late = submit_one(&mut store, &mut index, 0, Some(now_s + 9), 1, NOW);
    let early = submit_one(&mut store, &mut index, 1, Some(now_s + 3), 2, NOW);
    let middle = submit_one(&mut store, &mut index, 2, Some(now_s + 6), 3, NOW);
    // and one row parked in flight without a next action
    let parked = submit_one(&mut store, &mut index, 3, None, 4, NOW);
    let leased = scheduler_tick(&mut store, &mut index, CHAIN_ID, NOW, 1, "worker", NOW + 60_000);
    assert_eq!(leased.len(), 1);
    assert_eq!(leased[0].id, parked.id);
    assert!(store.mark_broadcasted_if_leased(parked.id, "worker", 1, None, NOW));

    let actives = store.list_active_txs(CHAIN_ID);
    let ids: Vec<u64> = actives.iter().map(|r| r.id).collect();
    assert_eq!(ids, vec![early.id, middle.id, late.id, parked.id]);
    assert!(actives[3].next_action_at.is_none());
}

#[test]
fn listing_filters_and_orders_by_creation() {
    let mut store = Store::new();
    let mut index = ReadyIndex::new();
    let first = submit_one(&mut store, &mut index, 0, None, 1, NOW);
    let second = submit_one(&mut store, &mut index, 1, None, 2, NOW + 1000);
    let third = submit_one(&mut store, &mut index, 2, None, 3, NOW + 2000);
    assert!(store.mark_executed(second.id, "{}".to_string(), NOW + 3000));

    let all = store.list_txs(&TxFilters {
        chain_id: Some(CHAIN_ID),
        sender: None,
        group_id: None,
        statuses: vec![],
        limit: 100,
    });
    let ids: Vec<u64> = all.iter().map(|r| r.id).collect();
    assert_eq!(ids, vec![third.id, second.id, first.id]);
    assert!(all[0].created_at >= all[1].created_at && all[1].created_at >= all[2].created_at);

    let executed_only = store.list_txs(&TxFilters {
        chain_id: Some(CHAIN_ID),
        sender: None,
        group_id: None,
        statuses: vec![TxStatus::Executed],
        limit: 100,
    });
    assert_eq!(executed_only.len(), 1);
    assert_eq!(executed_only[0].id, second.id);

    let capped = store.list_txs(&TxFilters {
        chain_id: Some(CHAIN_ID),
        sender: None,
        group_id: None,
        statuses: vec![],
        limit: 2,
    });
    assert_eq!(capped.len(), 2);
    assert_eq!(capped[0].id, third.id);
}

#[test]
fn sender_group_summaries_span_eligibility() {
    let mut store = Store::new();
    let mut index = ReadyIndex::new();
    let now_s = (NOW / 1000) as u64;
    let a = submit_one(&mut store, &mut index, 0, Some(now_s + 30), 1, NOW);
    let b = submit_one(&mut store, &mut index, 1, Some(now_s + 60), 2, NOW);
    assert_eq!(a.group_id, b.group_id);

    let groups = store.list_sender_groups(&a.sender, Some(CHAIN_ID), 100, false, NOW);
    assert_eq!(groups.len(), 1);
    assert_eq!(groups[0].chain_id, CHAIN_ID);
    assert_eq!(groups[0].group_id, a.group_id.clone().unwrap());
    assert_eq!(groups[0].start_at, ((now_s + 30) * 1000) as i64);
    assert_eq!(groups[0].end_at, ((now_s + 60) * 1000) as i64);

    // the whole span is in the future, so the active filter keeps it
    let active = store.list_sender_groups(&a.sender, Some(CHAIN_ID), 100, true, NOW);
    assert_eq!(active.len(), 1);
    // after the span has closed, the active filter drops it
    let closed = store.list_sender_groups(
        &a.sender,
        Some(CHAIN_ID),
        100,
        true,
        ((now_s + 61) * 1000) as i64,
    );
    assert!(closed.is_empty());
    // the wrong sender sees nothing
    let other = store.list_sender_groups(&[0xbb; 20], Some(CHAIN_ID), 100, false, NOW);
    assert!(other.is_empty());
}

#[test]
fn fetch_due_serves_ready_before_retry() {
    let mut index = ReadyIndex::new();
    index.add_retry(CHAIN_ID, &[0x01; 32], 10);
    index.add_ready(CHAIN_ID, &[0x02; 32], 50);
    index.add_ready(CHAIN_ID, &[0x03; 32], 900);

    let due = index.fetch_due(CHAIN_ID, 100, 10);
    assert_eq!(due.len(), 2);
    assert_eq!(due[0], vec![0x02; 32]);
    assert_eq!(due[1], vec![0x01; 32]);

    let one = index.fetch_due(CHAIN_ID, 100, 1);
    assert_eq!(one.len(), 1);
    assert_eq!(one[0], vec![0x02; 32]);
}
