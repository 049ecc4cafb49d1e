use watchtower::broadcaster::{aggregate_broadcast, BroadcastOutcome, EndpointReply};
use watchtower::index::ReadyIndex;
use watchtower::ingress::{
    cancel_group_authorized, prepare_new_tx_from_parsed, store_transactions, ApiErrorKind,
    ParsedTx,
};
use watchtower::models::NewTx;
use watchtower::scheduler::{apply_broadcast_outcome, broadcast_task_begin, BroadcastStep};
use watchtower::status::TxStatus;
use watchtower::store::Store;
use watchtower::watcher::{
    nonce_source, pending_lanes, watcher_expire_row, watcher_row_action, NonceSource,
    WatcherAction,
};

const CHAIN_ID: u64 = 42431;
const NOW: i64 = 1_700_000_000_000;
const RETRY_MIN_MS: u64 = 250;
const RETRY_MAX_MS: u64 = 5000;

fn make_parsed(
    nonce_key: [u8; 32],
    nonce: u64,
    valid_after: Option<u64>,
    valid_before: Option<u64>,
    seed: u8,
) -> ParsedTx {
    let mut tx_hash = vec![seed; 32];
    tx_hash[0] = seed.wrapping_add(1);
    ParsedTx {
        tx_hash,
        sender: vec![0xaa; 20],
        fee_payer: None,
        chain_id: CHAIN_ID,
        nonce_key: nonce_key.to_vec(),
        nonce,
        valid_after,
        valid_before,
        raw_tx: vec![seed, 0xde, 0xad],
        group: None,
    }
}

fn group_key(scope: u64, group: u32) -> [u8; 32] {
    let mut key = [0u8; 32];
    key[..4].copy_from_slice(b"NKG1");
    key[4] = 0x01;
    key[8..16].copy_from_slice(&scope.to_be_bytes());
    key[16..20].copy_from_slice(&group.to_be_bytes());
    key
}

fn submit(
    store: &mut Store,
    index: &mut ReadyIndex,
    parsed: &ParsedTx,
    now: i64,
) -> watchtower::models::TxRecord {
    let new_tx: NewTx = prepare_new_tx_from_parsed(parsed, now).expect("prepared");
    let (records, flags) =
        store_transactions(store, index, &vec![new_tx], now).expect("stored");
    assert_eq!(records.len(), 1);
    assert_eq!(flags.len(), 1);
    records.into_iter().next().unwrap()
}

#[test]
fn insert_same_hash_twice_is_idempotent() {
    let mut store = Store::new();
    let mut index = ReadyIndex::new();
    let parsed = make_parsed([0u8; 32], 0, None, None, 7);
    let first = submit(&mut store, &mut index, &parsed, NOW);

    let new_tx = prepare_new_tx_from_parsed(&parsed, NOW + 50).expect("prepared");
    let (records, flags) =
        store_transactions(&mut store, &mut index, &vec![new_tx], NOW + 50).expect("stored");
    assert_eq!(flags, vec![true]);
    let second = &records[0];
    assert_eq!(second.id, first.id);
    assert_eq!(second.tx_hash, first.tx_hash);
    assert_eq!(second.created_at, first.created_at);
    assert_eq!(second.attempts, first.attempts);
    assert_eq!(store.rows.len(), 1);
}

#[test]
fn happy_path_broadcast_then_executed() {
    let mut store = Store::new();
    let mut index = ReadyIndex::new();
    let parsed = make_parsed([0u8; 32], 0, None, None, 1);
    submit(&mut store, &mut index, &parsed, NOW);

    let leased = watchtower::scheduler::scheduler_tick(
        &mut store,
        &mut index,
        CHAIN_ID,
        NOW,
        4,
        "scheduler:test",
        NOW + 30_000,
    );
    assert_eq!(leased.len(), 1);
    let record = &leased[0];
    assert!(matches!(record.status, TxStatus::Broadcasting));

    let step = broadcast_task_begin(&mut store, record, "scheduler:test", NOW);
    assert!(matches!(step, BroadcastStep::Send));

    let outcome = aggregate_broadcast(&vec![EndpointReply::Sent]);
    assert!(matches!(outcome, BroadcastOutcome::Accepted { .. }));
    let applied = apply_broadcast_outcome(
        &mut store,
        &mut index,
        record,
        "scheduler:test",
        outcome,
        NOW,
        RETRY_MIN_MS,
        RETRY_MAX_MS,
    );
    assert!(applied);
    let row = store.get_tx_by_hash(Some(CHAIN_ID), &record.tx_hash).unwrap();
    assert!(matches!(row.status, TxStatus::RetryScheduled));
    assert_eq!(row.attempts, 1);

    let actives = store.list_active_txs(CHAIN_ID);
    assert_eq!(actives.len(), 1);
    assert!(matches!(
        watcher_row_action(&actives[0], NOW + 1000),
        WatcherAction::CheckReceipt
    ));
    let marked = store.mark_executed(actives[0].id, "{\"status\":\"0x1\"}".to_string(), NOW + 1000);
    assert!(marked);
    let done = store.get_tx_by_hash(Some(CHAIN_ID), &record.tx_hash).unwrap();
    assert!(matches!(done.status, TxStatus::Executed));
    assert!(done.receipt.is_some());
    assert!(done.next_action_at.is_none());
}

#[test]
fn delayed_eligibility_holds_back_broadcast() {
    let mut store = Store::new();
    let mut index = ReadyIndex::new();
    let now_s = (NOW / 1000) as u64;
    let parsed = make_parsed([0u8; 32], 0, Some(now_s + 2), None, 2);
    submit(&mut store, &mut index, &parsed, NOW);

    let early = watchtower::scheduler::scheduler_tick(
        &mut store,
        &mut index,
        CHAIN_ID,
        NOW + 1000,
        4,
        "scheduler:test",
        NOW + 31_000,
    );
    assert_eq!(early.len(), 0);

    let later = watchtower::scheduler::scheduler_tick(
        &mut store,
        &mut index,
        CHAIN_ID,
        NOW + 6000,
        4,
        "scheduler:test",
        NOW + 36_000,
    );
    assert_eq!(later.len(), 1);
}

#[test]
fn group_cancel_prevents_broadcast() {
    let mut store = Store::new();
    let mut index = ReadyIndex::new();
    let key = group_key(1, 11);
    let now_s = (NOW / 1000) as u64;
    let first = make_parsed(key, 0, Some(now_s + 2), None, 3);
    let second = make_parsed(key, 1, Some(now_s + 2), None, 4);
    let rec_a = submit(&mut store, &mut index, &first, NOW);
    let rec_b = submit(&mut store, &mut index, &second, NOW);
    let group_id = rec_a.group_id.clone().expect("group id");
    assert_eq!(rec_b.group_id.as_ref(), Some(&group_id));

    let canceled = cancel_group_authorized(
        &mut store,
        &mut index,
        &first.sender,
        &group_id,
        true,
        NOW + 500,
    )
    .expect("canceled");
    assert_eq!(canceled.len(), 2);
    for row in &canceled {
        assert!(matches!(row.status, TxStatus::CanceledLocally));
        assert!(row.raw_tx.is_none());
        assert!(row.next_action_at.is_none());
    }

    let leased = watchtower::scheduler::scheduler_tick(
        &mut store,
        &mut index,
        CHAIN_ID,
        NOW + 10_000,
        4,
        "scheduler:test",
        NOW + 40_000,
    );
    assert_eq!(leased.len(), 0);
}

#[test]
fn cancel_requires_authorization_and_a_group() {
    let mut store = Store::new();
    let mut index = ReadyIndex::new();
    let err = cancel_group_authorized(&mut store, &mut index, &[0xaa; 20], &[0x01; 16], false, NOW)
        .unwrap_err();
    assert!(matches!(err.kind, ApiErrorKind::Unauthorized));
    let err = cancel_group_authorized(&mut store, &mut index, &[0xaa; 20], &[0x01; 16], true, NOW)
        .unwrap_err();
    assert!(matches!(err.kind, ApiErrorKind::NotFound));
    assert_eq!(err.message, "group not found");
}

#[test]
fn nonce_supersession_marks_stale() {
    let mut store = Store::new();
    let mut index = ReadyIndex::new();
    let parsed = make_parsed([0u8; 32], 0, None, None, 5);
    submit(&mut store, &mut index, &parsed, NOW);

    let leased = watchtower::scheduler::scheduler_tick(
        &mut store,
        &mut index,
        CHAIN_ID,
        NOW,
        4,
        "scheduler:test",
        NOW + 30_000,
    );
    let record = &leased[0];
    let outcome = aggregate_broadcast(&vec![EndpointReply::Sent]);
    apply_broadcast_outcome(
        &mut store,
        &mut index,
        record,
        "scheduler:test",
        outcome,
        NOW,
        RETRY_MIN_MS,
        RETRY_MAX_MS,
    );

    let pending = store.list_active_txs(CHAIN_ID);
    let lanes = pending_lanes(&pending);
    assert_eq!(lanes.len(), 1);
    assert!(matches!(
        nonce_source(&lanes[0].nonce_key),
        NonceSource::Standard
    ));
    store.apply_observed_nonce(CHAIN_ID, &lanes[0].sender, &lanes[0].nonce_key, 1, NOW + 2000);
    let row = store.get_tx_by_hash(Some(CHAIN_ID), &record.tx_hash).unwrap();
    assert!(matches!(row.status, TxStatus::StaleByNonce));
}

#[test]
fn invalid_classification_resolves_terminally() {
    let mut store = Store::new();
    let mut index = ReadyIndex::new();
    let parsed = make_parsed([0u8; 32], 0, None, None, 6);
    submit(&mut store, &mut index, &parsed, NOW);

    let leased = watchtower::scheduler::scheduler_tick(
        &mut store,
        &mut index,
        CHAIN_ID,
        NOW,
        4,
        "scheduler:test",
        NOW + 30_000,
    );
    let record = &leased[0];
    let outcome = aggregate_broadcast(&vec![EndpointReply::Rejected {
        message: "fee payer signature invalid".to_string(),
    }]);
    assert!(matches!(outcome, BroadcastOutcome::Invalid { .. }));
    let applied = apply_broadcast_outcome(
        &mut store,
        &mut index,
        record,
        "scheduler:test",
        outcome,
        NOW,
        RETRY_MIN_MS,
        RETRY_MAX_MS,
    );
    assert!(applied);
    let row = store.get_tx_by_hash(Some(CHAIN_ID), &record.tx_hash).unwrap();
    assert!(matches!(row.status, TxStatus::Invalid));
    assert!(row.last_error.unwrap().contains("fee payer signature invalid"));
    assert_eq!(row.attempts, 1);
}

#[test]
fn already_known_counts_as_accepted() {
    let mut store = Store::new();
    let mut index = ReadyIndex::new();
    let parsed = make_parsed([0u8; 32], 0, None, None, 8);
    submit(&mut store, &mut index, &parsed, NOW);

    let leased = watchtower::scheduler::scheduler_tick(
        &mut store,
        &mut index,
        CHAIN_ID,
        NOW,
        2,
        "scheduler:test",
        NOW + 30_000,
    );
    let record = &leased[0];
    let outcome = aggregate_broadcast(&vec![
        EndpointReply::Sent,
        EndpointReply::Rejected { message: "already known".to_string() },
    ]);
    assert!(matches!(outcome, BroadcastOutcome::Accepted { .. }));
    apply_broadcast_outcome(
        &mut store,
        &mut index,
        record,
        "scheduler:test",
        outcome,
        NOW,
        RETRY_MIN_MS,
        RETRY_MAX_MS,
    );
    let row = store.get_tx_by_hash(Some(CHAIN_ID), &record.tx_hash).unwrap();
    assert!(matches!(row.status, TxStatus::RetryScheduled));
    match row.last_error {
        None => {},
        Some(text) => assert!(text.contains("already known")),
    }
}

#[test]
fn expired_rows_expire_on_either_visit() {
    let mut store = Store::new();
    let mut index = ReadyIndex::new();
    let now_s = (NOW / 1000) as u64;
    let parsed = make_parsed([0u8; 32], 0, None, Some(now_s + 1), 9);
    let rec = submit(&mut store, &mut index, &parsed, NOW);

    let late = NOW + 5000;
    let leased = watchtower::scheduler::scheduler_tick(
        &mut store,
        &mut index,
        CHAIN_ID,
        late,
        4,
        "scheduler:test",
        late + 30_000,
    );
    assert_eq!(leased.len(), 1);
    let step = broadcast_task_begin(&mut store, &leased[0], "scheduler:test", late);
    assert!(matches!(step, BroadcastStep::MarkExpired));
    let row = store.get_tx_by_hash(Some(CHAIN_ID), &rec.tx_hash).unwrap();
    assert!(matches!(row.status, TxStatus::Expired));

    let mut store2 = Store::new();
    let mut index2 = ReadyIndex::new();
    let rec2 = submit(&mut store2, &mut index2, &parsed, NOW);
    let moved = watcher_expire_row(&mut store2, rec2.id, late);
    assert!(moved);
    let row2 = store2.get_tx_by_hash(Some(CHAIN_ID), &rec2.tx_hash).unwrap();
    assert!(matches!(row2.status, TxStatus::Expired));
}

#[test]
fn recovery_reclaims_parked_rows() {
    let mut store = Store::new();
    let mut index = ReadyIndex::new();
    let parsed = make_parsed([0u8; 32], 0, None, None, 10);
    submit(&mut store, &mut index, &parsed, NOW);

    let leased = watchtower::scheduler::scheduler_tick(
        &mut store,
        &mut index,
        CHAIN_ID,
        NOW,
        4,
        "scheduler:test",
        NOW + 30_000,
    );
    let record = &leased[0];
    let parked = store.mark_broadcasted_if_leased(record.id, "scheduler:test", 1, None, NOW);
    assert!(parked);

    let recovered = store.recover_stuck_broadcasts(NOW + 60_000);
    assert_eq!(recovered.len(), 1);
    assert!(matches!(recovered[0].status, TxStatus::RetryScheduled));
    assert_eq!(recovered[0].next_action_at, Some(NOW + 60_000));
    assert!(recovered[0].lease_owner.is_none());
}

#[test]
fn fence_blocks_a_zombie_worker() {
    let mut store = Store::new();
    let mut index = ReadyIndex::new();
    let parsed = make_parsed([0u8; 32], 0, None, None, 11);
    submit(&mut store, &mut index, &parsed, NOW);

    let leased = watchtower::scheduler::scheduler_tick(
        &mut store,
        &mut index,
        CHAIN_ID,
        NOW,
        4,
        "zombie",
        NOW + 1_000,
    );
    let record = &leased[0];

    let reclaimed = watchtower::scheduler::scheduler_tick(
        &mut store,
        &mut index,
        CHAIN_ID,
        NOW + 2_000,
        4,
        "fresh",
        NOW + 32_000,
    );
    assert_eq!(reclaimed.len(), 1);

    let stale_write = store.reschedule_tx_if_leased(
        record.id,
        "zombie",
        TxStatus::RetryScheduled,
        NOW + 3_000,
        1,
        Some("stale".to_string()),
        NOW + 3_000,
    );
    assert!(!stale_write);
    let row = store.get_tx_by_hash(Some(CHAIN_ID), &record.tx_hash).unwrap();
    assert_eq!(row.lease_owner, Some("fresh".to_string()));
}

#[test]
fn group_discipline_rejects_mismatched_batches() {
    let mut store = Store::new();
    let mut index = ReadyIndex::new();
    let key = group_key(1, 11);
    let a = prepare_new_tx_from_parsed(&make_parsed(key, 0, None, Some(2_000_000_000), 12), NOW)
        .expect("prepared");
    let mut b =
        prepare_new_tx_from_parsed(&make_parsed(key, 1, None, Some(1_999_999_000), 13), NOW)
            .expect("prepared");
    // same group tag, mismatched lane: rejected before anything is stored
    b.nonce_key = vec![9u8; 32];
    let err = store_transactions(&mut store, &mut index, &vec![a, b], NOW).unwrap_err();
    assert_eq!(err.message, "group transactions must share the same nonce_key");
    assert_eq!(store.rows.len(), 0);

    let a2 = prepare_new_tx_from_parsed(&make_parsed(key, 0, None, Some(2_000_000_000), 12), NOW)
        .expect("prepared");
    let b2 = prepare_new_tx_from_parsed(&make_parsed(key, 1, None, Some(1_999_999_000), 13), NOW)
        .expect("prepared");
    let err = store_transactions(&mut store, &mut index, &vec![a2, b2], NOW).unwrap_err();
    assert_eq!(err.message, "group valid_before order must match nonce order");
    assert_eq!(store.rows.len(), 0);
}

#[test]
fn submission_validation_errors() {
    let parsed = make_parsed([0u8; 32], 0, Some(100), Some(90), 14);
    let err = prepare_new_tx_from_parsed(&parsed, NOW).unwrap_err();
    assert_eq!(err.message, "invalid validity window");

    let now_s = (NOW / 1000) as u64;
    let expired = make_parsed([0u8; 32], 0, None, Some(now_s - 10), 15);
    let err = prepare_new_tx_from_parsed(&expired, NOW).unwrap_err();
    assert_eq!(err.message, "transaction already expired");

    let mut random_key = [0u8; 32];
    random_key[26..32].copy_from_slice(b"random");
    let random_with_floor = make_parsed(random_key, 0, Some(now_s + 100), None, 16);
    let err = prepare_new_tx_from_parsed(&random_with_floor, NOW).unwrap_err();
    assert_eq!(
        err.message,
        "random nonce key requires valid_after to be unset"
    );

    let clock = make_parsed([0u8; 32], 0, None, None, 17);
    let err = prepare_new_tx_from_parsed(&clock, -5).unwrap_err();
    assert!(matches!(err.kind, ApiErrorKind::Internal));
}

#[test]
fn empty_batch_stores_nothing() {
    let mut store = Store::new();
    let mut index = ReadyIndex::new();
    let (records, flags) =
        store_transactions(&mut store, &mut index, &vec![], NOW).expect("stored");
    assert!(records.is_empty());
    assert!(flags.is_empty());
}

#[test]
fn cancel_plan_orders_and_dedups_nonces() {
    let mut store = Store::new();
    let mut index = ReadyIndex::new();
    let key = group_key(2, 7);
    let a = submit(&mut store, &mut index, &make_parsed(key, 5, None, None, 20), NOW);
    submit(&mut store, &mut index, &make_parsed(key, 1, None, None, 21), NOW);
    submit(&mut store, &mut index, &make_parsed(key, 5, None, None, 22), NOW);
    let group_id = a.group_id.clone().unwrap();
    let members = store.get_group_nonce_windows(CHAIN_ID, &a.sender, &group_id);
    assert_eq!(members.len(), 3);

    let rows = store.list_active_txs(CHAIN_ID);
    let plan = watchtower::ingress::build_cancel_plan(&rows, Some(6)).expect("plan");
    assert_eq!(plan.nonces, vec![1, 5]);
    assert!(plan.already_invalidated);
    let plan2 = watchtower::ingress::build_cancel_plan(&rows, Some(5)).expect("plan");
    assert!(!plan2.already_invalidated);
}
