//! The per-chain scheduler's logic: the exponential backoff rule, the
//! next-attempt schedule, one tick's lease acquisition (index first, store
//! top-up second), the broadcast task's state transitions, and entering
//! freshly accepted rows into the ready zone. The tick loop's timer and
//! worker pool live outside the library.

use vstd::prelude::*;
use crate::broadcaster::BroadcastOutcome;
use crate::index::{zone_contains, zone_has, ReadyIndex};
use crate::models::{same_record, TxRecord};
use crate::status::{spec_is_terminal, TxStatus};
use crate::store::{
    attempts_monotone, fence_holds, id_in, leased_row, rescheduled_row, spec_eligible,
    terminal_frozen, terminal_row_attempted, Store,
};

verus! {

/// `2^k` for the bounded shifts the backoff rule uses.
pub open spec fn spec_pow2(k: nat) -> nat
    decreases k,
{
    if k == 0 {
        1
    } else {
        2 * spec_pow2((k - 1) as nat)
    }
}

proof fn lemma_pow2_mono(a: nat, b: nat)
    requires
        a <= b,
    ensures
        spec_pow2(a) <= spec_pow2(b),
    decreases b,
{
    if a < b {
        lemma_pow2_mono(a, (b - 1) as nat);
    }
}

/// The backoff rule as a mathematical function: the saturating product
/// `min_ms * 2^min(attempts - 1, 10)` clamped to `[min_ms, max_ms]`.
pub open spec fn spec_backoff_ms(attempts: u64, min_ms: u64, max_ms: u64) -> u64 {
    let shift = if attempts <= 1 {
        0nat
    } else if attempts - 1 < 10 {
        (attempts - 1) as nat
    } else {
        10nat
    };
    let raw = min_ms * spec_pow2(shift);
    let sat = if raw > u64::MAX { u64::MAX as int } else { raw as int };
    if sat < min_ms {
        min_ms
    } else if sat > max_ms {
        max_ms
    } else {
        sat as u64
    }
}

/// Retry backoff in milliseconds: exponential with clamping.
/// `delay = clamp(min_ms * 2^(attempts - 1), min_ms, max_ms)`, with the
/// exponent zero for `attempts <= 1`, capped at 10, and a saturating
/// product. The backoff is a pure function of its three arguments.
pub fn retry_backoff_ms(attempts: u64, min_ms: u64, max_ms: u64) -> (delay: u64)
    requires
        min_ms <= max_ms,
    ensures
        delay == spec_backoff_ms(attempts, min_ms, max_ms),
        attempts <= 1 ==> delay == min_ms,
{
    let shift: u64 = if attempts <= 1 {
        0
    } else if attempts - 1 < 10 {
        attempts - 1
    } else {
        10
    };
    let mut factor: u64 = 1;
    let mut i: u64 = 0;
    while i < shift
        invariant
            i <= shift <= 10,
            factor == spec_pow2(i as nat),
        decreases shift - i,
    {
        proof {
            lemma_pow2_mono((i + 1) as nat, 10nat);
            reveal_with_fuel(spec_pow2, 11);
        }
        factor = factor * 2;
        i = i + 1;
    }
    let delay = match min_ms.checked_mul(factor) {
        Some(product) => product,
        None => u64::MAX,
    };
    if delay < min_ms {
        min_ms
    } else if delay > max_ms {
        max_ms
    } else {
        delay
    }
}

/// When the next attempt is due: `now + backoff(attempts)`, clamped so
/// that the next attempt never overshoots the expiry.
pub open spec fn spec_next_attempt(
    now: i64,
    expires_at: Option<i64>,
    attempts: u64,
    min_ms: u64,
    max_ms: u64,
) -> int {
    let next = now + spec_backoff_ms(attempts, min_ms, max_ms);
    if expires_at is Some && next > expires_at->0 {
        expires_at->0 as int
    } else {
        next
    }
}

/// Schedules the next attempt after a non-terminal broadcast outcome.
pub fn schedule_next_attempt(
    now: i64,
    expires_at: Option<i64>,
    attempts: u64,
    retry_min_ms: u64,
    retry_max_ms: u64,
) -> (next: i64)
    requires
        retry_min_ms <= retry_max_ms,
        0 <= now,
        now + retry_max_ms <= i64::MAX,
    ensures
        next == spec_next_attempt(now, expires_at, attempts, retry_min_ms, retry_max_ms),
{
    let delay = retry_backoff_ms(attempts, retry_min_ms, retry_max_ms);
    let next = now + (delay as i64);
    match expires_at {
        Some(e) => if next > e {
            e
        } else {
            next
        },
        None => next,
    }
}

/// What the broadcast task does with a leased row before any network
/// call: expire it, reject it for lost bytes, or send it.
#[derive(Debug, Clone, Copy, PartialEq, Eq, Structural)]
pub enum BroadcastStep {
    /// The row's expiry has passed: it is terminal `Expired`.
    MarkExpired,
    /// The signed bytes are gone: it is terminal `Invalid`.
    MarkMissingRaw,
    /// The raw bytes go to the broadcaster.
    Send,
}

/// Begins a broadcast task on a leased row: an already-expired row is
/// expired under the lease fence, a row without raw bytes is invalidated
/// under the fence, anything else is cleared for sending.
pub fn broadcast_task_begin(
    store: &mut Store,
    record: &TxRecord,
    lease_owner: &str,
    now: i64,
) -> (step: BroadcastStep)
    requires
        old(store).wf(),
        fence_holds(old(store).rows@, record.id, lease_owner@) ==> old(
            store,
        ).rows@[record.id as int].attempts <= record.attempts,
    ensures
        final(store).wf(),
        final(store).rows@.len() == old(store).rows@.len(),
        terminal_frozen(old(store).rows@, final(store).rows@),
        attempts_monotone(old(store).rows@, final(store).rows@),
        step is MarkExpired <==> record.expires_at is Some && record.expires_at->0 <= now,
        step is MarkMissingRaw <==> !(record.expires_at is Some && record.expires_at->0 <= now)
            && record.raw_tx is None,
        step is Send <==> !(record.expires_at is Some && record.expires_at->0 <= now)
            && record.raw_tx is Some,
        step is MarkExpired && fence_holds(old(store).rows@, record.id, lease_owner@) ==> final(store).rows@ == old(store).rows@.update(record.id as int, final(store).rows@[record.id as int])
            && terminal_row_attempted(
            final(store).rows@[record.id as int],
            old(store).rows@[record.id as int],
            TxStatus::Expired,
            None,
            record.attempts,
            now,
        ),
        step is MarkMissingRaw && fence_holds(old(store).rows@, record.id, lease_owner@) ==> final(store).rows@ == old(store).rows@.update(record.id as int, final(store).rows@[record.id as int])
            && terminal_row_attempted(
            final(store).rows@[record.id as int],
            old(store).rows@[record.id as int],
            TxStatus::Invalid,
            final(store).rows@[record.id as int].last_error,
            record.attempts,
            now,
        ) && final(store).rows@[record.id as int].last_error is Some
            && final(store).rows@[record.id as int].last_error->0@ == "missing raw_tx"@,
        step is Send ==> final(store).rows@ == old(store).rows@,
{
    let expired = match record.expires_at {
        Some(e) => e <= now,
        None => false,
    };
    if expired {
        store.mark_terminal_if_leased(
            record.id,
            lease_owner,
            TxStatus::Expired,
            None,
            record.attempts,
            now,
        );
        return BroadcastStep::MarkExpired;
    }
    match &record.raw_tx {
        None => {
            let reason = String::from_str("missing raw_tx");
            store.mark_terminal_if_leased(
                record.id,
                lease_owner,
                TxStatus::Invalid,
                Some(reason),
                record.attempts,
                now,
            );
            BroadcastStep::MarkMissingRaw
        },
        Some(_) => BroadcastStep::Send,
    }
}

/// The informational error a non-terminal outcome carries into
/// `last_error`.
pub open spec fn spec_outcome_error(outcome: BroadcastOutcome) -> Option<Seq<char>> {
    match outcome {
        BroadcastOutcome::Accepted { error } => match error {
            Some(e) => Some(e@),
            None => None,
        },
        BroadcastOutcome::Retry { error } => Some(error@),
        BroadcastOutcome::Invalid { error } => Some(error@),
    }
}

/// Applies one broadcast outcome to a leased row, under the lease fence:
/// accepted and retryable outcomes reschedule the row with backoff and
/// re-enter its hash into the retry zone; an invalidity proof resolves the
/// row terminally. Returns whether the fence held.
pub fn apply_broadcast_outcome(
    store: &mut Store,
    index: &mut ReadyIndex,
    record: &TxRecord,
    lease_owner: &str,
    outcome: BroadcastOutcome,
    now: i64,
    retry_min_ms: u64,
    retry_max_ms: u64,
) -> (r: bool)
    requires
        old(store).wf(),
        old(index).wf(),
        retry_min_ms <= retry_max_ms,
        0 <= now,
        now + retry_max_ms <= i64::MAX,
        record.expires_at is Some ==> record.expires_at->0 >= 0,
        record.attempts < u32::MAX,
        fence_holds(old(store).rows@, record.id, lease_owner@) ==> old(store).rows@[record.id as int].attempts
            <= record.attempts,
    ensures
        final(store).wf(),
        final(index).wf(),
        final(store).rows@.len() == old(store).rows@.len(),
        terminal_frozen(old(store).rows@, final(store).rows@),
        attempts_monotone(old(store).rows@, final(store).rows@),
        r == fence_holds(old(store).rows@, record.id, lease_owner@),
        !r ==> final(store).rows@ == old(store).rows@ && *final(index) == *old(index),
        r ==> final(store).rows@ == old(store).rows@.update(
            record.id as int,
            final(store).rows@[record.id as int],
        ),
        r && !(outcome is Invalid) ==> {
            let next = spec_next_attempt(
                now,
                record.expires_at,
                (record.attempts + 1) as u64,
                retry_min_ms,
                retry_max_ms,
            );
            &&& rescheduled_row(
                final(store).rows@[record.id as int],
                old(store).rows@[record.id as int],
                TxStatus::RetryScheduled,
                next as i64,
                (record.attempts + 1) as u32,
                final(store).rows@[record.id as int].last_error,
                now,
            )
            &&& (final(store).rows@[record.id as int].last_error is Some <==> spec_outcome_error(
                outcome,
            ) is Some)
            &&& (final(store).rows@[record.id as int].last_error is Some ==> final(store).rows@[record.id as int].last_error->0@ == spec_outcome_error(outcome)->0)
            &&& zone_contains(
                final(index).retry.entries@,
                record.chain_id,
                record.tx_hash@,
                (next / 1000) as i64,
            )
            &&& !zone_has(final(index).ready.entries@, record.chain_id, record.tx_hash@)
        },
        r && outcome is Invalid ==> *final(index) == *old(index) && terminal_row_attempted(
            final(store).rows@[record.id as int],
            old(store).rows@[record.id as int],
            TxStatus::Invalid,
            final(store).rows@[record.id as int].last_error,
            (record.attempts + 1) as u32,
            now,
        ) && (final(store).rows@[record.id as int].last_error is Some && final(store).rows@[record.id as int].last_error->0@ == spec_outcome_error(outcome)->0),
{
    let attempts = record.attempts + 1;
    match outcome {
        BroadcastOutcome::Invalid { error } => {
            store.mark_terminal_if_leased(
                record.id,
                lease_owner,
                TxStatus::Invalid,
                Some(error),
                attempts,
                now,
            )
        },
        BroadcastOutcome::Accepted { error } => {
            let next = schedule_next_attempt(
                now,
                record.expires_at,
                attempts as u64,
                retry_min_ms,
                retry_max_ms,
            );
            let ok = store.reschedule_tx_if_leased(
                record.id,
                lease_owner,
                TxStatus::RetryScheduled,
                next,
                attempts,
                error,
                now,
            );
            if ok {
                index.remove(record.chain_id, record.tx_hash.as_slice());
                let score = ((next as u64) / 1000) as i64;
                proof {
                    assert(score == spec_next_attempt(
                        now,
                        record.expires_at,
                        (record.attempts + 1) as u64,
                        retry_min_ms,
                        retry_max_ms,
                    ) / 1000) by {
                        assert(next >= 0);
                    }
                }
                index.add_retry(record.chain_id, record.tx_hash.as_slice(), score);
            }
            ok
        },
        BroadcastOutcome::Retry { error } => {
            let next = schedule_next_attempt(
                now,
                record.expires_at,
                attempts as u64,
                retry_min_ms,
                retry_max_ms,
            );
            let ok = store.reschedule_tx_if_leased(
                record.id,
                lease_owner,
                TxStatus::RetryScheduled,
                next,
                attempts,
                Some(error),
                now,
            );
            if ok {
                index.remove(record.chain_id, record.tx_hash.as_slice());
                let score = ((next as u64) / 1000) as i64;
                proof {
                    assert(score == spec_next_attempt(
                        now,
                        record.expires_at,
                        (record.attempts + 1) as u64,
                        retry_min_ms,
                        retry_max_ms,
                    ) / 1000) by {
                        assert(next >= 0);
                    }
                }
                index.add_retry(record.chain_id, record.tx_hash.as_slice(), score);
            }
            ok
        },
    }
}


/// One scheduler tick's lease pass: pull due hashes from the index (ready
/// zone first), lease each by hash and drop it from both zones, then top
/// the batch up from the store directly. The index is advisory: its loss
/// or staleness never hides a due row, because the store top-up scans
/// eligibility authoritatively.
pub fn scheduler_tick(
    store: &mut Store,
    index: &mut ReadyIndex,
    chain_id: u64,
    now: i64,
    available: usize,
    lease_owner: &str,
    lease_until: i64,
) -> (r: Vec<TxRecord>)
    requires
        old(store).wf(),
        old(index).wf(),
        0 <= now,
        now <= lease_until,
    ensures
        final(store).wf(),
        final(index).wf(),
        final(store).rows@.len() == old(store).rows@.len(),
        terminal_frozen(old(store).rows@, final(store).rows@),
        attempts_monotone(old(store).rows@, final(store).rows@),
        r@.len() <= available,
        forall|k: int|
            0 <= k < r@.len() ==> {
                let i = (#[trigger] r@[k]).id as int;
                &&& 0 <= i < old(store).rows@.len()
                &&& spec_eligible(old(store).rows@[i], chain_id, now)
                &&& leased_row(
                    final(store).rows@[i],
                    old(store).rows@[i],
                    lease_owner@,
                    lease_until,
                    now,
                )
                &&& same_record(r@[k], final(store).rows@[i])
            },
        forall|k1: int, k2: int| 0 <= k1 < k2 < r@.len() ==> r@[k1].id != r@[k2].id,
        forall|i: int|
            0 <= i < old(store).rows@.len() && !id_in(r@, i) ==> final(store).rows@[i] == old(
                store,
            ).rows@[i],
        r@.len() < available ==> (forall|i: int|
            0 <= i < old(store).rows@.len() && spec_eligible(
                #[trigger] old(store).rows@[i],
                chain_id,
                now,
            ) ==> id_in(r@, i)),
{
    let ghost orig = *store;
    let now_seconds: i64 = (((now as u64)) / 1000) as i64;
    let due = index.fetch_due(chain_id, now_seconds, available);
    let mut leased: Vec<TxRecord> = Vec::new();
    let n_due = due.len();
    let mut d: usize = 0;
    while d < n_due
        invariant
            orig == *old(store),
            store.wf(),
            index.wf(),
            now <= lease_until,
            n_due == due@.len(),
            n_due <= available,
            d <= n_due,
            leased@.len() <= d,
            store.rows@.len() == orig.rows@.len(),
            terminal_frozen(orig.rows@, store.rows@),
            attempts_monotone(orig.rows@, store.rows@),
            forall|k: int|
                0 <= k < leased@.len() ==> {
                    let i = (#[trigger] leased@[k]).id as int;
                    &&& 0 <= i < orig.rows@.len()
                    &&& spec_eligible(orig.rows@[i], chain_id, now)
                    &&& leased_row(
                        store.rows@[i],
                        orig.rows@[i],
                        lease_owner@,
                        lease_until,
                        now,
                    )
                    &&& same_record(leased@[k], store.rows@[i])
                },
            forall|k1: int, k2: int|
                0 <= k1 < k2 < leased@.len() ==> leased@[k1].id != leased@[k2].id,
            forall|i: int|
                0 <= i < orig.rows@.len() && !id_in(leased@, i) ==> store.rows@[i] == orig.rows@[i],
        decreases n_due - d,
    {
        let ghost pre = *store;
        let ghost pre_leased = leased@;
        if leased.len() < available {
            match store.lease_tx_by_hash(
                chain_id,
                due[d].as_slice(),
                now,
                lease_owner,
                lease_until,
            ) {
                Some(rec) => {
                    proof {
                        let i = rec.id as int;
                        assert(!id_in(pre_leased, i)) by {
                            if id_in(pre_leased, i) {
                                let k = choose|k: int|
                                    0 <= k < pre_leased.len() && (#[trigger] pre_leased[k]).id
                                        as int == i;
                                assert(leased_row(pre.rows@[i], orig.rows@[i], lease_owner@,
                                    lease_until, now));
                                assert(!spec_eligible(pre.rows@[i], chain_id, now));
                            }
                        }
                        assert(pre.rows@[i] == orig.rows@[i]);
                    }
                    leased.push(rec);
                    proof {
                        assert(leased@.drop_last() =~= pre_leased);
                        let bi = leased@.last().id as int;
                        assert forall|k: int| 0 <= k < leased@.len() implies {
                            let i = (#[trigger] leased@[k]).id as int;
                            &&& 0 <= i < orig.rows@.len()
                            &&& spec_eligible(orig.rows@[i], chain_id, now)
                            &&& leased_row(
                                store.rows@[i],
                                orig.rows@[i],
                                lease_owner@,
                                lease_until,
                                now,
                            )
                            &&& same_record(leased@[k], store.rows@[i])
                        } by {
                            if k < pre_leased.len() {
                                assert(leased@[k] == pre_leased[k]);
                                let i = pre_leased[k].id as int;
                                assert(i != bi);
                                assert(store.rows@[i] == pre.rows@[i]);
                            } else {
                                assert(leased@[k] == leased@.last());
                            }
                        }
                        assert forall|i: int|
                            0 <= i < orig.rows@.len() && !id_in(leased@, i) implies store.rows@[i]
                            == orig.rows@[i] by {
                            if !id_in(leased@, i) {
                                assert(!id_in(pre_leased, i)) by {
                                    if id_in(pre_leased, i) {
                                        let k = choose|k: int|
                                            0 <= k < pre_leased.len() && (
                                            #[trigger] pre_leased[k]).id as int == i;
                                        assert(leased@[k] == pre_leased[k]);
                                    }
                                }
                                assert(i != bi) by {
                                    if i == bi {
                                        assert(leased@[leased@.len() - 1].id as int == i);
                                    }
                                }
                                assert(store.rows@[i] == pre.rows@[i]);
                            }
                        }
                        assert forall|k1: int, k2: int|
                            0 <= k1 < k2 < leased@.len() implies leased@[k1].id != leased@[k2].id
                            by {
                            if k2 == leased@.len() - 1 && k1 < pre_leased.len() {
                                assert(leased@[k1] == pre_leased[k1]);
                                assert(!id_in(pre_leased, bi));
                            }
                        }
                    }
                },
                None => {},
            }
        }
        index.remove(chain_id, due[d].as_slice());
        d = d + 1;
    }
    let remaining = available - leased.len();
    if remaining > 0 {
        let ghost mid = *store;
        let ghost hash_leased = leased@;
        let mut more = store.lease_due_txs(chain_id, now, lease_owner, lease_until, remaining);
        let ghost more_part = more@;
        let ghost got = more@.len();
        leased.append(&mut more);
        proof {
            assert(leased@ == hash_leased + more_part);
            assert(terminal_frozen(orig.rows@, store.rows@)) by {
                assert forall|i: int|
                    0 <= i < orig.rows@.len() && crate::status::spec_is_terminal(
                        (#[trigger] orig.rows@[i]).status,
                    ) implies store.rows@[i] == orig.rows@[i] by {
                    assert(mid.rows@[i] == orig.rows@[i]);
                    assert(store.rows@[i] == mid.rows@[i]);
                }
            }
            assert(attempts_monotone(orig.rows@, store.rows@)) by {
                assert forall|i: int|
                    0 <= i < orig.rows@.len() implies (#[trigger] orig.rows@[i]).attempts <= (
                #[trigger] store.rows@[i]).attempts by {
                    assert(orig.rows@[i].attempts <= mid.rows@[i].attempts);
                    assert(mid.rows@[i].attempts <= store.rows@[i].attempts);
                }
            }
            assert forall|k: int| 0 <= k < leased@.len() implies {
                let i = (#[trigger] leased@[k]).id as int;
                &&& 0 <= i < orig.rows@.len()
                &&& spec_eligible(orig.rows@[i], chain_id, now)
                &&& leased_row(store.rows@[i], orig.rows@[i], lease_owner@, lease_until, now)
                &&& same_record(leased@[k], store.rows@[i])
            } by {
                if k < hash_leased.len() {
                    assert(leased@[k] == hash_leased[k]);
                    let i = hash_leased[k].id as int;
                    assert(leased_row(mid.rows@[i], orig.rows@[i], lease_owner@, lease_until,
                        now));
                    assert(!spec_eligible(mid.rows@[i], chain_id, now));
                    assert(!id_in(more_part, i)) by {
                        if id_in(more_part, i) {
                            let x = choose|x: int|
                                0 <= x < more_part.len() && (#[trigger] more_part[x]).id as int
                                    == i;
                            assert(spec_eligible(mid.rows@[i], chain_id, now));
                        }
                    }
                    assert(store.rows@[i] == mid.rows@[i]);
                } else {
                    assert(leased@[k] == more_part[k - hash_leased.len()]);
                    let i = more_part[k - hash_leased.len()].id as int;
                    assert(spec_eligible(mid.rows@[i], chain_id, now));
                    assert(!id_in(hash_leased, i)) by {
                        if id_in(hash_leased, i) {
                            let x = choose|x: int|
                                0 <= x < hash_leased.len() && (#[trigger] hash_leased[x]).id
                                    as int == i;
                            assert(leased_row(mid.rows@[i], orig.rows@[i], lease_owner@,
                                lease_until, now));
                        }
                    }
                    assert(mid.rows@[i] == orig.rows@[i]);
                }
            }
            assert forall|k1: int, k2: int|
                0 <= k1 < k2 < leased@.len() implies leased@[k1].id != leased@[k2].id by {
                if k1 < hash_leased.len() && k2 >= hash_leased.len() {
                    let i1 = hash_leased[k1].id as int;
                    let i2 = more_part[k2 - hash_leased.len()].id as int;
                    if i1 == i2 {
                        assert(spec_eligible(mid.rows@[i2], chain_id, now));
                        assert(leased_row(mid.rows@[i1], orig.rows@[i1], lease_owner@,
                            lease_until, now));
                    }
                } else if k1 >= hash_leased.len() {
                    assert(leased@[k1] == more_part[k1 - hash_leased.len()]);
                    assert(leased@[k2] == more_part[k2 - hash_leased.len()]);
                } else {
                    assert(leased@[k1] == hash_leased[k1]);
                    assert(leased@[k2] == hash_leased[k2]);
                }
            }
            assert forall|i: int|
                0 <= i < orig.rows@.len() && !id_in(leased@, i) implies store.rows@[i]
                == orig.rows@[i] by {
                if !id_in(leased@, i) {
                    assert(!id_in(hash_leased, i) && !id_in(more_part, i)) by {
                        if id_in(hash_leased, i) {
                            let x = choose|x: int|
                                0 <= x < hash_leased.len() && (#[trigger] hash_leased[x]).id
                                    as int == i;
                            assert(leased@[x] == hash_leased[x]);
                        }
                        if id_in(more_part, i) {
                            let x = choose|x: int|
                                0 <= x < more_part.len() && (#[trigger] more_part[x]).id as int
                                    == i;
                            assert(leased@[hash_leased.len() + x] == more_part[x]);
                        }
                    }
                    assert(mid.rows@[i] == orig.rows@[i]);
                    assert(store.rows@[i] == mid.rows@[i]);
                }
            }
            if leased@.len() < available {
                assert(got < remaining);
                assert forall|i: int|
                    0 <= i < orig.rows@.len() && spec_eligible(
                        #[trigger] orig.rows@[i],
                        chain_id,
                        now,
                    ) implies id_in(leased@, i) by {
                    if !id_in(leased@, i) {
                        assert(!id_in(hash_leased, i)) by {
                            if id_in(hash_leased, i) {
                                let x = choose|x: int|
                                    0 <= x < hash_leased.len() && (#[trigger] hash_leased[x]).id
                                        as int == i;
                                assert(leased@[x] == hash_leased[x]);
                            }
                        }
                        assert(mid.rows@[i] == orig.rows@[i]);
                        assert(spec_eligible(mid.rows@[i], chain_id, now));
                        assert(id_in(more_part, i));
                        let x = choose|x: int|
                            0 <= x < more_part.len() && (#[trigger] more_part[x]).id as int == i;
                        assert(leased@[hash_leased.len() + x] == more_part[x]);
                    }
                }
            }
        }
    }
    leased
}

} // verus!
