//! The per-chain watcher's logic: expiring overdue rows, resolving rows
//! whose receipts have been observed, and marking rows superseded by the
//! on-chain nonce of their (sender, nonce key) lane. The poll loop and the
//! receipt and nonce reads are I/O and stay outside the library.

use vstd::prelude::*;
use crate::models::{bytes_eq, clone_bytes, TxRecord};
use crate::nonce_key::{is_random_nonce_key, spec_is_random_nonce_key};
use crate::status::{spec_is_terminal, TxStatus};
use crate::store::{attempts_monotone, terminal_frozen, terminal_row, Store};

verus! {

/// What the watcher does with one active row before reading its receipt.
#[derive(Debug, Clone, Copy, PartialEq, Eq, Structural)]
pub enum WatcherAction {
    /// The row's expiry has passed: expire it without any read.
    MarkExpired,
    /// Still live: fetch the receipt for its hash.
    CheckReceipt,
}

/// Decides the watcher's first move on a row: expiry beats everything.
pub fn watcher_row_action(record: &TxRecord, now: i64) -> (r: WatcherAction)
    ensures
        r is MarkExpired <==> record.expires_at is Some && record.expires_at->0 <= now,
{
    match record.expires_at {
        Some(e) => if e <= now {
            WatcherAction::MarkExpired
        } else {
            WatcherAction::CheckReceipt
        },
        None => WatcherAction::CheckReceipt,
    }
}

/// Expires a row whose `expires_at` has passed: the watcher's unfenced
/// expiry visit. Returns whether the row moved; a row already terminal or
/// not yet overdue is untouched.
pub fn watcher_expire_row(store: &mut Store, id: u64, now: i64) -> (r: bool)
    requires
        old(store).wf(),
    ensures
        final(store).wf(),
        final(store).rows@.len() == old(store).rows@.len(),
        terminal_frozen(old(store).rows@, final(store).rows@),
        attempts_monotone(old(store).rows@, final(store).rows@),
        r == ((id as int) < old(store).rows@.len() && !spec_is_terminal(
            old(store).rows@[id as int].status,
        ) && old(store).rows@[id as int].expires_at is Some && old(store).rows@[id as int].expires_at->0 <= now),
        r ==> final(store).rows@ == old(store).rows@.update(
            id as int,
            final(store).rows@[id as int],
        ) && terminal_row(
            final(store).rows@[id as int],
            old(store).rows@[id as int],
            TxStatus::Expired,
            None,
            now,
        ),
        !r ==> final(store).rows@ == old(store).rows@,
{
    if id >= store.rows.len() as u64 {
        return false;
    }
    let i = id as usize;
    if store.rows[i].status.is_terminal() {
        return false;
    }
    let overdue = match store.rows[i].expires_at {
        Some(e) => e <= now,
        None => false,
    };
    if !overdue {
        return false;
    }
    let moved = store.mark_terminal(id, TxStatus::Expired, None, now);
    moved
}

/// One (sender, nonce key) lane with still-pending rows.
pub struct PendingLane {
    pub sender: Vec<u8>,
    pub nonce_key: Vec<u8>,
}

/// Some pending row carries this lane's (sender, nonce key).
pub open spec fn lane_from_records(records: Seq<TxRecord>, lane: PendingLane) -> bool {
    exists|i: int|
        0 <= i < records.len() && (#[trigger] records[i]).sender@ == lane.sender@
            && records[i].nonce_key@ == lane.nonce_key@
}

/// A lane list carries this (sender, nonce key) pair.
pub open spec fn lane_listed(lanes: Seq<PendingLane>, sender: Seq<u8>, nonce_key: Seq<u8>) -> bool {
    exists|k: int|
        0 <= k < lanes.len() && (#[trigger] lanes[k]).sender@ == sender && lanes[k].nonce_key@
            == nonce_key
}

/// The distinct (sender, nonce key) lanes of the pending rows, leaving out
/// `random` lanes: those are non-monotonic and exempt from supersession.
pub fn pending_lanes(records: &Vec<TxRecord>) -> (r: Vec<PendingLane>)
    ensures
        forall|k1: int, k2: int|
            0 <= k1 < k2 < r@.len() ==> !((#[trigger] r@[k1]).sender@ == (
            #[trigger] r@[k2]).sender@ && r@[k1].nonce_key@ == r@[k2].nonce_key@),
        forall|k: int|
            0 <= k < r@.len() ==> !spec_is_random_nonce_key((#[trigger] r@[k]).nonce_key@)
                && lane_from_records(records@, r@[k]),
        forall|j: int|
            0 <= j < records@.len() && !spec_is_random_nonce_key(
                (#[trigger] records@[j]).nonce_key@,
            ) ==> lane_listed(r@, records@[j].sender@, records@[j].nonce_key@),
{
    let n = records.len();
    let mut out: Vec<PendingLane> = Vec::new();
    let mut j: usize = 0;
    while j < n
        invariant
            n == records@.len(),
            j <= n,
            forall|k1: int, k2: int|
                0 <= k1 < k2 < out@.len() ==> !((#[trigger] out@[k1]).sender@ == (
                #[trigger] out@[k2]).sender@ && out@[k1].nonce_key@ == out@[k2].nonce_key@),
            forall|k: int|
                0 <= k < out@.len() ==> !spec_is_random_nonce_key((#[trigger] out@[k]).nonce_key@)
                    && lane_from_records(records@, out@[k]),
            forall|i: int|
                0 <= i < j && !spec_is_random_nonce_key((#[trigger] records@[i]).nonce_key@)
                    ==> lane_listed(out@, records@[i].sender@, records@[i].nonce_key@),
        decreases n - j,
    {
        if !is_random_nonce_key(records[j].nonce_key.as_slice()) {
            let mut seen = false;
            let m = out.len();
            let mut k: usize = 0;
            while k < m
                invariant
                    m == out@.len(),
                    k <= m,
                    n == records@.len(),
                    j < n,
                    !spec_is_random_nonce_key(records@[j as int].nonce_key@),
                    forall|k1: int, k2: int|
                        0 <= k1 < k2 < out@.len() ==> !((#[trigger] out@[k1]).sender@ == (
                        #[trigger] out@[k2]).sender@ && out@[k1].nonce_key@ == out@[k2].nonce_key@),
                    forall|k0: int|
                        0 <= k0 < out@.len() ==> !spec_is_random_nonce_key(
                            (#[trigger] out@[k0]).nonce_key@,
                        ) && lane_from_records(records@, out@[k0]),
                    forall|i: int|
                        0 <= i < j && !spec_is_random_nonce_key((#[trigger] records@[i]).nonce_key@)
                            ==> lane_listed(out@, records@[i].sender@, records@[i].nonce_key@),
                    seen ==> lane_listed(out@, records@[j as int].sender@, records@[j as int].nonce_key@),
                    !seen ==> forall|x: int|
                        0 <= x < k ==> !((#[trigger] out@[x]).sender@ == records@[j as int].sender@
                            && out@[x].nonce_key@ == records@[j as int].nonce_key@),
                decreases m - k,
            {
                if bytes_eq(out[k].sender.as_slice(), records[j].sender.as_slice()) && bytes_eq(
                    out[k].nonce_key.as_slice(),
                    records[j].nonce_key.as_slice(),
                ) {
                    seen = true;
                }
                k = k + 1;
            }
            if !seen {
                let ghost pre_out = out@;
                out.push(
                    PendingLane {
                        sender: clone_bytes(&records[j].sender),
                        nonce_key: clone_bytes(&records[j].nonce_key),
                    },
                );
                proof {
                    assert(out@.last().sender@ == records@[j as int].sender@ && out@.last().nonce_key@
                        == records@[j as int].nonce_key@);
                    assert forall|k0: int|
                        0 <= k0 < out@.len() implies !spec_is_random_nonce_key(
                        (#[trigger] out@[k0]).nonce_key@,
                    ) && lane_from_records(records@, out@[k0]) by {
                        if k0 < pre_out.len() {
                            assert(out@[k0] == pre_out[k0]);
                        } else {
                            assert(records@[j as int].sender@ == out@[k0].sender@ && records@[
                                j as int
                            ].nonce_key@ == out@[k0].nonce_key@);
                        }
                    }
                    assert forall|i: int|
                        0 <= i < j + 1 && !spec_is_random_nonce_key(
                            (#[trigger] records@[i]).nonce_key@,
                        ) implies lane_listed(out@, records@[i].sender@, records@[i].nonce_key@) by {
                        if i < j {
                            let k0 = choose|k0: int|
                                0 <= k0 < pre_out.len() && (#[trigger] pre_out[k0]).sender@
                                    == records@[i].sender@ && pre_out[k0].nonce_key@
                                    == records@[i].nonce_key@;
                            assert(out@[k0] == pre_out[k0]);
                        } else {
                            assert(out@[out@.len() - 1].sender@ == records@[i].sender@);
                        }
                    }
                }
            }
        }
        j = j + 1;
    }
    out
}

/// Which interface serves the current nonce of a lane: the all-zero key is
/// the chain's default lane, read through the standard account-nonce call;
/// any other key is read through the dedicated contract interface.
#[derive(Debug, Clone, Copy, PartialEq, Eq, Structural)]
pub enum NonceSource {
    /// The standard transaction-count interface.
    Standard,
    /// The chain's nonce contract interface.
    Contract,
}

/// Decides where a lane's on-chain nonce is read from.
pub fn nonce_source(nonce_key: &[u8]) -> (r: NonceSource)
    ensures
        r is Standard <==> (forall|i: int|
            0 <= i < nonce_key@.len() ==> nonce_key@[i] == 0),
{
    let n = nonce_key.len();
    let mut i: usize = 0;
    while i < n
        invariant
            n == nonce_key@.len(),
            i <= n,
            forall|k: int| 0 <= k < i ==> nonce_key@[k] == 0,
        decreases n - i,
    {
        if nonce_key[i] != 0 {
            return NonceSource::Contract;
        }
        i = i + 1;
    }
    NonceSource::Standard
}

} // verus!
