//! The persistent store's state machine, modeled exactly: one row per
//! (chain, transaction hash), conditional updates only, and the store-wide
//! invariants — unique keys, terminal and lease field discipline, one
//! nonce key per group, and group validity windows ordered by nonce.
//!
//! Every mutation is a conditional single-row or filtered update, mirrors
//! one statement of the store adapter, and preserves two global laws: a
//! terminal row never changes again, and `attempts` never decreases.

use vstd::prelude::*;
use crate::models::{
    bytes_eq, clone_bytes, opt_view, same_record, GroupNonceWindow, NewTx, SenderGroupRecord,
    TxFilters, TxRecord,
};
use crate::status::{spec_is_terminal, str_eq, TxStatus};

verus! {

/// A row carries this (chain, hash) key.
pub open spec fn same_key(r: TxRecord, chain_id: u64, tx_hash: Seq<u8>) -> bool {
    r.chain_id == chain_id && r.tx_hash@ == tx_hash
}

/// Some row carries this (chain, hash) key.
pub open spec fn spec_known(rows: Seq<TxRecord>, chain_id: u64, tx_hash: Seq<u8>) -> bool {
    exists|j: int| 0 <= j < rows.len() && same_key(#[trigger] rows[j], chain_id, tx_hash)
}

/// A row belongs to the (chain, sender, group) group.
pub open spec fn in_group(r: TxRecord, chain_id: u64, sender: Seq<u8>, group_id: Seq<u8>) -> bool {
    &&& r.chain_id == chain_id
    &&& r.sender@ == sender
    &&& r.group_id is Some
    &&& r.group_id->0@ == group_id
}

/// Row identifiers equal row positions.
pub open spec fn ids_ok(rows: Seq<TxRecord>) -> bool {
    forall|i: int| 0 <= i < rows.len() ==> (#[trigger] rows[i]).id == i as u64
}

/// Every row satisfies the per-row field discipline.
pub open spec fn rows_wf(rows: Seq<TxRecord>) -> bool {
    forall|i: int| 0 <= i < rows.len() ==> (#[trigger] rows[i]).wf()
}

/// No two rows share a (chain, hash) key.
pub open spec fn unique_keys(rows: Seq<TxRecord>) -> bool {
    forall|i: int, j: int|
        0 <= i < j < rows.len() ==> !same_key(
            #[trigger] rows[i],
            (#[trigger] rows[j]).chain_id,
            rows[j].tx_hash@,
        )
}

/// All rows of one (chain, sender, group) share a single nonce key.
pub open spec fn groups_coherent(rows: Seq<TxRecord>) -> bool {
    forall|i: int, j: int|
        0 <= i < rows.len() && 0 <= j < rows.len() && (#[trigger] rows[i]).group_id is Some
            && in_group(
            #[trigger] rows[j],
            rows[i].chain_id,
            rows[i].sender@,
            rows[i].group_id->0@,
        ) ==> rows[i].nonce_key@ == rows[j].nonce_key@
}

/// Within a group, rows ordered by nonce have non-decreasing
/// `valid_before`: a later-nonce member may not expire first.
pub open spec fn windows_ordered(rows: Seq<TxRecord>) -> bool {
    forall|i: int, j: int|
        0 <= i < rows.len() && 0 <= j < rows.len() && (#[trigger] rows[i]).group_id is Some
            && in_group(#[trigger] rows[j], rows[i].chain_id, rows[i].sender@, rows[i].group_id->0@)
            && rows[i].nonce < rows[j].nonce && rows[i].valid_before is Some
            && rows[j].valid_before is Some ==> rows[i].valid_before->0 <= rows[j].valid_before->0
}

/// Creation times never decrease along row identifiers: rows are stamped
/// with the clock of their insert, and inserts see a non-decreasing clock.
pub open spec fn created_ordered(rows: Seq<TxRecord>) -> bool {
    forall|i: int, j: int|
        0 <= i < j < rows.len() ==> (#[trigger] rows[i]).created_at <= (
        #[trigger] rows[j]).created_at
}

/// Terminal rows never change.
pub open spec fn terminal_frozen(pre: Seq<TxRecord>, post: Seq<TxRecord>) -> bool {
    forall|i: int|
        0 <= i < pre.len() && spec_is_terminal((#[trigger] pre[i]).status) ==> post[i] == pre[i]
}

/// Attempt counters never decrease.
pub open spec fn attempts_monotone(pre: Seq<TxRecord>, post: Seq<TxRecord>) -> bool {
    forall|i: int|
        0 <= i < pre.len() ==> (#[trigger] pre[i]).attempts <= (#[trigger] post[i]).attempts
}

/// A row is due for leasing: on the chain, not terminal, its next action
/// time has come, and any previous lease has expired.
pub open spec fn spec_eligible(r: TxRecord, chain_id: u64, now: i64) -> bool {
    &&& r.chain_id == chain_id
    &&& !spec_is_terminal(r.status)
    &&& r.next_action_at is Some
    &&& r.next_action_at->0 <= now
    &&& (r.lease_until is None || r.lease_until->0 < now)
}

/// `post` is `pre` leased to `owner` until `until`: status moved to
/// `Broadcasting`, lease fields set, everything else untouched.
pub open spec fn leased_row(
    post: TxRecord,
    pre: TxRecord,
    owner: Seq<char>,
    until: i64,
    now: i64,
) -> bool {
    &&& same_identity(post, pre)
    &&& opt_view(post.raw_tx) == opt_view(pre.raw_tx)
    &&& post.status is Broadcasting
    &&& post.lease_owner is Some
    &&& post.lease_owner->0@ == owner
    &&& post.lease_until == Some(until)
    &&& post.next_action_at == pre.next_action_at
    &&& post.attempts == pre.attempts
    &&& post.last_error == pre.last_error
    &&& post.last_broadcast_at == pre.last_broadcast_at
    &&& post.receipt == pre.receipt
    &&& post.updated_at == now
}

/// The immutable data of a row: everything no update ever touches.
pub open spec fn same_identity(a: TxRecord, b: TxRecord) -> bool {
    &&& a.id == b.id
    &&& a.chain_id == b.chain_id
    &&& a.tx_hash@ == b.tx_hash@
    &&& a.sender@ == b.sender@
    &&& opt_view(a.fee_payer) == opt_view(b.fee_payer)
    &&& a.nonce_key@ == b.nonce_key@
    &&& a.nonce == b.nonce
    &&& a.valid_after == b.valid_after
    &&& a.valid_before == b.valid_before
    &&& a.eligible_at == b.eligible_at
    &&& a.expires_at == b.expires_at
    &&& opt_view(a.group_id) == opt_view(b.group_id)
    &&& a.created_at == b.created_at
}

/// A new transaction is compatible with the rows already stored: any
/// stored row of the same group shares the nonce key, and validity
/// windows respect the nonce order in both directions.
pub open spec fn group_compatible(rows: Seq<TxRecord>, n: NewTx) -> bool {
    forall|i: int|
        0 <= i < rows.len() && n.group_id is Some && in_group(
            #[trigger] rows[i],
            n.chain_id,
            n.sender@,
            n.group_id->0@,
        ) ==> {
            &&& rows[i].nonce_key@ == n.nonce_key@
            &&& (rows[i].nonce < n.nonce && rows[i].valid_before is Some && n.valid_before is Some
                ==> rows[i].valid_before->0 <= n.valid_before->0)
            &&& (n.nonce < rows[i].nonce && rows[i].valid_before is Some && n.valid_before is Some
                ==> n.valid_before->0 <= rows[i].valid_before->0)
        }
}

/// The row an insert appends for a new transaction.
pub open spec fn inserted_row(r: TxRecord, n: NewTx, id: u64, now: i64) -> bool {
    &&& r.id == id
    &&& r.chain_id == n.chain_id
    &&& r.tx_hash@ == n.tx_hash@
    &&& opt_view(r.raw_tx) == Some(n.raw_tx@)
    &&& r.sender@ == n.sender@
    &&& opt_view(r.fee_payer) == opt_view(n.fee_payer)
    &&& r.nonce_key@ == n.nonce_key@
    &&& r.nonce == n.nonce
    &&& r.valid_after == n.valid_after
    &&& r.valid_before == n.valid_before
    &&& r.eligible_at == n.eligible_at
    &&& r.expires_at == n.expires_at
    &&& r.status is Queued
    &&& opt_view(r.group_id) == opt_view(n.group_id)
    &&& r.next_action_at == Some(n.next_action_at)
    &&& r.lease_owner is None
    &&& r.lease_until is None
    &&& r.attempts == 0
    &&& r.last_error is None
    &&& r.last_broadcast_at is None
    &&& r.receipt is None
    &&& r.created_at == now
    &&& r.updated_at == now
}

/// The in-memory store: the source of truth for every row.
pub struct Store {
    pub rows: Vec<TxRecord>,
}

impl Store {
    /// The store-wide invariants: positional identifiers, per-row field
    /// discipline, unique (chain, hash) keys, group nonce-key coherence,
    /// and nonce-ordered validity windows.
    pub open spec fn wf(&self) -> bool {
        &&& ids_ok(self.rows@)
        &&& rows_wf(self.rows@)
        &&& unique_keys(self.rows@)
        &&& groups_coherent(self.rows@)
        &&& windows_ordered(self.rows@)
        &&& created_ordered(self.rows@)
    }

    /// An empty store.
    pub fn new() -> (s: Store)
        ensures
            s.wf(),
            s.rows@.len() == 0,
    {
        Store { rows: Vec::new() }
    }

    /// Inserts one prepared transaction. Idempotent on (chain, hash): a
    /// conflicting insert mutates nothing and returns the stored row with
    /// `already_known` true; otherwise the row is appended as `Queued`.
    pub fn insert_tx(&mut self, new_tx: &NewTx, now: i64) -> (r: (TxRecord, bool))
        requires
            old(self).wf(),
            new_tx.wf(),
            group_compatible(old(self).rows@, *new_tx),
            old(self).rows@.len() < u64::MAX,
            old(self).rows@.len() > 0 ==> old(self).rows@.last().created_at <= now,
        ensures
            final(self).wf(),
            r.1 == spec_known(old(self).rows@, new_tx.chain_id, new_tx.tx_hash@),
            r.1 ==> final(self).rows@ == old(self).rows@,
            r.1 ==> exists|j: int|
                0 <= j < final(self).rows@.len() && same_key(
                    #[trigger] final(self).rows@[j],
                    new_tx.chain_id,
                    new_tx.tx_hash@,
                ) && same_record(r.0, final(self).rows@[j]),
            !r.1 ==> {
                &&& final(self).rows@.len() == old(self).rows@.len() + 1
                &&& final(self).rows@ == old(self).rows@.push(final(self).rows@.last())
                &&& inserted_row(
                    final(self).rows@.last(),
                    *new_tx,
                    old(self).rows@.len() as u64,
                    now,
                )
                &&& same_record(r.0, final(self).rows@.last())
            },
            terminal_frozen(old(self).rows@, final(self).rows@),
            attempts_monotone(old(self).rows@, final(self).rows@),
    {
        let n = self.rows.len();
        let mut j: usize = 0;
        while j < n
            invariant
                *self == *old(self),
                old(self).wf(),
                n == self.rows@.len(),
                j <= n,
                forall|k: int|
                    0 <= k < j ==> !same_key(
                        #[trigger] self.rows@[k],
                        new_tx.chain_id,
                        new_tx.tx_hash@,
                    ),
            decreases n - j,
        {
            if self.rows[j].chain_id == new_tx.chain_id && bytes_eq(
                self.rows[j].tx_hash.as_slice(),
                new_tx.tx_hash.as_slice(),
            ) {
                let found = self.rows[j].duplicate();
                proof {
                    assert(same_key(self.rows@[j as int], new_tx.chain_id, new_tx.tx_hash@));
                }
                return (found, true);
            }
            j = j + 1;
        }
        let row = TxRecord {
            id: n as u64,
            chain_id: new_tx.chain_id,
            tx_hash: clone_bytes(&new_tx.tx_hash),
            raw_tx: Some(clone_bytes(&new_tx.raw_tx)),
            sender: clone_bytes(&new_tx.sender),
            fee_payer: crate::models::clone_opt_bytes(&new_tx.fee_payer),
            nonce_key: clone_bytes(&new_tx.nonce_key),
            nonce: new_tx.nonce,
            valid_after: new_tx.valid_after,
            valid_before: new_tx.valid_before,
            eligible_at: new_tx.eligible_at,
            expires_at: new_tx.expires_at,
            status: TxStatus::Queued,
            group_id: crate::models::clone_opt_bytes(&new_tx.group_id),
            next_action_at: Some(new_tx.next_action_at),
            lease_owner: None,
            lease_until: None,
            attempts: 0,
            last_error: None,
            last_broadcast_at: None,
            receipt: None,
            created_at: now,
            updated_at: now,
        };
        let copy = row.duplicate();
        self.rows.push(row);
        proof {
            let rows = self.rows@;
            let pre = old(self).rows@;
            let new_i = pre.len() as int;
            assert(rows.last() == rows[new_i]);
            assert(inserted_row(rows[new_i], *new_tx, pre.len() as u64, now));
            assert(rows[new_i].wf());
            assert(ids_ok(rows)) by {
                assert(forall|i: int| 0 <= i < pre.len() ==> rows[i] == #[trigger] pre[i]);
            }
            assert(created_ordered(rows)) by {
                assert forall|a: int, b: int|
                    0 <= a < b < rows.len() implies (#[trigger] rows[a]).created_at <= (
                #[trigger] rows[b]).created_at by {
                    if b == new_i {
                        if a < new_i - 1 {
                            assert(pre[a].created_at <= pre[new_i - 1].created_at);
                        }
                        assert(pre.last().created_at <= now);
                    } else {
                        assert(rows[a] == pre[a] && rows[b] == pre[b]);
                    }
                }
            }
            assert(unique_keys(rows)) by {
                assert(forall|i: int|
                    0 <= i < new_i ==> !same_key(
                        #[trigger] rows[i],
                        rows[new_i].chain_id,
                        rows[new_i].tx_hash@,
                    ));
            }
            assert(groups_coherent(rows)) by {
                assert forall|i: int, k: int|
                    0 <= i < rows.len() && 0 <= k < rows.len() && (#[trigger] rows[i]).group_id
                        is Some && in_group(
                        #[trigger] rows[k],
                        rows[i].chain_id,
                        rows[i].sender@,
                        rows[i].group_id->0@,
                    ) implies rows[i].nonce_key@ == rows[k].nonce_key@ by {
                    if i < new_i && k < new_i {
                        assert(rows[i] == pre[i] && rows[k] == pre[k]);
                    } else if i == new_i && k < new_i {
                        assert(in_group(pre[k], new_tx.chain_id, new_tx.sender@,
                            new_tx.group_id->0@));
                    } else if i < new_i && k == new_i {
                        assert(in_group(pre[i], new_tx.chain_id, new_tx.sender@,
                            new_tx.group_id->0@));
                    }
                }
            }
            assert(windows_ordered(rows)) by {
                assert forall|i: int, k: int|
                    0 <= i < rows.len() && 0 <= k < rows.len() && (#[trigger] rows[i]).group_id
                        is Some && in_group(
                        #[trigger] rows[k],
                        rows[i].chain_id,
                        rows[i].sender@,
                        rows[i].group_id->0@,
                    ) && rows[i].nonce < rows[k].nonce && rows[i].valid_before is Some
                        && rows[k].valid_before is Some implies rows[i].valid_before->0
                    <= rows[k].valid_before->0 by {
                    if i < new_i && k < new_i {
                        assert(rows[i] == pre[i] && rows[k] == pre[k]);
                    } else if i == new_i && k < new_i {
                        assert(in_group(pre[k], new_tx.chain_id, new_tx.sender@,
                            new_tx.group_id->0@));
                    } else if i < new_i && k == new_i {
                        assert(in_group(pre[i], new_tx.chain_id, new_tx.sender@,
                            new_tx.group_id->0@));
                    }
                }
            }
        }
        (copy, false)
    }

    /// Looks a row up by hash: with a chain given, the unique row of that
    /// (chain, hash); without, the most recently stored row of the hash.
    pub fn get_tx_by_hash(&self, chain_id: Option<u64>, tx_hash: &[u8]) -> (r: Option<TxRecord>)
        ensures
            r is Some <==> exists|j: int|
                0 <= j < self.rows@.len() && hash_match(#[trigger] self.rows@[j], chain_id, tx_hash@),
            r is Some ==> exists|j: int|
                0 <= j < self.rows@.len() && hash_match(#[trigger] self.rows@[j], chain_id, tx_hash@)
                    && same_record(r->0, self.rows@[j]) && (forall|k: int|
                    j < k < self.rows@.len() ==> !hash_match(
                        #[trigger] self.rows@[k],
                        chain_id,
                        tx_hash@,
                    )),
    {
        let n = self.rows.len();
        let mut i: usize = n;
        while i > 0
            invariant
                n == self.rows@.len(),
                i <= n,
                forall|k: int|
                    i <= k < n ==> !hash_match(#[trigger] self.rows@[k], chain_id, tx_hash@),
            decreases i,
        {
            i = i - 1;
            let chain_ok = match chain_id {
                Some(c) => self.rows[i].chain_id == c,
                None => true,
            };
            if chain_ok && bytes_eq(self.rows[i].tx_hash.as_slice(), tx_hash) {
                proof {
                    assert(hash_match(self.rows@[i as int], chain_id, tx_hash@));
                }
                return Some(self.rows[i].duplicate());
            }
        }
        None
    }
}

/// A row matches a lookup by hash, under an optional chain filter.
pub open spec fn hash_match(r: TxRecord, chain_id: Option<u64>, tx_hash: Seq<u8>) -> bool {
    &&& (chain_id is Some ==> r.chain_id == chain_id->0)
    &&& r.tx_hash@ == tx_hash
}

impl Store {
    /// The nonce key of a (chain, sender, group), where the group has
    /// rows. All its rows share the key, so any member's key is the answer.
    pub fn get_group_nonce_key(&self, chain_id: u64, sender: &[u8], group_id: &[u8]) -> (r: Option<
        Vec<u8>,
    >)
        requires
            self.wf(),
        ensures
            r is Some <==> exists|j: int|
                0 <= j < self.rows@.len() && in_group(
                    #[trigger] self.rows@[j],
                    chain_id,
                    sender@,
                    group_id@,
                ),
            r is Some ==> forall|j: int|
                0 <= j < self.rows@.len() && in_group(
                    #[trigger] self.rows@[j],
                    chain_id,
                    sender@,
                    group_id@,
                ) ==> r->0@ == self.rows@[j].nonce_key@,
    {
        let n = self.rows.len();
        let mut i: usize = 0;
        while i < n
            invariant
                self.wf(),
                n == self.rows@.len(),
                i <= n,
                forall|k: int|
                    0 <= k < i ==> !in_group(#[trigger] self.rows@[k], chain_id, sender@, group_id@),
            decreases n - i,
        {
            let matches_group = self.rows[i].chain_id == chain_id && bytes_eq(
                self.rows[i].sender.as_slice(),
                sender,
            ) && (match &self.rows[i].group_id {
                Some(g) => bytes_eq(g.as_slice(), group_id),
                None => false,
            });
            if matches_group {
                return Some(clone_bytes(&self.rows[i].nonce_key));
            }
            i = i + 1;
        }
        None
    }

    /// The (nonce, valid_before) windows of every row of a group.
    pub fn get_group_nonce_windows(&self, chain_id: u64, sender: &[u8], group_id: &[u8]) -> (r: Vec<
        GroupNonceWindow,
    >)
        ensures
            forall|j: int|
                0 <= j < self.rows@.len() && in_group(
                    #[trigger] self.rows@[j],
                    chain_id,
                    sender@,
                    group_id@,
                ) ==> row_covered(r@, self.rows@[j]),
            forall|k: int|
                0 <= k < r@.len() ==> window_covered(
                    self.rows@,
                    chain_id,
                    sender@,
                    group_id@,
                    #[trigger] r@[k],
                ),
    {
        let n = self.rows.len();
        let mut out: Vec<GroupNonceWindow> = Vec::new();
        let mut i: usize = 0;
        while i < n
            invariant
                n == self.rows@.len(),
                i <= n,
                forall|j: int|
                    0 <= j < i && in_group(#[trigger] self.rows@[j], chain_id, sender@, group_id@)
                        ==> row_covered(out@, self.rows@[j]),
                forall|k: int|
                    0 <= k < out@.len() ==> window_covered(
                        self.rows@,
                        chain_id,
                        sender@,
                        group_id@,
                        #[trigger] out@[k],
                    ),
            decreases n - i,
        {
            let ghost pre_out = out@;
            let matches_group = self.rows[i].chain_id == chain_id && bytes_eq(
                self.rows[i].sender.as_slice(),
                sender,
            ) && (match &self.rows[i].group_id {
                Some(g) => bytes_eq(g.as_slice(), group_id),
                None => false,
            });
            if matches_group {
                out.push(
                    GroupNonceWindow {
                        nonce: self.rows[i].nonce,
                        valid_before: self.rows[i].valid_before,
                    },
                );
            }
            i = i + 1;
            proof {
                let rows = self.rows@;
                assert forall|j: int|
                    0 <= j < i && in_group(#[trigger] rows[j], chain_id, sender@, group_id@)
                    implies row_covered(out@, rows[j]) by {
                    if j == i - 1 {
                        let k = out@.len() - 1;
                        assert(0 <= k < out@.len() && out@[k].nonce == rows[j].nonce
                            && out@[k].valid_before == rows[j].valid_before);
                    } else {
                        let k = choose|k: int|
                            0 <= k < pre_out.len() && (#[trigger] pre_out[k]).nonce == rows[j].nonce
                                && pre_out[k].valid_before == rows[j].valid_before;
                        assert(0 <= k < out@.len() && out@[k].nonce == rows[j].nonce
                            && out@[k].valid_before == rows[j].valid_before);
                    }
                }
                assert forall|k: int| 0 <= k < out@.len() implies window_covered(
                    rows,
                    chain_id,
                    sender@,
                    group_id@,
                    #[trigger] out@[k],
                ) by {
                    if k < pre_out.len() {
                        assert(out@[k] == pre_out[k]);
                    } else {
                        assert(in_group(rows[i - 1], chain_id, sender@, group_id@));
                        assert(out@[k].nonce == rows[i - 1].nonce && out@[k].valid_before == rows[i
                            - 1].valid_before);
                    }
                }
            }
        }
        out
    }
}

/// Some group row carries this window.
pub open spec fn window_covered(
    rows: Seq<TxRecord>,
    chain_id: u64,
    sender: Seq<u8>,
    group_id: Seq<u8>,
    w: GroupNonceWindow,
) -> bool {
    exists|j: int|
        0 <= j < rows.len() && in_group(#[trigger] rows[j], chain_id, sender, group_id) && w.nonce
            == rows[j].nonce && w.valid_before == rows[j].valid_before
}

/// Some collected window carries this row's (nonce, valid_before).
pub open spec fn row_covered(out: Seq<GroupNonceWindow>, r: TxRecord) -> bool {
    exists|k: int|
        0 <= k < out.len() && (#[trigger] out[k]).nonce == r.nonce && out[k].valid_before
            == r.valid_before
}


/// The reschedule fence: the row exists, is still `Broadcasting`, and is
/// still held by this owner.
pub open spec fn fence_holds(rows: Seq<TxRecord>, id: u64, owner: Seq<char>) -> bool {
    &&& (id as int) < rows.len()
    &&& rows[id as int].status is Broadcasting
    &&& rows[id as int].lease_owner is Some
    &&& rows[id as int].lease_owner->0@ == owner
}

/// `post` is `pre` rescheduled: new status and next action time, a new
/// attempt count and error text, the broadcast time stamped, the lease
/// released.
pub open spec fn rescheduled_row(
    post: TxRecord,
    pre: TxRecord,
    status: TxStatus,
    next_action_at: i64,
    attempts: u32,
    last_error: Option<String>,
    now: i64,
) -> bool {
    &&& same_identity(post, pre)
    &&& opt_view(post.raw_tx) == opt_view(pre.raw_tx)
    &&& post.status == status
    &&& post.next_action_at == Some(next_action_at)
    &&& post.attempts == attempts
    &&& post.last_error == last_error
    &&& post.last_broadcast_at == Some(now)
    &&& post.lease_owner is None
    &&& post.lease_until is None
    &&& post.receipt == pre.receipt
    &&& post.updated_at == now
}

/// `post` is `pre` moved to a terminal status: error text as given, the
/// next action cleared, the lease released, everything else kept.
pub open spec fn terminal_row(
    post: TxRecord,
    pre: TxRecord,
    status: TxStatus,
    last_error: Option<String>,
    now: i64,
) -> bool {
    &&& same_identity(post, pre)
    &&& opt_view(post.raw_tx) == opt_view(pre.raw_tx)
    &&& post.status == status
    &&& post.last_error == last_error
    &&& post.next_action_at is None
    &&& post.lease_owner is None
    &&& post.lease_until is None
    &&& post.attempts == pre.attempts
    &&& post.last_broadcast_at == pre.last_broadcast_at
    &&& post.receipt == pre.receipt
    &&& post.updated_at == now
}

/// `post` is `pre` resolved terminally by a broadcast worker: as
/// `terminal_row`, but recording the attempt count of the try that
/// produced the proof.
pub open spec fn terminal_row_attempted(
    post: TxRecord,
    pre: TxRecord,
    status: TxStatus,
    last_error: Option<String>,
    attempts: u32,
    now: i64,
) -> bool {
    &&& same_identity(post, pre)
    &&& opt_view(post.raw_tx) == opt_view(pre.raw_tx)
    &&& post.status == status
    &&& post.last_error == last_error
    &&& post.next_action_at is None
    &&& post.lease_owner is None
    &&& post.lease_until is None
    &&& post.attempts == attempts
    &&& post.last_broadcast_at == pre.last_broadcast_at
    &&& post.receipt == pre.receipt
    &&& post.updated_at == now
}

/// Replacing one row with a well-formed row of the same identity keeps
/// every store-wide invariant.
proof fn lemma_wf_update(rows: Seq<TxRecord>, i: int, r: TxRecord)
    requires
        ids_ok(rows),
        rows_wf(rows),
        unique_keys(rows),
        groups_coherent(rows),
        windows_ordered(rows),
        created_ordered(rows),
        0 <= i < rows.len(),
        same_identity(r, rows[i]),
        r.wf(),
    ensures
        ids_ok(rows.update(i, r)),
        rows_wf(rows.update(i, r)),
        unique_keys(rows.update(i, r)),
        groups_coherent(rows.update(i, r)),
        windows_ordered(rows.update(i, r)),
        created_ordered(rows.update(i, r)),
{
    assert forall|a: int, b: int|
        0 <= a < b < rows.update(i, r).len() implies (#[trigger] rows.update(i, r)[a]).created_at
        <= (#[trigger] rows.update(i, r)[b]).created_at by {
        assert(rows.update(i, r)[a].created_at == rows[a].created_at);
        assert(rows.update(i, r)[b].created_at == rows[b].created_at);
    }
    let post = rows.update(i, r);
    assert(r.group_id is Some <==> rows[i].group_id is Some);
    assert(r.group_id is Some ==> r.group_id->0@ == rows[i].group_id->0@);
    assert forall|a: int, b: int|
        0 <= a < b < post.len() implies !same_key(
        #[trigger] post[a],
        (#[trigger] post[b]).chain_id,
        post[b].tx_hash@,
    ) by {
        assert(!same_key(rows[a], rows[b].chain_id, rows[b].tx_hash@));
    }
    assert forall|a: int, b: int|
        0 <= a < post.len() && 0 <= b < post.len() && (#[trigger] post[a]).group_id is Some
            && in_group(#[trigger] post[b], post[a].chain_id, post[a].sender@, post[a].group_id->0@)
        implies post[a].nonce_key@ == post[b].nonce_key@ by {
        assert(rows[a].group_id is Some && in_group(rows[b], rows[a].chain_id, rows[a].sender@,
            rows[a].group_id->0@));
    }
    assert forall|a: int, b: int|
        0 <= a < post.len() && 0 <= b < post.len() && (#[trigger] post[a]).group_id is Some
            && in_group(#[trigger] post[b], post[a].chain_id, post[a].sender@, post[a].group_id->0@)
            && post[a].nonce < post[b].nonce && post[a].valid_before is Some
            && post[b].valid_before is Some implies post[a].valid_before->0
        <= post[b].valid_before->0 by {
        assert(rows[a].group_id is Some && in_group(rows[b], rows[a].chain_id, rows[a].sender@,
            rows[a].group_id->0@));
    }
}

impl Store {
    /// Fenced reschedule: succeeds only while the row is still
    /// `Broadcasting` under this owner, so a zombie worker whose lease was
    /// reclaimed can never overwrite fresh state. Returns whether the
    /// fence held.
    pub fn reschedule_tx_if_leased(
        &mut self,
        id: u64,
        lease_owner: &str,
        status: TxStatus,
        next_action_at: i64,
        attempts: u32,
        last_error: Option<String>,
        now: i64,
    ) -> (r: bool)
        requires
            old(self).wf(),
            status is RetryScheduled || status is Queued,
            fence_holds(old(self).rows@, id, lease_owner@) ==> attempts >= old(self).rows@[id as int].attempts,
        ensures
            final(self).wf(),
            r == fence_holds(old(self).rows@, id, lease_owner@),
            r ==> final(self).rows@ == old(self).rows@.update(
                id as int,
                final(self).rows@[id as int],
            ) && rescheduled_row(
                final(self).rows@[id as int],
                old(self).rows@[id as int],
                status,
                next_action_at,
                attempts,
                last_error,
                now,
            ),
            !r ==> final(self).rows@ == old(self).rows@,
            terminal_frozen(old(self).rows@, final(self).rows@),
            attempts_monotone(old(self).rows@, final(self).rows@),
    {
        if id >= self.rows.len() as u64 {
            return false;
        }
        let i = id as usize;
        let fenced = match (&self.rows[i].status, &self.rows[i].lease_owner) {
            (TxStatus::Broadcasting, Some(owner)) => str_eq(owner.as_str(), lease_owner),
            _ => false,
        };
        if !fenced {
            return false;
        }
        let mut row = self.rows[i].duplicate();
        row.status = status;
        row.next_action_at = Some(next_action_at);
        row.attempts = attempts;
        row.last_error = last_error;
        row.last_broadcast_at = Some(now);
        row.lease_owner = None;
        row.lease_until = None;
        row.updated_at = now;
        proof {
            lemma_wf_update(self.rows@, i as int, row);
        }
        self.rows[i] = row;
        true
    }

    /// Fenced variant that parks the row: it stays `Broadcasting` with no
    /// next action, invisible to leasing until recovery picks it up. The
    /// lease tag stays on the parked row, so in-flight rows always carry
    /// their lease.
    pub fn mark_broadcasted_if_leased(
        &mut self,
        id: u64,
        lease_owner: &str,
        attempts: u32,
        last_error: Option<String>,
        now: i64,
    ) -> (r: bool)
        requires
            old(self).wf(),
            fence_holds(old(self).rows@, id, lease_owner@) ==> attempts >= old(self).rows@[id as int].attempts,
        ensures
            final(self).wf(),
            r == fence_holds(old(self).rows@, id, lease_owner@),
            r ==> final(self).rows@ == old(self).rows@.update(
                id as int,
                final(self).rows@[id as int],
            ) && {
                let post = final(self).rows@[id as int];
                let pre = old(self).rows@[id as int];
                &&& same_identity(post, pre)
                &&& opt_view(post.raw_tx) == opt_view(pre.raw_tx)
                &&& post.status is Broadcasting
                &&& post.next_action_at is None
                &&& post.attempts == attempts
                &&& post.last_error == last_error
                &&& post.last_broadcast_at == Some(now)
                &&& post.lease_owner == pre.lease_owner
                &&& post.lease_until == pre.lease_until
                &&& post.receipt == pre.receipt
                &&& post.updated_at == now
            },
            !r ==> final(self).rows@ == old(self).rows@,
            terminal_frozen(old(self).rows@, final(self).rows@),
            attempts_monotone(old(self).rows@, final(self).rows@),
    {
        if id >= self.rows.len() as u64 {
            return false;
        }
        let i = id as usize;
        let fenced = match (&self.rows[i].status, &self.rows[i].lease_owner) {
            (TxStatus::Broadcasting, Some(owner)) => str_eq(owner.as_str(), lease_owner),
            _ => false,
        };
        if !fenced {
            return false;
        }
        let mut row = self.rows[i].duplicate();
        row.next_action_at = None;
        row.attempts = attempts;
        row.last_error = last_error;
        row.last_broadcast_at = Some(now);
        row.updated_at = now;
        proof {
            lemma_wf_update(self.rows@, i as int, row);
        }
        self.rows[i] = row;
        true
    }

    /// Fenced terminal write: same fence as the reschedule. Records the
    /// attempt count of the broadcast try that produced the proof.
    pub fn mark_terminal_if_leased(
        &mut self,
        id: u64,
        lease_owner: &str,
        status: TxStatus,
        last_error: Option<String>,
        attempts: u32,
        now: i64,
    ) -> (r: bool)
        requires
            old(self).wf(),
            spec_is_terminal(status),
            fence_holds(old(self).rows@, id, lease_owner@) ==> attempts >= old(
                self,
            ).rows@[id as int].attempts,
        ensures
            final(self).wf(),
            r == fence_holds(old(self).rows@, id, lease_owner@),
            r ==> final(self).rows@ == old(self).rows@.update(
                id as int,
                final(self).rows@[id as int],
            ) && terminal_row_attempted(
                final(self).rows@[id as int],
                old(self).rows@[id as int],
                status,
                last_error,
                attempts,
                now,
            ),
            !r ==> final(self).rows@ == old(self).rows@,
            terminal_frozen(old(self).rows@, final(self).rows@),
            attempts_monotone(old(self).rows@, final(self).rows@),
    {
        if id >= self.rows.len() as u64 {
            return false;
        }
        let i = id as usize;
        let fenced = match (&self.rows[i].status, &self.rows[i].lease_owner) {
            (TxStatus::Broadcasting, Some(owner)) => str_eq(owner.as_str(), lease_owner),
            _ => false,
        };
        if !fenced {
            return false;
        }
        let mut row = self.rows[i].duplicate();
        row.status = status;
        row.last_error = last_error;
        row.next_action_at = None;
        row.lease_owner = None;
        row.lease_until = None;
        row.attempts = attempts;
        row.updated_at = now;
        proof {
            lemma_wf_update(self.rows@, i as int, row);
        }
        self.rows[i] = row;
        true
    }

    /// Unfenced terminal write, used by the watcher: external truth wins
    /// over any lease, but a terminal row is never overwritten, so
    /// terminal states stay absorbing.
    pub fn mark_terminal(
        &mut self,
        id: u64,
        status: TxStatus,
        last_error: Option<String>,
        now: i64,
    ) -> (r: bool)
        requires
            old(self).wf(),
            spec_is_terminal(status),
        ensures
            final(self).wf(),
            r == ((id as int) < old(self).rows@.len() && !spec_is_terminal(
                old(self).rows@[id as int].status,
            )),
            r ==> final(self).rows@ == old(self).rows@.update(
                id as int,
                final(self).rows@[id as int],
            ) && terminal_row(
                final(self).rows@[id as int],
                old(self).rows@[id as int],
                status,
                last_error,
                now,
            ),
            !r ==> final(self).rows@ == old(self).rows@,
            terminal_frozen(old(self).rows@, final(self).rows@),
            attempts_monotone(old(self).rows@, final(self).rows@),
    {
        if id >= self.rows.len() as u64 {
            return false;
        }
        let i = id as usize;
        if self.rows[i].status.is_terminal() {
            return false;
        }
        let mut row = self.rows[i].duplicate();
        row.status = status;
        row.last_error = last_error;
        row.next_action_at = None;
        row.lease_owner = None;
        row.lease_until = None;
        row.updated_at = now;
        proof {
            lemma_wf_update(self.rows@, i as int, row);
        }
        self.rows[i] = row;
        true
    }

    /// Unfenced executed write: stores the receipt payload and resolves
    /// the row; a no-op on rows already terminal.
    pub fn mark_executed(&mut self, id: u64, receipt: String, now: i64) -> (r: bool)
        requires
            old(self).wf(),
        ensures
            final(self).wf(),
            r == ((id as int) < old(self).rows@.len() && !spec_is_terminal(
                old(self).rows@[id as int].status,
            )),
            r ==> final(self).rows@ == old(self).rows@.update(
                id as int,
                final(self).rows@[id as int],
            ) && {
                let post = final(self).rows@[id as int];
                let pre = old(self).rows@[id as int];
                &&& same_identity(post, pre)
                &&& opt_view(post.raw_tx) == opt_view(pre.raw_tx)
                &&& post.status is Executed
                &&& post.receipt == Some(receipt)
                &&& post.next_action_at is None
                &&& post.lease_owner is None
                &&& post.lease_until is None
                &&& post.attempts == pre.attempts
                &&& post.last_error == pre.last_error
                &&& post.last_broadcast_at == pre.last_broadcast_at
                &&& post.updated_at == now
            },
            !r ==> final(self).rows@ == old(self).rows@,
            terminal_frozen(old(self).rows@, final(self).rows@),
            attempts_monotone(old(self).rows@, final(self).rows@),
    {
        if id >= self.rows.len() as u64 {
            return false;
        }
        let i = id as usize;
        if self.rows[i].status.is_terminal() {
            return false;
        }
        let mut row = self.rows[i].duplicate();
        row.status = TxStatus::Executed;
        row.receipt = Some(receipt);
        row.next_action_at = None;
        row.lease_owner = None;
        row.lease_until = None;
        row.updated_at = now;
        proof {
            lemma_wf_update(self.rows@, i as int, row);
        }
        self.rows[i] = row;
        true
    }

    /// Marks a row expired.
    pub fn mark_expired(&mut self, id: u64, now: i64) -> (r: bool)
        requires
            old(self).wf(),
        ensures
            final(self).wf(),
            r == ((id as int) < old(self).rows@.len() && !spec_is_terminal(
                old(self).rows@[id as int].status,
            )),
            r ==> final(self).rows@ == old(self).rows@.update(
                id as int,
                final(self).rows@[id as int],
            ) && terminal_row(
                final(self).rows@[id as int],
                old(self).rows@[id as int],
                TxStatus::Expired,
                None,
                now,
            ),
            !r ==> final(self).rows@ == old(self).rows@,
            terminal_frozen(old(self).rows@, final(self).rows@),
            attempts_monotone(old(self).rows@, final(self).rows@),
    {
        self.mark_terminal(id, TxStatus::Expired, None, now)
    }

    /// Marks a row invalid with the classifier's reason.
    pub fn mark_invalid(&mut self, id: u64, reason: String, now: i64) -> (r: bool)
        requires
            old(self).wf(),
        ensures
            final(self).wf(),
            r == ((id as int) < old(self).rows@.len() && !spec_is_terminal(
                old(self).rows@[id as int].status,
            )),
            r ==> final(self).rows@ == old(self).rows@.update(
                id as int,
                final(self).rows@[id as int],
            ) && terminal_row(
                final(self).rows@[id as int],
                old(self).rows@[id as int],
                TxStatus::Invalid,
                Some(reason),
                now,
            ),
            !r ==> final(self).rows@ == old(self).rows@,
            terminal_frozen(old(self).rows@, final(self).rows@),
            attempts_monotone(old(self).rows@, final(self).rows@),
    {
        self.mark_terminal(id, TxStatus::Invalid, Some(reason), now)
    }

    /// Marks a row superseded by the on-chain nonce.
    pub fn mark_stale_by_nonce(&mut self, id: u64, now: i64) -> (r: bool)
        requires
            old(self).wf(),
        ensures
            final(self).wf(),
            r == ((id as int) < old(self).rows@.len() && !spec_is_terminal(
                old(self).rows@[id as int].status,
            )),
            r ==> final(self).rows@ == old(self).rows@.update(
                id as int,
                final(self).rows@[id as int],
            ) && terminal_row(
                final(self).rows@[id as int],
                old(self).rows@[id as int],
                TxStatus::StaleByNonce,
                None,
                now,
            ),
            !r ==> final(self).rows@ == old(self).rows@,
            terminal_frozen(old(self).rows@, final(self).rows@),
            attempts_monotone(old(self).rows@, final(self).rows@),
    {
        self.mark_terminal(id, TxStatus::StaleByNonce, None, now)
    }
}


/// Some returned row carries identifier `i`.
pub open spec fn id_in(r: Seq<TxRecord>, i: int) -> bool {
    exists|k: int| 0 <= k < r.len() && (#[trigger] r[k]).id as int == i
}

impl Store {
    /// Leases row `i` to `owner`: status to `Broadcasting`, lease fields
    /// set, nothing else touched.
    fn apply_lease(&mut self, i: usize, lease_owner: &str, lease_until: i64, now: i64)
        requires
            old(self).wf(),
            i < old(self).rows@.len(),
            !spec_is_terminal(old(self).rows@[i as int].status),
        ensures
            final(self).wf(),
            final(self).rows@ == old(self).rows@.update(i as int, final(self).rows@[i as int]),
            leased_row(
                final(self).rows@[i as int],
                old(self).rows@[i as int],
                lease_owner@,
                lease_until,
                now,
            ),
    {
        let mut row = self.rows[i].duplicate();
        row.status = TxStatus::Broadcasting;
        row.lease_owner = Some(String::from_str(lease_owner));
        row.lease_until = Some(lease_until);
        row.updated_at = now;
        proof {
            lemma_wf_update(self.rows@, i as int, row);
        }
        self.rows[i] = row;
    }

    /// Acquire-due-by-hash: atomically moves the row to `Broadcasting`
    /// exactly when it carries the key and is due; idempotent with respect
    /// to stale index entries (a row no longer due is left alone).
    pub fn lease_tx_by_hash(
        &mut self,
        chain_id: u64,
        tx_hash: &[u8],
        now: i64,
        lease_owner: &str,
        lease_until: i64,
    ) -> (r: Option<TxRecord>)
        requires
            old(self).wf(),
            now <= lease_until,
        ensures
            final(self).wf(),
            terminal_frozen(old(self).rows@, final(self).rows@),
            attempts_monotone(old(self).rows@, final(self).rows@),
            r is None ==> final(self).rows@ == old(self).rows@ && (forall|j: int|
                0 <= j < old(self).rows@.len() ==> !(same_key(
                    #[trigger] old(self).rows@[j],
                    chain_id,
                    tx_hash@,
                ) && spec_eligible(old(self).rows@[j], chain_id, now))),
            r is Some ==> {
                let i = r->0.id as int;
                &&& 0 <= i < old(self).rows@.len()
                &&& same_key(old(self).rows@[i], chain_id, tx_hash@)
                &&& spec_eligible(old(self).rows@[i], chain_id, now)
                &&& final(self).rows@ == old(self).rows@.update(i, final(self).rows@[i])
                &&& leased_row(
                    final(self).rows@[i],
                    old(self).rows@[i],
                    lease_owner@,
                    lease_until,
                    now,
                )
                &&& same_record(r->0, final(self).rows@[i])
            },
    {
        let n = self.rows.len();
        let mut j: usize = 0;
        while j < n
            invariant
                *self == *old(self),
                old(self).wf(),
                now <= lease_until,
                n == self.rows@.len(),
                j <= n,
                forall|k: int|
                    0 <= k < j ==> !(same_key(#[trigger] self.rows@[k], chain_id, tx_hash@)
                        && spec_eligible(self.rows@[k], chain_id, now)),
            decreases n - j,
        {
            let key_match = self.rows[j].chain_id == chain_id && bytes_eq(
                self.rows[j].tx_hash.as_slice(),
                tx_hash,
            );
            if key_match {
                let due = !self.rows[j].status.is_terminal() && (match self.rows[j].next_action_at {
                    Some(t) => t <= now,
                    None => false,
                }) && (match self.rows[j].lease_until {
                    Some(u) => u < now,
                    None => true,
                });
                if due {
                    proof {
                        assert(same_key(self.rows@[j as int], chain_id, tx_hash@));
                        assert(spec_eligible(self.rows@[j as int], chain_id, now));
                    }
                    self.apply_lease(j, lease_owner, lease_until, now);
                    let leased = self.rows[j].duplicate();
                    return Some(leased);
                }
            }
            j = j + 1;
        }
        None
    }

    /// The due row with the earliest next action time, if any.
    fn find_min_eligible(&self, chain_id: u64, now: i64) -> (r: Option<usize>)
        ensures
            r is Some ==> {
                let b = r->0 as int;
                &&& 0 <= b < self.rows@.len()
                &&& spec_eligible(self.rows@[b], chain_id, now)
                &&& (forall|j: int|
                    0 <= j < self.rows@.len() && spec_eligible(#[trigger] self.rows@[j], chain_id, now)
                        ==> self.rows@[b].next_action_at->0 <= self.rows@[j].next_action_at->0)
            },
            r is None ==> forall|j: int|
                0 <= j < self.rows@.len() ==> !spec_eligible(#[trigger] self.rows@[j], chain_id, now),
    {
        let n = self.rows.len();
        let mut best: Option<usize> = None;
        let mut i: usize = 0;
        while i < n
            invariant
                n == self.rows@.len(),
                i <= n,
                best is Some ==> {
                    let b = best->0 as int;
                    &&& 0 <= b < i
                    &&& spec_eligible(self.rows@[b], chain_id, now)
                    &&& (forall|j: int|
                        0 <= j < i && spec_eligible(#[trigger] self.rows@[j], chain_id, now)
                            ==> self.rows@[b].next_action_at->0 <= self.rows@[j].next_action_at->0)
                },
                best is None ==> forall|j: int|
                    0 <= j < i ==> !spec_eligible(#[trigger] self.rows@[j], chain_id, now),
            decreases n - i,
        {
            let due = self.rows[i].chain_id == chain_id && !self.rows[i].status.is_terminal() && (
            match self.rows[i].next_action_at {
                Some(t) => t <= now,
                None => false,
            }) && (match self.rows[i].lease_until {
                Some(u) => u < now,
                None => true,
            });
            if due {
                proof {
                    assert(spec_eligible(self.rows@[i as int], chain_id, now));
                }
                best = match best {
                    None => Some(i),
                    Some(b) => {
                        let b_next = match self.rows[b].next_action_at {
                            Some(t) => t,
                            None => now,
                        };
                        let i_next = match self.rows[i].next_action_at {
                            Some(t) => t,
                            None => now,
                        };
                        if i_next < b_next {
                            Some(i)
                        } else {
                            Some(b)
                        }
                    },
                };
            }
            i = i + 1;
        }
        best
    }

    /// Acquire-due-batch: leases up to `limit` due rows of the chain, the
    /// earliest next action times first. No two calls can hand the same
    /// row out twice while a lease is live, because a leased row stops
    /// being due until its lease expires.
    pub fn lease_due_txs(
        &mut self,
        chain_id: u64,
        now: i64,
        lease_owner: &str,
        lease_until: i64,
        limit: usize,
    ) -> (r: Vec<TxRecord>)
        requires
            old(self).wf(),
            now <= lease_until,
        ensures
            final(self).wf(),
            final(self).rows@.len() == old(self).rows@.len(),
            terminal_frozen(old(self).rows@, final(self).rows@),
            attempts_monotone(old(self).rows@, final(self).rows@),
            r@.len() <= limit,
            forall|k: int|
                0 <= k < r@.len() ==> {
                    let i = (#[trigger] r@[k]).id as int;
                    &&& 0 <= i < old(self).rows@.len()
                    &&& spec_eligible(old(self).rows@[i], chain_id, now)
                    &&& leased_row(
                        final(self).rows@[i],
                        old(self).rows@[i],
                        lease_owner@,
                        lease_until,
                        now,
                    )
                    &&& same_record(r@[k], final(self).rows@[i])
                },
            forall|k1: int, k2: int| 0 <= k1 < k2 < r@.len() ==> r@[k1].id != r@[k2].id,
            forall|i: int|
                0 <= i < old(self).rows@.len() && !id_in(r@, i) ==> final(self).rows@[i] == old(self).rows@[i],
            r@.len() < limit ==> (forall|i: int|
                0 <= i < old(self).rows@.len() && spec_eligible(
                    #[trigger] old(self).rows@[i],
                    chain_id,
                    now,
                ) ==> id_in(r@, i)),
            forall|k1: int, k2: int|
                0 <= k1 <= k2 < r@.len() ==> (#[trigger] r@[k1]).next_action_at->0 <= (
                #[trigger] r@[k2]).next_action_at->0,
            forall|k: int, i: int|
                0 <= k < r@.len() && 0 <= i < old(self).rows@.len() && spec_eligible(
                    #[trigger] old(self).rows@[i],
                    chain_id,
                    now,
                ) && !id_in(r@, i) ==> (#[trigger] r@[k]).next_action_at->0 <= old(self).rows@[i].next_action_at->0,
    {
        let ghost orig = *self;
        let mut out: Vec<TxRecord> = Vec::new();
        let mut exhausted = false;
        while !exhausted && out.len() < limit
            invariant
                orig == *old(self),
                self.wf(),
                now <= lease_until,
                self.rows@.len() == orig.rows@.len(),
                out@.len() <= limit,
                terminal_frozen(orig.rows@, self.rows@),
                attempts_monotone(orig.rows@, self.rows@),
                forall|k: int|
                    0 <= k < out@.len() ==> {
                        let i = (#[trigger] out@[k]).id as int;
                        &&& 0 <= i < orig.rows@.len()
                        &&& spec_eligible(orig.rows@[i], chain_id, now)
                        &&& leased_row(
                            self.rows@[i],
                            orig.rows@[i],
                            lease_owner@,
                            lease_until,
                            now,
                        )
                        &&& same_record(out@[k], self.rows@[i])
                    },
                forall|k1: int, k2: int| 0 <= k1 < k2 < out@.len() ==> out@[k1].id != out@[k2].id,
                forall|i: int|
                    0 <= i < orig.rows@.len() && !id_in(out@, i) ==> self.rows@[i] == orig.rows@[i],
                forall|k1: int, k2: int|
                    0 <= k1 <= k2 < out@.len() ==> (#[trigger] out@[k1]).next_action_at->0 <= (
                    #[trigger] out@[k2]).next_action_at->0,
                forall|k: int, i: int|
                    0 <= k < out@.len() && 0 <= i < self.rows@.len() && spec_eligible(
                        #[trigger] self.rows@[i],
                        chain_id,
                        now,
                    ) ==> (#[trigger] out@[k]).next_action_at->0 <= self.rows@[i].next_action_at->0,
                exhausted ==> forall|i: int|
                    0 <= i < self.rows@.len() ==> !spec_eligible(
                        #[trigger] self.rows@[i],
                        chain_id,
                        now,
                    ),
            decreases limit - out@.len(), (if exhausted { 0int } else { 1int }),
        {
            match self.find_min_eligible(chain_id, now) {
                None => {
                    exhausted = true;
                },
                Some(b) => {
                    let ghost pre = *self;
                    proof {
                        assert(!id_in(out@, b as int)) by {
                            if id_in(out@, b as int) {
                                let k = choose|k: int|
                                    0 <= k < out@.len() && (#[trigger] out@[k]).id as int
                                        == b as int;
                                assert(leased_row(pre.rows@[b as int], orig.rows@[b as int],
                                    lease_owner@, lease_until, now));
                                assert(!spec_eligible(pre.rows@[b as int], chain_id, now));
                            }
                        }
                        assert(pre.rows@[b as int] == orig.rows@[b as int]);
                    }
                    self.apply_lease(b, lease_owner, lease_until, now);
                    let leased = self.rows[b].duplicate();
                    let ghost pre_out = out@;
                    out.push(leased);
                    proof {
                        let bi = b as int;
                        assert(out@.drop_last() =~= pre_out);
                        assert(out@.last().id as int == bi);
                        // every earlier entry's row is untouched by this lease
                        assert forall|k: int| 0 <= k < out@.len() implies {
                            let i = (#[trigger] out@[k]).id as int;
                            &&& 0 <= i < orig.rows@.len()
                            &&& spec_eligible(orig.rows@[i], chain_id, now)
                            &&& leased_row(
                                self.rows@[i],
                                orig.rows@[i],
                                lease_owner@,
                                lease_until,
                                now,
                            )
                            &&& same_record(out@[k], self.rows@[i])
                        } by {
                            if k < pre_out.len() {
                                assert(out@[k] == pre_out[k]);
                                let i = pre_out[k].id as int;
                                assert(i != bi);
                                assert(self.rows@[i] == pre.rows@[i]);
                            } else {
                                assert(out@[k] == out@.last());
                            }
                        }
                        assert forall|i: int|
                            0 <= i < orig.rows@.len() && !id_in(out@, i) implies self.rows@[i]
                            == orig.rows@[i] by {
                            if !id_in(out@, i) {
                                assert(!id_in(pre_out, i)) by {
                                    if id_in(pre_out, i) {
                                        let k = choose|k: int|
                                            0 <= k < pre_out.len() && (#[trigger] pre_out[k]).id
                                                as int == i;
                                        assert(out@[k] == pre_out[k]);
                                    }
                                }
                                assert(i != bi) by {
                                    if i == bi {
                                        assert(out@.last().id as int == i);
                                    }
                                }
                                assert(self.rows@[i] == pre.rows@[i]);
                            }
                        }
                        // ordering: the new entry is no earlier than any previous
                        // entry, and no later than any row still due
                        assert forall|k1: int, k2: int|
                            0 <= k1 <= k2 < out@.len() implies (
                        #[trigger] out@[k1]).next_action_at->0 <= (
                        #[trigger] out@[k2]).next_action_at->0 by {
                            if k2 < pre_out.len() {
                                assert(out@[k1] == pre_out[k1] && out@[k2] == pre_out[k2]);
                            } else if k1 < pre_out.len() {
                                assert(out@[k1] == pre_out[k1]);
                                assert(spec_eligible(pre.rows@[bi], chain_id, now));
                                assert(pre_out[k1].next_action_at->0 <= pre.rows@[
                                    bi
                                ].next_action_at->0);
                                assert(out@[k2].next_action_at == pre.rows@[bi].next_action_at);
                            }
                        }
                        assert forall|k: int, i: int|
                            0 <= k < out@.len() && 0 <= i < self.rows@.len() && spec_eligible(
                                #[trigger] self.rows@[i],
                                chain_id,
                                now,
                            ) implies (#[trigger] out@[k]).next_action_at->0 <= self.rows@[
                            i
                        ].next_action_at->0 by {
                            assert(i != bi);
                            assert(self.rows@[i] == pre.rows@[i]);
                            assert(spec_eligible(pre.rows@[i], chain_id, now));
                            if k < pre_out.len() {
                                assert(out@[k] == pre_out[k]);
                            } else {
                                assert(out@[k].next_action_at == pre.rows@[bi].next_action_at);
                            }
                        }
                        assert forall|k1: int, k2: int|
                            0 <= k1 < k2 < out@.len() implies out@[k1].id != out@[k2].id by {
                            if k2 == out@.len() - 1 && k1 < pre_out.len() {
                                assert(out@[k1] == pre_out[k1]);
                                assert(!id_in(pre_out, bi)) by {
                                    if id_in(pre_out, bi) {
                                        let k = choose|k: int|
                                            0 <= k < pre_out.len() && (#[trigger] pre_out[k]).id
                                                as int == bi;
                                        assert(leased_row(pre.rows@[bi], orig.rows@[bi],
                                            lease_owner@, lease_until, now));
                                        assert(!spec_eligible(pre.rows@[bi], chain_id, now));
                                    }
                                }
                                assert(pre_out[k1].id as int != bi);
                            }
                        }
                    }
                },
            }
        }
        proof {
            if out@.len() < limit {
                assert forall|i: int|
                    0 <= i < old(self).rows@.len() && spec_eligible(
                        #[trigger] old(self).rows@[i],
                        chain_id,
                        now,
                    ) implies id_in(out@, i) by {
                    if !id_in(out@, i) {
                        assert(self.rows@[i] == orig.rows@[i]);
                        assert(spec_eligible(self.rows@[i], chain_id, now));
                    }
                }
            }
        }
        out
    }
}


/// A row a group cancel hits: same sender and group, not yet terminal.
pub open spec fn cancel_target(r: TxRecord, sender: Seq<u8>, group_id: Seq<u8>) -> bool {
    &&& r.sender@ == sender
    &&& r.group_id is Some
    &&& r.group_id->0@ == group_id
    &&& !spec_is_terminal(r.status)
}

/// `post` is `pre` canceled locally: terminal status, the signed bytes
/// dropped, next action and lease cleared.
pub open spec fn canceled_row(post: TxRecord, pre: TxRecord, now: i64) -> bool {
    &&& same_identity(post, pre)
    &&& post.status is CanceledLocally
    &&& post.raw_tx is None
    &&& post.next_action_at is None
    &&& post.lease_owner is None
    &&& post.lease_until is None
    &&& post.attempts == pre.attempts
    &&& post.last_error == pre.last_error
    &&& post.last_broadcast_at == pre.last_broadcast_at
    &&& post.receipt == pre.receipt
    &&& post.updated_at == now
}

/// A row recovery picks up: parked in `Broadcasting` with no next action,
/// the footprint of an owner that died mid-flight.
pub open spec fn stuck_target(r: TxRecord) -> bool {
    r.status is Broadcasting && r.next_action_at is None
}

/// `post` is `pre` recovered: back to `RetryScheduled`, due now, the dead
/// owner's lease released.
pub open spec fn recovered_row(post: TxRecord, pre: TxRecord, now: i64) -> bool {
    &&& same_identity(post, pre)
    &&& opt_view(post.raw_tx) == opt_view(pre.raw_tx)
    &&& post.status is RetryScheduled
    &&& post.next_action_at == Some(now)
    &&& post.lease_owner is None
    &&& post.lease_until is None
    &&& post.attempts == pre.attempts
    &&& post.last_error == pre.last_error
    &&& post.last_broadcast_at == pre.last_broadcast_at
    &&& post.receipt == pre.receipt
    &&& post.updated_at == now
}

/// A row superseded by the observed on-chain nonce of its lane.
pub open spec fn stale_target(
    r: TxRecord,
    chain_id: u64,
    sender: Seq<u8>,
    nonce_key: Seq<u8>,
    observed_nonce: u64,
) -> bool {
    &&& r.chain_id == chain_id
    &&& r.sender@ == sender
    &&& r.nonce_key@ == nonce_key
    &&& !spec_is_terminal(r.status)
    &&& r.nonce < observed_nonce
}

/// A row the watcher still tracks: on the chain and not terminal.
pub open spec fn active_row(r: TxRecord, chain_id: u64) -> bool {
    r.chain_id == chain_id && !spec_is_terminal(r.status)
}

/// The watcher's visiting order over active rows: earlier next action
/// times first, rows without a next action last, ties and the tail in
/// storage order. Strict and total over rows with distinct identifiers.
pub open spec fn watch_order_lt(a: TxRecord, b: TxRecord) -> bool {
    match (a.next_action_at, b.next_action_at) {
        (Some(x), Some(y)) => x < y || (x == y && a.id < b.id),
        (Some(_), None) => true,
        (None, Some(_)) => false,
        (None, None) => a.id < b.id,
    }
}

proof fn lemma_watch_order_total(a: TxRecord, b: TxRecord)
    requires
        a.id != b.id,
        !watch_order_lt(a, b),
    ensures
        watch_order_lt(b, a),
{
}

proof fn lemma_watch_order_trans(a: TxRecord, b: TxRecord, c: TxRecord)
    requires
        watch_order_lt(a, b),
        watch_order_lt(b, c),
    ensures
        watch_order_lt(a, c),
{
}

/// Compares two rows in the watcher's visiting order.
fn watch_order_before(a: &TxRecord, b: &TxRecord) -> (r: bool)
    ensures
        r == watch_order_lt(*a, *b),
{
    match (a.next_action_at, b.next_action_at) {
        (Some(x), Some(y)) => x < y || (x == y && a.id < b.id),
        (Some(_), None) => true,
        (None, Some(_)) => false,
        (None, None) => a.id < b.id,
    }
}

impl Store {
    /// Cancels a group: every non-terminal row of (sender, group) moves to
    /// `CanceledLocally` with its signed bytes dropped; terminal rows stay
    /// untouched. Returns the rows it canceled, in identifier order.
    pub fn cancel_group(&mut self, sender: &[u8], group_id: &[u8], now: i64) -> (r: Vec<TxRecord>)
        requires
            old(self).wf(),
        ensures
            final(self).wf(),
            final(self).rows@.len() == old(self).rows@.len(),
            terminal_frozen(old(self).rows@, final(self).rows@),
            attempts_monotone(old(self).rows@, final(self).rows@),
            forall|i: int|
                0 <= i < old(self).rows@.len() && cancel_target(
                    #[trigger] old(self).rows@[i],
                    sender@,
                    group_id@,
                ) ==> canceled_row(final(self).rows@[i], old(self).rows@[i], now),
            forall|i: int|
                0 <= i < old(self).rows@.len() && !cancel_target(
                    #[trigger] old(self).rows@[i],
                    sender@,
                    group_id@,
                ) ==> final(self).rows@[i] == old(self).rows@[i],
            forall|k: int|
                0 <= k < r@.len() ==> {
                    let i = (#[trigger] r@[k]).id as int;
                    &&& 0 <= i < old(self).rows@.len()
                    &&& cancel_target(old(self).rows@[i], sender@, group_id@)
                    &&& same_record(r@[k], final(self).rows@[i])
                },
            forall|k1: int, k2: int| 0 <= k1 < k2 < r@.len() ==> r@[k1].id < r@[k2].id,
            forall|i: int|
                0 <= i < old(self).rows@.len() && cancel_target(
                    #[trigger] old(self).rows@[i],
                    sender@,
                    group_id@,
                ) ==> id_in(r@, i),
    {
        let ghost orig = *self;
        let n = self.rows.len();
        let mut out: Vec<TxRecord> = Vec::new();
        let mut i: usize = 0;
        while i < n
            invariant
                orig == *old(self),
                self.wf(),
                n == self.rows@.len() == orig.rows@.len(),
                i <= n,
                terminal_frozen(orig.rows@, self.rows@),
                attempts_monotone(orig.rows@, self.rows@),
                forall|j: int| i <= j < n ==> self.rows@[j] == orig.rows@[j],
                forall|j: int|
                    0 <= j < i && cancel_target(#[trigger] orig.rows@[j], sender@, group_id@)
                        ==> canceled_row(self.rows@[j], orig.rows@[j], now),
                forall|j: int|
                    0 <= j < i && !cancel_target(#[trigger] orig.rows@[j], sender@, group_id@)
                        ==> self.rows@[j] == orig.rows@[j],
                forall|k: int|
                    0 <= k < out@.len() ==> {
                        let j = (#[trigger] out@[k]).id as int;
                        &&& 0 <= j < i
                        &&& cancel_target(orig.rows@[j], sender@, group_id@)
                        &&& same_record(out@[k], self.rows@[j])
                    },
                forall|k1: int, k2: int| 0 <= k1 < k2 < out@.len() ==> out@[k1].id < out@[k2].id,
                forall|j: int|
                    0 <= j < i && cancel_target(#[trigger] orig.rows@[j], sender@, group_id@)
                        ==> id_in(out@, j),
            decreases n - i,
        {
            let is_target = bytes_eq(self.rows[i].sender.as_slice(), sender) && (
            match &self.rows[i].group_id {
                Some(g) => bytes_eq(g.as_slice(), group_id),
                None => false,
            }) && !self.rows[i].status.is_terminal();
            if is_target {
                let ghost pre = *self;
                let ghost pre_out = out@;
                let mut row = self.rows[i].duplicate();
                row.status = TxStatus::CanceledLocally;
                row.raw_tx = None;
                row.next_action_at = None;
                row.lease_owner = None;
                row.lease_until = None;
                row.updated_at = now;
                proof {
                    lemma_wf_update(self.rows@, i as int, row);
                }
                self.rows[i] = row;
                out.push(self.rows[i].duplicate());
                proof {
                    assert(out@.drop_last() =~= pre_out);
                    assert forall|k: int| 0 <= k < out@.len() implies {
                        let j = (#[trigger] out@[k]).id as int;
                        &&& 0 <= j < i + 1
                        &&& cancel_target(orig.rows@[j], sender@, group_id@)
                        &&& same_record(out@[k], self.rows@[j])
                    } by {
                        if k < pre_out.len() {
                            assert(out@[k] == pre_out[k]);
                            assert(self.rows@[pre_out[k].id as int] == pre.rows@[pre_out[k].id as int]);
                        } else {
                            assert(out@[k] == out@.last());
                        }
                    }
                    assert forall|j: int|
                        0 <= j < i + 1 && cancel_target(#[trigger] orig.rows@[j], sender@, group_id@)
                        implies id_in(out@, j) by {
                        if j < i {
                            let k = choose|k: int|
                                0 <= k < pre_out.len() && (#[trigger] pre_out[k]).id as int == j;
                            assert(out@[k] == pre_out[k]);
                        } else {
                            assert(out@.last().id as int == j);
                        }
                    }
                }
            }
            i = i + 1;
        }
        out
    }

    /// Recovery: moves every row parked in `Broadcasting` without a next
    /// action back to `RetryScheduled`, due immediately. Rows whose lease
    /// merely expired are not touched; the batch lease reclaims those.
    pub fn recover_stuck_broadcasts(&mut self, now: i64) -> (r: Vec<TxRecord>)
        requires
            old(self).wf(),
        ensures
            final(self).wf(),
            final(self).rows@.len() == old(self).rows@.len(),
            terminal_frozen(old(self).rows@, final(self).rows@),
            attempts_monotone(old(self).rows@, final(self).rows@),
            forall|i: int|
                0 <= i < old(self).rows@.len() && stuck_target(#[trigger] old(self).rows@[i])
                    ==> recovered_row(final(self).rows@[i], old(self).rows@[i], now),
            forall|i: int|
                0 <= i < old(self).rows@.len() && !stuck_target(#[trigger] old(self).rows@[i])
                    ==> final(self).rows@[i] == old(self).rows@[i],
            forall|k: int|
                0 <= k < r@.len() ==> {
                    let i = (#[trigger] r@[k]).id as int;
                    &&& 0 <= i < old(self).rows@.len()
                    &&& stuck_target(old(self).rows@[i])
                    &&& same_record(r@[k], final(self).rows@[i])
                },
            forall|k1: int, k2: int| 0 <= k1 < k2 < r@.len() ==> r@[k1].id < r@[k2].id,
            forall|i: int|
                0 <= i < old(self).rows@.len() && stuck_target(#[trigger] old(self).rows@[i])
                    ==> id_in(r@, i),
    {
        let ghost orig = *self;
        let n = self.rows.len();
        let mut out: Vec<TxRecord> = Vec::new();
        let mut i: usize = 0;
        while i < n
            invariant
                orig == *old(self),
                self.wf(),
                n == self.rows@.len() == orig.rows@.len(),
                i <= n,
                terminal_frozen(orig.rows@, self.rows@),
                attempts_monotone(orig.rows@, self.rows@),
                forall|j: int| i <= j < n ==> self.rows@[j] == orig.rows@[j],
                forall|j: int|
                    0 <= j < i && stuck_target(#[trigger] orig.rows@[j]) ==> recovered_row(
                        self.rows@[j],
                        orig.rows@[j],
                        now,
                    ),
                forall|j: int|
                    0 <= j < i && !stuck_target(#[trigger] orig.rows@[j]) ==> self.rows@[j]
                        == orig.rows@[j],
                forall|k: int|
                    0 <= k < out@.len() ==> {
                        let j = (#[trigger] out@[k]).id as int;
                        &&& 0 <= j < i
                        &&& stuck_target(orig.rows@[j])
                        &&& same_record(out@[k], self.rows@[j])
                    },
                forall|k1: int, k2: int| 0 <= k1 < k2 < out@.len() ==> out@[k1].id < out@[k2].id,
                forall|j: int|
                    0 <= j < i && stuck_target(#[trigger] orig.rows@[j]) ==> id_in(out@, j),
            decreases n - i,
        {
            let is_target = (match self.rows[i].status {
                TxStatus::Broadcasting => true,
                _ => false,
            }) && (match self.rows[i].next_action_at {
                None => true,
                Some(_) => false,
            });
            if is_target {
                let ghost pre = *self;
                let ghost pre_out = out@;
                let mut row = self.rows[i].duplicate();
                row.status = TxStatus::RetryScheduled;
                row.next_action_at = Some(now);
                row.lease_owner = None;
                row.lease_until = None;
                row.updated_at = now;
                proof {
                    lemma_wf_update(self.rows@, i as int, row);
                }
                self.rows[i] = row;
                out.push(self.rows[i].duplicate());
                proof {
                    assert(out@.drop_last() =~= pre_out);
                    assert forall|k: int| 0 <= k < out@.len() implies {
                        let j = (#[trigger] out@[k]).id as int;
                        &&& 0 <= j < i + 1
                        &&& stuck_target(orig.rows@[j])
                        &&& same_record(out@[k], self.rows@[j])
                    } by {
                        if k < pre_out.len() {
                            assert(out@[k] == pre_out[k]);
                            assert(self.rows@[pre_out[k].id as int] == pre.rows@[pre_out[k].id as int]);
                        } else {
                            assert(out@[k] == out@.last());
                        }
                    }
                    assert forall|j: int| 0 <= j < i + 1 && stuck_target(#[trigger] orig.rows@[j])
                        implies id_in(out@, j) by {
                        if j < i {
                            let k = choose|k: int|
                                0 <= k < pre_out.len() && (#[trigger] pre_out[k]).id as int == j;
                            assert(out@[k] == pre_out[k]);
                        } else {
                            assert(out@.last().id as int == j);
                        }
                    }
                }
            }
            i = i + 1;
        }
        out
    }

    /// Applies an observed on-chain nonce to a (sender, nonce key) lane:
    /// every still-active row whose own nonce the observation strictly
    /// exceeds moves to `StaleByNonce`.
    pub fn apply_observed_nonce(
        &mut self,
        chain_id: u64,
        sender: &[u8],
        nonce_key: &[u8],
        observed_nonce: u64,
        now: i64,
    )
        requires
            old(self).wf(),
        ensures
            final(self).wf(),
            final(self).rows@.len() == old(self).rows@.len(),
            terminal_frozen(old(self).rows@, final(self).rows@),
            attempts_monotone(old(self).rows@, final(self).rows@),
            forall|i: int|
                0 <= i < old(self).rows@.len() && stale_target(
                    #[trigger] old(self).rows@[i],
                    chain_id,
                    sender@,
                    nonce_key@,
                    observed_nonce,
                ) ==> terminal_row(
                    final(self).rows@[i],
                    old(self).rows@[i],
                    TxStatus::StaleByNonce,
                    old(self).rows@[i].last_error,
                    now,
                ),
            forall|i: int|
                0 <= i < old(self).rows@.len() && !stale_target(
                    #[trigger] old(self).rows@[i],
                    chain_id,
                    sender@,
                    nonce_key@,
                    observed_nonce,
                ) ==> final(self).rows@[i] == old(self).rows@[i],
    {
        let ghost orig = *self;
        let n = self.rows.len();
        let mut i: usize = 0;
        while i < n
            invariant
                orig == *old(self),
                self.wf(),
                n == self.rows@.len() == orig.rows@.len(),
                i <= n,
                terminal_frozen(orig.rows@, self.rows@),
                attempts_monotone(orig.rows@, self.rows@),
                forall|j: int| i <= j < n ==> self.rows@[j] == orig.rows@[j],
                forall|j: int|
                    0 <= j < i && stale_target(
                        #[trigger] orig.rows@[j],
                        chain_id,
                        sender@,
                        nonce_key@,
                        observed_nonce,
                    ) ==> terminal_row(
                        self.rows@[j],
                        orig.rows@[j],
                        TxStatus::StaleByNonce,
                        orig.rows@[j].last_error,
                        now,
                    ),
                forall|j: int|
                    0 <= j < i && !stale_target(
                        #[trigger] orig.rows@[j],
                        chain_id,
                        sender@,
                        nonce_key@,
                        observed_nonce,
                    ) ==> self.rows@[j] == orig.rows@[j],
            decreases n - i,
        {
            let is_target = self.rows[i].chain_id == chain_id && bytes_eq(
                self.rows[i].sender.as_slice(),
                sender,
            ) && bytes_eq(self.rows[i].nonce_key.as_slice(), nonce_key)
                && !self.rows[i].status.is_terminal() && self.rows[i].nonce < observed_nonce;
            if is_target {
                let mut row = self.rows[i].duplicate();
                row.status = TxStatus::StaleByNonce;
                row.next_action_at = None;
                row.lease_owner = None;
                row.lease_until = None;
                row.updated_at = now;
                proof {
                    lemma_wf_update(self.rows@, i as int, row);
                }
                self.rows[i] = row;
            }
            i = i + 1;
        }
    }

    /// The rows the watcher still tracks on a chain, earliest next action
    /// time first, rows parked without a next action last, ties and the
    /// tail in storage order.
    pub fn list_active_txs(&self, chain_id: u64) -> (r: Vec<TxRecord>)
        requires
            self.wf(),
        ensures
            forall|k: int|
                0 <= k < r@.len() ==> {
                    let i = (#[trigger] r@[k]).id as int;
                    &&& 0 <= i < self.rows@.len()
                    &&& active_row(self.rows@[i], chain_id)
                    &&& same_record(r@[k], self.rows@[i])
                },
            forall|k1: int, k2: int|
                0 <= k1 < k2 < r@.len() ==> watch_order_lt(#[trigger] r@[k1], #[trigger] r@[k2]),
            forall|k1: int, k2: int| 0 <= k1 < k2 < r@.len() ==> r@[k1].id != r@[k2].id,
            forall|i: int|
                0 <= i < self.rows@.len() && active_row(#[trigger] self.rows@[i], chain_id)
                    ==> id_in(r@, i),
    {
        let n = self.rows.len();
        let mut out: Vec<TxRecord> = Vec::new();
        let mut i: usize = 0;
        while i < n
            invariant
                self.wf(),
                n == self.rows@.len(),
                i <= n,
                forall|k: int|
                    0 <= k < out@.len() ==> {
                        let j = (#[trigger] out@[k]).id as int;
                        &&& 0 <= j < i
                        &&& active_row(self.rows@[j], chain_id)
                        &&& same_record(out@[k], self.rows@[j])
                    },
                forall|k1: int, k2: int|
                    0 <= k1 < k2 < out@.len() ==> watch_order_lt(
                        #[trigger] out@[k1],
                        #[trigger] out@[k2],
                    ),
                forall|j: int|
                    0 <= j < i && active_row(#[trigger] self.rows@[j], chain_id) ==> id_in(out@, j),
            decreases n - i,
        {
            if self.rows[i].chain_id == chain_id && !self.rows[i].status.is_terminal() {
                let m = out.len();
                let mut pos: usize = 0;
                while pos < m && watch_order_before(&out[pos], &self.rows[i])
                    invariant
                        self.wf(),
                        n == self.rows@.len(),
                        i < n,
                        active_row(self.rows@[i as int], chain_id),
                        m == out@.len(),
                        pos <= m,
                        forall|k: int|
                            0 <= k < out@.len() ==> {
                                let j = (#[trigger] out@[k]).id as int;
                                &&& 0 <= j < i
                                &&& active_row(self.rows@[j], chain_id)
                                &&& same_record(out@[k], self.rows@[j])
                            },
                        forall|k1: int, k2: int|
                            0 <= k1 < k2 < out@.len() ==> watch_order_lt(
                                #[trigger] out@[k1],
                                #[trigger] out@[k2],
                            ),
                        forall|j: int|
                            0 <= j < i && active_row(#[trigger] self.rows@[j], chain_id) ==> id_in(
                                out@,
                                j,
                            ),
                        forall|k: int|
                            0 <= k < pos ==> watch_order_lt(
                                #[trigger] out@[k],
                                self.rows@[i as int],
                            ),
                    decreases m - pos,
                {
                    pos = pos + 1;
                }
                let ghost pre_out = out@;
                let rec = self.rows[i].duplicate();
                let ghost new_rec = rec;
                out.insert(pos, rec);
                proof {
                    let cur = out@;
                    let p = pos as int;
                    let row = self.rows@[i as int];
                    assert(cur == pre_out.insert(p, new_rec));
                    assert(forall|k: int| 0 <= k < p ==> #[trigger] cur[k] == pre_out[k]);
                    assert(cur[p] == new_rec);
                    assert(forall|k: int| p < k < cur.len() ==> #[trigger] cur[k] == pre_out[k - 1]);
                    assert((new_rec.id as int) == (i as int));
                    assert forall|k1: int, k2: int|
                        0 <= k1 < k2 < cur.len() implies watch_order_lt(
                        #[trigger] cur[k1],
                        #[trigger] cur[k2],
                    ) by {
                        if k2 < p {
                            assert(cur[k1] == pre_out[k1] && cur[k2] == pre_out[k2]);
                        } else if k1 < p && k2 == p {
                            assert(cur[k1] == pre_out[k1]);
                            assert(watch_order_lt(pre_out[k1], new_rec));
                        } else if k1 < p && k2 > p {
                            assert(cur[k1] == pre_out[k1] && cur[k2] == pre_out[k2 - 1]);
                            if k1 == k2 - 1 {
                                assert(watch_order_lt(pre_out[k1], new_rec));
                                assert(pre_out[k1].id != new_rec.id);
                            } else {
                                assert(watch_order_lt(pre_out[k1], pre_out[k2 - 1]));
                            }
                        } else if k1 == p {
                            assert(p < pre_out.len());
                            assert(!watch_order_lt(pre_out[p], new_rec));
                            assert((pre_out[p].id as int) < (i as int));
                            lemma_watch_order_total(pre_out[p], new_rec);
                            assert(watch_order_lt(new_rec, pre_out[p]));
                            if k2 - 1 > p {
                                assert(watch_order_lt(pre_out[p], pre_out[k2 - 1]));
                                lemma_watch_order_trans(new_rec, pre_out[p], pre_out[k2 - 1]);
                            }
                            assert(cur[k2] == pre_out[k2 - 1]);
                        } else {
                            assert(cur[k1] == pre_out[k1 - 1] && cur[k2] == pre_out[k2 - 1]);
                        }
                    }
                    assert forall|j: int|
                        0 <= j < i + 1 && active_row(#[trigger] self.rows@[j], chain_id)
                        implies id_in(cur, j) by {
                        if j < i {
                            let k = choose|k: int|
                                0 <= k < pre_out.len() && (#[trigger] pre_out[k]).id as int == j;
                            if k < p {
                                assert(cur[k] == pre_out[k]);
                            } else {
                                assert(cur[k + 1] == pre_out[k]);
                            }
                        } else {
                            assert(cur[p].id as int == j);
                        }
                    }
                    assert forall|k: int| 0 <= k < cur.len() implies {
                        let j = (#[trigger] cur[k]).id as int;
                        &&& 0 <= j < i + 1
                        &&& active_row(self.rows@[j], chain_id)
                        &&& same_record(cur[k], self.rows@[j])
                    } by {
                        if k < p {
                            assert(cur[k] == pre_out[k]);
                        } else if k == p {
                            assert(same_record(new_rec, row));
                        } else {
                            assert(cur[k] == pre_out[k - 1]);
                        }
                    }
                }
            }
            i = i + 1;
        }
        proof {
            assert forall|k1: int, k2: int| 0 <= k1 < k2 < out@.len() implies out@[k1].id
                != out@[k2].id by {
                assert(watch_order_lt(out@[k1], out@[k2]));
                if out@[k1].id == out@[k2].id {
                    assert(same_record(out@[k1], self.rows@[out@[k1].id as int]));
                    assert(same_record(out@[k2], self.rows@[out@[k2].id as int]));
                }
            }
        }
        out
    }
}


impl Store {
    /// Whether any row (terminal or not) belongs to this (sender, group).
    pub fn has_group_rows(&self, sender: &[u8], group_id: &[u8]) -> (r: bool)
        ensures
            r == exists|j: int|
                0 <= j < self.rows@.len() && (#[trigger] self.rows@[j]).sender@ == sender@
                    && self.rows@[j].group_id is Some && self.rows@[j].group_id->0@ == group_id@,
    {
        let n = self.rows.len();
        let mut i: usize = 0;
        while i < n
            invariant
                n == self.rows@.len(),
                i <= n,
                forall|k: int|
                    0 <= k < i ==> !((#[trigger] self.rows@[k]).sender@ == sender@
                        && self.rows@[k].group_id is Some && self.rows@[k].group_id->0@
                        == group_id@),
            decreases n - i,
        {
            let matched = bytes_eq(self.rows[i].sender.as_slice(), sender) && (
            match &self.rows[i].group_id {
                Some(g) => bytes_eq(g.as_slice(), group_id),
                None => false,
            });
            if matched {
                proof {
                    assert(self.rows@[i as int].sender@ == sender@ && self.rows@[i as int].group_id
                        is Some && self.rows@[i as int].group_id->0@ == group_id@);
                }
                return true;
            }
            i = i + 1;
        }
        false
    }
}


/// A row passes the listing filters.
pub open spec fn filters_match(r: TxRecord, f: TxFilters) -> bool {
    &&& (f.chain_id is Some ==> r.chain_id == f.chain_id->0)
    &&& (f.sender is Some ==> r.sender@ == f.sender->0@)
    &&& (f.group_id is Some ==> r.group_id is Some && r.group_id->0@ == f.group_id->0@)
    &&& (f.statuses@.len() > 0 ==> exists|x: int|
        0 <= x < f.statuses@.len() && f.statuses@[x] == r.status)
}

/// The listing page size: the requested limit clamped to `1 ..= 500`.
pub open spec fn spec_page_limit(limit: i64) -> int {
    if limit < 1 {
        1
    } else if limit > 500 {
        500
    } else {
        limit as int
    }
}

impl Store {
    /// Lists rows under the given filters, most recently stored first —
    /// creation times non-increasing — up to the clamped page limit. A
    /// short page lists every matching row; a full page holds the most
    /// recent matches.
    pub fn list_txs(&self, filters: &TxFilters) -> (r: Vec<TxRecord>)
        requires
            self.wf(),
        ensures
            r@.len() <= spec_page_limit(filters.limit),
            forall|k1: int, k2: int|
                0 <= k1 < k2 < r@.len() ==> (#[trigger] r@[k1]).created_at >= (
                #[trigger] r@[k2]).created_at,
            forall|k: int|
                0 <= k < r@.len() ==> {
                    let i = (#[trigger] r@[k]).id as int;
                    &&& 0 <= i < self.rows@.len()
                    &&& filters_match(self.rows@[i], *filters)
                    &&& same_record(r@[k], self.rows@[i])
                },
            forall|k1: int, k2: int| 0 <= k1 < k2 < r@.len() ==> r@[k1].id > r@[k2].id,
            r@.len() < spec_page_limit(filters.limit) ==> (forall|i: int|
                0 <= i < self.rows@.len() && filters_match(#[trigger] self.rows@[i], *filters)
                    ==> id_in(r@, i)),
            forall|k: int, i: int|
                0 <= k < r@.len() && 0 <= i < self.rows@.len() && filters_match(
                    #[trigger] self.rows@[i],
                    *filters,
                ) && !id_in(r@, i) ==> (#[trigger] r@[k]).id > i as u64,
    {
        let page: usize = if filters.limit < 1 {
            1
        } else if filters.limit > 500 {
            500
        } else {
            filters.limit as usize
        };
        let n = self.rows.len();
        let mut out: Vec<TxRecord> = Vec::new();
        let mut i: usize = n;
        while i > 0 && out.len() < page
            invariant
                self.wf(),
                n == self.rows@.len(),
                i <= n,
                out@.len() <= page,
                page == spec_page_limit(filters.limit),
                forall|k: int|
                    0 <= k < out@.len() ==> {
                        let j = (#[trigger] out@[k]).id as int;
                        &&& i <= j < n
                        &&& filters_match(self.rows@[j], *filters)
                        &&& same_record(out@[k], self.rows@[j])
                    },
                forall|k1: int, k2: int| 0 <= k1 < k2 < out@.len() ==> out@[k1].id > out@[k2].id,
                forall|j: int|
                    i <= j < n && filters_match(#[trigger] self.rows@[j], *filters) ==> id_in(
                        out@,
                        j,
                    ),
            decreases i,
        {
            i = i - 1;
            let row = &self.rows[i];
            let chain_ok = match filters.chain_id {
                Some(c) => row.chain_id == c,
                None => true,
            };
            let sender_ok = match &filters.sender {
                Some(sv) => bytes_eq(row.sender.as_slice(), sv.as_slice()),
                None => true,
            };
            let group_ok = match &filters.group_id {
                Some(gv) => match &row.group_id {
                    Some(g) => bytes_eq(g.as_slice(), gv.as_slice()),
                    None => false,
                },
                None => true,
            };
            let status_ok = if filters.statuses.len() == 0 {
                true
            } else {
                let mut found = false;
                let mut x: usize = 0;
                while x < filters.statuses.len()
                    invariant
                        x <= filters.statuses@.len(),
                        i < n == self.rows@.len(),
                        found ==> exists|y: int|
                            0 <= y < filters.statuses@.len() && filters.statuses@[y]
                                == self.rows@[i as int].status,
                        !found ==> forall|y: int|
                            0 <= y < x ==> filters.statuses@[y] != self.rows@[i as int].status,
                    decreases filters.statuses@.len() - x,
                {
                    if filters.statuses[x] == self.rows[i].status {
                        found = true;
                    }
                    x = x + 1;
                }
                found
            };
            if chain_ok && sender_ok && group_ok && status_ok {
                proof {
                    assert(filters_match(self.rows@[i as int], *filters));
                }
                let ghost pre_out = out@;
                out.push(self.rows[i].duplicate());
                proof {
                    assert(out@.last().id as int == i as int);
                    assert forall|j: int|
                        i <= j < n && filters_match(#[trigger] self.rows@[j], *filters)
                        implies id_in(out@, j) by {
                        if j > i {
                            let k = choose|k: int|
                                0 <= k < pre_out.len() && (#[trigger] pre_out[k]).id as int == j;
                            assert(out@[k] == pre_out[k]);
                        } else {
                            assert(out@[out@.len() - 1].id as int == j);
                        }
                    }
                }
            } else {
                proof {
                    assert(!filters_match(self.rows@[i as int], *filters));
                }
            }
        }
        proof {
            assert forall|k: int, j: int|
                0 <= k < out@.len() && 0 <= j < self.rows@.len() && filters_match(
                    #[trigger] self.rows@[j],
                    *filters,
                ) && !id_in(out@, j) implies (#[trigger] out@[k]).id > j as u64 by {
                if j as u64 >= out@[k].id {
                    assert(i as int <= out@[k].id as int);
                    assert(j >= i as int);
                }
            }
            if out@.len() < page {
                assert(i == 0);
            }
        }
        out
    }
}


/// A row counts toward a sender's group listing: same sender, within the
/// optional chain filter, carrying a group tag.
pub open spec fn sg_match(r: TxRecord, sender: Seq<u8>, chain_id: Option<u64>) -> bool {
    &&& r.sender@ == sender
    &&& (chain_id is Some ==> r.chain_id == chain_id->0)
    &&& r.group_id is Some
}

/// A row belongs to the summary entry's (chain, group).
pub open spec fn sg_member(r: TxRecord, e: SenderGroupRecord) -> bool {
    &&& r.chain_id == e.chain_id
    &&& r.group_id is Some
    &&& r.group_id->0@ == e.group_id@
}

/// A summary entry is exact over the first `upto` rows: its span is
/// attained at both ends and bounds every matching member.
pub open spec fn sg_exact(
    rows: Seq<TxRecord>,
    upto: int,
    sender: Seq<u8>,
    chain_id: Option<u64>,
    e: SenderGroupRecord,
) -> bool {
    &&& (exists|j: int|
        0 <= j < upto && sg_match(#[trigger] rows[j], sender, chain_id) && sg_member(rows[j], e)
            && rows[j].eligible_at == e.start_at)
    &&& (exists|j: int|
        0 <= j < upto && sg_match(#[trigger] rows[j], sender, chain_id) && sg_member(rows[j], e)
            && rows[j].eligible_at == e.end_at)
    &&& (forall|j: int|
        0 <= j < upto && sg_match(#[trigger] rows[j], sender, chain_id) && sg_member(rows[j], e)
            ==> e.start_at <= rows[j].eligible_at <= e.end_at)
}

/// A summary list carries an entry for this (chain, group).
pub open spec fn sg_listed(r: Seq<SenderGroupRecord>, chain_id: u64, group_id: Seq<u8>) -> bool {
    exists|k: int|
        0 <= k < r.len() && (#[trigger] r[k]).chain_id == chain_id && r[k].group_id@ == group_id
}

impl Store {
    /// Aggregates every group of the sender into one exact summary entry.
    fn collect_sender_groups(&self, sender: &[u8], chain_id: Option<u64>) -> (r: Vec<
        SenderGroupRecord,
    >)
        ensures
            forall|k1: int, k2: int|
                0 <= k1 < k2 < r@.len() ==> !((#[trigger] r@[k1]).chain_id == (
                #[trigger] r@[k2]).chain_id && r@[k1].group_id@ == r@[k2].group_id@),
            forall|k: int|
                0 <= k < r@.len() ==> sg_exact(
                    self.rows@,
                    self.rows@.len() as int,
                    sender@,
                    chain_id,
                    #[trigger] r@[k],
                ),
            forall|j: int|
                0 <= j < self.rows@.len() && sg_match(#[trigger] self.rows@[j], sender@, chain_id)
                    ==> sg_listed(r@, self.rows@[j].chain_id, self.rows@[j].group_id->0@),
    {
        let n = self.rows.len();
        let mut out: Vec<SenderGroupRecord> = Vec::new();
        let mut i: usize = 0;
        while i < n
            invariant
                n == self.rows@.len(),
                i <= n,
                forall|k1: int, k2: int|
                    0 <= k1 < k2 < out@.len() ==> !((#[trigger] out@[k1]).chain_id == (
                    #[trigger] out@[k2]).chain_id && out@[k1].group_id@ == out@[k2].group_id@),
                forall|k: int|
                    0 <= k < out@.len() ==> sg_exact(
                        self.rows@,
                        i as int,
                        sender@,
                        chain_id,
                        #[trigger] out@[k],
                    ),
                forall|j: int|
                    0 <= j < i && sg_match(#[trigger] self.rows@[j], sender@, chain_id)
                        ==> sg_listed(out@, self.rows@[j].chain_id, self.rows@[j].group_id->0@),
            decreases n - i,
        {
            let row_matches = bytes_eq(self.rows[i].sender.as_slice(), sender) && (match chain_id {
                Some(c) => self.rows[i].chain_id == c,
                None => true,
            }) && self.rows[i].group_id.is_some();
            if row_matches {
                let ghost row = self.rows@[i as int];
                let eligible = self.rows[i].eligible_at;
                let row_chain = self.rows[i].chain_id;
                let m = out.len();
                let mut found: Option<usize> = None;
                let mut k: usize = 0;
                while k < m
                    invariant
                        n == self.rows@.len(),
                        i < n,
                        row == self.rows@[i as int],
                        row.group_id is Some,
                        m == out@.len(),
                        k <= m,
                        row_chain == row.chain_id,
                        found is None ==> forall|x: int|
                            0 <= x < k ==> !((#[trigger] out@[x]).chain_id == row.chain_id
                                && out@[x].group_id@ == row.group_id->0@),
                        found is Some ==> {
                            let f = found->0 as int;
                            &&& 0 <= f < m
                            &&& out@[f].chain_id == row.chain_id
                            &&& out@[f].group_id@ == row.group_id->0@
                        },
                    decreases m - k,
                {
                    let key_match = out[k].chain_id == row_chain && (match &self.rows[i].group_id {
                        Some(g) => bytes_eq(out[k].group_id.as_slice(), g.as_slice()),
                        None => false,
                    });
                    if key_match && found.is_none() {
                        found = Some(k);
                    }
                    k = k + 1;
                }
                let ghost pre_out = out@;
                match found {
                    Some(f) => {
                        let start_at = if eligible < out[f].start_at {
                            eligible
                        } else {
                            out[f].start_at
                        };
                        let end_at = if eligible > out[f].end_at {
                            eligible
                        } else {
                            out[f].end_at
                        };
                        let entry = SenderGroupRecord {
                            chain_id: out[f].chain_id,
                            group_id: clone_bytes(&out[f].group_id),
                            start_at,
                            end_at,
                        };
                        out[f] = entry;
                        proof {
                            let fi = f as int;
                            let cur = out@;
                            assert(cur == pre_out.update(fi, cur[fi]));
                            assert(cur[fi].chain_id == pre_out[fi].chain_id && cur[fi].group_id@
                                == pre_out[fi].group_id@);
                            assert forall|k2: int| 0 <= k2 < cur.len() implies sg_exact(
                                self.rows@,
                                i + 1,
                                sender@,
                                chain_id,
                                #[trigger] cur[k2],
                            ) by {
                                if k2 != fi {
                                    assert(cur[k2] == pre_out[k2]);
                                    assert(sg_exact(self.rows@, i as int, sender@, chain_id,
                                        pre_out[k2]));
                                    assert(!sg_member(row, cur[k2])) by {
                                        if sg_member(row, cur[k2]) {
                                            assert(cur[k2].chain_id == cur[fi].chain_id
                                                && cur[k2].group_id@ == cur[fi].group_id@);
                                        }
                                    }
                                } else {
                                    assert(sg_exact(self.rows@, i as int, sender@, chain_id,
                                        pre_out[fi]));
                                    if cur[fi].start_at == pre_out[fi].start_at {
                                        let j = choose|j: int|
                                            0 <= j < i && sg_match(
                                                #[trigger] self.rows@[j],
                                                sender@,
                                                chain_id,
                                            ) && sg_member(self.rows@[j], pre_out[fi])
                                                && self.rows@[j].eligible_at == pre_out[
                                                fi
                                            ].start_at;
                                        assert(sg_member(self.rows@[j], cur[fi]));
                                    } else {
                                        assert(cur[fi].start_at == row.eligible_at);
                                        assert(sg_member(row, cur[fi]));
                                    }
                                    if cur[fi].end_at == pre_out[fi].end_at {
                                        let j = choose|j: int|
                                            0 <= j < i && sg_match(
                                                #[trigger] self.rows@[j],
                                                sender@,
                                                chain_id,
                                            ) && sg_member(self.rows@[j], pre_out[fi])
                                                && self.rows@[j].eligible_at == pre_out[fi].end_at;
                                        assert(sg_member(self.rows@[j], cur[fi]));
                                    } else {
                                        assert(cur[fi].end_at == row.eligible_at);
                                        assert(sg_member(row, cur[fi]));
                                    }
                                }
                            }
                            assert forall|j: int|
                                0 <= j < i + 1 && sg_match(
                                    #[trigger] self.rows@[j],
                                    sender@,
                                    chain_id,
                                ) implies sg_listed(
                                cur,
                                self.rows@[j].chain_id,
                                self.rows@[j].group_id->0@,
                            ) by {
                                if j < i {
                                    let k2 = choose|k2: int|
                                        0 <= k2 < pre_out.len() && (#[trigger] pre_out[
                                            k2
                                        ]).chain_id == self.rows@[j].chain_id && pre_out[
                                            k2
                                        ].group_id@ == self.rows@[j].group_id->0@;
                                    assert(cur[k2].chain_id == pre_out[k2].chain_id && cur[
                                        k2
                                    ].group_id@ == pre_out[k2].group_id@);
                                } else {
                                    assert(cur[fi].chain_id == self.rows@[j].chain_id && cur[
                                        fi
                                    ].group_id@ == self.rows@[j].group_id->0@);
                                }
                            }
                        }
                    },
                    None => {
                        let group_id = match &self.rows[i].group_id {
                            Some(g) => clone_bytes(g),
                            None => Vec::new(),
                        };
                        out.push(
                            SenderGroupRecord {
                                chain_id: row_chain,
                                group_id,
                                start_at: eligible,
                                end_at: eligible,
                            },
                        );
                        proof {
                            let cur = out@;
                            assert(cur.drop_last() =~= pre_out);
                            assert(cur.last().chain_id == row.chain_id && cur.last().group_id@
                                == row.group_id->0@ && cur.last().start_at == row.eligible_at
                                && cur.last().end_at == row.eligible_at);
                            assert forall|k2: int| 0 <= k2 < cur.len() implies sg_exact(
                                self.rows@,
                                i + 1,
                                sender@,
                                chain_id,
                                #[trigger] cur[k2],
                            ) by {
                                if k2 < pre_out.len() {
                                    assert(cur[k2] == pre_out[k2]);
                                    assert(sg_exact(self.rows@, i as int, sender@, chain_id,
                                        pre_out[k2]));
                                    assert(!sg_member(row, cur[k2]));
                                } else {
                                    assert(cur[k2] == cur.last());
                                    assert(sg_member(row, cur[k2]));
                                    assert forall|j: int|
                                        0 <= j < i + 1 && sg_match(
                                            #[trigger] self.rows@[j],
                                            sender@,
                                            chain_id,
                                        ) && sg_member(self.rows@[j], cur[k2]) implies cur[
                                        k2
                                    ].start_at <= self.rows@[j].eligible_at <= cur[k2].end_at by {
                                        if j < i {
                                            assert(sg_listed(pre_out, self.rows@[j].chain_id,
                                                self.rows@[j].group_id->0@));
                                            let x = choose|x: int|
                                                0 <= x < pre_out.len() && (#[trigger] pre_out[
                                                    x
                                                ]).chain_id == self.rows@[j].chain_id && pre_out[
                                                    x
                                                ].group_id@ == self.rows@[j].group_id->0@;
                                            assert(pre_out[x].chain_id == row.chain_id && pre_out[
                                                x
                                            ].group_id@ == row.group_id->0@);
                                        }
                                    }
                                }
                            }
                            assert forall|j: int|
                                0 <= j < i + 1 && sg_match(
                                    #[trigger] self.rows@[j],
                                    sender@,
                                    chain_id,
                                ) implies sg_listed(
                                cur,
                                self.rows@[j].chain_id,
                                self.rows@[j].group_id->0@,
                            ) by {
                                if j < i {
                                    let k2 = choose|k2: int|
                                        0 <= k2 < pre_out.len() && (#[trigger] pre_out[
                                            k2
                                        ]).chain_id == self.rows@[j].chain_id && pre_out[
                                            k2
                                        ].group_id@ == self.rows@[j].group_id->0@;
                                    assert(cur[k2] == pre_out[k2]);
                                } else {
                                    assert(cur.last().chain_id == self.rows@[j].chain_id
                                        && cur.last().group_id@ == self.rows@[j].group_id->0@);
                                }
                            }
                        }
                    },
                }
            } else {
                proof {
                    assert(!sg_match(self.rows@[i as int], sender@, chain_id));
                }
            }
            i = i + 1;
        }
        out
    }

    /// The per-sender group summaries: one exact (chain, group) span per
    /// group, the active filter keeping only groups whose span has not yet
    /// closed, up to the clamped page limit. A short page lists every
    /// qualifying group.
    pub fn list_sender_groups(
        &self,
        sender: &[u8],
        chain_id: Option<u64>,
        limit: i64,
        active_only: bool,
        now: i64,
    ) -> (r: Vec<SenderGroupRecord>)
        ensures
            r@.len() <= spec_page_limit(limit),
            forall|k1: int, k2: int|
                0 <= k1 < k2 < r@.len() ==> !((#[trigger] r@[k1]).chain_id == (
                #[trigger] r@[k2]).chain_id && r@[k1].group_id@ == r@[k2].group_id@),
            forall|k: int|
                0 <= k < r@.len() ==> sg_exact(
                    self.rows@,
                    self.rows@.len() as int,
                    sender@,
                    chain_id,
                    #[trigger] r@[k],
                ) && (active_only ==> r@[k].end_at > now),
            r@.len() < spec_page_limit(limit) ==> (forall|j: int|
                0 <= j < self.rows@.len() && sg_match(#[trigger] self.rows@[j], sender@, chain_id)
                    && (!active_only || exists|j2: int|
                    0 <= j2 < self.rows@.len() && sg_match(#[trigger] self.rows@[j2], sender@, chain_id)
                        && self.rows@[j2].chain_id == self.rows@[j].chain_id
                        && self.rows@[j2].group_id->0@ == self.rows@[j].group_id->0@
                        && self.rows@[j2].eligible_at > now) ==> sg_listed(
                    r@,
                    self.rows@[j].chain_id,
                    self.rows@[j].group_id->0@,
                )),
    {
        let page: usize = if limit < 1 {
            1
        } else if limit > 500 {
            500
        } else {
            limit as usize
        };
        let groups = self.collect_sender_groups(sender, chain_id);
        let total = groups.len();
        let mut out: Vec<SenderGroupRecord> = Vec::new();
        let mut k: usize = 0;
        while k < total
            invariant
                total == groups@.len(),
                k <= total,
                page == spec_page_limit(limit),
                out@.len() <= page,
                forall|k1: int, k2: int|
                    0 <= k1 < k2 < groups@.len() ==> !((#[trigger] groups@[k1]).chain_id == (
                    #[trigger] groups@[k2]).chain_id && groups@[k1].group_id@
                        == groups@[k2].group_id@),
                forall|x: int|
                    0 <= x < groups@.len() ==> sg_exact(
                        self.rows@,
                        self.rows@.len() as int,
                        sender@,
                        chain_id,
                        #[trigger] groups@[x],
                    ),
                forall|x: int|
                    0 <= x < out@.len() ==> exists|y: int|
                        0 <= y < k && (#[trigger] out@[x]).chain_id == groups@[y].chain_id
                            && out@[x].group_id@ == groups@[y].group_id@ && out@[x].start_at
                            == groups@[y].start_at && out@[x].end_at == groups@[y].end_at,
                forall|x1: int, x2: int|
                    0 <= x1 < x2 < out@.len() ==> !((#[trigger] out@[x1]).chain_id == (
                    #[trigger] out@[x2]).chain_id && out@[x1].group_id@ == out@[x2].group_id@),
                forall|x: int|
                    0 <= x < out@.len() ==> (active_only ==> (#[trigger] out@[x]).end_at > now),
                out@.len() < page ==> (forall|y: int|
                    0 <= y < k && (!active_only || (#[trigger] groups@[y]).end_at > now)
                        ==> sg_listed(out@, groups@[y].chain_id, groups@[y].group_id@)),
            decreases total - k,
        {
            let keep = (!active_only || groups[k].end_at > now) && out.len() < page;
            if keep {
                let ghost pre_out = out@;
                out.push(
                    SenderGroupRecord {
                        chain_id: groups[k].chain_id,
                        group_id: clone_bytes(&groups[k].group_id),
                        start_at: groups[k].start_at,
                        end_at: groups[k].end_at,
                    },
                );
                proof {
                    assert(out@.drop_last() =~= pre_out);
                    assert(out@.last().chain_id == groups@[k as int].chain_id && out@.last().group_id@
                        == groups@[k as int].group_id@);
                    assert forall|x1: int, x2: int|
                        0 <= x1 < x2 < out@.len() implies !((#[trigger] out@[x1]).chain_id == (
                    #[trigger] out@[x2]).chain_id && out@[x1].group_id@ == out@[x2].group_id@) by {
                        if x2 == out@.len() - 1 {
                            assert(out@[x1] == pre_out[x1]);
                            let y = choose|y: int|
                                0 <= y < k && (#[trigger] pre_out[x1]).chain_id == groups@[
                                    y
                                ].chain_id && pre_out[x1].group_id@ == groups@[y].group_id@
                                    && pre_out[x1].start_at == groups@[y].start_at && pre_out[
                                    x1
                                ].end_at == groups@[y].end_at;
                            assert(!(groups@[y].chain_id == groups@[k as int].chain_id && groups@[
                                y
                            ].group_id@ == groups@[k as int].group_id@));
                        } else {
                            assert(out@[x1] == pre_out[x1] && out@[x2] == pre_out[x2]);
                        }
                    }
                    assert forall|y: int|
                        out@.len() < page && 0 <= y < k + 1 && (!active_only || (
                        #[trigger] groups@[y]).end_at > now) implies sg_listed(
                        out@,
                        groups@[y].chain_id,
                        groups@[y].group_id@,
                    ) by {
                        if y < k {
                            let x = choose|x: int|
                                0 <= x < pre_out.len() && (#[trigger] pre_out[x]).chain_id
                                    == groups@[y].chain_id && pre_out[x].group_id@ == groups@[
                                    y
                                ].group_id@;
                            assert(out@[x] == pre_out[x]);
                        } else {
                            assert(out@[out@.len() - 1].chain_id == groups@[y].chain_id
                                && out@[out@.len() - 1].group_id@ == groups@[y].group_id@);
                        }
                    }
                }
            }
            k = k + 1;
        }
        proof {
            if out@.len() < page {
                assert forall|j: int|
                    0 <= j < self.rows@.len() && sg_match(#[trigger] self.rows@[j], sender@, chain_id)
                        && (!active_only || exists|j2: int|
                        0 <= j2 < self.rows@.len() && sg_match(
                            #[trigger] self.rows@[j2],
                            sender@,
                            chain_id,
                        ) && self.rows@[j2].chain_id == self.rows@[j].chain_id
                            && self.rows@[j2].group_id->0@ == self.rows@[j].group_id->0@
                            && self.rows@[j2].eligible_at > now) implies sg_listed(
                    out@,
                    self.rows@[j].chain_id,
                    self.rows@[j].group_id->0@,
                ) by {
                    assert(sg_listed(groups@, self.rows@[j].chain_id, self.rows@[j].group_id->0@));
                    let y = choose|y: int|
                        0 <= y < groups@.len() && (#[trigger] groups@[y]).chain_id == self.rows@[
                            j
                        ].chain_id && groups@[y].group_id@ == self.rows@[j].group_id->0@;
                    if active_only {
                        let j2 = choose|j2: int|
                            0 <= j2 < self.rows@.len() && sg_match(
                                #[trigger] self.rows@[j2],
                                sender@,
                                chain_id,
                            ) && self.rows@[j2].chain_id == self.rows@[j].chain_id
                                && self.rows@[j2].group_id->0@ == self.rows@[j].group_id->0@
                                && self.rows@[j2].eligible_at > now;
                        assert(sg_member(self.rows@[j2], groups@[y]));
                        assert(groups@[y].end_at >= self.rows@[j2].eligible_at);
                    }
                }
            }
        }
        out
    }
}

} // verus!
