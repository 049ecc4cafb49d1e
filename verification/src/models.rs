//! The transaction record: one row per (chain, transaction hash), the
//! primary entity of the pipeline, together with the shapes ingress and
//! queries exchange with the store.
//!
//! Instants are unix milliseconds; the `valid_after` / `valid_before`
//! client bounds are unix seconds, as submitted.

use vstd::prelude::*;
use crate::status::{spec_is_terminal, TxStatus};

verus! {

/// One stored transaction row.
#[derive(Clone, Debug)]
pub struct TxRecord {
    /// Monotonic row identifier; equals the row's position in the store.
    pub id: u64,
    pub chain_id: u64,
    /// 32-byte content hash of the raw signed bytes.
    pub tx_hash: Vec<u8>,
    /// Opaque signed bytes; cleared once the row is locally canceled.
    pub raw_tx: Option<Vec<u8>>,
    /// 20-byte sender address.
    pub sender: Vec<u8>,
    /// Optional 20-byte fee-payer address.
    pub fee_payer: Option<Vec<u8>>,
    /// 32-byte opaque lane selector.
    pub nonce_key: Vec<u8>,
    pub nonce: u64,
    /// Optional unix-second floor for eligibility.
    pub valid_after: Option<u64>,
    /// Optional unix-second ceiling; after this the record expires.
    pub valid_before: Option<u64>,
    /// Materialized `max(now at insert, valid_after)`, unix ms.
    pub eligible_at: i64,
    /// Materialized from `valid_before`, unix ms.
    pub expires_at: Option<i64>,
    pub status: TxStatus,
    /// Optional 16-byte group tag derived from the nonce key.
    pub group_id: Option<Vec<u8>>,
    /// When the scheduler should next consider this row; none while the
    /// row is terminal or parked in flight.
    pub next_action_at: Option<i64>,
    pub lease_owner: Option<String>,
    pub lease_until: Option<i64>,
    /// Monotonic counter of broadcast attempts.
    pub attempts: u32,
    pub last_error: Option<String>,
    pub last_broadcast_at: Option<i64>,
    /// Receipt payload, as serialized text, once executed.
    pub receipt: Option<String>,
    pub created_at: i64,
    pub updated_at: i64,
}

impl TxRecord {
    /// Field discipline of a single row: address and hash widths, the
    /// terminal and in-flight lease constraints, and the coherence of the
    /// materialized times.
    pub open spec fn wf(&self) -> bool {
        &&& self.tx_hash@.len() == 32
        &&& self.sender@.len() == 20
        &&& self.nonce_key@.len() == 32
        &&& (self.fee_payer is Some ==> self.fee_payer->0@.len() == 20)
        &&& (self.group_id is Some ==> self.group_id->0@.len() == 16)
        &&& (spec_is_terminal(self.status) ==> self.next_action_at is None
            && self.lease_owner is None && self.lease_until is None)
        &&& (self.status is Broadcasting ==> self.lease_owner is Some && self.lease_until is Some)
        &&& (self.valid_before is Some <==> self.expires_at is Some)
        &&& (self.valid_before is Some ==> self.expires_at->0 == 1000 * self.valid_before->0)
        &&& (self.expires_at is Some ==> self.eligible_at <= self.expires_at->0)
        &&& 0 <= self.eligible_at
    }
}

/// What ingress hands the store for insertion.
#[derive(Clone, Debug)]
pub struct NewTx {
    pub chain_id: u64,
    pub tx_hash: Vec<u8>,
    pub raw_tx: Vec<u8>,
    pub sender: Vec<u8>,
    pub fee_payer: Option<Vec<u8>>,
    pub nonce_key: Vec<u8>,
    pub nonce: u64,
    pub valid_after: Option<u64>,
    pub valid_before: Option<u64>,
    pub eligible_at: i64,
    pub expires_at: Option<i64>,
    pub status: TxStatus,
    pub group_id: Option<Vec<u8>>,
    pub next_action_at: i64,
}

impl NewTx {
    /// The discipline ingress establishes before insertion.
    pub open spec fn wf(&self) -> bool {
        &&& self.tx_hash@.len() == 32
        &&& self.sender@.len() == 20
        &&& self.nonce_key@.len() == 32
        &&& (self.fee_payer is Some ==> self.fee_payer->0@.len() == 20)
        &&& (self.group_id is Some ==> self.group_id->0@.len() == 16)
        &&& self.status is Queued
        &&& (self.valid_before is Some <==> self.expires_at is Some)
        &&& (self.valid_before is Some ==> self.expires_at->0 == 1000 * self.valid_before->0)
        &&& (self.expires_at is Some ==> self.eligible_at <= self.expires_at->0)
        &&& 0 <= self.eligible_at
        &&& self.next_action_at == self.eligible_at
    }
}

/// The (nonce, valid_before) window of one stored group member.
#[derive(Clone, Debug)]
pub struct GroupNonceWindow {
    pub nonce: u64,
    pub valid_before: Option<u64>,
}

/// One (chain, group) summary for a sender: the span of eligibility times
/// over the group's rows.
#[derive(Clone, Debug)]
pub struct SenderGroupRecord {
    pub chain_id: u64,
    pub group_id: Vec<u8>,
    pub start_at: i64,
    pub end_at: i64,
}

/// Filters for listing transactions.
#[derive(Debug, Clone)]
pub struct TxFilters {
    pub chain_id: Option<u64>,
    pub sender: Option<Vec<u8>>,
    pub group_id: Option<Vec<u8>>,
    pub statuses: Vec<TxStatus>,
    pub limit: i64,
}

/// The contents of an optional byte vector.
pub open spec fn opt_view(o: Option<Vec<u8>>) -> Option<Seq<u8>> {
    match o {
        None => None,
        Some(v) => Some(v@),
    }
}

/// Two rows carry the same data: every field agrees, byte vectors by
/// their contents.
pub open spec fn same_record(a: TxRecord, b: TxRecord) -> bool {
    &&& a.id == b.id
    &&& a.chain_id == b.chain_id
    &&& a.tx_hash@ == b.tx_hash@
    &&& opt_view(a.raw_tx) == opt_view(b.raw_tx)
    &&& a.sender@ == b.sender@
    &&& opt_view(a.fee_payer) == opt_view(b.fee_payer)
    &&& a.nonce_key@ == b.nonce_key@
    &&& a.nonce == b.nonce
    &&& a.valid_after == b.valid_after
    &&& a.valid_before == b.valid_before
    &&& a.eligible_at == b.eligible_at
    &&& a.expires_at == b.expires_at
    &&& a.status == b.status
    &&& opt_view(a.group_id) == opt_view(b.group_id)
    &&& a.next_action_at == b.next_action_at
    &&& a.lease_owner == b.lease_owner
    &&& a.lease_until == b.lease_until
    &&& a.attempts == b.attempts
    &&& a.last_error == b.last_error
    &&& a.last_broadcast_at == b.last_broadcast_at
    &&& a.receipt == b.receipt
    &&& a.created_at == b.created_at
    &&& a.updated_at == b.updated_at
}

/// Exact byte-string equality.
pub fn bytes_eq(a: &[u8], b: &[u8]) -> (r: bool)
    ensures
        r == (a@ == b@),
{
    if a.len() != b.len() {
        return false;
    }
    let mut i: usize = 0;
    while i < a.len()
        invariant
            a@.len() == b@.len(),
            i <= a@.len(),
            forall|j: int| 0 <= j < i ==> a@[j] == b@[j],
        decreases a@.len() - i,
    {
        if a[i] != b[i] {
            return false;
        }
        i = i + 1;
    }
    proof {
        assert(a@ =~= b@);
    }
    true
}

/// Copies a byte vector.
pub fn clone_bytes(v: &Vec<u8>) -> (r: Vec<u8>)
    ensures
        r@ == v@,
{
    let r = v.clone();
    proof {
        assert(r@ =~= v@);
    }
    r
}

/// Copies an optional byte vector.
pub fn clone_opt_bytes(v: &Option<Vec<u8>>) -> (r: Option<Vec<u8>>)
    ensures
        opt_view(r) == opt_view(*v),
{
    match v {
        None => None,
        Some(b) => Some(clone_bytes(b)),
    }
}

/// Copies an optional string.
pub fn clone_opt_string(v: &Option<String>) -> (r: Option<String>)
    ensures
        r == *v,
{
    match v {
        None => None,
        Some(s) => Some(s.clone()),
    }
}

impl TxRecord {
    /// A field-for-field copy of the row.
    pub fn duplicate(&self) -> (r: TxRecord)
        ensures
            same_record(r, *self),
    {
        TxRecord {
            id: self.id,
            chain_id: self.chain_id,
            tx_hash: clone_bytes(&self.tx_hash),
            raw_tx: clone_opt_bytes(&self.raw_tx),
            sender: clone_bytes(&self.sender),
            fee_payer: clone_opt_bytes(&self.fee_payer),
            nonce_key: clone_bytes(&self.nonce_key),
            nonce: self.nonce,
            valid_after: self.valid_after,
            valid_before: self.valid_before,
            eligible_at: self.eligible_at,
            expires_at: self.expires_at,
            status: self.status,
            group_id: clone_opt_bytes(&self.group_id),
            next_action_at: self.next_action_at,
            lease_owner: clone_opt_string(&self.lease_owner),
            lease_until: self.lease_until,
            attempts: self.attempts,
            last_error: clone_opt_string(&self.last_error),
            last_broadcast_at: self.last_broadcast_at,
            receipt: clone_opt_string(&self.receipt),
            created_at: self.created_at,
            updated_at: self.updated_at,
        }
    }
}

} // verus!
