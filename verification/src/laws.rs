//! The pipeline's global laws, stated and proved over the store model.
//! Each mutation of the store already carries `terminal_frozen` and
//! `attempts_monotone` in its contract; the lemmas here state the laws
//! that span rows, operations, or whole lease passes.

use vstd::prelude::*;
use crate::models::TxRecord;
use crate::status::spec_is_terminal;
use crate::store::{
    attempts_monotone, id_in, in_group, leased_row, spec_eligible, terminal_frozen, Store,
};

verus! {

/// Every row of a well-formed store satisfies the terminal and in-flight
/// field discipline: a terminal row has no next action and no lease, and a
/// broadcasting row always carries its lease.
pub proof fn lemma_status_field_discipline(s: Store, i: int)
    requires
        s.wf(),
        0 <= i < s.rows@.len(),
    ensures
        spec_is_terminal(s.rows@[i].status) ==> s.rows@[i].next_action_at is None
            && s.rows@[i].lease_owner is None && s.rows@[i].lease_until is None,
        s.rows@[i].status is Broadcasting ==> s.rows@[i].lease_owner is Some
            && s.rows@[i].lease_until is Some,
{
    assert(s.rows@[i].wf());
}

/// A row under a live lease is not due: leasing moves `lease_until` into
/// the future, and eligibility demands an expired lease.
pub proof fn lemma_live_lease_not_eligible(r: TxRecord, chain_id: u64, now: i64)
    requires
        r.lease_until is Some,
        now <= r.lease_until->0,
    ensures
        !spec_eligible(r, chain_id, now),
{
}

/// No two lease passes hand the same row out while a lease is live: rows
/// `first` leased until `until` are disjoint from rows `second` that were
/// still due at any instant before `until`. With the store serializing
/// each pass, at most one worker ever holds a row.
pub proof fn lemma_lease_passes_disjoint(
    mid: Store,
    first: Seq<TxRecord>,
    second: Seq<TxRecord>,
    chain_id: u64,
    until: i64,
    now2: i64,
)
    requires
        forall|k: int|
            0 <= k < first.len() ==> {
                let i = (#[trigger] first[k]).id as int;
                &&& 0 <= i < mid.rows@.len()
                &&& mid.rows@[i].lease_until == Some(until)
            },
        forall|k: int|
            0 <= k < second.len() ==> {
                let i = (#[trigger] second[k]).id as int;
                &&& 0 <= i < mid.rows@.len()
                &&& spec_eligible(mid.rows@[i], chain_id, now2)
            },
        now2 <= until,
    ensures
        forall|k1: int, k2: int|
            0 <= k1 < first.len() && 0 <= k2 < second.len() ==> (#[trigger] first[k1]).id != (
            #[trigger] second[k2]).id,
{
    assert forall|k1: int, k2: int|
        0 <= k1 < first.len() && 0 <= k2 < second.len() implies (#[trigger] first[k1]).id != (
    #[trigger] second[k2]).id by {
        if first[k1].id == second[k2].id {
            let i = first[k1].id as int;
            lemma_live_lease_not_eligible(mid.rows@[i], chain_id, now2);
        }
    }
}

/// Within one (chain, sender, group), all rows of a well-formed store
/// share a single nonce key, and validity windows respect the nonce
/// order: a later-nonce member never expires before an earlier one.
pub proof fn lemma_group_discipline(s: Store, i: int, j: int)
    requires
        s.wf(),
        0 <= i < s.rows@.len(),
        0 <= j < s.rows@.len(),
        s.rows@[i].group_id is Some,
        in_group(s.rows@[j], s.rows@[i].chain_id, s.rows@[i].sender@, s.rows@[i].group_id->0@),
    ensures
        s.rows@[i].nonce_key@ == s.rows@[j].nonce_key@,
        s.rows@[i].nonce < s.rows@[j].nonce && s.rows@[i].valid_before is Some
            && s.rows@[j].valid_before is Some ==> s.rows@[i].valid_before->0
            <= s.rows@[j].valid_before->0,
{
}

/// Terminal states are absorbing across any chain of store operations:
/// once a row is terminal it never changes again, no matter how many
/// further operations run.
pub proof fn lemma_terminal_frozen_transitive(a: Seq<TxRecord>, b: Seq<TxRecord>, c: Seq<TxRecord>)
    requires
        a.len() <= b.len(),
        terminal_frozen(a, b),
        terminal_frozen(b, c),
    ensures
        terminal_frozen(a, c),
{
    assert forall|i: int|
        0 <= i < a.len() && spec_is_terminal((#[trigger] a[i]).status) implies c[i] == a[i] by {
        assert(b[i] == a[i]);
        assert(spec_is_terminal(b[i].status));
    }
}

/// Attempt counters never decrease across any chain of store operations.
pub proof fn lemma_attempts_monotone_transitive(
    a: Seq<TxRecord>,
    b: Seq<TxRecord>,
    c: Seq<TxRecord>,
)
    requires
        a.len() <= b.len(),
        b.len() <= c.len(),
        attempts_monotone(a, b),
        attempts_monotone(b, c),
    ensures
        attempts_monotone(a, c),
{
    assert forall|i: int|
        0 <= i < a.len() implies (#[trigger] a[i]).attempts <= (#[trigger] c[i]).attempts by {
        assert(a[i].attempts <= b[i].attempts);
        assert(b[i].attempts <= c[i].attempts);
    }
}

/// A lease pass returns each row at most once: the rows a single batch
/// lease hands out carry pairwise distinct identifiers, so one pass never
/// gives the same row to two workers.
pub proof fn lemma_pass_rows_distinct(r: Seq<TxRecord>, i: int)
    requires
        forall|k1: int, k2: int| 0 <= k1 < k2 < r.len() ==> (#[trigger] r[k1]).id != (
        #[trigger] r[k2]).id,
        id_in(r, i),
    ensures
        exists|k: int|
            0 <= k < r.len() && (#[trigger] r[k]).id as int == i && (forall|k2: int|
                0 <= k2 < r.len() && k2 != k ==> (#[trigger] r[k2]).id as int != i),
{
    let k = choose|k: int| 0 <= k < r.len() && (#[trigger] r[k]).id as int == i;
    assert(0 <= k < r.len() && r[k].id as int == i && (forall|k2: int|
        0 <= k2 < r.len() && k2 != k ==> (#[trigger] r[k2]).id as int != i)) by {
        assert forall|k2: int| 0 <= k2 < r.len() && k2 != k implies (#[trigger] r[k2]).id as int
            != i by {
            if k2 < k {
                assert(r[k2].id != r[k].id);
            } else {
                assert(r[k].id != r[k2].id);
            }
        }
    }
}

} // verus!
