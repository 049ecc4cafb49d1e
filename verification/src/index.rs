//! The ready/retry index: per chain, two sorted-set zones mapping each
//! transaction hash to the wall-clock second at which it next becomes
//! eligible. The index is advisory — an acceleration hint over the store's
//! authoritative eligibility query, never a source of exclusion.

use vstd::prelude::*;
use crate::models::{bytes_eq, clone_bytes};
use crate::text::{dec_chars, u64_dec_string};

verus! {

/// One scored member of a zone.
pub struct ZoneEntry {
    pub chain_id: u64,
    pub member: Vec<u8>,
    pub score: i64,
}

/// One sorted-set zone: at most one score per (chain, member).
pub struct Zone {
    pub entries: Vec<ZoneEntry>,
}

/// A zone holds an entry for this (chain, member) with this score.
pub open spec fn zone_contains(zone: Seq<ZoneEntry>, chain_id: u64, member: Seq<u8>, score: i64) -> bool {
    exists|k: int|
        0 <= k < zone.len() && (#[trigger] zone[k]).chain_id == chain_id && zone[k].member@
            == member && zone[k].score == score
}

/// A zone holds some entry for this (chain, member).
pub open spec fn zone_has(zone: Seq<ZoneEntry>, chain_id: u64, member: Seq<u8>) -> bool {
    exists|k: int|
        0 <= k < zone.len() && (#[trigger] zone[k]).chain_id == chain_id && zone[k].member@
            == member
}

/// A member of the chain's zone whose score has come due.
pub open spec fn zone_due(zone: Seq<ZoneEntry>, chain_id: u64, max_score: i64, member: Seq<u8>) -> bool {
    exists|k: int|
        0 <= k < zone.len() && (#[trigger] zone[k]).chain_id == chain_id && zone[k].member@
            == member && zone[k].score <= max_score
}

/// The due list splits at `m`: everything before `m` is due in the
/// `ready` zone, everything from `m` on is due in the `retry` zone —
/// ready members precede retry members.
pub open spec fn due_split(
    ix: &ReadyIndex,
    chain_id: u64,
    max_score: i64,
    r: Seq<Vec<u8>>,
    m: int,
) -> bool {
    &&& 0 <= m <= r.len()
    &&& (forall|k: int|
        0 <= k < m ==> zone_due(ix.ready.entries@, chain_id, max_score, (#[trigger] r[k])@))
    &&& (forall|k: int|
        m <= k < r.len() ==> zone_due(ix.retry.entries@, chain_id, max_score, (#[trigger] r[k])@))
}

impl Zone {
    /// Each (chain, member) occurs at most once.
    pub open spec fn wf(&self) -> bool {
        forall|i: int, j: int|
            0 <= i < j < self.entries@.len() ==> !((#[trigger] self.entries@[i]).chain_id == (
            #[trigger] self.entries@[j]).chain_id && self.entries@[i].member@
                == self.entries@[j].member@)
    }

    /// An empty zone.
    pub fn new() -> (z: Zone)
        ensures
            z.wf(),
            z.entries@.len() == 0,
    {
        Zone { entries: Vec::new() }
    }

    /// Adds a member with a score, replacing any previous score of the
    /// same (chain, member).
    pub fn upsert(&mut self, chain_id: u64, member: &[u8], score: i64)
        requires
            old(self).wf(),
        ensures
            final(self).wf(),
            zone_contains(final(self).entries@, chain_id, member@, score),
            forall|c: u64, m: Seq<u8>, s: i64|
                !(c == chain_id && m == member@) ==> (zone_contains(
                    final(self).entries@,
                    c,
                    m,
                    s,
                ) <==> zone_contains(old(self).entries@, c, m, s)),
            forall|c: u64, m: Seq<u8>|
                zone_has(final(self).entries@, c, m) <==> (zone_has(old(self).entries@, c, m) || (c
                    == chain_id && m == member@)),
    {
        let n = self.entries.len();
        let mut i: usize = 0;
        while i < n
            invariant
                *self == *old(self),
                old(self).wf(),
                n == self.entries@.len(),
                i <= n,
                forall|k: int|
                    0 <= k < i ==> !((#[trigger] self.entries@[k]).chain_id == chain_id
                        && self.entries@[k].member@ == member@),
            decreases n - i,
        {
            if self.entries[i].chain_id == chain_id && bytes_eq(
                self.entries[i].member.as_slice(),
                member,
            ) {
                let mut entry = ZoneEntry {
                    chain_id,
                    member: clone_bytes(&self.entries[i].member),
                    score,
                };
                self.entries[i] = entry;
                proof {
                    let post = self.entries@;
                    let pre = old(self).entries@;
                    assert(zone_contains(post, chain_id, member@, score));
                    assert forall|c: u64, m: Seq<u8>, s: i64|
                        !(c == chain_id && m == member@) implies (zone_contains(post, c, m, s)
                        <==> zone_contains(pre, c, m, s)) by {
                        if zone_contains(post, c, m, s) {
                            let k = choose|k: int|
                                0 <= k < post.len() && (#[trigger] post[k]).chain_id == c
                                    && post[k].member@ == m && post[k].score == s;
                            assert(post[k] == pre[k]);
                        }
                        if zone_contains(pre, c, m, s) {
                            let k = choose|k: int|
                                0 <= k < pre.len() && (#[trigger] pre[k]).chain_id == c
                                    && pre[k].member@ == m && pre[k].score == s;
                            assert(post[k] == pre[k]);
                        }
                    }
                    assert forall|c: u64, m: Seq<u8>| #![auto]
                        zone_has(post, c, m) <==> (zone_has(pre, c, m) || (c == chain_id && m
                            == member@)) by {
                        if zone_has(post, c, m) {
                            let k = choose|k: int|
                                0 <= k < post.len() && (#[trigger] post[k]).chain_id == c
                                    && post[k].member@ == m;
                            if k != i as int {
                                assert(post[k] == pre[k]);
                            }
                        }
                        if zone_has(pre, c, m) {
                            let k = choose|k: int|
                                0 <= k < pre.len() && (#[trigger] pre[k]).chain_id == c
                                    && pre[k].member@ == m;
                            if k != i as int {
                                assert(post[k] == pre[k]);
                            }
                        }
                    }
                }
                return ;
            }
            i = i + 1;
        }
        let ghost pre = self.entries@;
        self.entries.push(ZoneEntry { chain_id, member: clone_bytes_from_slice(member), score });
        proof {
            let post = self.entries@;
            assert(post.last().chain_id == chain_id && post.last().member@ == member@
                && post.last().score == score);
            assert(zone_contains(post, chain_id, member@, score));
            assert forall|c: u64, m: Seq<u8>, s: i64|
                !(c == chain_id && m == member@) implies (zone_contains(post, c, m, s)
                <==> zone_contains(pre, c, m, s)) by {
                if zone_contains(post, c, m, s) {
                    let k = choose|k: int|
                        0 <= k < post.len() && (#[trigger] post[k]).chain_id == c && post[k].member@
                            == m && post[k].score == s;
                    assert(k < pre.len() && post[k] == pre[k]);
                }
                if zone_contains(pre, c, m, s) {
                    let k = choose|k: int|
                        0 <= k < pre.len() && (#[trigger] pre[k]).chain_id == c && pre[k].member@
                            == m && pre[k].score == s;
                    assert(post[k] == pre[k]);
                }
            }
            assert forall|c: u64, m: Seq<u8>| #![auto]
                zone_has(post, c, m) <==> (zone_has(pre, c, m) || (c == chain_id && m == member@))
                by {
                if zone_has(post, c, m) {
                    let k = choose|k: int|
                        0 <= k < post.len() && (#[trigger] post[k]).chain_id == c && post[k].member@
                            == m;
                    if k < pre.len() {
                        assert(post[k] == pre[k]);
                    }
                }
                if zone_has(pre, c, m) {
                    let k = choose|k: int|
                        0 <= k < pre.len() && (#[trigger] pre[k]).chain_id == c && pre[k].member@
                            == m;
                    assert(post[k] == pre[k]);
                }
            }
        }
    }

    /// Removes the (chain, member) entry, if present.
    pub fn remove(&mut self, chain_id: u64, member: &[u8])
        requires
            old(self).wf(),
        ensures
            final(self).wf(),
            !zone_has(final(self).entries@, chain_id, member@),
            forall|c: u64, m: Seq<u8>, s: i64|
                !(c == chain_id && m == member@) ==> (zone_contains(
                    final(self).entries@,
                    c,
                    m,
                    s,
                ) <==> zone_contains(old(self).entries@, c, m, s)),
            forall|c: u64, m: Seq<u8>|
                !(c == chain_id && m == member@) ==> (zone_has(final(self).entries@, c, m)
                    <==> zone_has(old(self).entries@, c, m)),
    {
        let n = self.entries.len();
        let mut i: usize = 0;
        while i < n
            invariant
                *self == *old(self),
                old(self).wf(),
                n == self.entries@.len(),
                i <= n,
                forall|k: int|
                    0 <= k < i ==> !((#[trigger] self.entries@[k]).chain_id == chain_id
                        && self.entries@[k].member@ == member@),
            decreases n - i,
        {
            if self.entries[i].chain_id == chain_id && bytes_eq(
                self.entries[i].member.as_slice(),
                member,
            ) {
                let ghost pre = self.entries@;
                self.entries.remove(i);
                proof {
                    let post = self.entries@;
                    let ii = i as int;
                    assert(post == pre.remove(ii));
                    assert(post.len() == pre.len() - 1);
                    assert(forall|k: int| 0 <= k < ii ==> #[trigger] post[k] == pre[k]);
                    assert(forall|k: int| ii <= k < post.len() ==> #[trigger] post[k] == pre[k + 1]);
                    assert(final(self).wf()) by {
                        assert forall|k1: int, k2: int|
                            0 <= k1 < k2 < post.len() implies !((#[trigger] post[k1]).chain_id == (
                        #[trigger] post[k2]).chain_id && post[k1].member@ == post[k2].member@) by {
                            let a = if k1 < ii { k1 } else { k1 + 1 };
                            let b = if k2 < ii { k2 } else { k2 + 1 };
                            assert(post[k1] == pre[a] && post[k2] == pre[b]);
                        }
                    }
                    assert(!zone_has(post, chain_id, member@)) by {
                        if zone_has(post, chain_id, member@) {
                            let k = choose|k: int|
                                0 <= k < post.len() && (#[trigger] post[k]).chain_id == chain_id
                                    && post[k].member@ == member@;
                            let a = if k < ii { k } else { k + 1 };
                            assert(post[k] == pre[a]);
                            assert(a != ii);
                            assert(pre[a].chain_id == pre[ii].chain_id && pre[a].member@ == pre[
                                ii
                            ].member@);
                        }
                    }
                    assert forall|c: u64, m: Seq<u8>, s: i64|
                        !(c == chain_id && m == member@) implies (zone_contains(post, c, m, s)
                        <==> zone_contains(pre, c, m, s)) by {
                        if zone_contains(post, c, m, s) {
                            let k = choose|k: int|
                                0 <= k < post.len() && (#[trigger] post[k]).chain_id == c
                                    && post[k].member@ == m && post[k].score == s;
                            let a = if k < ii { k } else { k + 1 };
                            assert(post[k] == pre[a]);
                        }
                        if zone_contains(pre, c, m, s) {
                            let k = choose|k: int|
                                0 <= k < pre.len() && (#[trigger] pre[k]).chain_id == c
                                    && pre[k].member@ == m && pre[k].score == s;
                            assert(k != ii);
                            let a = if k < ii { k } else { k - 1 };
                            assert(post[a] == pre[k]);
                        }
                    }
                    assert forall|c: u64, m: Seq<u8>|
                        !(c == chain_id && m == member@) implies (zone_has(post, c, m)
                        <==> zone_has(pre, c, m)) by {
                        if zone_has(post, c, m) {
                            let k = choose|k: int|
                                0 <= k < post.len() && (#[trigger] post[k]).chain_id == c
                                    && post[k].member@ == m;
                            let a = if k < ii { k } else { k + 1 };
                            assert(post[k] == pre[a]);
                        }
                        if zone_has(pre, c, m) {
                            let k = choose|k: int|
                                0 <= k < pre.len() && (#[trigger] pre[k]).chain_id == c
                                    && pre[k].member@ == m;
                            assert(k != ii);
                            let a = if k < ii { k } else { k - 1 };
                            assert(post[a] == pre[k]);
                        }
                    }
                }
                return ;
            }
            i = i + 1;
        }
    }
}

/// A member sequence lists this member.
pub open spec fn member_listed(r: Seq<Vec<u8>>, m: Seq<u8>) -> bool {
    exists|k: int| 0 <= k < r.len() && (#[trigger] r[k])@ == m
}

impl Zone {
    /// The members of a chain whose scores have come due, up to `limit`.
    pub fn collect_due(&self, chain_id: u64, max_score: i64, limit: usize) -> (r: Vec<Vec<u8>>)
        ensures
            r@.len() <= limit,
            forall|k: int|
                0 <= k < r@.len() ==> zone_due(self.entries@, chain_id, max_score, (#[trigger] r@[k])@),
            r@.len() < limit ==> (forall|j: int|
                0 <= j < self.entries@.len() && (#[trigger] self.entries@[j]).chain_id == chain_id
                    && self.entries@[j].score <= max_score ==> member_listed(
                    r@,
                    self.entries@[j].member@,
                )),
    {
        let n = self.entries.len();
        let mut out: Vec<Vec<u8>> = Vec::new();
        let mut i: usize = 0;
        while i < n && out.len() < limit
            invariant
                n == self.entries@.len(),
                i <= n,
                out@.len() <= limit,
                forall|k: int|
                    0 <= k < out@.len() ==> zone_due(
                        self.entries@,
                        chain_id,
                        max_score,
                        (#[trigger] out@[k])@,
                    ),
                out@.len() < limit ==> (forall|j: int|
                    0 <= j < i && (#[trigger] self.entries@[j]).chain_id == chain_id
                        && self.entries@[j].score <= max_score ==> member_listed(
                        out@,
                        self.entries@[j].member@,
                    )),
            decreases n - i,
        {
            if self.entries[i].chain_id == chain_id && self.entries[i].score <= max_score {
                let ghost pre_out = out@;
                out.push(clone_bytes(&self.entries[i].member));
                proof {
                    assert(out@.last()@ == self.entries@[i as int].member@);
                    assert(zone_due(self.entries@, chain_id, max_score, out@.last()@));
                    assert forall|j: int|
                        out@.len() < limit && 0 <= j < i + 1 && (
                        #[trigger] self.entries@[j]).chain_id == chain_id && self.entries@[j].score
                            <= max_score implies member_listed(out@, self.entries@[j].member@) by {
                        if j < i {
                            let k = choose|k: int|
                                0 <= k < pre_out.len() && (#[trigger] pre_out[k])@
                                    == self.entries@[j].member@;
                            assert(out@[k] == pre_out[k]);
                        } else {
                            assert((out@[out@.len() - 1])@ == self.entries@[j].member@);
                        }
                    }
                }
            }
            i = i + 1;
        }
        out
    }
}

/// The ready/retry index: two zones per chain. The `ready` zone holds
/// first-time eligibility, the `retry` zone post-attempt backoff.
pub struct ReadyIndex {
    pub ready: Zone,
    pub retry: Zone,
}

impl ReadyIndex {
    /// Both zones keep one score per (chain, member).
    pub open spec fn wf(&self) -> bool {
        self.ready.wf() && self.retry.wf()
    }

    /// An empty index.
    pub fn new() -> (ix: ReadyIndex)
        ensures
            ix.wf(),
            ix.ready.entries@.len() == 0,
            ix.retry.entries@.len() == 0,
    {
        ReadyIndex { ready: Zone::new(), retry: Zone::new() }
    }

    /// Enters a hash into the `ready` zone at its eligibility second.
    pub fn add_ready(&mut self, chain_id: u64, member: &[u8], score: i64)
        requires
            old(self).wf(),
        ensures
            final(self).wf(),
            zone_contains(final(self).ready.entries@, chain_id, member@, score),
            final(self).retry == old(self).retry,
            forall|c: u64, m: Seq<u8>, s: i64|
                !(c == chain_id && m == member@) ==> (zone_contains(
                    final(self).ready.entries@,
                    c,
                    m,
                    s,
                ) <==> zone_contains(old(self).ready.entries@, c, m, s)),
    {
        self.ready.upsert(chain_id, member, score);
    }

    /// Enters a hash into the `retry` zone at its next attempt second.
    pub fn add_retry(&mut self, chain_id: u64, member: &[u8], score: i64)
        requires
            old(self).wf(),
        ensures
            final(self).wf(),
            zone_contains(final(self).retry.entries@, chain_id, member@, score),
            final(self).ready == old(self).ready,
            forall|c: u64, m: Seq<u8>, s: i64|
                !(c == chain_id && m == member@) ==> (zone_contains(
                    final(self).retry.entries@,
                    c,
                    m,
                    s,
                ) <==> zone_contains(old(self).retry.entries@, c, m, s)),
    {
        self.retry.upsert(chain_id, member, score);
    }

    /// Removes a hash from both zones.
    pub fn remove(&mut self, chain_id: u64, member: &[u8])
        requires
            old(self).wf(),
        ensures
            final(self).wf(),
            !zone_has(final(self).ready.entries@, chain_id, member@),
            !zone_has(final(self).retry.entries@, chain_id, member@),
            forall|c: u64, m: Seq<u8>, s: i64|
                !(c == chain_id && m == member@) ==> (zone_contains(
                    final(self).ready.entries@,
                    c,
                    m,
                    s,
                ) <==> zone_contains(old(self).ready.entries@, c, m, s)),
            forall|c: u64, m: Seq<u8>, s: i64|
                !(c == chain_id && m == member@) ==> (zone_contains(
                    final(self).retry.entries@,
                    c,
                    m,
                    s,
                ) <==> zone_contains(old(self).retry.entries@, c, m, s)),
            forall|c: u64, m: Seq<u8>|
                !(c == chain_id && m == member@) ==> (zone_has(final(self).ready.entries@, c, m)
                    <==> zone_has(old(self).ready.entries@, c, m)),
            forall|c: u64, m: Seq<u8>|
                !(c == chain_id && m == member@) ==> (zone_has(final(self).retry.entries@, c, m)
                    <==> zone_has(old(self).retry.entries@, c, m)),
    {
        self.ready.remove(chain_id, member);
        self.retry.remove(chain_id, member);
    }

    /// The due hashes of a chain, up to `limit`: the `ready` zone first,
    /// then the `retry` zone for the remainder.
    pub fn fetch_due(&self, chain_id: u64, max_score: i64, limit: usize) -> (r: Vec<Vec<u8>>)
        ensures
            r@.len() <= limit,
            exists|m: int| #[trigger] due_split(self, chain_id, max_score, r@, m),
            forall|k: int|
                0 <= k < r@.len() ==> zone_due(self.ready.entries@, chain_id, max_score, (#[trigger] r@[k])@)
                    || zone_due(self.retry.entries@, chain_id, max_score, r@[k]@),
            r@.len() < limit ==> (forall|j: int|
                0 <= j < self.ready.entries@.len() && (#[trigger] self.ready.entries@[j]).chain_id
                    == chain_id && self.ready.entries@[j].score <= max_score ==> member_listed(
                    r@,
                    self.ready.entries@[j].member@,
                )),
            r@.len() < limit ==> (forall|j: int|
                0 <= j < self.retry.entries@.len() && (#[trigger] self.retry.entries@[j]).chain_id
                    == chain_id && self.retry.entries@[j].score <= max_score ==> member_listed(
                    r@,
                    self.retry.entries@[j].member@,
                )),
    {
        let mut out = self.ready.collect_due(chain_id, max_score, limit);
        let ghost ready_part = out@;
        if out.len() < limit {
            let mut more = self.retry.collect_due(chain_id, max_score, limit - out.len());
            let ghost retry_part = more@;
            out.append(&mut more);
            proof {
                assert(out@ == ready_part + retry_part);
                assert(due_split(self, chain_id, max_score, out@, ready_part.len() as int)) by {
                    assert forall|k: int|
                        0 <= k < ready_part.len() implies zone_due(
                        self.ready.entries@,
                        chain_id,
                        max_score,
                        (#[trigger] out@[k])@,
                    ) by {
                        assert(out@[k] == ready_part[k]);
                    }
                    assert forall|k: int|
                        ready_part.len() <= k < out@.len() implies zone_due(
                        self.retry.entries@,
                        chain_id,
                        max_score,
                        (#[trigger] out@[k])@,
                    ) by {
                        assert(out@[k] == retry_part[k - ready_part.len()]);
                    }
                }
                assert forall|k: int|
                    0 <= k < out@.len() implies zone_due(
                    self.ready.entries@,
                    chain_id,
                    max_score,
                    (#[trigger] out@[k])@,
                ) || zone_due(self.retry.entries@, chain_id, max_score, out@[k]@) by {
                    if k < ready_part.len() {
                        assert(out@[k] == ready_part[k]);
                    } else {
                        assert(out@[k] == retry_part[k - ready_part.len()]);
                    }
                }
                if out@.len() < limit {
                    assert(ready_part.len() < limit);
                    assert(retry_part.len() < limit - ready_part.len());
                    assert forall|j: int|
                        0 <= j < self.ready.entries@.len() && (
                        #[trigger] self.ready.entries@[j]).chain_id == chain_id
                            && self.ready.entries@[j].score <= max_score implies member_listed(
                        out@,
                        self.ready.entries@[j].member@,
                    ) by {
                        let k = choose|k: int|
                            0 <= k < ready_part.len() && (#[trigger] ready_part[k])@
                                == self.ready.entries@[j].member@;
                        assert(out@[k] == ready_part[k]);
                    }
                    assert forall|j: int|
                        0 <= j < self.retry.entries@.len() && (
                        #[trigger] self.retry.entries@[j]).chain_id == chain_id
                            && self.retry.entries@[j].score <= max_score implies member_listed(
                        out@,
                        self.retry.entries@[j].member@,
                    ) by {
                        let k = choose|k: int|
                            0 <= k < retry_part.len() && (#[trigger] retry_part[k])@
                                == self.retry.entries@[j].member@;
                        assert(out@[ready_part.len() + k] == retry_part[k]);
                    }
                }
            }
        } else {
            proof {
                assert(due_split(self, chain_id, max_score, out@, out@.len() as int));
                assert forall|k: int|
                    0 <= k < out@.len() implies zone_due(
                    self.ready.entries@,
                    chain_id,
                    max_score,
                    (#[trigger] out@[k])@,
                ) || zone_due(self.retry.entries@, chain_id, max_score, out@[k]@) by {}
            }
        }
        out
    }
}

/// The name of a chain's `ready` zone.
pub fn ready_key(chain_id: u64) -> (s: String)
    ensures
        s@ == "watchtower:ready:"@ + dec_chars(chain_id as nat),
{
    let mut s = String::from_str("watchtower:ready:");
    let digits = u64_dec_string(chain_id);
    s.append(digits.as_str());
    s
}

/// The name of a chain's `retry` zone.
pub fn retry_key(chain_id: u64) -> (s: String)
    ensures
        s@ == "watchtower:retry:"@ + dec_chars(chain_id as nat),
{
    let mut s = String::from_str("watchtower:retry:");
    let digits = u64_dec_string(chain_id);
    s.append(digits.as_str());
    s
}

/// Copies a byte slice into a fresh vector.
fn clone_bytes_from_slice(b: &[u8]) -> (r: Vec<u8>)
    ensures
        r@ == b@,
{
    let mut out: Vec<u8> = Vec::new();
    let mut i: usize = 0;
    while i < b.len()
        invariant
            i <= b@.len(),
            out@ =~= b@.take(i as int),
        decreases b@.len() - i,
    {
        out.push(b[i]);
        i = i + 1;
    }
    proof {
        assert(b@.take(b@.len() as int) =~= b@);
    }
    out
}

} // verus!
