//! The group memo carried in a transfer call's 32-byte memo field: magic,
//! version, flags, type tag, a 16-byte group identifier and 8 auxiliary
//! bytes. Decoding the call data that carries a memo happens outside the
//! library; the memo bytes themselves are parsed and reconciled here.

use vstd::prelude::*;

verus! {

/// A parsed group memo.
#[derive(Debug, Clone)]
pub struct GroupMemo {
    pub group_id: [u8; 16],
    pub aux: [u8; 8],
    pub version: u8,
    pub flags: u8,
}

/// Whether 32 memo bytes carry a well-formed group memo: the `TWGR`
/// magic, version one, and the group type tag.
pub open spec fn spec_is_group_memo(m: Seq<u8>) -> bool {
    &&& m.len() == 32
    &&& m[0] == 0x54 && m[1] == 0x57 && m[2] == 0x47 && m[3] == 0x52
    &&& m[4] == 0x01
    &&& m[6] == 0x00 && m[7] == 0x01
}

/// Parses a 32-byte memo into a group memo; rejects a wrong magic,
/// version, or type tag.
pub fn parse_group_memo(memo: &[u8; 32]) -> (r: Option<GroupMemo>)
    ensures
        r is Some <==> spec_is_group_memo(memo@),
        r is Some ==> {
            let g = r->0;
            &&& g.version == memo@[4]
            &&& g.flags == memo@[5]
            &&& g.group_id@ == memo@.subrange(8, 24)
            &&& g.aux@ == memo@.subrange(24, 32)
        },
{
    if !(memo[0] == 0x54 && memo[1] == 0x57 && memo[2] == 0x47 && memo[3] == 0x52) {
        return None;
    }
    if memo[4] != 0x01 {
        return None;
    }
    if !(memo[6] == 0x00 && memo[7] == 0x01) {
        return None;
    }
    let version = memo[4];
    let flags = memo[5];
    let mut group_id = [0u8; 16];
    let mut i: usize = 0;
    while i < 16
        invariant
            i <= 16,
            group_id@.len() == 16,
            forall|j: int| 0 <= j < i ==> group_id@[j] == memo@[8 + j],
        decreases 16 - i,
    {
        group_id[i] = memo[8 + i];
        i = i + 1;
    }
    let mut aux = [0u8; 8];
    let mut k: usize = 0;
    while k < 8
        invariant
            k <= 8,
            aux@.len() == 8,
            forall|j: int| 0 <= j < k ==> aux@[j] == memo@[24 + j],
        decreases 8 - k,
    {
        aux[k] = memo[24 + k];
        k = k + 1;
    }
    proof {
        assert(group_id@ =~= memo@.subrange(8, 24));
        assert(aux@ =~= memo@.subrange(24, 32));
    }
    Some(GroupMemo { group_id, aux, version, flags })
}

/// The group identifier of the memo at index `j`, where it parses.
pub open spec fn memo_group_at(memos: Seq<[u8; 32]>, j: int) -> Seq<u8> {
    memos[j]@.subrange(8, 24)
}

/// Reconciles the memo fields found in one transaction's calls: no group
/// memo at all, one group (possibly repeated), or a conflict between two
/// different groups, which rejects the transaction.
pub fn extract_group_memo(memos: &Vec<[u8; 32]>) -> (r: Result<Option<GroupMemo>, String>)
    ensures
        r is Err <==> exists|a: int, b: int|
            0 <= a < b < memos@.len() && spec_is_group_memo((#[trigger] memos@[a])@)
                && spec_is_group_memo((#[trigger] memos@[b])@) && memo_group_at(memos@, a)
                != memo_group_at(memos@, b),
        r is Ok ==> ((r->Ok_0 is None) <==> (forall|j: int|
            0 <= j < memos@.len() ==> !spec_is_group_memo((#[trigger] memos@[j])@))),
        r matches Ok(Some(g)) ==> exists|j: int|
            0 <= j < memos@.len() && spec_is_group_memo((#[trigger] memos@[j])@) && g.group_id@
                == memo_group_at(memos@, j) && (forall|a: int|
                0 <= a < j ==> !spec_is_group_memo((#[trigger] memos@[a])@)),
        r is Err ==> r->Err_0@ == "transaction has more than one memo call with different groups"@,
{
    let n = memos.len();
    let mut first: Option<GroupMemo> = None;
    let ghost mut first_at: int = 0;
    let mut j: usize = 0;
    while j < n
        invariant
            n == memos@.len(),
            j <= n,
            first is None ==> forall|a: int|
                0 <= a < j ==> !spec_is_group_memo((#[trigger] memos@[a])@),
            first is Some ==> {
                &&& 0 <= first_at < j
                &&& spec_is_group_memo((#[trigger] memos@[first_at])@)
                &&& first->0.group_id@ == memo_group_at(memos@, first_at)
                &&& (forall|a: int| 0 <= a < first_at ==> !spec_is_group_memo((#[trigger] memos@[a])@))
            },
            forall|a: int, b: int|
                0 <= a < b < j && spec_is_group_memo((#[trigger] memos@[a])@) && spec_is_group_memo(
                    (#[trigger] memos@[b])@,
                ) ==> memo_group_at(memos@, a) == memo_group_at(memos@, b),
        decreases n - j,
    {
        match parse_group_memo(&memos[j]) {
            Some(group) => {
                match &first {
                    Some(seen) => {
                        if !crate::models::bytes_eq(
                            seen.group_id.as_slice(),
                            group.group_id.as_slice(),
                        ) {
                            proof {
                                assert(spec_is_group_memo(memos@[first_at]@));
                                assert(spec_is_group_memo(memos@[j as int]@));
                                assert(memo_group_at(memos@, first_at) != memo_group_at(
                                    memos@,
                                    j as int,
                                ));
                            }
                            return Err(
                                String::from_str(
                                    "transaction has more than one memo call with different groups",
                                ),
                            );
                        }
                    },
                    None => {
                        proof {
                            first_at = j as int;
                        }
                        first = Some(group);
                    },
                }
            },
            None => {},
        }
        j = j + 1;
    }
    proof {
        if first is Some {
            assert forall|a: int, b: int|
                0 <= a < b < memos@.len() && spec_is_group_memo((#[trigger] memos@[a])@)
                    && spec_is_group_memo((#[trigger] memos@[b])@) implies memo_group_at(memos@, a)
                == memo_group_at(memos@, b) by {}
        }
    }
    Ok(first)
}

} // verus!
