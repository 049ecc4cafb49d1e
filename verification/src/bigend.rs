//! Big-endian integer reads from byte strings.

use vstd::prelude::*;

verus! {

/// The value of a byte string read as a big-endian integer.
pub open spec fn be_val(s: Seq<u8>) -> nat
    decreases s.len(),
{
    if s.len() == 0 {
        0
    } else {
        be_val(s.drop_last()) * 256 + s.last() as nat
    }
}

/// `256^k`.
pub open spec fn pow256(k: nat) -> nat
    decreases k,
{
    if k == 0 {
        1
    } else {
        256 * pow256((k - 1) as nat)
    }
}

/// A byte string of length `k` reads below `256^k`.
pub proof fn lemma_be_val_bound(s: Seq<u8>)
    ensures
        be_val(s) < pow256(s.len()),
    decreases s.len(),
{
    if s.len() > 0 {
        lemma_be_val_bound(s.drop_last());
    }
}

/// Reads a big-endian unsigned 64-bit value from exactly eight bytes.
pub fn be_u64(bytes: &[u8]) -> (r: u64)
    requires
        bytes@.len() == 8,
    ensures
        r == be_val(bytes@),
{
    let mut val: u64 = 0;
    let mut i: usize = 0;
    while i < 8
        invariant
            i <= 8,
            bytes@.len() == 8,
            val == be_val(bytes@.take(i as int)),
            val < pow256(i as nat),
        decreases 8 - i,
    {
        proof {
            assert(bytes@.take((i + 1) as int).drop_last() =~= bytes@.take(i as int));
            assert(bytes@.take((i + 1) as int).last() == bytes@[i as int]);
            reveal_with_fuel(pow256, 9);
        }
        val = val * 256 + (bytes[i] as u64);
        i = i + 1;
    }
    proof {
        assert(bytes@.take(8) =~= bytes@);
    }
    val
}

/// Reads a big-endian unsigned 32-bit value from exactly four bytes.
pub fn be_u32(bytes: &[u8]) -> (r: u32)
    requires
        bytes@.len() == 4,
    ensures
        r == be_val(bytes@),
{
    let mut val: u32 = 0;
    let mut i: usize = 0;
    while i < 4
        invariant
            i <= 4,
            bytes@.len() == 4,
            val == be_val(bytes@.take(i as int)),
            val < pow256(i as nat),
        decreases 4 - i,
    {
        proof {
            assert(bytes@.take((i + 1) as int).drop_last() =~= bytes@.take(i as int));
            assert(bytes@.take((i + 1) as int).last() == bytes@[i as int]);
            reveal_with_fuel(pow256, 5);
        }
        val = val * 256 + (bytes[i] as u32);
        i = i + 1;
    }
    proof {
        assert(bytes@.take(4) =~= bytes@);
    }
    val
}

} // verus!
