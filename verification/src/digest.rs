//! The keccak-256 digest and the group tag derived from a nonce key.

use vstd::prelude::*;

verus! {

/// What keccak-256 digests to: a pure function of the input bytes.
pub uninterp spec fn keccak_of(data: Seq<u8>) -> Seq<u8>;

/// Relies on `alloy::primitives::keccak256`: a 32-byte digest computed
/// from the input bytes alone.
#[verifier::external_body]
pub(crate) fn keccak256_bytes(data: &[u8]) -> (r: Vec<u8>)
    ensures
        r@ == keccak_of(data@),
        r@.len() == 32,
{
    alloy::primitives::keccak256(data).as_slice().to_vec()
}

/// The group tag of a nonce key: the first 16 bytes of its keccak-256
/// digest, so clients that share a nonce key automatically share a group.
pub fn group_id_from_nonce_key(nonce_key_bytes: &[u8]) -> (r: Vec<u8>)
    ensures
        r@ == keccak_of(nonce_key_bytes@).take(16),
        r@.len() == 16,
{
    let hash = keccak256_bytes(nonce_key_bytes);
    let mut group_id: Vec<u8> = Vec::new();
    let mut i: usize = 0;
    while i < 16
        invariant
            hash@ == keccak_of(nonce_key_bytes@),
            hash@.len() == 32,
            i <= 16,
            group_id@ =~= hash@.take(i as int),
        decreases 16 - i,
    {
        group_id.push(hash[i]);
        i = i + 1;
    }
    group_id
}

} // verus!
