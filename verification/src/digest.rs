//! BLAKE3 digests.

use vstd::prelude::*;

verus! {

/// The 32-byte BLAKE3 digest of `bytes`.
pub uninterp spec fn blake3_digest(bytes: Seq<u8>) -> [u8; 32];

/// Calls `blake3::hash`. Claimed of it: the digest depends on the hashed bytes alone.
#[verifier::external_body]
fn blake3_hash(bytes: &[u8]) -> (digest: [u8; 32])
    ensures
        digest == blake3_digest(bytes@),
{
    *blake3::hash(bytes).as_bytes()
}

/// The digest of `bytes`.
pub fn digest(bytes: &[u8]) -> (digest: [u8; 32])
    ensures
        digest == blake3_digest(bytes@),
{
    blake3_hash(bytes)
}

/// The digest of `head` followed by `tail`.
pub fn digest_of_pair(head: &[u8], tail: &[u8]) -> (digest: [u8; 32])
    ensures
        digest == blake3_digest(head@ + tail@),
{
    let mut joined: Vec<u8> = Vec::new();
    crate::codec::push_bytes(&mut joined, head);
    crate::codec::push_bytes(&mut joined, tail);
    assert(joined@ =~= head@ + tail@);
    blake3_hash(joined.as_slice())
}

} // verus!
