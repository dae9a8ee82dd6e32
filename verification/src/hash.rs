//! BLAKE3 digests.

use vstd::prelude::*;

verus! {

/// The BLAKE3-256 digest of `data`, 32 bytes long.
pub uninterp spec fn blake3_digest(data: Seq<u8>) -> Seq<u8>;

/// `blake3::hash`, with the digest copied out of its `Hash`. The function is
/// the unkeyed BLAKE3 hash with the default output length of 32 bytes; it
/// reads nothing but `data` and cannot fail. The contract gives the digest its
/// name and says nothing else of it.
#[verifier::external_body]
pub(crate) fn blake3_hash(data: &[u8]) -> (digest: [u8; 32])
    ensures
        digest@ == blake3_digest(data@),
{
    blake3::hash(data).into()
}

} // verus!
