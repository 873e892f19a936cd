//! Content hashes of chunks.

use vstd::prelude::*;

verus! {

/// Length of a content hash in bytes.
pub const HASH_LEN: usize = 32;

/// The BLAKE3 hash of `data`, as 32 bytes.
pub uninterp spec fn blake3_hash(data: Seq<u8>) -> Seq<u8>;

/// The content hash of `data`, by `blake3::hash`: the unkeyed BLAKE3 hash of
/// the bytes, which depends on them alone. The digest is handed out as its 32
/// bytes.
#[verifier::external_body]
pub(crate) fn hash_bytes(data: &[u8]) -> (digest: [u8; 32])
    ensures
        digest@ == blake3_hash(data@),
{
    *blake3::hash(data).as_bytes()
}

/// Whether two hashes are the same bytes.
pub fn hash_eq(a: &[u8; 32], b: &[u8; 32]) -> (same: bool)
    ensures
        same == (a@ == b@),
{
    let mut i: usize = 0;
    while i < 32
        invariant
            i <= 32,
            forall|j: int| 0 <= j < i ==> a@[j] == b@[j],
        decreases 32 - i,
    {
        if a[i] != b[i] {
            return false;
        }
        i = i + 1;
    }
    assert(a@ =~= b@);
    true
}

} // verus!
