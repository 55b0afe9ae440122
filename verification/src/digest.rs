//! The BLAKE3 digest, computed by the `blake3` crate.

use vstd::prelude::*;

verus! {

/// BLAKE3 digest (32 bytes) of a byte string.
pub uninterp spec fn blake3_digest(data: Seq<u8>) -> Seq<u8>;

/// `blake3::hash`: the 32-byte BLAKE3 digest of `data`, a function of
/// `data` alone. (BLAKE3 is a hash of the whole input: feeding a `Hasher`
/// several pieces gives the digest of their concatenation.)
#[verifier::external_body]
pub(crate) fn blake3_hash(data: &[u8]) -> (digest: [u8; 32])
    ensures
        digest@ == blake3_digest(data@),
{
    *blake3::hash(data).as_bytes()
}

} // verus!
