//! The digest codec: anything with a canonical byte serialization has a
//! 32-byte SHA-256 digest.

use sha2::{Digest, Sha256};
use vstd::prelude::*;

verus! {

/// The SHA-256 digest of `data`, as the `sha2` crate computes it.
pub uninterp spec fn sha256(data: Seq<u8>) -> Seq<u8>;

/// Calls `sha2::Sha256::digest` (the `Digest::digest` associated function)
/// and copies the output array into a vector. Trusted: the result is the
/// SHA-256 digest of `data`, a function of the bytes alone, and the output
/// array of `Sha256` has 32 bytes.
#[verifier::external_body]
pub(crate) fn sha256_digest(data: &[u8]) -> (out: Vec<u8>)
    ensures
        out@ == sha256(data@),
        out@.len() == 32,
{
    Sha256::digest(data).to_vec()
}

/// A value with a canonical byte serialization and the digest of it.
pub trait Hashable {
    /// The canonical serialization.
    spec fn spec_bytes(&self) -> Seq<u8>;

    /// Serializes the value.
    fn bytes(&self) -> (out: Vec<u8>)
        ensures
            out@ == self.spec_bytes(),
    ;

    /// The SHA-256 digest of the serialization.
    fn hash(&self) -> (out: Vec<u8>)
        ensures
            out@ == sha256(self.spec_bytes()),
            out@.len() == 32,
    {
        let bytes = self.bytes();
        sha256_digest(bytes.as_slice())
    }
}

} // verus!
