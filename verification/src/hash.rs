//! SHA-1, from the `sha1` crate.

use vstd::prelude::*;
use sha1::{Digest, Sha1};

verus! {

/// The SHA-1 digest of a byte string: twenty bytes.
pub uninterp spec fn sha1_digest(data: Seq<u8>) -> Seq<u8>;

/// Computes the SHA-1 digest of `data`: `Digest::new_with_prefix` on
/// `Sha1`, which makes a hasher that has processed the data, and
/// `Digest::finalize`, which gives the digest.
#[verifier::external_body]
pub(crate) fn sha1(data: &[u8]) -> (digest: [u8; 20])
    ensures
        digest@ == sha1_digest(data@),
{
    Sha1::new_with_prefix(data).finalize().into()
}

} // verus!
