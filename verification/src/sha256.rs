//! SHA-256, the hash function of the tree, as the `sha2` crate computes it.
//!
//! Nothing in this module is proved. The verifier takes the contracts below on
//! trust; everything else in the crate is proved from them.

use sha2::Digest;
use vstd::prelude::*;

verus! {

/// A running SHA-256 computation. It holds a `sha2::Sha256`, which is opaque to
/// the verifier: all that is known of a value is [`absorbed`].
#[verifier::external_body]
pub struct Hasher {
    inner: sha2::Sha256,
}

/// The SHA-256 digest of a byte string.
pub uninterp spec fn sha256(data: Seq<u8>) -> crate::Hash;

/// The bytes a hasher has taken in since it was made, in order.
pub uninterp spec fn absorbed(hasher: Hasher) -> Seq<u8>;

/// Calls `sha2::Sha256::new` (`Digest::new`). Trusted: a new hasher has taken
/// in nothing.
#[verifier::external_body]
pub(crate) fn hasher_new() -> (hasher: Hasher)
    ensures
        absorbed(hasher) == Seq::<u8>::empty(),
{
    Hasher { inner: sha2::Sha256::new() }
}

/// Calls `Digest::update` on the `sha2::Sha256` inside. Trusted: the hasher
/// has then taken in `data` after all it had taken in before, so that feeding
/// a message in pieces is feeding the whole message.
#[verifier::external_body]
pub(crate) fn hasher_update(hasher: &mut Hasher, data: &[u8])
    ensures
        absorbed(*final(hasher)) == absorbed(*old(hasher)) + data@,
{
    hasher.inner.update(data)
}

/// Calls `Digest::finalize` on the `sha2::Sha256` inside and turns the output
/// into an array. Trusted: the output is the SHA-256 digest of the bytes taken
/// in.
#[verifier::external_body]
pub(crate) fn hasher_finalize(hasher: Hasher) -> (digest: crate::Hash)
    ensures
        digest == sha256(absorbed(hasher)),
{
    hasher.inner.finalize().into()
}

} // verus!
