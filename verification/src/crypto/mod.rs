//! Cryptographic primitives of the bridge.

pub mod ed25519;
pub mod merkle;

use vstd::prelude::*;

verus! {

/// The 32-byte BLAKE3 digest of `data`, as computed by the `blake3` crate.
pub uninterp spec fn blake3_digest(data: Seq<u8>) -> Seq<u8>;

/// Computes the BLAKE3 hash of `data`.
///
/// Trusted: calls `blake3::hash`; the contract claims only that the digest
/// is the (deterministic) BLAKE3 digest of the input bytes.
#[verifier::external_body]
pub fn blake3(data: &[u8]) -> (digest: [u8; 32])
    ensures
        digest@ == blake3_digest(data@),
{
    *::blake3::hash(data).as_bytes()
}

/// The 32-byte BLAKE2b digest of `data` (unkeyed, no salt or
/// personalization, digest length 32), as computed by `blake2b_simd`.
pub uninterp spec fn blake2b_256_digest(data: Seq<u8>) -> Seq<u8>;

/// Computes the 32-byte BLAKE2b hash of `data`.
///
/// Trusted: calls `blake2b_simd::Params::new().hash_length(32).hash(..)`
/// and copies the 32 bytes of the result; the contract claims only that the
/// digest is the (deterministic) 32-byte BLAKE2b digest of the input bytes.
#[verifier::external_body]
pub(crate) fn blake2b_256(data: &[u8]) -> (digest: [u8; 32])
    ensures
        digest@ == blake2b_256_digest(data@),
{
    let hash = ::blake2b_simd::Params::new().hash_length(32).hash(data);
    let mut digest = [0u8; 32];
    digest.copy_from_slice(hash.as_bytes());
    digest
}

} // verus!
