//! Ed25519 signature verification.
use vstd::prelude::*;

verus! {

/// The error type of `ed25519-dalek`.
#[verifier::external_type_specification]
#[verifier::external_body]
pub struct ExSignatureError(ed25519_dalek::SignatureError);

/// Whether `sig` is a valid strict Ed25519 signature of `msg` under the
/// public key `pk`, as `ed25519-dalek` decides it.
pub uninterp spec fn ed25519_verifies(pk: Seq<u8>, msg: Seq<u8>, sig: Seq<u8>) -> bool;

/// Verifies the signature `sig` of `msg` under the public key `pk`.
///
/// Trusted: decodes `pk` with `VerifyingKey::from_bytes` and checks the
/// signature with `VerifyingKey::verify_strict`. The contract claims that
/// the outcome is `Ok` exactly when the (deterministic) strict
/// verification accepts; which error value comes back is left unsaid.
#[verifier::external_body]
pub fn verify(pk: &[u8; 32], msg: &[u8], sig: &[u8; 64]) -> (r: Result<(), ed25519_dalek::SignatureError>)
    ensures
        r is Ok <==> ed25519_verifies(pk@, msg@, sig@),
{
    let vk = ed25519_dalek::VerifyingKey::from_bytes(pk)?;
    vk.verify_strict(msg, &ed25519_dalek::Signature::from_bytes(sig))
}

} // verus!
