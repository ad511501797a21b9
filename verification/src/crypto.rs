//! The cryptographic primitives, taken from `sha2` and `ed25519-dalek`.
//!
//! Nothing here is proved: each function states what the outside call returns
//! by a name, so that the rest of the library can speak of it exactly.
use vstd::prelude::*;
use ed25519_dalek::{ExpandedSecretKey, PublicKey, SecretKey, Signature};
use sha2::{Digest, Sha256};

verus! {

/// The SHA-256 digest of `data`.
pub uninterp spec fn sha256_digest(data: Seq<u8>) -> Seq<u8>;

/// The Ed25519 public key that belongs to the 32-byte seed `secret`.
pub uninterp spec fn ed25519_public_key(secret: Seq<u8>) -> Seq<u8>;

/// The Ed25519 signature of `message` under the 32-byte seed `secret`.
pub uninterp spec fn ed25519_signature(secret: Seq<u8>, message: Seq<u8>) -> Seq<u8>;

/// Whether `signature` passes strict Ed25519 verification of `message` under
/// `public_key`: the key and the signature decode, neither the key nor the
/// signature's point is of small order, and the verification equation holds.
pub uninterp spec fn ed25519_verifies(
    public_key: Seq<u8>,
    message: Seq<u8>,
    signature: Seq<u8>,
) -> bool;

/// Calls `Sha256::digest` of `sha2`. The contract only names the digest: it
/// is a function of the input bytes alone.
#[verifier::external_body]
pub(crate) fn sha256_bytes(data: &[u8]) -> (out: [u8; 32])
    ensures
        out@ == sha256_digest(data@),
{
    Sha256::digest(data).into()
}

/// Derives the public key of a seed with `ed25519-dalek`:
/// `SecretKey::from_bytes`, then `PublicKey::from`. `SecretKey::from_bytes`
/// refuses only a slice whose length is not 32, which the parameter's type
/// excludes, so the result is always `Some`.
#[verifier::external_body]
pub(crate) fn derive_public_key(secret: &[u8; 32]) -> (out: Option<[u8; 32]>)
    ensures
        out.is_some(),
        out.unwrap()@ == ed25519_public_key(secret@),
{
    match SecretKey::from_bytes(secret) {
        Ok(sk) => Some(PublicKey::from(&sk).to_bytes()),
        Err(_) => None,
    }
}

/// Signs `message` with `ed25519-dalek`: the seed is expanded with
/// `ExpandedSecretKey::from` and the message signed with
/// `ExpandedSecretKey::sign` under the seed's own public key. Signing is
/// deterministic, and `SecretKey::from_bytes` refuses only a slice whose
/// length is not 32, so the result is always `Some`.
#[verifier::external_body]
pub(crate) fn sign_bytes(secret: &[u8; 32], message: &[u8]) -> (out: Option<[u8; 64]>)
    ensures
        out.is_some(),
        out.unwrap()@ == ed25519_signature(secret@, message@),
{
    match SecretKey::from_bytes(secret) {
        Ok(sk) => {
            let pk = PublicKey::from(&sk);
            Some(ExpandedSecretKey::from(&sk).sign(message, &pk).to_bytes())
        },
        Err(_) => None,
    }
}

/// Verifies with `PublicKey::verify_strict` of `ed25519-dalek`, after
/// `PublicKey::from_bytes` and `Signature::from_bytes`; a key or a signature
/// that does not decode counts as a failed verification. The contract only
/// names the verdict.
#[verifier::external_body]
pub(crate) fn verify_strict_bytes(public_key: &[u8; 32], message: &[u8], signature: &[u8; 64]) -> (ok:
    bool)
    ensures
        ok == ed25519_verifies(public_key@, message@, signature@),
{
    match (PublicKey::from_bytes(public_key), Signature::from_bytes(signature)) {
        (Ok(pk), Ok(sig)) => pk.verify_strict(message, &sig).is_ok(),
        _ => false,
    }
}

} // verus!
