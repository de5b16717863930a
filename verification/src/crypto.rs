//! The cryptographic primitives the log rests on: SHA-256 (crate `sha2`),
//! Ed25519 (crate `ed25519_dalek`) and the system's random source (crate
//! `getrandom`).  Each function here makes one call and is trusted, not proved:
//! its contract says what the crate computes, through the names below.

use vstd::prelude::*;

use ed25519_dalek::{Signature, Signer, SigningKey, Verifier, VerifyingKey};
use sha2::{Digest, Sha256};

verus! {

/// The SHA-256 digest of a byte string.
pub uninterp spec fn sha256(data: Seq<u8>) -> Seq<u8>;

/// The Ed25519 public key (compressed point) of the secret key `seed`.
pub uninterp spec fn ed25519_public_key(seed: Seq<u8>) -> Seq<u8>;

/// Whether 32 bytes decompress to a point of the curve, so that they can be
/// used as an Ed25519 public key.
pub uninterp spec fn ed25519_key_decodes(public_key: Seq<u8>) -> bool;

/// The Ed25519 signature of `msg` under the secret key `seed`.
pub uninterp spec fn ed25519_signature(seed: Seq<u8>, msg: Seq<u8>) -> Seq<u8>;

/// Whether Ed25519 verification accepts signature `sig` on `msg` under
/// `public_key`.
pub uninterp spec fn ed25519_accepts(public_key: Seq<u8>, msg: Seq<u8>, sig: Seq<u8>) -> bool;

/// `sha2::Sha256::digest`: the SHA-256 digest of `data`.  Feeding a hasher
/// several pieces with `update` gives the digest of their concatenation, so
/// this is also what a hasher fed piece by piece finalizes to.
#[verifier::external_body]
pub(crate) fn sha256_digest(data: &[u8]) -> (h: [u8; 32])
    ensures
        h@ == sha256(data@),
{
    Sha256::digest(data).into()
}

/// `ed25519_dalek::SigningKey::verifying_key`, taken as bytes: the public key
/// of the secret key `seed`.  The key is a compressed point of the curve, so
/// it decompresses again (`VerifyingKey::from_bytes` succeeds on it).
#[verifier::external_body]
pub(crate) fn public_key_of(seed: &[u8; 32]) -> (pk: [u8; 32])
    ensures
        pk@ == ed25519_public_key(seed@),
        ed25519_key_decodes(pk@),
{
    SigningKey::from_bytes(seed).verifying_key().to_bytes()
}

/// `ed25519_dalek::VerifyingKey::from_bytes`: whether the bytes decompress to
/// a point, i.e. are usable as a public key.
#[verifier::external_body]
pub(crate) fn key_decodes(pk: &[u8; 32]) -> (ok: bool)
    ensures
        ok == ed25519_key_decodes(pk@),
{
    VerifyingKey::from_bytes(pk).is_ok()
}

/// `ed25519_dalek::SigningKey::sign`: the signature of `msg` under the secret
/// key `seed`.  Ed25519 is correct: verification under the matching public
/// key accepts the signature it produced.
#[verifier::external_body]
pub(crate) fn sign(seed: &[u8; 32], msg: &[u8]) -> (sig: [u8; 64])
    ensures
        sig@ == ed25519_signature(seed@, msg@),
        ed25519_accepts(ed25519_public_key(seed@), msg@, sig@),
{
    SigningKey::from_bytes(seed).sign(msg).to_bytes()
}

/// `ed25519_dalek::VerifyingKey::verify` (the ordinary, non-strict check),
/// on the key decoded from `pk` and the signature made of the 64 bytes `sig`.
/// A key that does not decode accepts nothing.
#[verifier::external_body]
pub(crate) fn signature_accepted(pk: &[u8; 32], msg: &[u8], sig: &[u8; 64]) -> (ok: bool)
    ensures
        ok == ed25519_accepts(pk@, msg@, sig@),
        ok ==> ed25519_key_decodes(pk@),
{
    match VerifyingKey::from_bytes(pk) {
        Ok(key) => key.verify(msg, &Signature::from_bytes(sig)).is_ok(),
        Err(_) => false,
    }
}

/// The error type of `getrandom`.
#[verifier::external_type_specification]
#[verifier::external_body]
pub struct ExRandomError(getrandom::Error);

/// `getrandom::getrandom`: fills `dest` from the system's random source.  What
/// it writes is chance, and whether it fails depends on the system, so
/// nothing is stated of either.
#[verifier::external_body]
pub(crate) fn fill_random(dest: &mut [u8; 32]) -> Result<(), getrandom::Error> {
    getrandom::getrandom(dest)
}

} // verus!
