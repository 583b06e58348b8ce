//! ECDSA over secp256k1, as provided by the `k256` crate.
//!
//! Keys and signatures cross this boundary as byte strings: a public key in
//! SEC1 form, a secret key as its big-endian scalar, a signature as the
//! 64 bytes `r || s`. Nothing here is proved; each function states what the
//! crate computes, under a name that the rest of the library reasons with.

use crate::types::optional_bytes;
use vstd::prelude::*;

verus! {

/// What [`verify_signature`] answers for a key, a message and a signature.
pub uninterp spec fn ecdsa_verifies(key: Seq<u8>, message: Seq<u8>, signature: Seq<u8>) -> bool;

/// What [`sign_message`] returns for a secret key and a message.
pub uninterp spec fn ecdsa_signature(secret: Seq<u8>, message: Seq<u8>) -> Option<Seq<u8>>;

/// What [`canonical_key`] returns for an encoded public key.
pub uninterp spec fn sec1_canonical(key: Seq<u8>) -> Option<Seq<u8>>;

/// Calls `k256::ecdsa::VerifyingKey::verify` (SHA-256 digest) after parsing
/// `key` with `VerifyingKey::from_sec1_bytes` and `signature` with
/// `Signature::from_slice`. The answer is `false` when either fails to parse
/// or the signature does not verify; it is a function of the three byte
/// strings alone. `Signature::from_slice` takes 64 bytes and nothing else,
/// so a signature of any other length never verifies.
#[verifier::external_body]
pub(crate) fn verify_signature(key: &Vec<u8>, message: &Vec<u8>, signature: &Vec<u8>) -> (valid:
    bool)
    ensures
        valid == ecdsa_verifies(key@, message@, signature@),
        signature@.len() != 64 ==> !valid,
{
    let parsed_key = match k256::ecdsa::VerifyingKey::from_sec1_bytes(key.as_slice()) {
        Ok(k) => k,
        Err(_) => return false,
    };
    let parsed_signature = match k256::ecdsa::Signature::from_slice(signature.as_slice()) {
        Ok(s) => s,
        Err(_) => return false,
    };
    k256::ecdsa::signature::Verifier::verify(&parsed_key, message.as_slice(), &parsed_signature)
        .is_ok()
}

/// Calls `k256::ecdsa::SigningKey::try_sign` (deterministic nonce, SHA-256
/// digest) after parsing `secret` with `SigningKey::from_slice`, and returns
/// the signature's 64 bytes. `None` when the secret key does not parse or
/// signing fails; the result is a function of the two byte strings alone.
/// `Signature::to_bytes` gives `r` and `s` in 32 bytes each, so a signature
/// that is returned is 64 bytes long.
#[verifier::external_body]
pub(crate) fn sign_message(secret: &Vec<u8>, message: &Vec<u8>) -> (signature: Option<Vec<u8>>)
    ensures
        optional_bytes(signature) == ecdsa_signature(secret@, message@),
        signature.is_some() ==> signature.unwrap()@.len() == 64,
{
    let key = match k256::ecdsa::SigningKey::from_slice(secret.as_slice()) {
        Ok(k) => k,
        Err(_) => return None,
    };
    let signed: Result<k256::ecdsa::Signature, k256::ecdsa::Error> =
        k256::ecdsa::signature::Signer::try_sign(&key, message.as_slice());
    match signed {
        Ok(s) => Some(s.to_bytes().to_vec()),
        Err(_) => None,
    }
}

/// Calls `k256::ecdsa::VerifyingKey::from_sec1_bytes` and returns the key in
/// uncompressed SEC1 form (`to_encoded_point(false)`). `None` when `key` is
/// not the encoding of a point on the curve. A verifying key is never the
/// point at infinity, so the form that is returned is the tag byte 4
/// followed by the two coordinates in 32 bytes each.
#[verifier::external_body]
pub(crate) fn canonical_key(key: &Vec<u8>) -> (canonical: Option<Vec<u8>>)
    ensures
        optional_bytes(canonical) == sec1_canonical(key@),
        canonical.is_some() ==> canonical.unwrap()@.len() == 65 && canonical.unwrap()@[0] == 4,
{
    match k256::ecdsa::VerifyingKey::from_sec1_bytes(key.as_slice()) {
        Ok(k) => Some(k.to_encoded_point(false).as_bytes().to_vec()),
        Err(_) => None,
    }
}

} // verus!
