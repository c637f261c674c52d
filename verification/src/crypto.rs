//! Hashing and signatures, as the RustCrypto and dalek crates provide them.
//!
//! Nothing here is proved: each function calls an outside crate, and its
//! contract gives the outside result a name together with the few facts about
//! it that the rest of the library uses.
use ed25519_dalek::{Signature, Signer, SigningKey, VerifyingKey};
use sha2::{Digest, Sha256};
use vstd::prelude::*;

verus! {

/// What `sha2::Sha256::digest` returns.
pub uninterp spec fn sha256(data: Seq<u8>) -> Seq<u8>;

/// The public key that belongs to an Ed25519 secret key.
pub uninterp spec fn ed25519_public(secret: Seq<u8>) -> Seq<u8>;

/// What `ed25519_dalek::SigningKey::sign` returns.
pub uninterp spec fn ed25519_sign(secret: Seq<u8>, message: Seq<u8>) -> Seq<u8>;

/// Whether `ed25519_dalek::VerifyingKey::from_bytes` accepts a key.
pub uninterp spec fn ed25519_key_valid(public_key: Seq<u8>) -> bool;

/// Whether `ed25519_dalek::VerifyingKey::verify_strict` accepts a signature.
pub uninterp spec fn ed25519_verifies(
    public_key: Seq<u8>,
    message: Seq<u8>,
    signature: Seq<u8>,
) -> bool;

/// The encoding of the neutral point of the curve: a one, then zeros.
pub open spec fn neutral_point() -> Seq<u8> {
    Seq::new(32, |i: int| if i == 0 { 1u8 } else { 0u8 })
}

/// Whether a key accepts nothing but the one signature that was made, for the
/// one message that it was made on.
pub open spec fn accepts_only(
    public_key: Seq<u8>,
    made_on: Seq<u8>,
    made: Seq<u8>,
    message: Seq<u8>,
    signature: Seq<u8>,
) -> bool {
    ed25519_verifies(public_key, message, signature) ==> message == made_on && signature == made
}

/// `sha2::Sha256::digest`. The contract names the digest; that it has
/// thirty-two bytes is the array's type.
#[verifier::external_body]
pub(crate) fn digest(data: &[u8]) -> (result: [u8; 32])
    ensures
        result@ == sha256(data@),
{
    Sha256::digest(data).into()
}

/// `ed25519_dalek::SigningKey::verifying_key`. The contract names the public
/// key and says that `VerifyingKey::from_bytes` accepts it: it is the encoding
/// of a point of the curve.
#[verifier::external_body]
pub(crate) fn public_key(secret: &[u8; 32]) -> (result: [u8; 32])
    ensures
        result@ == ed25519_public(secret@),
        ed25519_key_valid(result@),
{
    SigningKey::from_bytes(secret).verifying_key().to_bytes()
}

/// `ed25519_dalek::SigningKey::sign`. The contract names the signature and
/// says that `verify_strict` accepts it under the key's own public key, unless
/// its first half encodes the neutral point: `verify_strict` refuses first
/// halves of small order, and the neutral point is the only one of these that
/// signing can produce.
#[verifier::external_body]
pub(crate) fn sign(secret: &[u8; 32], message: &[u8]) -> (result: [u8; 64])
    ensures
        result@ == ed25519_sign(secret@, message@),
        result@.subrange(0, 32) != neutral_point() ==> ed25519_verifies(
            ed25519_public(secret@),
            message@,
            result@,
        ),
{
    SigningKey::from_bytes(secret).sign(message).to_bytes()
}

/// `ed25519_dalek::VerifyingKey::from_bytes`. The contract names whether the
/// key is accepted.
#[verifier::external_body]
pub(crate) fn key_valid(public_key: &[u8; 32]) -> (result: bool)
    ensures
        result == ed25519_key_valid(public_key@),
{
    VerifyingKey::from_bytes(public_key).is_ok()
}

/// `ed25519_dalek::VerifyingKey::verify_strict`. The contract names whether
/// the signature is accepted; nothing verifies under bytes that are no key.
#[verifier::external_body]
pub(crate) fn verify(public_key: &[u8; 32], message: &[u8], signature: &[u8; 64]) -> (result: bool)
    ensures
        result == ed25519_verifies(public_key@, message@, signature@),
        result ==> ed25519_key_valid(public_key@),
{
    match VerifyingKey::from_bytes(public_key) {
        Ok(key) => key.verify_strict(message, &Signature::from_bytes(signature)).is_ok(),
        Err(_) => false,
    }
}

} // verus!
