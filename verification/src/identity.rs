//! Permanent device identity and separate capability grants.
//!
//! A local installation has a stable cryptographic identity, but a public key
//! seen for the first time is not trusted by itself. Only the bilateral
//! pairing layer can establish trust.
pub use crate::capability::{ActivePairingLookup, CapabilityStore};
use crate::crypto;
use crate::crypto::{
    ed25519_key_valid, ed25519_public, ed25519_sign, ed25519_verifies, neutral_point, sha256,
};
use crate::error::{outcome, SyncError};
use crate::text::{array_32, hex, hex_of_16_is_id, hex_text, is_id};
use vstd::prelude::*;

verus! {

/// The DeviceID of an Ed25519 public key: the first sixteen bytes of its
/// SHA-256 digest, in hexadecimal.
pub open spec fn device_id_of(public_key: Seq<u8>) -> Seq<char> {
    hex(sha256(public_key).subrange(0, 16))
}

/// What was found where the identity key is stored.
pub enum StoredKey {
    /// There is no such file.
    Missing,
    /// Something other than a regular file is in its place.
    NotRegular,
    /// The content of the file.
    Bytes(Vec<u8>),
}

/// The mathematical model of what was found where the identity key is stored.
pub enum StoredKeyView {
    Missing,
    NotRegular,
    Bytes(Seq<u8>),
}

impl View for StoredKey {
    type V = StoredKeyView;

    open spec fn view(&self) -> StoredKeyView {
        match self {
            StoredKey::Missing => StoredKeyView::Missing,
            StoredKey::NotRegular => StoredKeyView::NotRegular,
            StoredKey::Bytes(bytes) => StoredKeyView::Bytes(bytes@),
        }
    }
}

/// The secret key of the identity that is loaded, or created from `fresh`.
pub open spec fn identity_loaded(stored: StoredKeyView, fresh: Seq<u8>) -> Result<
    Seq<u8>,
    SyncError,
> {
    match stored {
        StoredKeyView::Missing => Ok(fresh),
        StoredKeyView::NotRegular => Err(SyncError::IdentityNotRegular),
        StoredKeyView::Bytes(bytes) => if bytes.len() == 32 {
            Ok(bytes)
        } else {
            Err(SyncError::IdentityMalformed)
        },
    }
}

/// The installation's permanent Ed25519 identity.
pub struct DeviceIdentity {
    secret: [u8; 32],
}

impl View for DeviceIdentity {
    type V = Seq<u8>;

    /// The secret key.
    closed spec fn view(&self) -> Seq<u8> {
        self.secret@
    }
}

impl Clone for DeviceIdentity {
    fn clone(&self) -> (result: Self)
        ensures
            result@ == self@,
    {
        DeviceIdentity { secret: self.secret }
    }
}

impl DeviceIdentity {
    /// The identity with the given secret key.
    pub fn from_secret(secret: [u8; 32]) -> (result: Self)
        ensures
            result@ == secret@,
    {
        DeviceIdentity { secret }
    }

    /// Loads the stored identity, or takes `fresh` as the new one where none
    /// is stored. A stored key must be a regular file of thirty-two bytes.
    pub fn load_or_create(stored: StoredKey, fresh: [u8; 32]) -> (result: Result<Self, SyncError>)
        ensures
            outcome(result) == identity_loaded(stored@, fresh@),
    {
        match stored {
            StoredKey::Missing => Ok(DeviceIdentity { secret: fresh }),
            StoredKey::NotRegular => Err(SyncError::IdentityNotRegular),
            StoredKey::Bytes(bytes) => {
                if bytes.len() != 32 {
                    return Err(SyncError::IdentityMalformed);
                }
                Ok(DeviceIdentity { secret: array_32(bytes.as_slice()) })
            },
        }
    }

    pub fn public_key(&self) -> (result: [u8; 32])
        ensures
            result@ == ed25519_public(self@),
            ed25519_key_valid(result@),
    {
        crypto::public_key(&self.secret)
    }

    /// Stable ID derived only from this installation's dedicated public key.
    pub fn device_id(&self) -> (result: String)
        ensures
            result@ == device_id_of(ed25519_public(self@)),
            is_id(result@),
    {
        device_id_for_public_key(&self.public_key())
    }

    /// Signs a message. The signature verifies under this identity's public
    /// key unless its first half encodes the neutral point of the curve.
    pub fn sign(&self, message: &[u8]) -> (result: [u8; 64])
        ensures
            result@ == ed25519_sign(self@, message@),
            result@.subrange(0, 32) != neutral_point() ==> ed25519_verifies(
                ed25519_public(self@),
                message@,
                result@,
            ),
    {
        crypto::sign(&self.secret, message)
    }
}

/// Derives a compact, stable DeviceID from an Ed25519 public key.
pub fn device_id_for_public_key(public_key: &[u8; 32]) -> (result: String)
    ensures
        result@ == device_id_of(public_key@),
        is_id(result@),
{
    let digest: [u8; 32] = crypto::digest(public_key.as_slice());
    let head = vstd::slice::slice_subrange(digest.as_slice(), 0, 16);
    proof {
        hex_of_16_is_id(head@);
    }
    hex_text(head)
}

/// An identity is stable across loads: the key that was created is the key that
/// its stored bytes give back, with the same public key and DeviceID, whatever
/// fresh key is on offer; and a stored key that is not one is never replaced.
pub proof fn identity_is_stable(created: Seq<u8>, stored: Seq<u8>, fresh: Seq<u8>)
    requires
        created.len() == 32,
    ensures
        ({
            let first = identity_loaded(StoredKeyView::Missing, created);
            let second = identity_loaded(StoredKeyView::Bytes(created), fresh);
            &&& first is Ok
            &&& second is Ok
            &&& first->Ok_0 == created
            &&& ed25519_public(second->Ok_0) == ed25519_public(first->Ok_0)
            &&& device_id_of(ed25519_public(second->Ok_0)) == device_id_of(
                ed25519_public(first->Ok_0),
            )
        }),
        stored.len() != 32 ==> identity_loaded(StoredKeyView::Bytes(stored), fresh) is Err,
{
}

} // verus!
