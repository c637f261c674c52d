//! Authenticated protocol-v3 certificates and LAN discovery.
//!
//! These are the small, signed records consumed by pairing and transport. The
//! Omarchy certificate issuer is external: callers must explicitly supply the
//! pinned root key.
pub use crate::discovery::{DiscoveryAnnouncement, DiscoveryVerifier, VerifiedDiscovery};
use crate::codec::{
    append, be_bytes, be_value, field, put_string, put_u64, read_field, read_text, utf8,
    text_from_utf8, Cursor,
};
use crate::crypto;
use crate::crypto::{
    ed25519_key_valid, ed25519_public, ed25519_sign, ed25519_verifies, neutral_point,
};
use crate::error::{checked, outcome, SyncError};
use crate::identity::{device_id_for_public_key, device_id_of};
use crate::text::{
    array_32, array_64, bytes_eq, check_id, hex_digit_value, is_alphanumeric, is_hex, is_id, trim,
    trimmed, unhex,
};
use vstd::prelude::*;
use vstd::utf8::*;

verus! {

pub const PROTOCOL_VERSION: u8 = 3;

pub const MAX_CERTIFICATE_BYTES: usize = 512;

pub const MAX_DISCOVERY_BYTES: usize = 2048;

pub const MAX_DEVICE_NAME_BYTES: usize = 64;

pub const MAX_ISSUER_KEY_ID_BYTES: usize = 64;

pub const MAX_DISCOVERY_AGE_SECONDS: u64 = 90;

pub const MAX_DISCOVERY_FUTURE_SECONDS: u64 = 10;

pub const MAX_REPLAY_ENTRIES: usize = 4096;

/// The production package installs this file and all parent directories as
/// root-owned, non-writable paths.
pub const PRODUCTION_ROOT_KEY_PATH: &'static str = "/usr/share/omarchy-sync/omarchy-root.ed25519";

pub const CERT_MAGIC: &'static str = "OMARCHY-CERT-V3";

pub const DISCOVERY_MAGIC: &'static str = "OMARCHY-DISCOVERY-V3";

pub const CERT_SCHEMA: u8 = 1;

// ---------------------------------------------------------------------------
// The pinned root.
// ---------------------------------------------------------------------------
/// A pinned root key and the id under which certificates refer to it.
pub struct RootView {
    pub public_key: Seq<u8>,
    pub key_id: Seq<char>,
}

/// The key that a root key file holds: thirty-two raw bytes, or sixty-four
/// hexadecimal digits with optional white space around them.
pub open spec fn root_key_content(bytes: Seq<u8>) -> Result<Seq<u8>, SyncError> {
    if bytes.len() == 32 {
        Ok(bytes)
    } else if !valid_utf8(bytes) {
        Err(SyncError::RootKeyNotText)
    } else {
        let digits = utf8(trimmed(decode_utf8(bytes)));
        if digits.len() == 64 && forall|i: int| 0 <= i < 64 ==> is_hex(#[trigger] digits[i]) {
            Ok(unhex(digits))
        } else {
            Err(SyncError::RootKeyFormat)
        }
    }
}

/// The root that a root key file pins.
pub open spec fn root_of_bytes(bytes: Seq<u8>) -> Result<RootView, SyncError> {
    match root_key_content(bytes) {
        Err(error) => Err(error),
        Ok(key) => if ed25519_key_valid(key) {
            Ok(RootView { public_key: key, key_id: device_id_of(key) })
        } else {
            Err(SyncError::RootKeyInvalid)
        },
    }
}

/// What the file system reports of a path, without following a link.
pub struct PathFacts {
    pub owner_uid: u32,
    pub mode: u32,
    pub regular_file: bool,
    pub directory: bool,
}

/// A file that only root can have written: owned by root, regular, and not
/// writable by group or others.
pub open spec fn root_key_secure(owner_uid: u32, mode: u32, regular_file: bool) -> bool {
    owner_uid == 0 && regular_file && mode & 0o022 == 0
}

/// A directory that only root can change.
pub open spec fn directory_secure(facts: PathFacts) -> bool {
    facts.directory && facts.owner_uid == 0 && facts.mode & 0o022 == 0
}

/// The root that a file and its parent directories, nearest first, pin.
pub open spec fn root_of_path(
    file: PathFacts,
    parents: Seq<PathFacts>,
    bytes: Seq<u8>,
) -> Result<RootView, SyncError> {
    if !root_key_secure(file.owner_uid, file.mode, file.regular_file) {
        Err(SyncError::RootKeyNotSecure)
    } else if !(forall|i: int| 0 <= i < parents.len() ==> directory_secure(#[trigger] parents[i])) {
        Err(SyncError::RootKeyParentNotSecure)
    } else if bytes.len() > 4096 {
        Err(SyncError::RootKeyTooLarge)
    } else {
        root_of_bytes(bytes)
    }
}

/// A public key explicitly pinned by the Omarchy installation or enrollment
/// mechanism. There is no default key and no accept-first-contact mode.
#[derive(Debug, PartialEq, Eq)]
pub struct PinnedOmarchyRoot {
    public_key: [u8; 32],
    key_id: String,
}

impl View for PinnedOmarchyRoot {
    type V = RootView;

    closed spec fn view(&self) -> RootView {
        RootView { public_key: self.public_key@, key_id: self.key_id@ }
    }
}

impl Clone for PinnedOmarchyRoot {
    fn clone(&self) -> (result: Self)
        ensures
            result@ == self@,
    {
        PinnedOmarchyRoot { public_key: self.public_key, key_id: self.key_id.clone() }
    }
}

impl PinnedOmarchyRoot {
    /// Loads a raw 32-byte key or a 64-character hexadecimal key from bytes.
    pub fn from_bytes(bytes: &[u8]) -> (result: Result<Self, SyncError>)
        ensures
            outcome(result) == root_of_bytes(bytes@),
            result matches Ok(root) ==> is_id(root@.key_id),
    {
        let public_key: [u8; 32] = if bytes.len() == 32 {
            array_32(bytes)
        } else {
            match text_from_utf8(bytes) {
                None => {
                    return Err(SyncError::RootKeyNotText);
                },
                Some(text) => key_from_hex(trim(text.as_str()).as_bytes())?,
            }
        };
        if !crypto::key_valid(&public_key) {
            return Err(SyncError::RootKeyInvalid);
        }
        Ok(PinnedOmarchyRoot { public_key, key_id: key_id_for_public_key(&public_key) })
    }

    /// Loads a pinned root from a root-owned, non-symlink,
    /// non-group/world-writable file whose parent directories, given nearest
    /// first, are controlled by root too.
    pub fn from_secure_path(file: &PathFacts, parents: &Vec<PathFacts>, bytes: &[u8]) -> (result:
        Result<Self, SyncError>)
        ensures
            outcome(result) == root_of_path(*file, parents@, bytes@),
    {
        if !root_key_policy(file.owner_uid, file.mode, file.regular_file) {
            return Err(SyncError::RootKeyNotSecure);
        }
        if !root_controlled_parent_chain(parents) {
            return Err(SyncError::RootKeyParentNotSecure);
        }
        if bytes.len() > 4096 {
            return Err(SyncError::RootKeyTooLarge);
        }
        Self::from_bytes(bytes)
    }

    /// Loads the package-managed production trust anchor, from what was found
    /// at [`PRODUCTION_ROOT_KEY_PATH`]. The fixed path and root-controlled
    /// parent directories are part of the deployment contract.
    pub fn from_production_path(file: &PathFacts, parents: &Vec<PathFacts>, bytes: &[u8]) -> (result:
        Result<Self, SyncError>)
        ensures
            outcome(result) == root_of_path(*file, parents@, bytes@),
    {
        Self::from_secure_path(file, parents, bytes)
    }

    pub fn public_key(&self) -> (result: [u8; 32])
        ensures
            result@ == self@.public_key,
    {
        self.public_key
    }

    pub fn key_id(&self) -> (result: &str)
        ensures
            result@ == self@.key_id,
    {
        self.key_id.as_str()
    }
}

/// Whether a file may serve as the root key.
pub fn root_key_policy(owner_uid: u32, mode: u32, regular_file: bool) -> (result: bool)
    ensures
        result == root_key_secure(owner_uid, mode, regular_file),
{
    owner_uid == 0 && regular_file && mode & 0o022 == 0
}

/// Whether every parent directory is controlled by root.
pub fn root_controlled_parent_chain(parents: &Vec<PathFacts>) -> (result: bool)
    ensures
        result == (forall|i: int|
            0 <= i < parents@.len() ==> directory_secure(#[trigger] parents@[i])),
{
    let mut i: usize = 0;
    while i < parents.len()
        invariant
            i <= parents@.len(),
            forall|j: int| 0 <= j < i ==> directory_secure(#[trigger] parents@[j]),
        decreases parents@.len() - i,
    {
        let facts = &parents[i];
        if !facts.directory || facts.owner_uid != 0 || facts.mode & 0o022 != 0 {
            assert(!directory_secure(parents@[i as int]));
            return false;
        }
        i = i + 1;
    }
    true
}

/// The id under which certificates refer to a root key.
fn key_id_for_public_key(key: &[u8; 32]) -> (result: String)
    ensures
        result@ == device_id_of(key@),
        is_id(result@),
{
    device_id_for_public_key(key)
}

/// The value of one hexadecimal digit.
pub fn hex_value(byte: u8) -> (result: Result<u8, SyncError>)
    ensures
        match result {
            Ok(value) => is_hex(byte) && value == hex_digit_value(byte) && value < 16,
            Err(error) => !is_hex(byte) && error == SyncError::RootKeyHex,
        },
{
    if 0x30 <= byte && byte <= 0x39 {
        Ok(byte - 0x30)
    } else if 0x61 <= byte && byte <= 0x66 {
        Ok(byte - 0x61 + 10)
    } else if 0x41 <= byte && byte <= 0x46 {
        Ok(byte - 0x41 + 10)
    } else {
        Err(SyncError::RootKeyHex)
    }
}

/// The key that sixty-four hexadecimal digits stand for.
fn key_from_hex(digits: &[u8]) -> (result: Result<[u8; 32], SyncError>)
    ensures
        match result {
            Ok(key) => {
                &&& digits@.len() == 64
                &&& forall|i: int| 0 <= i < 64 ==> is_hex(#[trigger] digits@[i])
                &&& key@ == unhex(digits@)
            },
            Err(error) => {
                &&& error == SyncError::RootKeyFormat
                &&& !(digits@.len() == 64 && forall|i: int|
                    0 <= i < 64 ==> is_hex(#[trigger] digits@[i]))
            },
        },
{
    if digits.len() != 64 {
        return Err(SyncError::RootKeyFormat);
    }
    let mut key: [u8; 32] = [0u8; 32];
    let mut i: usize = 0;
    while i < 32
        invariant
            i <= 32,
            digits@.len() == 64,
            forall|j: int| 0 <= j < 2 * i ==> is_hex(#[trigger] digits@[j]),
            forall|j: int| 0 <= j < i ==> #[trigger] key@[j] == unhex(digits@)[j],
        decreases 32 - i,
    {
        let high: Result<u8, SyncError> = hex_value(digits[2 * i]);
        let low: Result<u8, SyncError> = hex_value(digits[2 * i + 1]);
        match (high, low) {
            (Ok(h), Ok(l)) => {
                key[i] = h * 16 + l;
            },
            _ => {
                assert(!is_hex(digits@[2 * i as int]) || !is_hex(digits@[2 * i + 1]));
                return Err(SyncError::RootKeyFormat);
            },
        }
        i = i + 1;
    }
    assert(key@ =~= unhex(digits@));
    Ok(key)
}

// ---------------------------------------------------------------------------
// Device certificates.
// ---------------------------------------------------------------------------
/// What a certificate says.
#[verifier::ext_equal]
pub struct CertificateView {
    pub device_id: Seq<char>,
    pub public_key: Seq<u8>,
    pub device_name: Seq<char>,
    pub not_before: u64,
    pub not_after: u64,
    pub issuer_key_id: Seq<char>,
    pub signature: Seq<u8>,
}

/// The form of an issuer key id: up to sixty-four letters, digits, hyphens and
/// underscores.
pub open spec fn is_issuer_key_id(text: Seq<char>) -> bool {
    let bytes = utf8(text);
    0 < bytes.len() <= MAX_ISSUER_KEY_ID_BYTES && forall|i: int|
        0 <= i < bytes.len() ==> (is_alphanumeric(#[trigger] bytes[i]) || bytes[i] == 0x2d
            || bytes[i] == 0x5f)
}

/// The first fault in the form of a certificate's fields.
pub open spec fn certificate_shape_error(c: CertificateView) -> Option<SyncError> {
    if !is_id(c.device_id) {
        Some(SyncError::CertificateDeviceId)
    } else if !(0 < utf8(c.device_name).len() <= MAX_DEVICE_NAME_BYTES) {
        Some(SyncError::CertificateName)
    } else if c.not_after <= c.not_before {
        Some(SyncError::CertificateWindow)
    } else if !is_issuer_key_id(c.issuer_key_id) {
        Some(SyncError::CertificateIssuerId)
    } else {
        None
    }
}

/// The first fault in a certificate's fields, their binding to its key
/// included.
pub open spec fn certificate_field_error(c: CertificateView) -> Option<SyncError> {
    match certificate_shape_error(c) {
        Some(error) => Some(error),
        None => if c.device_id != device_id_of(c.public_key) {
            Some(SyncError::CertificateBinding)
        } else {
            None
        },
    }
}

/// The canonical bytes covered by the issuer signature.
pub open spec fn certificate_signed(c: CertificateView) -> Seq<u8> {
    utf8(CERT_MAGIC@) + seq![CERT_SCHEMA] + utf8(c.device_id) + c.public_key + field(
        utf8(c.device_name),
    ) + be_bytes(c.not_before as nat, 8) + be_bytes(c.not_after as nat, 8) + field(
        utf8(c.issuer_key_id),
    )
}

/// The canonical bytes of a whole certificate.
pub open spec fn certificate_bytes(c: CertificateView) -> Seq<u8> {
    certificate_signed(c) + c.signature
}

/// The outcome of encoding a certificate.
pub open spec fn certificate_encoded(c: CertificateView) -> Result<Seq<u8>, SyncError> {
    match certificate_shape_error(c) {
        Some(error) => Err(error),
        None => Ok(certificate_bytes(c)),
    }
}

/// The certificate that bytes encode. Fields stand at fixed offsets up to the
/// device name, whose length moves the rest.
pub open spec fn certificate_parsed(b: Seq<u8>) -> Result<CertificateView, SyncError> {
    if b.len() > MAX_CERTIFICATE_BYTES {
        Err(SyncError::CertificateTooLarge)
    } else if b.len() < 15 {
        Err(SyncError::Truncated)
    } else if b.subrange(0, 15) != utf8(CERT_MAGIC@) {
        Err(SyncError::CertificateMagic)
    } else if b.len() < 16 {
        Err(SyncError::Truncated)
    } else if b[15] != CERT_SCHEMA {
        Err(SyncError::CertificateSchema)
    } else if b.len() < 48 {
        Err(SyncError::Truncated)
    } else if !valid_utf8(b.subrange(16, 48)) {
        Err(SyncError::CertificateDeviceId)
    } else if b.len() < 80 {
        Err(SyncError::Truncated)
    } else {
        match read_text(b, 80, MAX_DEVICE_NAME_BYTES as int) {
            Err(error) => Err(error),
            Ok((name, p)) => if b.len() < p + 16 {
                Err(SyncError::Truncated)
            } else {
                match read_text(b, p + 16, MAX_ISSUER_KEY_ID_BYTES as int) {
                    Err(error) => Err(error),
                    Ok((issuer, q)) => if b.len() < q + 64 {
                        Err(SyncError::Truncated)
                    } else if b.len() > q + 64 {
                        Err(SyncError::TrailingBytes)
                    } else {
                        let c = CertificateView {
                            device_id: decode_utf8(b.subrange(16, 48)),
                            public_key: b.subrange(48, 80),
                            device_name: name,
                            not_before: be_value(b.subrange(p, p + 8)) as u64,
                            not_after: be_value(b.subrange(p + 8, p + 16)) as u64,
                            issuer_key_id: issuer,
                            signature: b.subrange(q, q + 64),
                        };
                        match certificate_shape_error(c) {
                            Some(error) => Err(error),
                            None => Ok(c),
                        }
                    },
                }
            },
        }
    }
}

/// Why a certificate is not accepted under a pinned root at a time. The issuer
/// signature comes first: unauthenticated fields are not looked at.
pub open spec fn certificate_error(c: CertificateView, root: RootView, now: u64) -> Option<
    SyncError,
> {
    if !ed25519_key_valid(root.public_key) {
        Some(SyncError::InvalidPublicKey)
    } else {
        match certificate_shape_error(c) {
            Some(error) => Some(error),
            None => if !ed25519_verifies(root.public_key, certificate_signed(c), c.signature) {
                Some(SyncError::CertificateSignature)
            } else if c.issuer_key_id != root.key_id {
                Some(SyncError::CertificateIssuerNotPinned)
            } else if c.device_id != device_id_of(c.public_key) {
                Some(SyncError::CertificateBinding)
            } else if now < c.not_before {
                Some(SyncError::CertificateNotYetValid)
            } else if now >= c.not_after {
                Some(SyncError::CertificateExpired)
            } else {
                None
            },
        }
    }
}

/// The magic texts are ASCII, so each character is one byte.
pub proof fn protocol_magic_lengths()
    ensures
        utf8(CERT_MAGIC@).len() == 15,
        utf8(DISCOVERY_MAGIC@).len() == 20,
{
    reveal_strlit("OMARCHY-CERT-V3");
    assert(is_ascii_chars(CERT_MAGIC@));
    is_ascii_chars_encode_utf8(CERT_MAGIC@);
    reveal_strlit("OMARCHY-DISCOVERY-V3");
    assert(is_ascii_chars(DISCOVERY_MAGIC@));
    is_ascii_chars_encode_utf8(DISCOVERY_MAGIC@);
}

/// A certificate issued by the external Omarchy enrollment authority.
#[derive(Debug, PartialEq, Eq)]
pub struct DeviceCertificate {
    pub device_id: String,
    pub public_key: [u8; 32],
    pub device_name: String,
    pub not_before: u64,
    pub not_after: u64,
    pub issuer_key_id: String,
    pub signature: [u8; 64],
}

impl View for DeviceCertificate {
    type V = CertificateView;

    open spec fn view(&self) -> CertificateView {
        CertificateView {
            device_id: self.device_id@,
            public_key: self.public_key@,
            device_name: self.device_name@,
            not_before: self.not_before,
            not_after: self.not_after,
            issuer_key_id: self.issuer_key_id@,
            signature: self.signature@,
        }
    }
}

impl Clone for DeviceCertificate {
    fn clone(&self) -> (result: Self)
        ensures
            result@ == self@,
    {
        DeviceCertificate {
            device_id: self.device_id.clone(),
            public_key: self.public_key,
            device_name: self.device_name.clone(),
            not_before: self.not_before,
            not_after: self.not_after,
            issuer_key_id: self.issuer_key_id.clone(),
            signature: self.signature,
        }
    }
}

/// Whether a text has the form of an issuer key id.
fn check_issuer_key_id(text: &str) -> (result: bool)
    ensures
        result == is_issuer_key_id(text@),
{
    let bytes = text.as_bytes();
    if bytes.len() == 0 || bytes.len() > MAX_ISSUER_KEY_ID_BYTES {
        return false;
    }
    let mut i: usize = 0;
    while i < bytes.len()
        invariant
            i <= bytes@.len(),
            bytes@ == utf8(text@),
            forall|j: int|
                0 <= j < i ==> (is_alphanumeric(#[trigger] bytes@[j]) || bytes@[j] == 0x2d
                    || bytes@[j] == 0x5f),
        decreases bytes@.len() - i,
    {
        let b: u8 = bytes[i];
        if !((0x30 <= b && b <= 0x39) || (0x41 <= b && b <= 0x5a) || (0x61 <= b && b <= 0x7a) || b
            == 0x2d || b == 0x5f) {
            return false;
        }
        i = i + 1;
    }
    true
}

impl DeviceCertificate {
    /// Constructs an unsigned certificate. Only the external issuer should
    /// sign it in production.
    pub fn unsigned(
        device_id: String,
        public_key: [u8; 32],
        device_name: String,
        not_before: u64,
        not_after: u64,
        issuer_key_id: String,
    ) -> (result: Result<Self, SyncError>)
        ensures
            ({
                let c = CertificateView {
                    device_id: device_id@,
                    public_key: public_key@,
                    device_name: device_name@,
                    not_before,
                    not_after,
                    issuer_key_id: issuer_key_id@,
                    signature: Seq::new(64, |i: int| 0u8),
                };
                outcome(result) == (match certificate_field_error(c) {
                    Some(error) => Err::<CertificateView, SyncError>(error),
                    None => Ok(c),
                })
            }),
    {
        let cert = DeviceCertificate {
            device_id,
            public_key,
            device_name,
            not_before,
            not_after,
            issuer_key_id,
            signature: [0u8; 64],
        };
        assert(cert.signature@ =~= Seq::new(64, |i: int| 0u8));
        cert.validate_fields()?;
        Ok(cert)
    }

    /// Issues a certificate with the issuer's secret key. Production
    /// enrollment should keep that key off-device.
    pub fn issue(
        issuer: &[u8; 32],
        device_id: String,
        public_key: [u8; 32],
        device_name: String,
        not_before: u64,
        not_after: u64,
        issuer_key_id: String,
    ) -> (result: Result<Self, SyncError>)
        ensures
            ({
                let c = CertificateView {
                    device_id: device_id@,
                    public_key: public_key@,
                    device_name: device_name@,
                    not_before,
                    not_after,
                    issuer_key_id: issuer_key_id@,
                    signature: Seq::new(64, |i: int| 0u8),
                };
                outcome(result) == (match certificate_field_error(c) {
                    Some(error) => Err::<CertificateView, SyncError>(error),
                    None => Ok(
                        CertificateView {
                            signature: ed25519_sign(issuer@, certificate_signed(c)),
                            ..c
                        },
                    ),
                })
            }),
            result matches Ok(c) ==> c@.signature.subrange(0, 32) != neutral_point()
                ==> ed25519_verifies(
                ed25519_public(issuer@),
                certificate_signed(c@),
                c@.signature,
            ),
    {
        let unsigned = Self::unsigned(
            device_id,
            public_key,
            device_name,
            not_before,
            not_after,
            issuer_key_id,
        )?;
        let signed: Vec<u8> = unsigned.signing_bytes()?;
        let signature: [u8; 64] = crypto::sign(issuer, signed.as_slice());
        Ok(DeviceCertificate { signature, ..unsigned })
    }

    fn validate_shape(&self) -> (result: Result<(), SyncError>)
        ensures
            result == checked(certificate_shape_error(self@)),
    {
        if !check_id(self.device_id.as_str()) {
            return Err(SyncError::CertificateDeviceId);
        }
        let name_length: usize = self.device_name.as_str().as_bytes().len();
        if name_length == 0 || name_length > MAX_DEVICE_NAME_BYTES {
            return Err(SyncError::CertificateName);
        }
        if self.not_after <= self.not_before {
            return Err(SyncError::CertificateWindow);
        }
        if !check_issuer_key_id(self.issuer_key_id.as_str()) {
            return Err(SyncError::CertificateIssuerId);
        }
        Ok(())
    }

    fn validate_fields(&self) -> (result: Result<(), SyncError>)
        ensures
            result == checked(certificate_field_error(self@)),
    {
        self.validate_shape()?;
        if self.device_id != device_id_for_public_key(&self.public_key) {
            return Err(SyncError::CertificateBinding);
        }
        Ok(())
    }

    /// Attaches a signature made elsewhere.
    pub fn with_signature(self, signature: [u8; 64]) -> (result: Result<Self, SyncError>)
        ensures
            outcome(result) == (match certificate_field_error(self@) {
                Some(error) => Err::<CertificateView, SyncError>(error),
                None => Ok(CertificateView { signature: signature@, ..self@ }),
            }),
    {
        let signed = DeviceCertificate { signature, ..self };
        signed.validate_fields()?;
        Ok(signed)
    }

    /// Canonical bytes covered by the issuer signature.
    pub fn signing_bytes(&self) -> (result: Result<Vec<u8>, SyncError>)
        ensures
            outcome(result) == (match certificate_shape_error(self@) {
                Some(error) => Err::<Seq<u8>, SyncError>(error),
                None => Ok(certificate_signed(self@)),
            }),
    {
        self.validate_shape()?;
        let mut out: Vec<u8> = Vec::new();
        append(&mut out, CERT_MAGIC.as_bytes());
        out.push(CERT_SCHEMA);
        append(&mut out, self.device_id.as_str().as_bytes());
        append(&mut out, self.public_key.as_slice());
        put_string(&mut out, self.device_name.as_str(), MAX_DEVICE_NAME_BYTES)?;
        put_u64(&mut out, self.not_before);
        put_u64(&mut out, self.not_after);
        put_string(&mut out, self.issuer_key_id.as_str(), MAX_ISSUER_KEY_ID_BYTES)?;
        assert(out@ =~= certificate_signed(self@));
        Ok(out)
    }

    pub fn to_bytes(&self) -> (result: Result<Vec<u8>, SyncError>)
        ensures
            outcome(result) == certificate_encoded(self@),
            result matches Ok(bytes) ==> bytes@.len() <= 292,
    {
        let mut out: Vec<u8> = self.signing_bytes()?;
        append(&mut out, self.signature.as_slice());
        proof {
            certificate_length(self@);
        }
        if out.len() > MAX_CERTIFICATE_BYTES {
            return Err(SyncError::CertificateTooLarge);
        }
        Ok(out)
    }

    pub fn from_bytes(bytes: &[u8]) -> (result: Result<Self, SyncError>)
        ensures
            outcome(result) == certificate_parsed(bytes@),
    {
        if bytes.len() > MAX_CERTIFICATE_BYTES {
            return Err(SyncError::CertificateTooLarge);
        }
        proof {
            protocol_magic_lengths();
        }
        let mut c = Cursor::new(bytes);
        let magic = c.take(15)?;
        if !bytes_eq(magic, CERT_MAGIC.as_bytes()) {
            return Err(SyncError::CertificateMagic);
        }
        let schema: u8 = c.u8()?;
        if schema != CERT_SCHEMA {
            return Err(SyncError::CertificateSchema);
        }
        let device_id = match text_from_utf8(c.take(32)?) {
            Some(text) => text,
            None => {
                return Err(SyncError::CertificateDeviceId);
            },
        };
        let public_key: [u8; 32] = array_32(c.take(32)?);
        let device_name = c.string(MAX_DEVICE_NAME_BYTES)?;
        let not_before: u64 = c.u64()?;
        let not_after: u64 = c.u64()?;
        let issuer_key_id = c.string(MAX_ISSUER_KEY_ID_BYTES)?;
        let signature: [u8; 64] = array_64(c.take(64)?);
        c.finish()?;
        let cert = DeviceCertificate {
            device_id,
            public_key,
            device_name,
            not_before,
            not_after,
            issuer_key_id,
            signature,
        };
        cert.validate_shape()?;
        Ok(cert)
    }

    /// Verifies the issuer signature, pinned issuer id, device binding, and
    /// validity window at `now`.
    pub fn verify(&self, root: &PinnedOmarchyRoot, now: u64) -> (result: Result<(), SyncError>)
        ensures
            result == checked(certificate_error(self@, root@, now)),
    {
        if !crypto::key_valid(&root.public_key) {
            return Err(SyncError::InvalidPublicKey);
        }
        let signed: Vec<u8> = self.signing_bytes()?;
        if !crypto::verify(&root.public_key, signed.as_slice(), &self.signature) {
            return Err(SyncError::CertificateSignature);
        }
        if self.issuer_key_id != root.key_id {
            return Err(SyncError::CertificateIssuerNotPinned);
        }
        if self.device_id != device_id_for_public_key(&self.public_key) {
            return Err(SyncError::CertificateBinding);
        }
        if now < self.not_before {
            return Err(SyncError::CertificateNotYetValid);
        }
        if now >= self.not_after {
            return Err(SyncError::CertificateExpired);
        }
        Ok(())
    }

    /// Whether two certificates say the same.
    pub fn same_as(&self, other: &DeviceCertificate) -> (result: bool)
        ensures
            result == (self@ == other@),
    {
        let same: bool = self.device_id == other.device_id && bytes_eq(
            self.public_key.as_slice(),
            other.public_key.as_slice(),
        ) && self.device_name == other.device_name && self.not_before == other.not_before
            && self.not_after == other.not_after && self.issuer_key_id == other.issuer_key_id
            && bytes_eq(self.signature.as_slice(), other.signature.as_slice());
        assert(same ==> self@ =~= other@);
        same
    }
}

/// A certificate of valid form takes at most 292 bytes.
pub proof fn certificate_length(c: CertificateView)
    requires
        certificate_shape_error(c) is None,
        c.public_key.len() == 32,
        c.signature.len() == 64,
    ensures
        certificate_bytes(c).len() == 164 + utf8(c.device_name).len() + utf8(
            c.issuer_key_id,
        ).len(),
        certificate_bytes(c).len() <= 292,
{
    protocol_magic_lengths();
    crate::codec::be_bytes_len(utf8(c.device_name).len(), 2);
    crate::codec::be_bytes_len(utf8(c.issuer_key_id).len(), 2);
    crate::codec::be_bytes_len(c.not_before as nat, 8);
    crate::codec::be_bytes_len(c.not_after as nat, 8);
}

/// A certificate of valid form that is encoded and parsed again is unchanged.
pub proof fn certificate_round_trip(c: CertificateView)
    requires
        certificate_shape_error(c) is None,
        c.public_key.len() == 32,
        c.signature.len() == 64,
    ensures
        certificate_parsed(certificate_bytes(c)) == Ok::<CertificateView, SyncError>(c),
{
    let b = certificate_bytes(c);
    let name = utf8(c.device_name);
    let issuer = utf8(c.issuer_key_id);
    let p = 82 + name.len() as int;
    let q = p + 18 + issuer.len() as int;
    certificate_length(c);
    protocol_magic_lengths();
    crate::codec::be_bytes_len(name.len(), 2);
    crate::codec::be_bytes_len(issuer.len(), 2);
    assert(crate::codec::be_bound(8) == 0x1_0000_0000_0000_0000) by {
        reveal_with_fuel(crate::codec::be_bound, 9);
    }
    crate::codec::be_value_of_be_bytes(c.not_before as nat, 8);
    crate::codec::be_value_of_be_bytes(c.not_after as nat, 8);
    encode_utf8_valid_utf8(c.device_id);
    encode_utf8_decode_utf8(c.device_id);
    encode_utf8_valid_utf8(c.device_name);
    encode_utf8_decode_utf8(c.device_name);
    encode_utf8_valid_utf8(c.issuer_key_id);
    encode_utf8_decode_utf8(c.issuer_key_id);
    assert(b.subrange(0, 15) =~= utf8(CERT_MAGIC@));
    assert(b[15] == CERT_SCHEMA);
    assert(b.subrange(16, 48) =~= utf8(c.device_id));
    assert(b.subrange(48, 80) =~= c.public_key);
    assert(b.subrange(80, p) =~= field(name));
    crate::codec::read_field_of_field(b, 80, name, MAX_DEVICE_NAME_BYTES as int);
    assert(b.subrange(p, p + 8) =~= be_bytes(c.not_before as nat, 8));
    assert(b.subrange(p + 8, p + 16) =~= be_bytes(c.not_after as nat, 8));
    assert(b.subrange(p + 16, q) =~= field(issuer));
    crate::codec::read_field_of_field(b, p + 16, issuer, MAX_ISSUER_KEY_ID_BYTES as int);
    assert(b.subrange(q, q + 64) =~= c.signature);
}

/// Bytes that parse as a certificate are its only encoding: a certificate has
/// one signing representation.
pub proof fn certificate_canonical(b: Seq<u8>)
    requires
        certificate_parsed(b) is Ok,
    ensures
        certificate_shape_error(certificate_parsed(b)->Ok_0) is None,
        certificate_parsed(b)->Ok_0.public_key.len() == 32,
        certificate_parsed(b)->Ok_0.signature.len() == 64,
        certificate_bytes(certificate_parsed(b)->Ok_0) == b,
{
    let c = certificate_parsed(b)->Ok_0;
    let (name_bytes, p) = read_field(b, 80, MAX_DEVICE_NAME_BYTES as int)->Ok_0;
    let (issuer_bytes, q) = read_field(b, p + 16, MAX_ISSUER_KEY_ID_BYTES as int)->Ok_0;
    protocol_magic_lengths();
    crate::codec::field_of_read_field(b, 80, MAX_DEVICE_NAME_BYTES as int);
    crate::codec::field_of_read_field(b, p + 16, MAX_ISSUER_KEY_ID_BYTES as int);
    assert(crate::codec::be_bound(8) == 0x1_0000_0000_0000_0000) by {
        reveal_with_fuel(crate::codec::be_bound, 9);
    }
    crate::codec::be_bytes_of_be_value(b.subrange(p, p + 8));
    crate::codec::be_bytes_of_be_value(b.subrange(p + 8, p + 16));
    decode_utf8_encode_utf8(b.subrange(16, 48));
    decode_utf8_encode_utf8(name_bytes);
    decode_utf8_encode_utf8(issuer_bytes);
    let parts = b.subrange(0, 15) + seq![b[15]] + b.subrange(16, 48) + b.subrange(48, 80)
        + b.subrange(80, p) + b.subrange(p, p + 8) + b.subrange(p + 8, p + 16) + b.subrange(
        p + 16,
        q,
    ) + b.subrange(q, q + 64);
    assert(parts =~= b);
    assert(certificate_bytes(c) =~= parts);
}

} // verus!
