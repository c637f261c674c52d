//! The bilateral pairing record: its canonical bytes, its signatures and the
//! checks it must pass.
use crate::codec::{
    append, be_bound, be_bytes, be_bytes_len, be_value_of_be_bytes, field, put_bytes, put_string,
    put_u64, regroup, split_field, split_front, split_tail, utf8, utf8_injective,
};
use crate::crypto;
use crate::crypto::{
    ed25519_key_valid, ed25519_public, ed25519_sign, ed25519_verifies, neutral_point, sha256,
};
use crate::error::{checked, outcome, SyncError};
use crate::frames::{ROLE_INITIATOR, ROLE_RESPONDER};
use crate::identity::{device_id_of, DeviceIdentity};
use crate::json::{decimal, json_bytes, json_text, put_list, put_number, put_text};
use crate::pairing::{AuthenticatedPairingSession, SessionView};
use crate::protocol_v3::{
    certificate_bytes, certificate_error, certificate_parsed, certificate_shape_error,
    CertificateView, DeviceCertificate, PinnedOmarchyRoot, RootView, PROTOCOL_VERSION,
};
use crate::text::{array_64, bytes_eq, check_id, is_id, str_eq};
use vstd::prelude::*;
use vstd::utf8::*;

verus! {

pub const RECORD_MAGIC: &'static str = "OMARCHY-SYNC-V3-PAIRING-RECORD";

pub const RECORD_SCHEMA: u8 = 1;

pub const DOMAIN: &'static str = "omarchy-sync/pairing/v3";

pub const MAX_DOMAIN_BYTES: usize = 64;

pub const MAX_MARKER_BYTES: usize = 128;

pub const MAX_RECORD_BYTES: usize = 4096;

pub const MAX_RECORD_CERTIFICATE_BYTES: usize = 512;

/// What a pairing record says.
#[verifier::ext_equal]
pub struct RecordView {
    pub protocol_version: u8,
    pub domain: Seq<char>,
    pub pair_id: Seq<char>,
    pub initiator_device_id: Seq<char>,
    pub responder_device_id: Seq<char>,
    pub initiator_public_key: Seq<u8>,
    pub responder_public_key: Seq<u8>,
    pub initiator_certificate: Seq<u8>,
    pub responder_certificate: Seq<u8>,
    pub session_binding: Seq<u8>,
    pub authorizing_device_id: Seq<char>,
    pub user_presence: Seq<char>,
    pub authorized_at: u64,
    pub initiator_signature: Option<Seq<u8>>,
    pub responder_signature: Option<Seq<u8>>,
}

impl RecordView {
    /// Both identities have signed. Only such records are active trust.
    pub open spec fn complete(self) -> bool {
        self.initiator_signature is Some && self.responder_signature is Some
    }

    /// The record without its signatures.
    pub open spec fn unsigned(self) -> RecordView {
        RecordView { initiator_signature: None, responder_signature: None, ..self }
    }

    /// The signature in a role.
    pub open spec fn signature(self, role: u8) -> Option<Seq<u8>> {
        if role == ROLE_INITIATOR {
            self.initiator_signature
        } else {
            self.responder_signature
        }
    }

    /// The record with a signature in a role.
    pub open spec fn with_signature(self, role: u8, signature: Seq<u8>) -> RecordView {
        if role == ROLE_INITIATOR {
            RecordView { initiator_signature: Some(signature), ..self }
        } else {
            RecordView { responder_signature: Some(signature), ..self }
        }
    }

    /// Whether the record binds two devices, in either role.
    pub open spec fn binds(self, a: Seq<char>, b: Seq<char>) -> bool {
        ||| self.initiator_device_id == a && self.responder_device_id == b
        ||| self.initiator_device_id == b && self.responder_device_id == a
    }
}

/// A user-presence marker of acceptable length.
pub open spec fn is_marker(text: Seq<char>) -> bool {
    0 < utf8(text).len() <= MAX_MARKER_BYTES
}

/// The first fault in the form of a record.
pub open spec fn record_shape_error(r: RecordView) -> Option<SyncError> {
    if !is_id(r.pair_id) {
        Some(SyncError::InvalidPairingId)
    } else if !is_id(r.initiator_device_id) || !is_id(r.responder_device_id) {
        Some(SyncError::RecordDeviceId)
    } else if !(0 < utf8(r.domain).len() <= MAX_DOMAIN_BYTES) {
        Some(SyncError::RecordDomainLength)
    } else if !is_id(r.authorizing_device_id) {
        Some(SyncError::InvalidDeviceId)
    } else if !is_marker(r.user_presence) {
        Some(SyncError::UserPresence)
    } else if r.authorized_at == 0 {
        Some(SyncError::AuthorizationTime)
    } else if r.initiator_certificate.len() == 0 || r.responder_certificate.len() == 0 {
        Some(SyncError::CertificatesRequired)
    } else {
        None
    }
}

/// The stored form of an optional signature.
pub open spec fn json_signature(signature: Option<Seq<u8>>) -> Seq<u8> {
    match signature {
        Some(bytes) => json_bytes(bytes),
        None => utf8("null"@),
    }
}

/// The stored form of a record: one JSON object, its fields in a fixed order.
#[verifier::opaque]
pub open spec fn record_json(r: RecordView) -> Seq<u8> {
    Seq::<u8>::empty() + utf8("{\"protocol_version\":"@) + decimal(r.protocol_version as nat) + utf8(
        ",\"domain\":"@,
    ) + json_text(r.domain) + utf8(",\"pair_id\":"@) + json_text(r.pair_id) + utf8(
        ",\"initiator_device_id\":"@,
    ) + json_text(r.initiator_device_id) + utf8(",\"responder_device_id\":"@) + json_text(
        r.responder_device_id,
    ) + utf8(",\"initiator_public_key\":"@) + json_bytes(r.initiator_public_key) + utf8(
        ",\"responder_public_key\":"@,
    ) + json_bytes(r.responder_public_key) + utf8(",\"initiator_certificate\":"@) + json_bytes(
        r.initiator_certificate,
    ) + utf8(",\"responder_certificate\":"@) + json_bytes(r.responder_certificate) + utf8(
        ",\"session_binding\":"@,
    ) + json_bytes(r.session_binding) + utf8(",\"authorizing_device_id\":"@) + json_text(
        r.authorizing_device_id,
    ) + utf8(",\"user_presence\":"@) + json_text(r.user_presence) + utf8(",\"authorized_at\":"@)
        + decimal(r.authorized_at as nat) + utf8(",\"initiator_signature\":"@) + json_signature(
        r.initiator_signature,
    ) + utf8(",\"responder_signature\":"@) + json_signature(r.responder_signature) + utf8("}"@)
}

/// Whether the stored form of a record is within bounds.
pub open spec fn storable(r: RecordView) -> bool {
    record_json(r).len() <= MAX_RECORD_BYTES
}

/// The stored form of a record, if it is within bounds.
pub open spec fn record_stored(r: RecordView) -> Result<Seq<u8>, SyncError> {
    if storable(r) {
        Ok(record_json(r))
    } else {
        Err(SyncError::RecordTooLarge)
    }
}

/// What is made of the stored form of a record and what was parsed from it.
pub open spec fn record_accepted(bytes: Seq<u8>, parsed: Option<RecordView>) -> Result<
    RecordView,
    SyncError,
> {
    if bytes.len() > MAX_RECORD_BYTES {
        Err(SyncError::RecordTooLarge)
    } else {
        match parsed {
            None => Err(SyncError::RecordMalformed),
            Some(record) => match record_shape_error(record) {
                Some(error) => Err(error),
                None => Ok(record),
            },
        }
    }
}

/// The canonical bytes that each identity signs.
pub open spec fn record_signed(r: RecordView) -> Seq<u8> {
    utf8(RECORD_MAGIC@) + seq![RECORD_SCHEMA, r.protocol_version] + field(utf8(r.domain)) + field(
        utf8(r.pair_id),
    ) + utf8(r.initiator_device_id) + utf8(r.responder_device_id) + r.initiator_public_key
        + r.responder_public_key + field(r.initiator_certificate) + field(r.responder_certificate)
        + r.session_binding + utf8(r.authorizing_device_id) + field(utf8(r.user_presence))
        + be_bytes(r.authorized_at as nat, 8)
}

/// Why a record cannot be signed.
pub open spec fn record_sign_error(r: RecordView) -> Option<SyncError> {
    match record_shape_error(r) {
        Some(error) => Some(error),
        None => if r.initiator_certificate.len() > MAX_RECORD_CERTIFICATE_BYTES
            || r.responder_certificate.len() > MAX_RECORD_CERTIFICATE_BYTES {
            Some(SyncError::RecordCertificateTooLarge)
        } else {
            None
        },
    }
}

/// The message that an identity signs in a role.
pub open spec fn record_message(r: RecordView, role: u8) -> Seq<u8> {
    record_signed(r) + seq![role]
}

/// Why a signature in a role is not one of the record's.
pub open spec fn record_signature_error(r: RecordView, role: u8, signature: Seq<u8>) -> Option<
    SyncError,
> {
    if signature.len() != 64 {
        Some(SyncError::RecordSignatureSize)
    } else if role != ROLE_INITIATOR && role != ROLE_RESPONDER {
        Some(SyncError::FrameRole)
    } else {
        let key = if role == ROLE_INITIATOR {
            r.initiator_public_key
        } else {
            r.responder_public_key
        };
        match record_sign_error(r) {
            Some(error) => Some(error),
            None => if !ed25519_key_valid(key) {
                Some(SyncError::InvalidPublicKey)
            } else if !ed25519_verifies(key, record_message(r, role), signature) {
                Some(SyncError::RecordSignature)
            } else {
                None
            },
        }
    }
}

/// The first fault among the signatures that a record has.
pub open spec fn record_signatures_error(r: RecordView) -> Option<SyncError> {
    let first = match r.initiator_signature {
        None => None,
        Some(signature) => record_signature_error(r, ROLE_INITIATOR, signature),
    };
    match first {
        Some(error) => Some(error),
        None => match r.responder_signature {
            None => None,
            Some(signature) => record_signature_error(r, ROLE_RESPONDER, signature),
        },
    }
}

/// The two certificates in a record.
pub open spec fn record_certificates(r: RecordView) -> Result<
    (CertificateView, CertificateView),
    SyncError,
> {
    match certificate_parsed(r.initiator_certificate) {
        Err(error) => Err(error),
        Ok(initiator) => match certificate_parsed(r.responder_certificate) {
            Err(error) => Err(error),
            Ok(responder) => Ok((initiator, responder)),
        },
    }
}

/// The two certificates in a record, verified under a root at a time.
pub open spec fn record_certified(r: RecordView, root: RootView, time: u64) -> Result<
    (CertificateView, CertificateView),
    SyncError,
> {
    match record_certificates(r) {
        Err(error) => Err(error),
        Ok((initiator, responder)) => match certificate_error(initiator, root, time) {
            Some(error) => Err(error),
            None => match certificate_error(responder, root, time) {
                Some(error) => Err(error),
                None => Ok((initiator, responder)),
            },
        },
    }
}

/// Whether the certificates are those of the identities that a record names.
pub open spec fn record_identities_match(
    r: RecordView,
    initiator: CertificateView,
    responder: CertificateView,
) -> bool {
    &&& initiator.device_id == r.initiator_device_id
    &&& initiator.public_key == r.initiator_public_key
    &&& responder.device_id == r.responder_device_id
    &&& responder.public_key == r.responder_public_key
}

/// Why a record is not accepted as active trust. Its certificates are verified
/// at the time of authorization, so that their expiry does not end the pairing.
pub open spec fn stored_error(r: RecordView, root: RootView) -> Option<SyncError> {
    match record_shape_error(r) {
        Some(error) => Some(error),
        None => if r.protocol_version != PROTOCOL_VERSION || r.domain != DOMAIN@ {
            Some(SyncError::RecordProtocol)
        } else if !r.complete() {
            Some(SyncError::ActiveIncomplete)
        } else {
            match record_certified(r, root, r.authorized_at) {
                Err(error) => Some(error),
                Ok((initiator, responder)) => if !record_identities_match(r, initiator, responder)
                    || r.initiator_device_id == r.responder_device_id {
                    Some(SyncError::StoredIdentity)
                } else {
                    record_signatures_error(r)
                },
            }
        },
    }
}

/// Why a record is not accepted as pending state. It must carry at least one
/// signature.
pub open spec fn pending_error(r: RecordView, root: RootView) -> Option<SyncError> {
    match record_shape_error(r) {
        Some(error) => Some(error),
        None => if r.protocol_version != PROTOCOL_VERSION || r.domain != DOMAIN@ {
            Some(SyncError::PendingProtocol)
        } else {
            match record_certified(r, root, r.authorized_at) {
                Err(error) => Some(error),
                Ok((initiator, responder)) => if !record_identities_match(r, initiator, responder)
                    || r.initiator_device_id == r.responder_device_id
                    || r.initiator_signature is None && r.responder_signature is None {
                    Some(SyncError::PendingIdentity)
                } else {
                    record_signatures_error(r)
                },
            }
        },
    }
}

/// Whether a record names the two ends of a session in their roles.
pub open spec fn record_names_session(r: RecordView, s: SessionView) -> bool {
    let initiates = s.local_role == ROLE_INITIATOR;
    &&& s.local_certificate.device_id == (if initiates {
        r.initiator_device_id
    } else {
        r.responder_device_id
    })
    &&& s.peer_certificate.device_id == (if initiates {
        r.responder_device_id
    } else {
        r.initiator_device_id
    })
}

/// Whether a record holds the keys of the two ends of a session in their roles.
pub open spec fn record_keys_session(r: RecordView, s: SessionView) -> bool {
    let initiates = s.local_role == ROLE_INITIATOR;
    &&& s.local_certificate.public_key == (if initiates {
        r.initiator_public_key
    } else {
        r.responder_public_key
    })
    &&& s.peer_certificate.public_key == (if initiates {
        r.responder_public_key
    } else {
        r.initiator_public_key
    })
}

/// What is asked of a record besides its being well-formed and signed.
pub struct Demands {
    /// Both identities must have signed.
    pub complete: bool,
    /// The record must be bound to this very session.
    pub bound: bool,
    /// The certificates are verified at the time of authorization instead of
    /// now.
    pub at_authorization: bool,
}

/// Why a record is not accepted in a session.
pub open spec fn session_record_error(
    r: RecordView,
    s: SessionView,
    secret: Seq<u8>,
    root: RootView,
    now: u64,
    demands: Demands,
) -> Option<SyncError> {
    let time = if demands.at_authorization {
        r.authorized_at
    } else {
        now
    };
    match record_shape_error(r) {
        Some(error) => Some(error),
        None => if r.protocol_version != PROTOCOL_VERSION || r.domain != DOMAIN@ {
            Some(SyncError::RecordProtocol)
        } else if demands.complete && !r.complete() {
            Some(SyncError::RecordIncomplete)
        } else {
            match record_certified(r, root, time) {
                Err(error) => Some(error),
                Ok((initiator, responder)) => if !record_identities_match(r, initiator, responder) {
                    Some(SyncError::RecordIdentity)
                } else if r.initiator_device_id == r.responder_device_id {
                    Some(SyncError::RecordRoles)
                } else if (demands.bound && s.session_binding != r.session_binding)
                    || !record_names_session(r, s) {
                    Some(SyncError::RecordSession)
                } else if !record_keys_session(r, s) {
                    Some(SyncError::RecordKeys)
                } else if r.authorizing_device_id != r.initiator_device_id
                    && r.authorizing_device_id != r.responder_device_id {
                    Some(SyncError::RecordAuthorizer)
                } else if device_id_of(ed25519_public(secret)) != s.local_device_id {
                    Some(SyncError::RecordLocalIdentity)
                } else {
                    record_signatures_error(r)
                },
            }
        },
    }
}

/// Why two records under one PairID are not the same pairing.
pub open spec fn binding_error(old_record: RecordView, new_record: RecordView) -> Option<SyncError> {
    if old_record.pair_id != new_record.pair_id || old_record.initiator_device_id
        != new_record.initiator_device_id || old_record.responder_device_id
        != new_record.responder_device_id || old_record.session_binding
        != new_record.session_binding {
        Some(SyncError::RecordConflict)
    } else {
        match record_sign_error(old_record) {
            Some(error) => Some(error),
            None => match record_sign_error(new_record) {
                Some(error) => Some(error),
                None => if record_signed(old_record) != record_signed(new_record) {
                    Some(SyncError::RecordConflict)
                } else {
                    None
                },
            },
        }
    }
}

/// The record that a session gives rise to, not yet signed.
pub open spec fn session_record(
    s: SessionView,
    pair_id: Seq<char>,
    user_presence: Seq<char>,
    secret: Seq<u8>,
    authorized_at: u64,
) -> RecordView {
    let initiates = s.local_role == ROLE_INITIATOR;
    let initiator = if initiates {
        s.local_certificate
    } else {
        s.peer_certificate
    };
    let responder = if initiates {
        s.peer_certificate
    } else {
        s.local_certificate
    };
    RecordView {
        protocol_version: PROTOCOL_VERSION,
        domain: DOMAIN@,
        pair_id,
        initiator_device_id: initiator.device_id,
        responder_device_id: responder.device_id,
        initiator_public_key: initiator.public_key,
        responder_public_key: responder.public_key,
        initiator_certificate: certificate_bytes(initiator),
        responder_certificate: certificate_bytes(responder),
        session_binding: s.session_binding,
        authorizing_device_id: device_id_of(ed25519_public(secret)),
        user_presence,
        authorized_at,
        initiator_signature: None,
        responder_signature: None,
    }
}

/// Why a session cannot give rise to a record.
pub open spec fn session_encode_error(s: SessionView) -> Option<SyncError> {
    let initiates = s.local_role == ROLE_INITIATOR;
    let initiator = if initiates {
        s.local_certificate
    } else {
        s.peer_certificate
    };
    let responder = if initiates {
        s.peer_certificate
    } else {
        s.local_certificate
    };
    match certificate_shape_error(initiator) {
        Some(error) => Some(error),
        None => certificate_shape_error(responder),
    }
}

/// Why an identity is not the local end of a session.
pub open spec fn session_identity_error(s: SessionView, secret: Seq<u8>) -> Option<SyncError> {
    if device_id_of(ed25519_public(secret)) != s.local_device_id || ed25519_public(secret)
        != s.local_certificate.public_key {
        Some(SyncError::SessionIdentity)
    } else {
        None
    }
}

/// The exact bilateral record both devices sign and persist. The optional
/// signatures make the pending state explicit; only complete records are
/// active trust.
#[derive(Debug, PartialEq, Eq)]
pub struct PairingRecord {
    pub protocol_version: u8,
    pub domain: String,
    pub pair_id: String,
    pub initiator_device_id: String,
    pub responder_device_id: String,
    pub initiator_public_key: [u8; 32],
    pub responder_public_key: [u8; 32],
    pub initiator_certificate: Vec<u8>,
    pub responder_certificate: Vec<u8>,
    pub session_binding: [u8; 32],
    pub authorizing_device_id: String,
    pub user_presence: String,
    pub authorized_at: u64,
    pub initiator_signature: Option<Vec<u8>>,
    pub responder_signature: Option<Vec<u8>>,
}

/// The bytes of an optional signature.
pub open spec fn signature_view(signature: Option<Vec<u8>>) -> Option<Seq<u8>> {
    match signature {
        Some(bytes) => Some(bytes@),
        None => None,
    }
}

impl View for PairingRecord {
    type V = RecordView;

    open spec fn view(&self) -> RecordView {
        RecordView {
            protocol_version: self.protocol_version,
            domain: self.domain@,
            pair_id: self.pair_id@,
            initiator_device_id: self.initiator_device_id@,
            responder_device_id: self.responder_device_id@,
            initiator_public_key: self.initiator_public_key@,
            responder_public_key: self.responder_public_key@,
            initiator_certificate: self.initiator_certificate@,
            responder_certificate: self.responder_certificate@,
            session_binding: self.session_binding@,
            authorizing_device_id: self.authorizing_device_id@,
            user_presence: self.user_presence@,
            authorized_at: self.authorized_at,
            initiator_signature: signature_view(self.initiator_signature),
            responder_signature: signature_view(self.responder_signature),
        }
    }
}

/// A copy of a byte vector.
fn copied(bytes: &Vec<u8>) -> (result: Vec<u8>)
    ensures
        result@ == bytes@,
{
    let mut out: Vec<u8> = Vec::new();
    append(&mut out, bytes.as_slice());
    assert(out@ =~= bytes@);
    out
}

/// A copy of an optional signature.
fn copied_signature(signature: &Option<Vec<u8>>) -> (result: Option<Vec<u8>>)
    ensures
        signature_view(result) == signature_view(*signature),
{
    match signature {
        Some(bytes) => Some(copied(bytes)),
        None => None,
    }
}

/// Whether two optional signatures are the same.
fn same_signature(a: &Option<Vec<u8>>, b: &Option<Vec<u8>>) -> (result: bool)
    ensures
        result == (signature_view(*a) == signature_view(*b)),
{
    match (a, b) {
        (Some(x), Some(y)) => bytes_eq(x.as_slice(), y.as_slice()),
        (None, None) => true,
        _ => false,
    }
}

impl Clone for PairingRecord {
    fn clone(&self) -> (result: Self)
        ensures
            result@ == self@,
    {
        PairingRecord {
            protocol_version: self.protocol_version,
            domain: self.domain.clone(),
            pair_id: self.pair_id.clone(),
            initiator_device_id: self.initiator_device_id.clone(),
            responder_device_id: self.responder_device_id.clone(),
            initiator_public_key: self.initiator_public_key,
            responder_public_key: self.responder_public_key,
            initiator_certificate: copied(&self.initiator_certificate),
            responder_certificate: copied(&self.responder_certificate),
            session_binding: self.session_binding,
            authorizing_device_id: self.authorizing_device_id.clone(),
            user_presence: self.user_presence.clone(),
            authorized_at: self.authorized_at,
            initiator_signature: copied_signature(&self.initiator_signature),
            responder_signature: copied_signature(&self.responder_signature),
        }
    }
}

/// Refuses a text that does not have the form of a DeviceID.
pub fn validate_device_id(device_id: &str) -> (result: Result<(), SyncError>)
    ensures
        result == (if is_id(device_id@) {
            Ok::<(), SyncError>(())
        } else {
            Err(SyncError::InvalidDeviceId)
        }),
{
    if !check_id(device_id) {
        return Err(SyncError::InvalidDeviceId);
    }
    Ok(())
}

/// Refuses a text that does not have the form of a PairID.
pub fn checked_pair_id(pair_id: &str) -> (result: Result<(), SyncError>)
    ensures
        result == (if is_id(pair_id@) {
            Ok::<(), SyncError>(())
        } else {
            Err(SyncError::InvalidPairingId)
        }),
{
    if !check_id(pair_id) {
        return Err(SyncError::InvalidPairingId);
    }
    Ok(())
}

/// Whether a user-presence marker has acceptable length.
pub fn check_marker(text: &str) -> (result: bool)
    ensures
        result == is_marker(text@),
{
    let length: usize = text.as_bytes().len();
    length != 0 && length <= MAX_MARKER_BYTES
}

/// Appends an optional signature after its name.
fn put_signature(out: &mut Vec<u8>, name: &str, signature: &Option<Vec<u8>>)
    ensures
        final(out)@ == old(out)@ + utf8(name@) + json_signature(
            match signature {
                Some(bytes) => Some(bytes@),
                None => None,
            },
        ),
{
    match signature {
        Some(bytes) => put_list(out, name, bytes.as_slice()),
        None => {
            append(out, name.as_bytes());
            append(out, "null".as_bytes());
        },
    }
}

/// A record magic is ASCII, so each character is one byte.
pub proof fn record_magic_length()
    ensures
        utf8(RECORD_MAGIC@).len() == 30,
        0 < utf8(DOMAIN@).len() <= MAX_DOMAIN_BYTES,
{
    reveal_strlit("OMARCHY-SYNC-V3-PAIRING-RECORD");
    assert(is_ascii_chars(RECORD_MAGIC@));
    is_ascii_chars_encode_utf8(RECORD_MAGIC@);
    reveal_strlit("omarchy-sync/pairing/v3");
    assert(is_ascii_chars(DOMAIN@));
    is_ascii_chars_encode_utf8(DOMAIN@);
}

/// The bytes of a record are well below the size limit.
proof fn record_length(r: RecordView)
    requires
        record_sign_error(r) is None,
        r.initiator_public_key.len() == 32,
        r.responder_public_key.len() == 32,
        r.session_binding.len() == 32,
    ensures
        record_signed(r).len() <= 1490,
{
    record_magic_length();
    be_bytes_len(utf8(r.domain).len(), 2);
    be_bytes_len(utf8(r.pair_id).len(), 2);
    be_bytes_len(r.initiator_certificate.len(), 2);
    be_bytes_len(r.responder_certificate.len(), 2);
    be_bytes_len(utf8(r.user_presence).len(), 2);
    be_bytes_len(r.authorized_at as nat, 8);
}

impl PairingRecord {
    pub fn is_complete(&self) -> (result: bool)
        ensures
            result == self@.complete(),
    {
        self.initiator_signature.is_some() && self.responder_signature.is_some()
    }

    pub fn is_pending(&self) -> (result: bool)
        ensures
            result == !self@.complete(),
    {
        !self.is_complete()
    }

    fn validate_shape(&self) -> (result: Result<(), SyncError>)
        ensures
            result == checked(record_shape_error(self@)),
    {
        checked_pair_id(self.pair_id.as_str())?;
        if !check_id(self.initiator_device_id.as_str()) || !check_id(
            self.responder_device_id.as_str(),
        ) {
            return Err(SyncError::RecordDeviceId);
        }
        let domain_length: usize = self.domain.as_str().as_bytes().len();
        if domain_length == 0 || domain_length > MAX_DOMAIN_BYTES {
            return Err(SyncError::RecordDomainLength);
        }
        validate_device_id(self.authorizing_device_id.as_str())?;
        if !check_marker(self.user_presence.as_str()) {
            return Err(SyncError::UserPresence);
        }
        if self.authorized_at == 0 {
            return Err(SyncError::AuthorizationTime);
        }
        if self.initiator_certificate.len() == 0 || self.responder_certificate.len() == 0 {
            return Err(SyncError::CertificatesRequired);
        }
        Ok(())
    }

    /// Canonical bytes signed by each identity. Field ordering and formatting
    /// cannot vary.
    pub fn signing_bytes(&self) -> (result: Result<Vec<u8>, SyncError>)
        ensures
            outcome(result) == (match record_sign_error(self@) {
                Some(error) => Err::<Seq<u8>, SyncError>(error),
                None => Ok(record_signed(self@)),
            }),
    {
        self.validate_shape()?;
        if self.initiator_certificate.len() > MAX_RECORD_CERTIFICATE_BYTES
            || self.responder_certificate.len() > MAX_RECORD_CERTIFICATE_BYTES {
            return Err(SyncError::RecordCertificateTooLarge);
        }
        let mut out: Vec<u8> = Vec::new();
        append(&mut out, RECORD_MAGIC.as_bytes());
        out.push(RECORD_SCHEMA);
        out.push(self.protocol_version);
        assert(out@ =~= utf8(RECORD_MAGIC@) + seq![RECORD_SCHEMA, self.protocol_version]);
        put_string(&mut out, self.domain.as_str(), MAX_DOMAIN_BYTES)?;
        put_string(&mut out, self.pair_id.as_str(), 32)?;
        append(&mut out, self.initiator_device_id.as_str().as_bytes());
        append(&mut out, self.responder_device_id.as_str().as_bytes());
        append(&mut out, self.initiator_public_key.as_slice());
        append(&mut out, self.responder_public_key.as_slice());
        put_bytes(&mut out, self.initiator_certificate.as_slice(), MAX_RECORD_CERTIFICATE_BYTES)?;
        put_bytes(&mut out, self.responder_certificate.as_slice(), MAX_RECORD_CERTIFICATE_BYTES)?;
        append(&mut out, self.session_binding.as_slice());
        append(&mut out, self.authorizing_device_id.as_str().as_bytes());
        put_string(&mut out, self.user_presence.as_str(), MAX_MARKER_BYTES)?;
        put_u64(&mut out, self.authorized_at);
        proof {
            record_length(self@);
        }
        if out.len() > MAX_RECORD_BYTES {
            return Err(SyncError::RecordTooLarge);
        }
        Ok(out)
    }

    /// The stored form of this record.
    pub fn to_bytes(&self) -> (result: Result<Vec<u8>, SyncError>)
        ensures
            outcome(result) == record_stored(self@),
    {
        proof {
            reveal(record_json);
        }
        let mut out: Vec<u8> = Vec::new();
        put_number(&mut out, "{\"protocol_version\":", self.protocol_version as u64);
        put_text(&mut out, ",\"domain\":", self.domain.as_str());
        put_text(&mut out, ",\"pair_id\":", self.pair_id.as_str());
        put_text(&mut out, ",\"initiator_device_id\":", self.initiator_device_id.as_str());
        put_text(&mut out, ",\"responder_device_id\":", self.responder_device_id.as_str());
        put_list(&mut out, ",\"initiator_public_key\":", self.initiator_public_key.as_slice());
        put_list(&mut out, ",\"responder_public_key\":", self.responder_public_key.as_slice());
        put_list(&mut out, ",\"initiator_certificate\":", self.initiator_certificate.as_slice());
        put_list(&mut out, ",\"responder_certificate\":", self.responder_certificate.as_slice());
        put_list(&mut out, ",\"session_binding\":", self.session_binding.as_slice());
        put_text(&mut out, ",\"authorizing_device_id\":", self.authorizing_device_id.as_str());
        put_text(&mut out, ",\"user_presence\":", self.user_presence.as_str());
        put_number(&mut out, ",\"authorized_at\":", self.authorized_at);
        put_signature(&mut out, ",\"initiator_signature\":", &self.initiator_signature);
        put_signature(&mut out, ",\"responder_signature\":", &self.responder_signature);
        append(&mut out, "}".as_bytes());
        if out.len() > MAX_RECORD_BYTES {
            return Err(SyncError::RecordTooLarge);
        }
        Ok(out)
    }

    /// Accepts the record that the caller has parsed from its stored form, if
    /// that form was a record's and within bounds.
    pub fn from_bytes(bytes: &[u8], parsed: Option<PairingRecord>) -> (result: Result<
        Self,
        SyncError,
    >)
        ensures
            outcome(result) == record_accepted(
                bytes@,
                match parsed {
                    Some(record) => Some(record@),
                    None => None,
                },
            ),
    {
        if bytes.len() > MAX_RECORD_BYTES {
            return Err(SyncError::RecordTooLarge);
        }
        match parsed {
            None => Err(SyncError::RecordMalformed),
            Some(record) => {
                record.validate_shape()?;
                Ok(record)
            },
        }
    }

    /// Whether two records are the same, signatures included.
    pub fn same_as(&self, other: &PairingRecord) -> (result: bool)
        ensures
            result == (self@ == other@),
    {
        let same: bool = self.protocol_version == other.protocol_version && self.domain
            == other.domain && self.pair_id == other.pair_id && self.initiator_device_id
            == other.initiator_device_id && self.responder_device_id == other.responder_device_id
            && bytes_eq(
            self.initiator_public_key.as_slice(),
            other.initiator_public_key.as_slice(),
        ) && bytes_eq(
            self.responder_public_key.as_slice(),
            other.responder_public_key.as_slice(),
        ) && bytes_eq(
            self.initiator_certificate.as_slice(),
            other.initiator_certificate.as_slice(),
        ) && bytes_eq(
            self.responder_certificate.as_slice(),
            other.responder_certificate.as_slice(),
        ) && bytes_eq(self.session_binding.as_slice(), other.session_binding.as_slice())
            && self.authorizing_device_id == other.authorizing_device_id && self.user_presence
            == other.user_presence && self.authorized_at == other.authorized_at && same_signature(
            &self.initiator_signature,
            &other.initiator_signature,
        ) && same_signature(&self.responder_signature, &other.responder_signature);
        assert(same ==> self@ =~= other@);
        same
    }

    /// Whether the record binds two devices, in either role.
    pub fn binds_devices(&self, a: &str, b: &str) -> (result: bool)
        ensures
            result == self@.binds(a@, b@),
    {
        (str_eq(self.initiator_device_id.as_str(), a) && str_eq(
            self.responder_device_id.as_str(),
            b,
        )) || (str_eq(self.initiator_device_id.as_str(), b) && str_eq(
            self.responder_device_id.as_str(),
            a,
        ))
    }

    /// The signature of an identity, in a role, over the record.
    pub fn sign_record(&self, identity: &DeviceIdentity, role: u8) -> (result: Result<
        [u8; 64],
        SyncError,
    >)
        ensures
            outcome(result) == (match record_sign_error(self@) {
                Some(error) => Err::<Seq<u8>, SyncError>(error),
                None => Ok(ed25519_sign(identity@, record_message(self@, role))),
            }),
            result matches Ok(signature) ==> signature@.subrange(0, 32) != neutral_point()
                ==> ed25519_verifies(
                ed25519_public(identity@),
                record_message(self@, role),
                signature@,
            ),
    {
        let mut message: Vec<u8> = self.signing_bytes()?;
        message.push(role);
        assert(message@ =~= record_message(self@, role));
        Ok(identity.sign(message.as_slice()))
    }

    /// Verifies a signature in a role over the record.
    pub fn verify_record_signature(&self, role: u8, signature: &[u8]) -> (result: Result<
        (),
        SyncError,
    >)
        ensures
            result == checked(record_signature_error(self@, role, signature@)),
    {
        if signature.len() != 64 {
            return Err(SyncError::RecordSignatureSize);
        }
        let signature_bytes: [u8; 64] = array_64(signature);
        let public_key: [u8; 32] = if role == ROLE_INITIATOR {
            self.initiator_public_key
        } else if role == ROLE_RESPONDER {
            self.responder_public_key
        } else {
            return Err(SyncError::FrameRole);
        };
        let mut message: Vec<u8> = self.signing_bytes()?;
        message.push(role);
        assert(message@ =~= record_message(self@, role));
        if !crypto::key_valid(&public_key) {
            return Err(SyncError::InvalidPublicKey);
        }
        if !crypto::verify(&public_key, message.as_slice(), &signature_bytes) {
            return Err(SyncError::RecordSignature);
        }
        Ok(())
    }

    /// Verifies the signatures that the record has.
    fn verify_signatures(&self) -> (result: Result<(), SyncError>)
        ensures
            result == checked(record_signatures_error(self@)),
    {
        match &self.initiator_signature {
            Some(signature) => {
                self.verify_record_signature(ROLE_INITIATOR, signature.as_slice())?;
            },
            None => {},
        }
        match &self.responder_signature {
            Some(signature) => {
                self.verify_record_signature(ROLE_RESPONDER, signature.as_slice())?;
            },
            None => {},
        }
        Ok(())
    }

    /// Whether there is a signature in a role.
    pub fn signature_for(&self, role: u8) -> (result: Option<&Vec<u8>>)
        ensures
            (match result {
                Some(signature) => Some(signature@),
                None => None,
            }) == self@.signature(role),
    {
        if role == ROLE_INITIATOR {
            self.initiator_signature.as_ref()
        } else {
            self.responder_signature.as_ref()
        }
    }

    /// Sets the signature in a role.
    pub fn set_signature(&mut self, role: u8, signature: [u8; 64])
        ensures
            final(self)@ == old(self)@.with_signature(role, signature@),
    {
        let mut bytes: Vec<u8> = Vec::new();
        append(&mut bytes, signature.as_slice());
        assert(bytes@ =~= signature@);
        if role == ROLE_INITIATOR {
            self.initiator_signature = Some(bytes);
        } else {
            self.responder_signature = Some(bytes);
        }
    }

    /// The two certificates in the record, verified under a root at a time.
    fn certified(&self, root: &PinnedOmarchyRoot, time: u64) -> (result: Result<
        (DeviceCertificate, DeviceCertificate),
        SyncError,
    >)
        ensures
            match result {
                Ok((initiator, responder)) => record_certified(self@, root@, time) == Ok::<
                    (CertificateView, CertificateView),
                    SyncError,
                >((initiator@, responder@)),
                Err(error) => record_certified(self@, root@, time) == Err::<
                    (CertificateView, CertificateView),
                    SyncError,
                >(error),
            },
    {
        let (initiator, responder) = self.certificates()?;
        initiator.verify(root, time)?;
        responder.verify(root, time)?;
        Ok((initiator, responder))
    }

    /// The two certificates in the record.
    pub fn certificates(&self) -> (result: Result<
        (DeviceCertificate, DeviceCertificate),
        SyncError,
    >)
        ensures
            match result {
                Ok((initiator, responder)) => record_certificates(self@) == Ok::<
                    (CertificateView, CertificateView),
                    SyncError,
                >((initiator@, responder@)),
                Err(error) => record_certificates(self@) == Err::<
                    (CertificateView, CertificateView),
                    SyncError,
                >(error),
            },
    {
        let initiator = DeviceCertificate::from_bytes(self.initiator_certificate.as_slice())?;
        let responder = DeviceCertificate::from_bytes(self.responder_certificate.as_slice())?;
        Ok((initiator, responder))
    }

    /// Whether the certificates are those of the identities that the record
    /// names.
    fn names(&self, initiator: &DeviceCertificate, responder: &DeviceCertificate) -> (result: bool)
        ensures
            result == record_identities_match(self@, initiator@, responder@),
    {
        initiator.device_id == self.initiator_device_id && bytes_eq(
            initiator.public_key.as_slice(),
            self.initiator_public_key.as_slice(),
        ) && responder.device_id == self.responder_device_id && bytes_eq(
            responder.public_key.as_slice(),
            self.responder_public_key.as_slice(),
        )
    }

    /// Whether the record is of this protocol and domain.
    fn in_protocol(&self) -> (result: bool)
        ensures
            result == (self@.protocol_version == PROTOCOL_VERSION && self@.domain == DOMAIN@),
    {
        self.protocol_version == PROTOCOL_VERSION && str_eq(self.domain.as_str(), DOMAIN)
    }

    /// Refuses a record that is not active trust under a root.
    pub fn validate_stored(&self, root: &PinnedOmarchyRoot) -> (result: Result<(), SyncError>)
        ensures
            result == checked(stored_error(self@, root@)),
    {
        self.validate_shape()?;
        if !self.in_protocol() {
            return Err(SyncError::RecordProtocol);
        }
        if !self.is_complete() {
            return Err(SyncError::ActiveIncomplete);
        }
        let (initiator, responder) = self.certified(root, self.authorized_at)?;
        if !self.names(&initiator, &responder) || self.initiator_device_id
            == self.responder_device_id {
            return Err(SyncError::StoredIdentity);
        }
        self.verify_signatures()
    }

    /// Refuses a record that is not pending state under a root.
    pub fn validate_pending_stored(&self, root: &PinnedOmarchyRoot) -> (result: Result<
        (),
        SyncError,
    >)
        ensures
            result == checked(pending_error(self@, root@)),
    {
        self.validate_shape()?;
        if !self.in_protocol() {
            return Err(SyncError::PendingProtocol);
        }
        let (initiator, responder) = self.certified(root, self.authorized_at)?;
        if !self.names(&initiator, &responder) || self.initiator_device_id
            == self.responder_device_id || (self.initiator_signature.is_none()
            && self.responder_signature.is_none()) {
            return Err(SyncError::PendingIdentity);
        }
        self.verify_signatures()
    }

    /// Refuses a record that does not belong to a session.
    pub fn validate_record(
        &self,
        session: &AuthenticatedPairingSession,
        identity: &DeviceIdentity,
        root: &PinnedOmarchyRoot,
        now: u64,
        demands: Demands,
    ) -> (result: Result<(), SyncError>)
        ensures
            result == checked(
                session_record_error(self@, session@, identity@, root@, now, demands),
            ),
    {
        self.validate_shape()?;
        if !self.in_protocol() {
            return Err(SyncError::RecordProtocol);
        }
        if demands.complete && !self.is_complete() {
            return Err(SyncError::RecordIncomplete);
        }
        let time: u64 = if demands.at_authorization {
            self.authorized_at
        } else {
            now
        };
        let (initiator, responder) = self.certified(root, time)?;
        if !self.names(&initiator, &responder) {
            return Err(SyncError::RecordIdentity);
        }
        if self.initiator_device_id == self.responder_device_id {
            return Err(SyncError::RecordRoles);
        }
        self.validate_session(session, demands.bound)?;
        if self.authorizing_device_id != self.initiator_device_id && self.authorizing_device_id
            != self.responder_device_id {
            return Err(SyncError::RecordAuthorizer);
        }
        if !str_eq(identity.device_id().as_str(), session.local_device_id()) {
            return Err(SyncError::RecordLocalIdentity);
        }
        self.verify_signatures()
    }

    /// Refuses a record whose participants are not the ends of a session.
    fn validate_session(&self, session: &AuthenticatedPairingSession, bound: bool) -> (result:
        Result<(), SyncError>)
        ensures
            result == (if (bound && session@.session_binding != self@.session_binding)
                || !record_names_session(self@, session@) {
                Err::<(), SyncError>(SyncError::RecordSession)
            } else if !record_keys_session(self@, session@) {
                Err(SyncError::RecordKeys)
            } else {
                Ok(())
            }),
    {
        let initiates: bool = session.is_initiator();
        let (local_id, peer_id) = if initiates {
            (&self.initiator_device_id, &self.responder_device_id)
        } else {
            (&self.responder_device_id, &self.initiator_device_id)
        };
        if (bound && !bytes_eq(
            session.session_binding().as_slice(),
            self.session_binding.as_slice(),
        )) || session.local_certificate().device_id != *local_id
            || session.peer_certificate().device_id != *peer_id {
            return Err(SyncError::RecordSession);
        }
        let (local_key, peer_key) = if initiates {
            (&self.initiator_public_key, &self.responder_public_key)
        } else {
            (&self.responder_public_key, &self.initiator_public_key)
        };
        if !bytes_eq(session.local_certificate().public_key.as_slice(), local_key.as_slice())
            || !bytes_eq(session.peer_certificate().public_key.as_slice(), peer_key.as_slice()) {
            return Err(SyncError::RecordKeys);
        }
        Ok(())
    }

    /// Refuses a record under the same PairID that is not the same pairing.
    pub fn ensure_same_binding(&self, new_record: &PairingRecord) -> (result: Result<
        (),
        SyncError,
    >)
        ensures
            result == checked(binding_error(self@, new_record@)),
    {
        if self.pair_id != new_record.pair_id || self.initiator_device_id
            != new_record.initiator_device_id || self.responder_device_id
            != new_record.responder_device_id || !bytes_eq(
            self.session_binding.as_slice(),
            new_record.session_binding.as_slice(),
        ) {
            return Err(SyncError::RecordConflict);
        }
        let old_bytes: Vec<u8> = self.signing_bytes()?;
        let new_bytes: Vec<u8> = new_record.signing_bytes()?;
        if !bytes_eq(old_bytes.as_slice(), new_bytes.as_slice()) {
            return Err(SyncError::RecordConflict);
        }
        Ok(())
    }
}

/// The record that a session gives rise to, not yet signed.
pub fn record_from_session(
    session: &AuthenticatedPairingSession,
    pair_id: &str,
    user_presence: &str,
    identity: &DeviceIdentity,
    authorized_at: u64,
) -> (result: Result<PairingRecord, SyncError>)
    ensures
        outcome(result) == (match session_encode_error(session@) {
            Some(error) => Err::<RecordView, SyncError>(error),
            None => Ok(
                session_record(session@, pair_id@, user_presence@, identity@, authorized_at),
            ),
        }),
{
    let (initiator, responder) = if session.is_initiator() {
        (session.local_certificate(), session.peer_certificate())
    } else {
        (session.peer_certificate(), session.local_certificate())
    };
    let initiator_certificate: Vec<u8> = initiator.to_bytes()?;
    let responder_certificate: Vec<u8> = responder.to_bytes()?;
    Ok(
        PairingRecord {
            protocol_version: PROTOCOL_VERSION,
            domain: DOMAIN.to_string(),
            pair_id: pair_id.to_string(),
            initiator_device_id: initiator.device_id.clone(),
            responder_device_id: responder.device_id.clone(),
            initiator_public_key: initiator.public_key,
            responder_public_key: responder.public_key,
            initiator_certificate,
            responder_certificate,
            session_binding: session.session_binding(),
            authorizing_device_id: identity.device_id(),
            user_presence: user_presence.to_string(),
            authorized_at,
            initiator_signature: None,
            responder_signature: None,
        },
    )
}

/// Refuses an identity that is not the local end of a session.
pub fn validate_session_identity(
    session: &AuthenticatedPairingSession,
    identity: &DeviceIdentity,
) -> (result: Result<(), SyncError>)
    ensures
        result == checked(session_identity_error(session@, identity@)),
{
    if !str_eq(identity.device_id().as_str(), session.local_device_id()) || !bytes_eq(
        identity.public_key().as_slice(),
        session.local_certificate().public_key.as_slice(),
    ) {
        return Err(SyncError::SessionIdentity);
    }
    Ok(())
}

/// The role of the local end of a session.
pub fn local_role(session: &AuthenticatedPairingSession) -> (result: u8)
    ensures
        result == (if session@.local_role == ROLE_INITIATOR {
            ROLE_INITIATOR
        } else {
            ROLE_RESPONDER
        }),
{
    if session.is_initiator() {
        ROLE_INITIATOR
    } else {
        ROLE_RESPONDER
    }
}

/// Stable domain string exposed for documentation and protocol consumers.
pub fn pairing_domain() -> (result: &'static str)
    ensures
        result@ == DOMAIN@,
{
    DOMAIN
}

/// Digest helper useful to diagnostics without exposing session secrets.
pub fn record_fingerprint(record: &PairingRecord) -> (result: Result<[u8; 32], SyncError>)
    ensures
        outcome(result) == (match record_sign_error(record@) {
            Some(error) => Err::<Seq<u8>, SyncError>(error),
            None => Ok(sha256(record_signed(record@))),
        }),
{
    let bytes: Vec<u8> = record.signing_bytes()?;
    Ok(crypto::digest(bytes.as_slice()))
}

/// A record of valid form is read back from its own stored form, if what is
/// parsed from that is the record. Nothing else is read: what does not parse,
/// has no valid form or is longer than what is stored is refused.
pub proof fn stored_record_is_read_back(record: RecordView, bytes: Seq<u8>, parsed: RecordView)
    ensures
        record_stored(record) is Ok && record_shape_error(record) is None
            ==> record_accepted(record_stored(record)->Ok_0, Some(record)) == Ok::<
            RecordView,
            SyncError,
        >(record),
        record_accepted(bytes, None) is Err,
        bytes.len() > MAX_RECORD_BYTES ==> record_accepted(bytes, Some(parsed)) is Err,
        record_accepted(bytes, Some(parsed)) is Ok ==> record_shape_error(parsed) is None
            && record_accepted(bytes, Some(parsed))->Ok_0 == parsed,
{
}

/// What a record's signatures cover determines everything in it but the
/// signatures themselves: protocol and domain, PairID, both identities and
/// certificates, the session, and who authorized it when.
pub proof fn record_binds(a: RecordView, b: RecordView)
    requires
        record_sign_error(a) is None,
        record_sign_error(b) is None,
        a.initiator_public_key.len() == 32,
        a.responder_public_key.len() == 32,
        a.session_binding.len() == 32,
        b.initiator_public_key.len() == 32,
        b.responder_public_key.len() == 32,
        b.session_binding.len() == 32,
        record_signed(a) == record_signed(b),
    ensures
        a.unsigned() == b.unsigned(),
{
    let (a1, b1) = (record_head(a), record_head(b));
    let (a2, b2) = (a1 + field(a.initiator_certificate), b1 + field(b.initiator_certificate));
    let (a3, b3) = (a2 + field(a.responder_certificate), b2 + field(b.responder_certificate));
    let (a4, b4) = (a3 + a.session_binding, b3 + b.session_binding);
    let (a5, b5) = (
        a4 + utf8(a.authorizing_device_id),
        b4 + utf8(b.authorizing_device_id),
    );
    let (a6, b6) = (a5 + field(utf8(a.user_presence)), b5 + field(utf8(b.user_presence)));
    be_bytes_len(a.authorized_at as nat, 8);
    be_bytes_len(b.authorized_at as nat, 8);
    split_tail(
        a6,
        be_bytes(a.authorized_at as nat, 8),
        b6,
        be_bytes(b.authorized_at as nat, 8),
    );
    assert(be_bound(8) == 0x1_0000_0000_0000_0000) by {
        reveal_with_fuel(be_bound, 9);
    }
    be_value_of_be_bytes(a.authorized_at as nat, 8);
    be_value_of_be_bytes(b.authorized_at as nat, 8);
    record_middle_binds(a, b);
    assert(a.unsigned() =~= b.unsigned());
}

/// The part of a record before its domain's content ends and the certificates
/// begin.
spec fn record_head(r: RecordView) -> Seq<u8> {
    utf8(RECORD_MAGIC@) + seq![RECORD_SCHEMA, r.protocol_version] + field(utf8(r.domain)) + field(
        utf8(r.pair_id),
    ) + utf8(r.initiator_device_id) + utf8(r.responder_device_id) + r.initiator_public_key
        + r.responder_public_key
}

/// Everything before the time can be read off from the front.
proof fn record_middle_binds(a: RecordView, b: RecordView)
    requires
        record_sign_error(a) is None,
        record_sign_error(b) is None,
        a.initiator_public_key.len() == 32,
        a.responder_public_key.len() == 32,
        a.session_binding.len() == 32,
        b.initiator_public_key.len() == 32,
        b.responder_public_key.len() == 32,
        b.session_binding.len() == 32,
        record_head(a) + field(a.initiator_certificate) + field(a.responder_certificate)
            + a.session_binding + utf8(a.authorizing_device_id) + field(utf8(a.user_presence))
            == record_head(b) + field(b.initiator_certificate) + field(b.responder_certificate)
            + b.session_binding + utf8(b.authorizing_device_id) + field(utf8(b.user_presence)),
    ensures
        a.protocol_version == b.protocol_version,
        a.domain == b.domain,
        a.pair_id == b.pair_id,
        a.initiator_device_id == b.initiator_device_id,
        a.responder_device_id == b.responder_device_id,
        a.initiator_public_key == b.initiator_public_key,
        a.responder_public_key == b.responder_public_key,
        a.initiator_certificate == b.initiator_certificate,
        a.responder_certificate == b.responder_certificate,
        a.session_binding == b.session_binding,
        a.authorizing_device_id == b.authorizing_device_id,
        a.user_presence == b.user_presence,
{
    let m = utf8(RECORD_MAGIC@);
    // From the back: the presence marker is a field that ends the bytes, and
    // what follows the certificates has a fixed length before it.
    let a_tail = a.session_binding + (utf8(a.authorizing_device_id) + field(
        utf8(a.user_presence),
    ));
    let b_tail = b.session_binding + (utf8(b.authorizing_device_id) + field(
        utf8(b.user_presence),
    ));
    let a_certs = field(a.initiator_certificate) + (field(a.responder_certificate) + a_tail);
    let b_certs = field(b.initiator_certificate) + (field(b.responder_certificate) + b_tail);
    let a_ids = utf8(a.initiator_device_id) + (utf8(a.responder_device_id) + (
    a.initiator_public_key + (a.responder_public_key + a_certs)));
    let b_ids = utf8(b.initiator_device_id) + (utf8(b.responder_device_id) + (
    b.initiator_public_key + (b.responder_public_key + b_certs)));
    let a_fields = field(utf8(a.domain)) + (field(utf8(a.pair_id)) + a_ids);
    let b_fields = field(utf8(b.domain)) + (field(utf8(b.pair_id)) + b_ids);
    let a_all = (m + seq![RECORD_SCHEMA, a.protocol_version]) + a_fields;
    let b_all = (m + seq![RECORD_SCHEMA, b.protocol_version]) + b_fields;
    record_regroups(a);
    record_regroups(b);
    split_front(
        m + seq![RECORD_SCHEMA, a.protocol_version],
        a_fields,
        m + seq![RECORD_SCHEMA, b.protocol_version],
        b_fields,
    );
    split_tail(
        m,
        seq![RECORD_SCHEMA, a.protocol_version],
        m,
        seq![RECORD_SCHEMA, b.protocol_version],
    );
    assert(seq![RECORD_SCHEMA, a.protocol_version][1] == seq![
        RECORD_SCHEMA,
        b.protocol_version,
    ][1]);
    split_field(
        utf8(a.domain),
        field(utf8(a.pair_id)) + a_ids,
        utf8(b.domain),
        field(utf8(b.pair_id)) + b_ids,
    );
    utf8_injective(a.domain, b.domain);
    split_field(utf8(a.pair_id), a_ids, utf8(b.pair_id), b_ids);
    utf8_injective(a.pair_id, b.pair_id);
    record_ids_bind(a, a_certs, b, b_certs);
    split_field(
        a.initiator_certificate,
        field(a.responder_certificate) + a_tail,
        b.initiator_certificate,
        field(b.responder_certificate) + b_tail,
    );
    split_field(a.responder_certificate, a_tail, b.responder_certificate, b_tail);
    split_front(
        a.session_binding,
        utf8(a.authorizing_device_id) + field(utf8(a.user_presence)),
        b.session_binding,
        utf8(b.authorizing_device_id) + field(utf8(b.user_presence)),
    );
    split_front(
        utf8(a.authorizing_device_id),
        field(utf8(a.user_presence)),
        utf8(b.authorizing_device_id),
        field(utf8(b.user_presence)),
    );
    utf8_injective(a.authorizing_device_id, b.authorizing_device_id);
    assert(field(utf8(a.user_presence)) + Seq::<u8>::empty() =~= field(utf8(a.user_presence)));
    assert(field(utf8(b.user_presence)) + Seq::<u8>::empty() =~= field(utf8(b.user_presence)));
    split_field(utf8(a.user_presence), Seq::empty(), utf8(b.user_presence), Seq::empty());
    utf8_injective(a.user_presence, b.user_presence);
}

/// The parts of a record before the time, grouped from the back.
proof fn record_regroups(r: RecordView)
    ensures
        record_head(r) + field(r.initiator_certificate) + field(r.responder_certificate)
            + r.session_binding + utf8(r.authorizing_device_id) + field(utf8(r.user_presence)) == (
        utf8(RECORD_MAGIC@) + seq![RECORD_SCHEMA, r.protocol_version]) + (field(utf8(r.domain)) + (
        field(utf8(r.pair_id)) + (utf8(r.initiator_device_id) + (utf8(r.responder_device_id) + (
        r.initiator_public_key + (r.responder_public_key + (field(r.initiator_certificate) + (
        field(r.responder_certificate) + (r.session_binding + (utf8(r.authorizing_device_id)
            + field(utf8(r.user_presence)))))))))))),
{
    let start = utf8(RECORD_MAGIC@) + seq![RECORD_SCHEMA, r.protocol_version];
    let (d, p) = (field(utf8(r.domain)), field(utf8(r.pair_id)));
    let (i, s) = (utf8(r.initiator_device_id), utf8(r.responder_device_id));
    let (k, l) = (r.initiator_public_key, r.responder_public_key);
    let (c, e) = (field(r.initiator_certificate), field(r.responder_certificate));
    let (b, g, u) = (
        r.session_binding,
        utf8(r.authorizing_device_id),
        field(utf8(r.user_presence)),
    );
    let h = record_head(r);
    regroup(h + c + e + b, g, u);
    regroup(h + c + e, b, g + u);
    regroup(h + c, e, b + (g + u));
    regroup(h, c, e + (b + (g + u)));
    let t = c + (e + (b + (g + u)));
    regroup(start + d + p + i + s + k, l, t);
    regroup(start + d + p + i + s, k, l + t);
    regroup(start + d + p + i, s, k + (l + t));
    regroup(start + d + p, i, s + (k + (l + t)));
    regroup(start + d, p, i + (s + (k + (l + t))));
    regroup(start, d, p + (i + (s + (k + (l + t)))));
}

/// The identities of a record can be read off from the front.
proof fn record_ids_bind(a: RecordView, a_rest: Seq<u8>, b: RecordView, b_rest: Seq<u8>)
    requires
        is_id(a.initiator_device_id),
        is_id(a.responder_device_id),
        is_id(b.initiator_device_id),
        is_id(b.responder_device_id),
        a.initiator_public_key.len() == 32,
        a.responder_public_key.len() == 32,
        b.initiator_public_key.len() == 32,
        b.responder_public_key.len() == 32,
        utf8(a.initiator_device_id) + (utf8(a.responder_device_id) + (a.initiator_public_key + (
        a.responder_public_key + a_rest))) == utf8(b.initiator_device_id) + (utf8(
            b.responder_device_id,
        ) + (b.initiator_public_key + (b.responder_public_key + b_rest))),
    ensures
        a.initiator_device_id == b.initiator_device_id,
        a.responder_device_id == b.responder_device_id,
        a.initiator_public_key == b.initiator_public_key,
        a.responder_public_key == b.responder_public_key,
        a_rest == b_rest,
{
    let (a3, b3) = (a.responder_public_key + a_rest, b.responder_public_key + b_rest);
    let (a2, b2) = (a.initiator_public_key + a3, b.initiator_public_key + b3);
    let (a1, b1) = (utf8(a.responder_device_id) + a2, utf8(b.responder_device_id) + b2);
    split_front(utf8(a.initiator_device_id), a1, utf8(b.initiator_device_id), b1);
    split_front(utf8(a.responder_device_id), a2, utf8(b.responder_device_id), b2);
    split_front(a.initiator_public_key, a3, b.initiator_public_key, b3);
    split_front(a.responder_public_key, a_rest, b.responder_public_key, b_rest);
    utf8_injective(a.initiator_device_id, b.initiator_device_id);
    utf8_injective(a.responder_device_id, b.responder_device_id);
}

} // verus!
