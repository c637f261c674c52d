//! What the two ends of a pairing prove to each other: the transcript they
//! sign, the certificates they present, and the pins of a known peer.
use crate::codec::{
    append, be_bytes_len, field, put_bytes, read_field, read_field_of_field, regroup,
    split_field, split_front, split_tail, text_from_utf8, utf8, utf8_injective, Cursor,
};
use crate::crypto;
use crate::crypto::{
    ed25519_key_valid, ed25519_public, ed25519_sign, ed25519_verifies, neutral_point, sha256,
};
use crate::error::{checked, outcome, SyncError};
use crate::frames::{ROLE_INITIATOR, ROLE_RESPONDER};
use crate::identity::{device_id_of, DeviceIdentity};
use crate::protocol_v3::{
    certificate_bytes, certificate_error, certificate_length, certificate_parsed,
    certificate_round_trip, certificate_shape_error, CertificateView, DeviceCertificate,
    PinnedOmarchyRoot, RootView, MAX_CERTIFICATE_BYTES, PROTOCOL_VERSION,
};
use crate::text::{array_32, array_64, bytes_eq, is_id};
use vstd::prelude::*;
use vstd::utf8::*;

verus! {

pub const TRANSCRIPT_MAGIC: &'static str = "OMARCHY-SYNC-V3-PAIRING-TRANSCRIPT";

pub const SIGNATURE_MAGIC: &'static str = "OMARCHY-SYNC-V3-PAIRING-SIGNATURE";

pub const AUTH_MAGIC: &'static str = "OMARCHY-AUTH-V3";

pub const ACK_MAGIC: &'static str = "OMARCHY-AUTH-ACK-V3";

pub const ED25519_SIGNATURE_BYTES: usize = 64;

/// The magic texts are ASCII, so each character is one byte.
pub proof fn auth_magic_lengths()
    ensures
        utf8(TRANSCRIPT_MAGIC@).len() == 34,
        utf8(SIGNATURE_MAGIC@).len() == 33,
        utf8(AUTH_MAGIC@).len() == 15,
        utf8(ACK_MAGIC@).len() == 19,
{
    reveal_strlit("OMARCHY-SYNC-V3-PAIRING-TRANSCRIPT");
    assert(is_ascii_chars(TRANSCRIPT_MAGIC@));
    is_ascii_chars_encode_utf8(TRANSCRIPT_MAGIC@);
    reveal_strlit("OMARCHY-SYNC-V3-PAIRING-SIGNATURE");
    assert(is_ascii_chars(SIGNATURE_MAGIC@));
    is_ascii_chars_encode_utf8(SIGNATURE_MAGIC@);
    reveal_strlit("OMARCHY-AUTH-V3");
    assert(is_ascii_chars(AUTH_MAGIC@));
    is_ascii_chars_encode_utf8(AUTH_MAGIC@);
    reveal_strlit("OMARCHY-AUTH-ACK-V3");
    assert(is_ascii_chars(ACK_MAGIC@));
    is_ascii_chars_encode_utf8(ACK_MAGIC@);
}

// ---------------------------------------------------------------------------
// The transcript.
// ---------------------------------------------------------------------------
/// What both ends must agree on: the Noise handshake, the mode and PairID, both
/// certificates and both Noise static keys.
#[verifier::ext_equal]
pub struct TranscriptView {
    pub hash: Seq<u8>,
    pub mode: u8,
    pub pair_id: Seq<char>,
    pub initiator_certificate: CertificateView,
    pub responder_certificate: CertificateView,
    pub initiator_static: Seq<u8>,
    pub responder_static: Seq<u8>,
}

/// The bytes of a transcript.
pub open spec fn transcript_bytes(t: TranscriptView) -> Seq<u8> {
    utf8(TRANSCRIPT_MAGIC@) + seq![PROTOCOL_VERSION, t.mode] + field(utf8(t.pair_id)) + field(
        t.hash,
    ) + seq![ROLE_INITIATOR, ROLE_RESPONDER] + utf8(t.initiator_certificate.device_id) + utf8(
        t.responder_certificate.device_id,
    ) + field(certificate_bytes(t.initiator_certificate)) + field(
        certificate_bytes(t.responder_certificate),
    ) + t.initiator_static + t.responder_static
}

/// The outcome of encoding a transcript.
pub open spec fn transcript_encoded(t: TranscriptView) -> Result<Seq<u8>, SyncError> {
    match certificate_shape_error(t.initiator_certificate) {
        Some(error) => Err(error),
        None => match certificate_shape_error(t.responder_certificate) {
            Some(error) => Err(error),
            None => if 0 < utf8(t.pair_id).len() <= 32 {
                Ok(transcript_bytes(t))
            } else {
                Err(SyncError::FieldLength)
            },
        },
    }
}

/// The message that an end signs: the transcript and its own role.
pub open spec fn signature_message(transcript: Seq<u8>, role: u8) -> Seq<u8> {
    utf8(SIGNATURE_MAGIC@) + transcript + seq![role]
}

/// Encodes the transcript that both identities sign.
pub fn make_transcript(
    hash: &[u8; 32],
    mode: u8,
    pair_id: &str,
    initiator_cert: &DeviceCertificate,
    responder_cert: &DeviceCertificate,
    initiator_static: &[u8; 32],
    responder_static: &[u8; 32],
) -> (result: Result<Vec<u8>, SyncError>)
    ensures
        outcome(result) == transcript_encoded(
            TranscriptView {
                hash: hash@,
                mode,
                pair_id: pair_id@,
                initiator_certificate: initiator_cert@,
                responder_certificate: responder_cert@,
                initiator_static: initiator_static@,
                responder_static: responder_static@,
            },
        ),
{
    let initiator_cert_bytes: Vec<u8> = initiator_cert.to_bytes()?;
    let responder_cert_bytes: Vec<u8> = responder_cert.to_bytes()?;
    let mut out: Vec<u8> = Vec::new();
    append(&mut out, TRANSCRIPT_MAGIC.as_bytes());
    out.push(PROTOCOL_VERSION);
    out.push(mode);
    assert(out@ =~= utf8(TRANSCRIPT_MAGIC@) + seq![PROTOCOL_VERSION, mode]);
    put_bytes(&mut out, pair_id.as_bytes(), 32)?;
    put_bytes(&mut out, hash.as_slice(), 32)?;
    let ghost head = out@;
    out.push(ROLE_INITIATOR);
    out.push(ROLE_RESPONDER);
    assert(out@ =~= head + seq![ROLE_INITIATOR, ROLE_RESPONDER]);
    append(&mut out, initiator_cert.device_id.as_str().as_bytes());
    append(&mut out, responder_cert.device_id.as_str().as_bytes());
    put_bytes(&mut out, initiator_cert_bytes.as_slice(), MAX_CERTIFICATE_BYTES)?;
    put_bytes(&mut out, responder_cert_bytes.as_slice(), MAX_CERTIFICATE_BYTES)?;
    append(&mut out, initiator_static.as_slice());
    append(&mut out, responder_static.as_slice());
    Ok(out)
}

/// The digest of a transcript, to which a session is bound.
pub fn digest_transcript(transcript: &[u8]) -> (result: [u8; 32])
    ensures
        result@ == sha256(transcript@),
{
    crypto::digest(transcript)
}

/// The message that an end signs.
fn signing_message(transcript: &[u8], role: u8) -> (result: Vec<u8>)
    ensures
        result@ == signature_message(transcript@, role),
{
    let mut message: Vec<u8> = Vec::new();
    append(&mut message, SIGNATURE_MAGIC.as_bytes());
    append(&mut message, transcript);
    message.push(role);
    assert(message@ =~= signature_message(transcript@, role));
    message
}

/// The signature of an identity, in a role, over a transcript.
pub fn signed_auth_payload(identity: &DeviceIdentity, transcript: &[u8], role: u8) -> (result: Vec<
    u8,
>)
    ensures
        result@ == ed25519_sign(identity@, signature_message(transcript@, role)),
        result@.len() == 64,
        result@.subrange(0, 32) != neutral_point() ==> ed25519_verifies(
            ed25519_public(identity@),
            signature_message(transcript@, role),
            result@,
        ),
{
    let message: Vec<u8> = signing_message(transcript, role);
    let signature: [u8; 64] = identity.sign(message.as_slice());
    let mut out: Vec<u8> = Vec::new();
    append(&mut out, signature.as_slice());
    assert(out@ =~= signature@);
    out
}

// ---------------------------------------------------------------------------
// Presenting a certificate.
// ---------------------------------------------------------------------------
/// The payload with which an end presents its certificate.
pub open spec fn hello_bytes(c: CertificateView) -> Seq<u8> {
    utf8(AUTH_MAGIC@) + seq![PROTOCOL_VERSION] + utf8(c.device_id) + c.public_key + field(
        certificate_bytes(c),
    )
}

/// The outcome of encoding a hello.
pub open spec fn hello_encoded(c: CertificateView) -> Result<Seq<u8>, SyncError> {
    match certificate_shape_error(c) {
        Some(error) => Err(error),
        None => Ok(hello_bytes(c)),
    }
}

/// What an authentication payload says: a certificate, the key and DeviceID it
/// is presented for, and a signature where the payload is a proof.
#[verifier::ext_equal]
pub struct AuthView {
    pub certificate: CertificateView,
    pub public_key: Seq<u8>,
    pub device_id: Seq<char>,
    pub signature: Option<Seq<u8>>,
}

/// What an authentication payload says.
pub open spec fn auth_parsed(b: Seq<u8>) -> Result<AuthView, SyncError> {
    if b.len() < 15 {
        Err(SyncError::Truncated)
    } else if b.subrange(0, 15) != utf8(AUTH_MAGIC@) {
        Err(SyncError::AuthPayload)
    } else if b.len() < 16 {
        Err(SyncError::Truncated)
    } else if b[15] != PROTOCOL_VERSION {
        Err(SyncError::AuthPayload)
    } else if b.len() < 48 {
        Err(SyncError::Truncated)
    } else if !valid_utf8(b.subrange(16, 48)) {
        Err(SyncError::AuthPeerId)
    } else if b.len() < 80 {
        Err(SyncError::Truncated)
    } else {
        match read_field(b, 80, MAX_CERTIFICATE_BYTES as int) {
            Err(error) => Err(error),
            Ok((cert, p)) => match certificate_parsed(cert) {
                Err(error) => Err(error),
                Ok(certificate) => if b.len() == p || b.len() == p + 64 {
                    Ok(
                        AuthView {
                            certificate,
                            public_key: b.subrange(48, 80),
                            device_id: decode_utf8(b.subrange(16, 48)),
                            signature: if b.len() == p {
                                None
                            } else {
                                Some(b.subrange(p, p + 64))
                            },
                        },
                    )
                } else {
                    Err(SyncError::TrailingBytes)
                },
            },
        }
    }
}

/// Encodes the payload with which an end presents its certificate.
pub fn auth_hello(cert: &DeviceCertificate) -> (result: Result<Vec<u8>, SyncError>)
    ensures
        outcome(result) == hello_encoded(cert@),
        result matches Ok(bytes) ==> bytes@.len() <= 374,
{
    let bytes: Vec<u8> = cert.to_bytes()?;
    let mut out: Vec<u8> = Vec::new();
    append(&mut out, AUTH_MAGIC.as_bytes());
    out.push(PROTOCOL_VERSION);
    proof {
        certificate_round_trip(cert@);
        certificate_length(cert@);
        auth_magic_lengths();
        be_bytes_len(bytes@.len(), 2);
    }
    let parsed = DeviceCertificate::from_bytes(bytes.as_slice())?;
    append(&mut out, parsed.device_id.as_str().as_bytes());
    append(&mut out, parsed.public_key.as_slice());
    put_bytes(&mut out, bytes.as_slice(), MAX_CERTIFICATE_BYTES)?;
    assert(out@ =~= hello_bytes(cert@));
    Ok(out)
}

/// Encodes the payload with which an end presents its certificate and its
/// signature over the transcript.
pub fn auth_proof(
    cert: &DeviceCertificate,
    identity: &DeviceIdentity,
    transcript: &[u8],
    role: u8,
) -> (result: Result<Vec<u8>, SyncError>)
    ensures
        outcome(result) == (match hello_encoded(cert@) {
            Err(error) => Err::<Seq<u8>, SyncError>(error),
            Ok(hello) => Ok(
                hello + ed25519_sign(identity@, signature_message(transcript@, role)),
            ),
        }),
        result matches Ok(bytes) ==> bytes@.len() <= 438,
{
    let mut out: Vec<u8> = auth_hello(cert)?;
    let signature: Vec<u8> = signed_auth_payload(identity, transcript, role);
    append(&mut out, signature.as_slice());
    Ok(out)
}

/// The fields of an authentication payload: certificate, presented key and
/// DeviceID, and the signature if there is one.
pub fn parse_auth(payload: &[u8]) -> (result: Result<PeerAuth, SyncError>)
    ensures
        match result {
            Ok(peer) => auth_parsed(payload@) == Ok::<AuthView, SyncError>(peer@),
            Err(error) => auth_parsed(payload@) == Err::<AuthView, SyncError>(error),
        },
{
    proof {
        auth_magic_lengths();
    }
    let mut c = Cursor::new(payload);
    let magic = c.take(15)?;
    if !bytes_eq(magic, AUTH_MAGIC.as_bytes()) {
        return Err(SyncError::AuthPayload);
    }
    let version: u8 = c.u8()?;
    if version != PROTOCOL_VERSION {
        return Err(SyncError::AuthPayload);
    }
    let device_id = match text_from_utf8(c.take(32)?) {
        Some(text) => text,
        None => {
            return Err(SyncError::AuthPeerId);
        },
    };
    let public_key: [u8; 32] = array_32(c.take(32)?);
    let certificate = DeviceCertificate::from_bytes(c.bytes(MAX_CERTIFICATE_BYTES)?)?;
    let signature: Option<[u8; 64]> = if c.remaining() == ED25519_SIGNATURE_BYTES {
        Some(array_64(c.take(64)?))
    } else {
        None
    };
    c.finish()?;
    Ok(PeerAuth { device_id, public_key, certificate, signature })
}

// ---------------------------------------------------------------------------
// The peer.
// ---------------------------------------------------------------------------
/// A peer that presented its certificate.
pub struct PeerAuth {
    pub device_id: String,
    pub public_key: [u8; 32],
    pub certificate: DeviceCertificate,
    pub signature: Option<[u8; 64]>,
}

impl View for PeerAuth {
    type V = AuthView;

    open spec fn view(&self) -> AuthView {
        AuthView {
            certificate: self.certificate@,
            public_key: self.public_key@,
            device_id: self.device_id@,
            signature: match self.signature {
                Some(signature) => Some(signature@),
                None => None,
            },
        }
    }
}

impl Clone for PeerAuth {
    fn clone(&self) -> (result: Self)
        ensures
            result@ == self@,
    {
        PeerAuth {
            device_id: self.device_id.clone(),
            public_key: self.public_key,
            certificate: self.certificate.clone(),
            signature: self.signature,
        }
    }
}

/// The peer that an authentication payload introduces under a pinned root. A
/// proof must carry a signature and a hello must not.
pub open spec fn current_peer(b: Seq<u8>, root: RootView, now: u64, signed: bool) -> Result<
    AuthView,
    SyncError,
> {
    match auth_parsed(b) {
        Err(error) => Err(error),
        Ok(a) => if !signed && a.signature is Some {
            Err(SyncError::AuthHelloSigned)
        } else if signed && a.signature is None {
            Err(SyncError::AuthProofUnsigned)
        } else {
            match certificate_error(a.certificate, root, now) {
                Some(error) => Err(error),
                None => if a.certificate.device_id != a.device_id || a.certificate.public_key
                    != a.public_key {
                    Err(SyncError::PeerMismatch)
                } else {
                    Ok(a)
                },
            }
        },
    }
}

/// The peer that a hello introduces.
pub fn parse_auth_hello(payload: &[u8], root: &PinnedOmarchyRoot, now: u64) -> (result: Result<
    PeerAuth,
    SyncError,
>)
    ensures
        outcome(result) == current_peer(payload@, root@, now, false),
{
    let peer = parse_auth(payload)?;
    if peer.signature.is_some() {
        return Err(SyncError::AuthHelloSigned);
    }
    peer.certificate.verify(root, now)?;
    if peer.certificate.device_id != peer.device_id || !bytes_eq(
        peer.certificate.public_key.as_slice(),
        peer.public_key.as_slice(),
    ) {
        return Err(SyncError::PeerMismatch);
    }
    Ok(peer)
}

/// The peer that a proof introduces.
pub fn parse_auth_proof(payload: &[u8], root: &PinnedOmarchyRoot, now: u64) -> (result: Result<
    PeerAuth,
    SyncError,
>)
    ensures
        outcome(result) == current_peer(payload@, root@, now, true),
{
    let peer = parse_auth(payload)?;
    if peer.signature.is_none() {
        return Err(SyncError::AuthProofUnsigned);
    }
    peer.certificate.verify(root, now)?;
    if peer.certificate.device_id != peer.device_id || !bytes_eq(
        peer.certificate.public_key.as_slice(),
        peer.public_key.as_slice(),
    ) {
        return Err(SyncError::PeerMismatch);
    }
    Ok(peer)
}

/// Why a peer's signature in a role over a transcript is not accepted.
pub open spec fn signature_error(
    public_key: Seq<u8>,
    transcript: Seq<u8>,
    role: u8,
    signature: Seq<u8>,
) -> Option<SyncError> {
    if !ed25519_key_valid(public_key) {
        Some(SyncError::InvalidPublicKey)
    } else if !ed25519_verifies(public_key, signature_message(transcript, role), signature) {
        Some(SyncError::PeerSignature)
    } else {
        None
    }
}

/// Verifies the signature that a peer presented with its certificate.
pub fn verify_signature(peer: &PeerAuth, transcript: &[u8], role: u8) -> (result: Result<
    (),
    SyncError,
>)
    ensures
        result == (match peer@.signature {
            None => Err::<(), SyncError>(SyncError::PeerSignatureMissing),
            Some(signature) => checked(
                signature_error(peer@.public_key, transcript@, role, signature),
            ),
        }),
{
    let signature: [u8; 64] = match peer.signature {
        Some(signature) => signature,
        None => {
            return Err(SyncError::PeerSignatureMissing);
        },
    };
    verify_peer_signature(&peer.public_key, transcript, role, &signature)
}

/// Verifies the signature that a peer sent by itself.
pub fn verify_signature_payload(
    peer: &PeerAuth,
    transcript: &[u8],
    role: u8,
    payload: &[u8],
) -> (result: Result<(), SyncError>)
    ensures
        result == (if payload@.len() != 64 {
            Err::<(), SyncError>(SyncError::SignatureSize)
        } else {
            checked(signature_error(peer@.public_key, transcript@, role, payload@))
        }),
{
    if payload.len() != ED25519_SIGNATURE_BYTES {
        return Err(SyncError::SignatureSize);
    }
    let signature: [u8; 64] = array_64(payload);
    verify_peer_signature(&peer.public_key, transcript, role, &signature)
}

/// Verifies a signature in a role over a transcript.
fn verify_peer_signature(
    public_key: &[u8; 32],
    transcript: &[u8],
    role: u8,
    signature: &[u8; 64],
) -> (result: Result<(), SyncError>)
    ensures
        result == checked(signature_error(public_key@, transcript@, role, signature@)),
{
    if !crypto::key_valid(public_key) {
        return Err(SyncError::InvalidPublicKey);
    }
    let message: Vec<u8> = signing_message(transcript, role);
    if !crypto::verify(public_key, message.as_slice(), signature) {
        return Err(SyncError::PeerSignature);
    }
    Ok(())
}

// ---------------------------------------------------------------------------
// The pins of an established pairing.
// ---------------------------------------------------------------------------
/// Both participants of an established pairing.
#[verifier::ext_equal]
pub struct ContextView {
    pub pair_id: Seq<char>,
    pub initiator_device_id: Seq<char>,
    pub responder_device_id: Seq<char>,
    pub initiator_public_key: Seq<u8>,
    pub responder_public_key: Seq<u8>,
    pub initiator_certificate: CertificateView,
    pub responder_certificate: CertificateView,
}

impl ContextView {
    /// The two participants differ, and each certificate belongs to its
    /// participant.
    pub open spec fn consistent(self) -> bool {
        &&& self.initiator_device_id != self.responder_device_id
        &&& self.initiator_certificate.device_id == self.initiator_device_id
        &&& self.responder_certificate.device_id == self.responder_device_id
        &&& self.initiator_certificate.public_key == self.initiator_public_key
        &&& self.responder_certificate.public_key == self.responder_public_key
    }

    /// The role in which an identity takes part.
    pub open spec fn role_of(self, secret: Seq<u8>) -> Option<u8> {
        let key = ed25519_public(secret);
        let id = device_id_of(key);
        if id == self.initiator_device_id && key == self.initiator_public_key {
            Some(ROLE_INITIATOR)
        } else if id == self.responder_device_id && key == self.responder_public_key {
            Some(ROLE_RESPONDER)
        } else {
            None
        }
    }

    /// The DeviceID of the participant in a role.
    pub open spec fn device_id(self, role: u8) -> Seq<char> {
        if role == ROLE_INITIATOR {
            self.initiator_device_id
        } else {
            self.responder_device_id
        }
    }

    /// The key of the participant in a role.
    pub open spec fn public_key(self, role: u8) -> Seq<u8> {
        if role == ROLE_INITIATOR {
            self.initiator_public_key
        } else {
            self.responder_public_key
        }
    }

    /// The certificate of the participant in a role.
    pub open spec fn certificate(self, role: u8) -> CertificateView {
        if role == ROLE_INITIATOR {
            self.initiator_certificate
        } else {
            self.responder_certificate
        }
    }

    /// The DeviceID of the participant that is not in a role.
    pub open spec fn peer_device_id(self, role: u8) -> Seq<char> {
        if role == ROLE_INITIATOR {
            self.responder_device_id
        } else {
            self.initiator_device_id
        }
    }
}

/// Validated identity pins for a previously active bilateral pairing.
///
/// The trust store creates it only after validating the complete record and
/// both signatures at the record's authorization time. It is deliberately
/// independent of the current enrollment-certificate validity window: the
/// paired transport authenticates the pinned identities directly.
pub struct PairedIdentityContext {
    pair_id: String,
    initiator_device_id: String,
    responder_device_id: String,
    initiator_public_key: [u8; 32],
    responder_public_key: [u8; 32],
    initiator_certificate: DeviceCertificate,
    responder_certificate: DeviceCertificate,
}

impl View for PairedIdentityContext {
    type V = ContextView;

    closed spec fn view(&self) -> ContextView {
        ContextView {
            pair_id: self.pair_id@,
            initiator_device_id: self.initiator_device_id@,
            responder_device_id: self.responder_device_id@,
            initiator_public_key: self.initiator_public_key@,
            responder_public_key: self.responder_public_key@,
            initiator_certificate: self.initiator_certificate@,
            responder_certificate: self.responder_certificate@,
        }
    }
}

impl Clone for PairedIdentityContext {
    fn clone(&self) -> (result: Self)
        ensures
            result@ == self@,
    {
        PairedIdentityContext {
            pair_id: self.pair_id.clone(),
            initiator_device_id: self.initiator_device_id.clone(),
            responder_device_id: self.responder_device_id.clone(),
            initiator_public_key: self.initiator_public_key,
            responder_public_key: self.responder_public_key,
            initiator_certificate: self.initiator_certificate.clone(),
            responder_certificate: self.responder_certificate.clone(),
        }
    }
}

impl PairedIdentityContext {
    pub fn pair_id(&self) -> (result: &str)
        ensures
            result@ == self@.pair_id,
    {
        self.pair_id.as_str()
    }

    /// The pins of a record that the trust store has validated.
    pub(crate) fn from_validated_record(
        pair_id: String,
        initiator_device_id: String,
        responder_device_id: String,
        initiator_public_key: [u8; 32],
        responder_public_key: [u8; 32],
        initiator_certificate: DeviceCertificate,
        responder_certificate: DeviceCertificate,
    ) -> (result: Result<Self, SyncError>)
        ensures
            ({
                let c = ContextView {
                    pair_id: pair_id@,
                    initiator_device_id: initiator_device_id@,
                    responder_device_id: responder_device_id@,
                    initiator_public_key: initiator_public_key@,
                    responder_public_key: responder_public_key@,
                    initiator_certificate: initiator_certificate@,
                    responder_certificate: responder_certificate@,
                };
                outcome(result) == (if c.consistent() {
                    Ok::<ContextView, SyncError>(c)
                } else {
                    Err(SyncError::PairedContextMismatch)
                })
            }),
    {
        if initiator_device_id == responder_device_id || initiator_certificate.device_id
            != initiator_device_id || responder_certificate.device_id != responder_device_id
            || !bytes_eq(
            initiator_certificate.public_key.as_slice(),
            initiator_public_key.as_slice(),
        ) || !bytes_eq(
            responder_certificate.public_key.as_slice(),
            responder_public_key.as_slice(),
        ) {
            return Err(SyncError::PairedContextMismatch);
        }
        Ok(
            PairedIdentityContext {
                pair_id,
                initiator_device_id,
                responder_device_id,
                initiator_public_key,
                responder_public_key,
                initiator_certificate,
                responder_certificate,
            },
        )
    }

    /// The role in which an identity takes part in the pairing.
    pub fn role_for(&self, identity: &DeviceIdentity) -> (result: Result<u8, SyncError>)
        ensures
            result == (match self@.role_of(identity@) {
                Some(role) => Ok::<u8, SyncError>(role),
                None => Err(SyncError::NotParticipant),
            }),
    {
        let id = identity.device_id();
        let key: [u8; 32] = identity.public_key();
        if id == self.initiator_device_id && bytes_eq(
            key.as_slice(),
            self.initiator_public_key.as_slice(),
        ) {
            Ok(ROLE_INITIATOR)
        } else if id == self.responder_device_id && bytes_eq(
            key.as_slice(),
            self.responder_public_key.as_slice(),
        ) {
            Ok(ROLE_RESPONDER)
        } else {
            Err(SyncError::NotParticipant)
        }
    }

    /// The certificate of the participant in a role.
    pub fn local_certificate(&self, role: u8) -> (result: DeviceCertificate)
        ensures
            result@ == self@.certificate(role),
    {
        if role == ROLE_INITIATOR {
            self.initiator_certificate.clone()
        } else {
            self.responder_certificate.clone()
        }
    }

    /// The DeviceID of the participant that is not in a role.
    pub fn peer_device_id(&self, role: u8) -> (result: &str)
        ensures
            result@ == self@.peer_device_id(role),
    {
        if role == ROLE_INITIATOR {
            self.responder_device_id.as_str()
        } else {
            self.initiator_device_id.as_str()
        }
    }

    /// The DeviceID, key and certificate of the participant in a role.
    pub fn identity_for_role(&self, role: u8) -> (result: (&str, &[u8; 32], &DeviceCertificate))
        ensures
            result.0@ == self@.device_id(role),
            result.1@ == self@.public_key(role),
            result.2@ == self@.certificate(role),
    {
        if role == ROLE_INITIATOR {
            (
                self.initiator_device_id.as_str(),
                &self.initiator_public_key,
                &self.initiator_certificate,
            )
        } else {
            (
                self.responder_device_id.as_str(),
                &self.responder_public_key,
                &self.responder_certificate,
            )
        }
    }
}

/// The peer that an authentication payload introduces in an established
/// pairing: it must present exactly the pinned identity.
pub open spec fn pinned_peer(b: Seq<u8>, context: ContextView, role: u8, signed: bool) -> Result<
    AuthView,
    SyncError,
> {
    match auth_parsed(b) {
        Err(error) => Err(error),
        Ok(a) => if (a.signature is Some) != signed {
            Err(SyncError::ReconnectSignatureState)
        } else if a.device_id != context.device_id(role) || a.public_key != context.public_key(role)
            || a.certificate != context.certificate(role) {
            Err(SyncError::ReconnectIdentity)
        } else {
            Ok(a)
        },
    }
}

/// Parses a reconnect authentication message against the exact identity pins
/// of an active pairing. The stored certificate is compared field for field and
/// is intentionally not revalidated at the current time.
pub fn parse_paired_auth(
    payload: &[u8],
    context: &PairedIdentityContext,
    role: u8,
    require_signature: bool,
) -> (result: Result<PeerAuth, SyncError>)
    ensures
        outcome(result) == pinned_peer(payload@, context@, role, require_signature),
{
    let peer = parse_auth(payload)?;
    if peer.signature.is_some() != require_signature {
        return Err(SyncError::ReconnectSignatureState);
    }
    let (expected_id, expected_key, expected_cert) = context.identity_for_role(role);
    if !crate::text::str_eq(peer.device_id.as_str(), expected_id) || !bytes_eq(
        peer.public_key.as_slice(),
        expected_key.as_slice(),
    ) || !peer.certificate.same_as(expected_cert) {
        return Err(SyncError::ReconnectIdentity);
    }
    Ok(peer)
}

// ---------------------------------------------------------------------------
// What signatures and payloads bind.
// ---------------------------------------------------------------------------
/// The part of a transcript before the certificates.
spec fn transcript_head(t: TranscriptView) -> Seq<u8> {
    utf8(TRANSCRIPT_MAGIC@) + seq![PROTOCOL_VERSION, t.mode] + field(utf8(t.pair_id)) + field(
        t.hash,
    ) + seq![ROLE_INITIATOR, ROLE_RESPONDER] + utf8(t.initiator_certificate.device_id) + utf8(
        t.responder_certificate.device_id,
    )
}

impl TranscriptView {
    /// Every part has the form that the pairing gives it.
    pub open spec fn well_formed(self) -> bool {
        &&& self.hash.len() == 32
        &&& is_id(self.pair_id)
        &&& certificate_shape_error(self.initiator_certificate) is None
        &&& self.initiator_certificate.public_key.len() == 32
        &&& self.initiator_certificate.signature.len() == 64
        &&& certificate_shape_error(self.responder_certificate) is None
        &&& self.responder_certificate.public_key.len() == 32
        &&& self.responder_certificate.signature.len() == 64
        &&& self.initiator_static.len() == 32
        &&& self.responder_static.len() == 32
    }
}

/// The mode, PairID and handshake hash can be read off the head of a
/// transcript.
proof fn transcript_head_binds(a: TranscriptView, b: TranscriptView)
    requires
        a.well_formed(),
        b.well_formed(),
        transcript_head(a) == transcript_head(b),
    ensures
        a.mode == b.mode,
        a.pair_id == b.pair_id,
        a.hash == b.hash,
{
    let m = utf8(TRANSCRIPT_MAGIC@);
    let a1 = m + seq![PROTOCOL_VERSION, a.mode];
    let b1 = m + seq![PROTOCOL_VERSION, b.mode];
    let a2 = a1 + field(utf8(a.pair_id));
    let b2 = b1 + field(utf8(b.pair_id));
    let a3 = a2 + field(a.hash);
    let b3 = b2 + field(b.hash);
    let roles = seq![ROLE_INITIATOR, ROLE_RESPONDER];
    let a4 = a3 + roles;
    let b4 = b3 + roles;
    let a5 = a4 + utf8(a.initiator_certificate.device_id);
    let b5 = b4 + utf8(b.initiator_certificate.device_id);
    be_bytes_len(32, 2);
    split_tail(
        a5,
        utf8(a.responder_certificate.device_id),
        b5,
        utf8(b.responder_certificate.device_id),
    );
    split_tail(
        a4,
        utf8(a.initiator_certificate.device_id),
        b4,
        utf8(b.initiator_certificate.device_id),
    );
    split_tail(a3, roles, b3, roles);
    split_tail(a2, field(a.hash), b2, field(b.hash));
    split_tail(a1, field(utf8(a.pair_id)), b1, field(utf8(b.pair_id)));
    split_tail(m, seq![PROTOCOL_VERSION, a.mode], m, seq![PROTOCOL_VERSION, b.mode]);
    assert(seq![PROTOCOL_VERSION, a.mode][1] == seq![PROTOCOL_VERSION, b.mode][1]);
    assert(field(a.hash) + Seq::<u8>::empty() =~= field(a.hash));
    assert(field(b.hash) + Seq::<u8>::empty() =~= field(b.hash));
    split_field(a.hash, Seq::empty(), b.hash, Seq::empty());
    assert(field(utf8(a.pair_id)) + Seq::<u8>::empty() =~= field(utf8(a.pair_id)));
    assert(field(utf8(b.pair_id)) + Seq::<u8>::empty() =~= field(utf8(b.pair_id)));
    split_field(utf8(a.pair_id), Seq::empty(), utf8(b.pair_id), Seq::empty());
    utf8_injective(a.pair_id, b.pair_id);
}

/// Two certificates and two static keys behind a head of known length can be
/// read off.
proof fn split_certificates(
    ha: Seq<u8>,
    ca: Seq<u8>,
    da: Seq<u8>,
    xa: Seq<u8>,
    ya: Seq<u8>,
    hb: Seq<u8>,
    cb: Seq<u8>,
    db: Seq<u8>,
    xb: Seq<u8>,
    yb: Seq<u8>,
)
    requires
        ha.len() == hb.len(),
        0 < ca.len() < 65536,
        0 < da.len() < 65536,
        0 < cb.len() < 65536,
        0 < db.len() < 65536,
        xa.len() == xb.len(),
        ya.len() == yb.len(),
        ha + field(ca) + field(da) + xa + ya == hb + field(cb) + field(db) + xb + yb,
    ensures
        ha == hb,
        ca == cb,
        da == db,
        xa == xb,
        ya == yb,
{
    split_tail(ha + field(ca) + field(da) + xa, ya, hb + field(cb) + field(db) + xb, yb);
    split_tail(ha + field(ca) + field(da), xa, hb + field(cb) + field(db), xb);
    regroup(ha, field(ca), field(da));
    regroup(hb, field(cb), field(db));
    split_front(ha, field(ca) + field(da), hb, field(cb) + field(db));
    split_field(ca, field(da), cb, field(db));
    assert(field(da) + Seq::<u8>::empty() =~= field(da));
    assert(field(db) + Seq::<u8>::empty() =~= field(db));
    split_field(da, Seq::empty(), db, Seq::empty());
}

/// A transcript determines everything that went into it: the handshake hash,
/// mode, PairID, both certificates and both static keys. A signature over one
/// pairing therefore says nothing about any other.
pub proof fn transcript_binds(a: TranscriptView, b: TranscriptView)
    requires
        a.well_formed(),
        b.well_formed(),
        transcript_bytes(a) == transcript_bytes(b),
    ensures
        a == b,
{
    let ca = certificate_bytes(a.initiator_certificate);
    let cb = certificate_bytes(b.initiator_certificate);
    let da = certificate_bytes(a.responder_certificate);
    let db = certificate_bytes(b.responder_certificate);
    let ha = transcript_head(a);
    let hb = transcript_head(b);
    certificate_length(a.initiator_certificate);
    certificate_length(b.initiator_certificate);
    certificate_length(a.responder_certificate);
    certificate_length(b.responder_certificate);
    certificate_round_trip(a.initiator_certificate);
    certificate_round_trip(b.initiator_certificate);
    certificate_round_trip(a.responder_certificate);
    certificate_round_trip(b.responder_certificate);
    assert(ha.len() == hb.len()) by {
        be_bytes_len(32, 2);
    }
    assert(transcript_bytes(a) == ha + field(ca) + field(da) + a.initiator_static
        + a.responder_static);
    assert(transcript_bytes(b) == hb + field(cb) + field(db) + b.initiator_static
        + b.responder_static);
    split_certificates(
        ha,
        ca,
        da,
        a.initiator_static,
        a.responder_static,
        hb,
        cb,
        db,
        b.initiator_static,
        b.responder_static,
    );
    transcript_head_binds(a, b);
    assert(a =~= b);
}

/// A signed message determines the transcript and the role: a signature made
/// in one role does not stand for the other.
pub proof fn signature_binds(a: Seq<u8>, a_role: u8, b: Seq<u8>, b_role: u8)
    requires
        signature_message(a, a_role) == signature_message(b, b_role),
    ensures
        a == b,
        a_role == b_role,
{
    let m = utf8(SIGNATURE_MAGIC@);
    split_tail(m + a, seq![a_role], m + b, seq![b_role]);
    assert(seq![a_role][0] == seq![b_role][0]);
    assert((m + a).len() == (m + b).len());
    split_tail(m, a, m, b);
}

/// A hello presents exactly the certificate it was made from.
pub proof fn hello_round_trip(c: CertificateView)
    requires
        certificate_shape_error(c) is None,
        c.public_key.len() == 32,
        c.signature.len() == 64,
    ensures
        hello_bytes(c).len() <= 374,
        auth_parsed(hello_bytes(c)) == Ok::<AuthView, SyncError>(
            AuthView {
                certificate: c,
                public_key: c.public_key,
                device_id: c.device_id,
                signature: None,
            },
        ),
{
    let b = hello_bytes(c);
    assert(b + Seq::<u8>::empty() =~= b);
    auth_layout(c, Seq::empty());
}

/// A proof presents exactly the certificate and the signature it was made from.
pub proof fn proof_round_trip(c: CertificateView, signature: Seq<u8>)
    requires
        certificate_shape_error(c) is None,
        c.public_key.len() == 32,
        c.signature.len() == 64,
        signature.len() == 64,
    ensures
        auth_parsed(hello_bytes(c) + signature) == Ok::<AuthView, SyncError>(
            AuthView {
                certificate: c,
                public_key: c.public_key,
                device_id: c.device_id,
                signature: Some(signature),
            },
        ),
{
    auth_layout(c, signature);
}

/// What is read from a hello, with or without a signature behind it.
proof fn auth_layout(c: CertificateView, tail: Seq<u8>)
    requires
        certificate_shape_error(c) is None,
        c.public_key.len() == 32,
        c.signature.len() == 64,
        tail.len() == 0 || tail.len() == 64,
    ensures
        hello_bytes(c).len() <= 374,
        auth_parsed(hello_bytes(c) + tail) == Ok::<AuthView, SyncError>(
            AuthView {
                certificate: c,
                public_key: c.public_key,
                device_id: c.device_id,
                signature: if tail.len() == 0 {
                    None
                } else {
                    Some(tail)
                },
            },
        ),
{
    let cert = certificate_bytes(c);
    let b = hello_bytes(c) + tail;
    let p = 82 + cert.len() as int;
    certificate_length(c);
    certificate_round_trip(c);
    auth_magic_lengths();
    be_bytes_len(cert.len(), 2);
    encode_utf8_valid_utf8(c.device_id);
    encode_utf8_decode_utf8(c.device_id);
    hello_layout(utf8(AUTH_MAGIC@), utf8(c.device_id), c.public_key, field(cert), tail);
    read_field_of_field(b, 80, cert, MAX_CERTIFICATE_BYTES as int);
}

/// Where the parts of a hello stand.
proof fn hello_layout(
    magic: Seq<u8>,
    id: Seq<u8>,
    key: Seq<u8>,
    cert: Seq<u8>,
    tail: Seq<u8>,
)
    requires
        magic.len() == 15,
        id.len() == 32,
        key.len() == 32,
    ensures
        ({
            let b = magic + seq![PROTOCOL_VERSION] + id + key + cert + tail;
            let p = 80 + cert.len() as int;
            &&& b.len() == p + tail.len()
            &&& b.subrange(0, 15) == magic
            &&& b[15] == PROTOCOL_VERSION
            &&& b.subrange(16, 48) == id
            &&& b.subrange(48, 80) == key
            &&& b.subrange(80, p) == cert
            &&& b.subrange(p, p + tail.len()) == tail
        }),
{
    let b = magic + seq![PROTOCOL_VERSION] + id + key + cert + tail;
    let p = 80 + cert.len() as int;
    assert(b.subrange(0, 15) =~= magic);
    assert(b.subrange(16, 48) =~= id);
    assert(b.subrange(48, 80) =~= key);
    assert(b.subrange(80, p) =~= cert);
    assert(b.subrange(p, p + tail.len()) =~= tail);
}

} // verus!
