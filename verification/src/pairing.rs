//! Isolated protocol-v3 mutually authenticated pairing transport.
//!
//! A caller-driven, bounded byte API: callers deliver each frame and enforce
//! their I/O deadline. No trust records, capabilities, polkit actions, or SSH
//! credentials are created here.
pub use crate::authentication::PairedIdentityContext;
use crate::authentication::{
    auth_hello, auth_magic_lengths, auth_proof, current_peer, digest_transcript, hello_encoded,
    make_transcript, parse_auth_hello, parse_auth_proof, parse_paired_auth, pinned_peer,
    signature_error, signature_message, signed_auth_payload, transcript_encoded, verify_signature,
    verify_signature_payload, AuthView, ContextView, PeerAuth, TranscriptView, ACK_MAGIC,
    TRANSCRIPT_MAGIC,
};
use crate::codec::{append, utf8};
use crate::crypto::{ed25519_public, ed25519_sign, ed25519_verifies, sha256};
use crate::error::{checked, outcome, SyncError};
use crate::frames::{
    decode_frame, decode_frame_with_sequence, decode_start_frame, encode_frame,
    encode_frame_with_sequence, encode_start_frame, frame_encoded, frame_parsed, is_mode,
    plain_frame_parsed, start_encoded, start_parsed, validate_pair_id, FrameView, StartView,
    KIND_AUTH, KIND_HANDSHAKE, KIND_TRANSPORT, MAX_AUTH_FRAME, MAX_AUTH_PLAINTEXT,
    MAX_HANDSHAKE_FRAME, MAX_TRANSPORT_FRAME, MAX_TRANSPORT_PLAINTEXT, MODE_FIRST_CONTACT,
    MODE_RECONNECT, ROLE_INITIATOR, ROLE_RESPONDER,
};
use crate::identity::{device_id_of, DeviceIdentity};
use crate::noise;
use crate::noise::{
    handshake_view, handshake_written, noise_public, noise_read, noise_remote_static, noise_start,
    noise_transport, noise_write, opened, sealed, transport_view, HandshakeView, TransportView,
    NOISE_PARAMS,
};
use crate::protocol_v3::{
    certificate_error, certificate_shape_error, CertificateView, DeviceCertificate,
    PinnedOmarchyRoot, RootView,
};
use crate::text::{array_32, bytes_eq, check_id, hex, hex_of_16_is_id, hex_text, is_id};
use vstd::prelude::*;

verus! {

// ---------------------------------------------------------------------------
// Encrypted authentication frames.
// ---------------------------------------------------------------------------
/// What becomes of a transport that sends an authentication payload.
#[verifier::opaque]
pub open spec fn auth_sealed(t: TransportView, role: u8, sequence: u8, plaintext: Seq<u8>) -> (
    Result<Seq<u8>, SyncError>,
    TransportView,
) {
    if plaintext.len() > MAX_AUTH_PLAINTEXT {
        (Err(SyncError::AuthPayloadTooLarge), t)
    } else {
        match sealed(t, plaintext) {
            None => (Err(SyncError::EncryptAuth), t),
            Some((ciphertext, after)) => (
                frame_encoded(
                    FrameView { kind: KIND_AUTH, role, sequence, payload: ciphertext },
                    MAX_AUTH_FRAME as int,
                ),
                after,
            ),
        }
    }
}

/// What becomes of a transport that receives an authentication frame.
#[verifier::opaque]
pub open spec fn auth_opened(t: TransportView, frame: Seq<u8>, role: u8, sequence: u8) -> (
    Result<Seq<u8>, SyncError>,
    TransportView,
) {
    match frame_parsed(frame, MAX_AUTH_FRAME as int) {
        Err(error) => (Err(error), t),
        Ok(f) => if f.kind != KIND_AUTH || f.role != role || f.sequence != sequence {
            (Err(SyncError::AuthFrameUnexpected), t)
        } else {
            match opened(t, f.payload, MAX_AUTH_PLAINTEXT as int) {
                None => (Err(SyncError::DecryptAuth), t),
                Some((plaintext, after)) => (Ok(plaintext), after),
            }
        },
    }
}

/// Encrypts an authentication payload into a frame.
pub(crate) fn encrypt_auth(
    transport: &mut snow::TransportState,
    role: u8,
    sequence: u8,
    plaintext: &[u8],
) -> (result: Result<Vec<u8>, SyncError>)
    requires
        transport_view(*old(transport)).params == NOISE_PARAMS@,
    ensures
        transport_view(*final(transport)).params == NOISE_PARAMS@,
        (outcome(result), transport_view(*final(transport))) == auth_sealed(
            transport_view(*old(transport)),
            role,
            sequence,
            plaintext@,
        ),
        result is Ok <==> (plaintext@.len() <= MAX_AUTH_PLAINTEXT && transport_view(
            *old(transport),
        ).send_nonce < u64::MAX),
{
    proof {
        reveal(auth_sealed);
    }
    if plaintext.len() > MAX_AUTH_PLAINTEXT {
        return Err(SyncError::AuthPayloadTooLarge);
    }
    let ciphertext: Vec<u8> = noise::seal(transport, plaintext, SyncError::EncryptAuth)?;
    encode_frame_with_sequence(KIND_AUTH, role, sequence, ciphertext.as_slice(), MAX_AUTH_FRAME)
}

/// Decrypts an authentication payload from a frame.
pub(crate) fn decrypt_auth(
    transport: &mut snow::TransportState,
    frame: &[u8],
    expected_role: u8,
    sequence: u8,
) -> (result: Result<Vec<u8>, SyncError>)
    requires
        transport_view(*old(transport)).params == NOISE_PARAMS@,
    ensures
        transport_view(*final(transport)).params == NOISE_PARAMS@,
        (outcome(result), transport_view(*final(transport))) == auth_opened(
            transport_view(*old(transport)),
            frame@,
            expected_role,
            sequence,
        ),
{
    proof {
        reveal(auth_opened);
    }
    let (kind, role, got_sequence, payload) = decode_frame_with_sequence(frame, MAX_AUTH_FRAME)?;
    if kind != KIND_AUTH || role != expected_role || got_sequence != sequence {
        return Err(SyncError::AuthFrameUnexpected);
    }
    noise::open(transport, payload, MAX_AUTH_PLAINTEXT, SyncError::DecryptAuth)
}

// ---------------------------------------------------------------------------
// The authenticated session.
// ---------------------------------------------------------------------------
/// A completed bilateral identity authentication.
pub struct SessionView {
    pub pair_id: Seq<char>,
    pub local_device_id: Seq<char>,
    pub peer_device_id: Seq<char>,
    pub local_certificate: CertificateView,
    pub peer_certificate: CertificateView,
    pub session_binding: Seq<u8>,
    pub transport: TransportView,
    pub peer_public_key: Seq<u8>,
    pub local_role: u8,
}

impl SessionView {
    /// What becomes of a session that sends an application payload.
    pub open spec fn encrypted(self, plaintext: Seq<u8>) -> (
        Result<Seq<u8>, SyncError>,
        SessionView,
    ) {
        if plaintext.len() > MAX_TRANSPORT_PLAINTEXT {
            (Err(SyncError::TransportPlaintextTooLarge), self)
        } else {
            match sealed(self.transport, plaintext) {
                None => (Err(SyncError::EncryptTransport), self),
                Some((ciphertext, after)) => (
                    frame_encoded(
                        FrameView {
                            kind: KIND_TRANSPORT,
                            role: self.local_role,
                            sequence: 0,
                            payload: ciphertext,
                        },
                        MAX_TRANSPORT_FRAME as int,
                    ),
                    SessionView { transport: after, ..self },
                ),
            }
        }
    }

    /// What becomes of a session that receives an application frame.
    pub open spec fn decrypted(self, frame: Seq<u8>) -> (Result<Seq<u8>, SyncError>, SessionView) {
        match plain_frame_parsed(frame, MAX_TRANSPORT_FRAME as int) {
            Err(error) => (Err(error), self),
            Ok(f) => if f.kind != KIND_TRANSPORT || f.role == self.local_role {
                (Err(SyncError::TransportFrameUnexpected), self)
            } else {
                match opened(self.transport, f.payload, MAX_TRANSPORT_PLAINTEXT as int) {
                    None => (Err(SyncError::DecryptTransport), self),
                    Some((plaintext, after)) => (
                        Ok(plaintext),
                        SessionView { transport: after, ..self },
                    ),
                }
            },
        }
    }

    /// Whether this session is about to receive what the other sends next:
    /// they are in different roles, and the receiving key and nonce here are
    /// the sending ones there.
    pub open spec fn follows(self, sender: SessionView) -> bool {
        &&& self.local_role != sender.local_role
        &&& self.transport.receive_key == sender.transport.send_key
        &&& self.transport.receive_nonce == sender.transport.send_nonce
    }

    /// The protocol and the role are those of a pairing.
    pub open spec fn wf(self) -> bool {
        self.transport.params == NOISE_PARAMS@ && crate::frames::is_role(self.local_role)
    }
}

/// The result of a completed bilateral identity authentication.
///
/// Constructing this value requires both certificates and both identity
/// signatures to verify against one transcript. It carries no permissions.
pub struct AuthenticatedPairingSession {
    pair_id: String,
    local_device_id: String,
    peer_device_id: String,
    local_certificate: DeviceCertificate,
    peer_certificate: DeviceCertificate,
    session_binding: [u8; 32],
    transport: snow::TransportState,
    peer_public_key: [u8; 32],
    local_role: u8,
}

impl View for AuthenticatedPairingSession {
    type V = SessionView;

    closed spec fn view(&self) -> SessionView {
        SessionView {
            pair_id: self.pair_id@,
            local_device_id: self.local_device_id@,
            peer_device_id: self.peer_device_id@,
            local_certificate: self.local_certificate@,
            peer_certificate: self.peer_certificate@,
            session_binding: self.session_binding@,
            transport: transport_view(self.transport),
            peer_public_key: self.peer_public_key@,
            local_role: self.local_role,
        }
    }
}

impl AuthenticatedPairingSession {
    pub fn pair_id(&self) -> (result: &str)
        ensures
            result@ == self@.pair_id,
    {
        self.pair_id.as_str()
    }

    pub fn local_device_id(&self) -> (result: &str)
        ensures
            result@ == self@.local_device_id,
    {
        self.local_device_id.as_str()
    }

    pub fn peer_device_id(&self) -> (result: &str)
        ensures
            result@ == self@.peer_device_id,
    {
        self.peer_device_id.as_str()
    }

    pub fn peer_public_key(&self) -> (result: [u8; 32])
        ensures
            result@ == self@.peer_public_key,
    {
        self.peer_public_key
    }

    /// The local certified device context. This contains no transport key
    /// material and is safe for the pairing-record layer to inspect.
    pub fn local_certificate(&self) -> (result: &DeviceCertificate)
        ensures
            result@ == self@.local_certificate,
    {
        &self.local_certificate
    }

    /// The peer certified device context. This contains no transport key
    /// material and is safe for the pairing-record layer to inspect.
    pub fn peer_certificate(&self) -> (result: &DeviceCertificate)
        ensures
            result@ == self@.peer_certificate,
    {
        &self.peer_certificate
    }

    /// Stable binding for this authenticated handshake transcript. It is
    /// deliberately a digest rather than any Noise secret or key.
    pub fn session_binding(&self) -> (result: [u8; 32])
        ensures
            result@ == self@.session_binding,
    {
        self.session_binding
    }

    /// Whether this endpoint initiated the authenticated session.
    pub fn is_initiator(&self) -> (result: bool)
        ensures
            result == (self@.local_role == ROLE_INITIATOR),
    {
        self.local_role == ROLE_INITIATOR
    }

    /// Encrypts one application payload of up to 48 KiB. The returned frame
    /// contains no plaintext; the caller must still authorize the operation
    /// separately. A refusal leaves the session as it was. A session that is
    /// about to receive what this one sends decrypts the frame to the same
    /// payload, and is then about to receive the next.
    pub fn encrypt(&mut self, plaintext: &[u8]) -> (result: Result<Vec<u8>, SyncError>)
        requires
            old(self)@.wf(),
        ensures
            final(self)@.wf(),
            (outcome(result), final(self)@) == old(self)@.encrypted(plaintext@),
            result is Ok <==> (plaintext@.len() <= MAX_TRANSPORT_PLAINTEXT && old(
                self,
            )@.transport.send_nonce < u64::MAX),
            result is Err ==> final(self)@ == old(self)@,
            result matches Ok(frame) ==> frame@.len() == plaintext@.len() + 37,
            result matches Ok(frame) ==> forall|peer: SessionView| #[trigger]
                peer.follows(old(self)@) ==> {
                    &&& peer.decrypted(frame@).0 == Ok::<Seq<u8>, SyncError>(plaintext@)
                    &&& peer.decrypted(frame@).1.follows(final(self)@)
                },
    {
        if plaintext.len() > MAX_TRANSPORT_PLAINTEXT {
            return Err(SyncError::TransportPlaintextTooLarge);
        }
        let ciphertext: Vec<u8> = noise::seal(
            &mut self.transport,
            plaintext,
            SyncError::EncryptTransport,
        )?;
        let result = encode_frame(
            KIND_TRANSPORT,
            self.local_role,
            ciphertext.as_slice(),
            MAX_TRANSPORT_FRAME,
        );
        proof {
            if result is Ok {
                crate::frames::frame_round_trip(
                    FrameView {
                        kind: KIND_TRANSPORT,
                        role: self.local_role,
                        sequence: 0,
                        payload: ciphertext@,
                    },
                    MAX_TRANSPORT_FRAME as int,
                );
            }
        }
        result
    }

    /// Decrypts one application frame sent by the peer.
    pub fn decrypt(&mut self, frame: &[u8]) -> (result: Result<Vec<u8>, SyncError>)
        requires
            old(self)@.wf(),
        ensures
            final(self)@.wf(),
            (outcome(result), final(self)@) == old(self)@.decrypted(frame@),
    {
        let (kind, role, payload) = decode_frame(frame, MAX_TRANSPORT_FRAME)?;
        if kind != KIND_TRANSPORT || role == self.local_role {
            return Err(SyncError::TransportFrameUnexpected);
        }
        noise::open(
            &mut self.transport,
            payload,
            MAX_TRANSPORT_PLAINTEXT,
            SyncError::DecryptTransport,
        )
    }
}

// ---------------------------------------------------------------------------
// Checks made before any network byte is emitted.
// ---------------------------------------------------------------------------
/// Why an end may not present a certificate.
pub open spec fn local_error(
    secret: Seq<u8>,
    certificate: CertificateView,
    root: RootView,
    now: u64,
) -> Option<SyncError> {
    if certificate.device_id != device_id_of(ed25519_public(secret)) || certificate.public_key
        != ed25519_public(secret) {
        Some(SyncError::LocalCertificateMismatch)
    } else {
        certificate_error(certificate, root, now)
    }
}

/// Why an end may not expect a peer.
pub open spec fn expected_peer_error(expected: Seq<char>, local: Seq<char>) -> Option<SyncError> {
    if !is_id(expected) {
        Some(SyncError::ExpectedPeerId)
    } else if expected == local {
        Some(SyncError::ExpectedPeerIsLocal)
    } else {
        None
    }
}

/// Why an end may not be set up for first contact.
pub open spec fn setup_error(
    secret: Seq<u8>,
    certificate: CertificateView,
    expected: Seq<char>,
    root: RootView,
    now: u64,
) -> Option<SyncError> {
    match local_error(secret, certificate, root, now) {
        Some(error) => Some(error),
        None => expected_peer_error(expected, certificate.device_id),
    }
}

/// The prologue that both ends must share: the magic, the mode and the PairID.
pub open spec fn prologue(mode: u8, pair_id: Seq<char>) -> Seq<u8> {
    utf8(TRANSCRIPT_MAGIC@) + seq![mode] + utf8(pair_id)
}

fn validate_local(
    identity: &DeviceIdentity,
    certificate: &DeviceCertificate,
    root: &PinnedOmarchyRoot,
    now: u64,
) -> (result: Result<(), SyncError>)
    ensures
        result == checked(local_error(identity@, certificate@, root@, now)),
{
    if certificate.device_id != identity.device_id() || !bytes_eq(
        certificate.public_key.as_slice(),
        identity.public_key().as_slice(),
    ) {
        return Err(SyncError::LocalCertificateMismatch);
    }
    certificate.verify(root, now)
}

fn validate_expected_peer(expected: &str, local: &str) -> (result: Result<(), SyncError>)
    ensures
        result == checked(expected_peer_error(expected@, local@)),
{
    if !check_id(expected) {
        return Err(SyncError::ExpectedPeerId);
    }
    if crate::text::str_eq(expected, local) {
        return Err(SyncError::ExpectedPeerIsLocal);
    }
    Ok(())
}

/// The PairID that sixteen random bytes give.
pub fn random_pair_id(entropy: &[u8; 16]) -> (result: String)
    ensures
        result@ == hex(entropy@),
        is_id(result@),
{
    proof {
        hex_of_16_is_id(entropy@);
    }
    hex_text(entropy.as_slice())
}

/// A handshake with a fresh static key, and that key's public half. The
/// prologue ties it to the mode and the PairID.
fn build_handshake(initiator: bool, mode: u8, pair_id: &str) -> (result: Result<
    (snow::HandshakeState, [u8; 32]),
    SyncError,
>)
    ensures
        result is Ok <==> is_id(pair_id@) && is_mode(mode),
        result matches Err(error) ==> error == (if !is_id(pair_id@) {
            SyncError::InvalidPairId
        } else {
            SyncError::PairingMode
        }),
        result matches Ok((state, public)) ==> {
            let view = handshake_view(state);
            &&& view.params == NOISE_PARAMS@
            &&& view.initiator == initiator
            &&& view.position == 0
            &&& view.secret.len() == 32
            &&& view == noise_start(initiator, view.secret, prologue(mode, pair_id@))
            &&& public@ == noise_public(view.secret)
        },
{
    validate_pair_id(pair_id)?;
    if mode != MODE_FIRST_CONTACT && mode != MODE_RECONNECT {
        return Err(SyncError::PairingMode);
    }
    let (private, public) = match noise::generate_keypair(NOISE_PARAMS) {
        Ok(pair) => pair,
        Err(_) => {
            return Err(SyncError::NoiseKeypair);
        },
    };
    let public_key: [u8; 32] = array_32(public.as_slice());
    let mut bytes: Vec<u8> = Vec::new();
    append(&mut bytes, TRANSCRIPT_MAGIC.as_bytes());
    bytes.push(mode);
    append(&mut bytes, pair_id.as_bytes());
    assert(bytes@ =~= prologue(mode, pair_id@));
    let built = if initiator {
        noise::build_initiator(NOISE_PARAMS, private.as_slice(), bytes.as_slice())
    } else {
        noise::build_responder(NOISE_PARAMS, private.as_slice(), bytes.as_slice())
    };
    match built {
        Ok(handshake) => Ok((handshake, public_key)),
        Err(_) => Err(SyncError::NoiseBuild),
    }
}

/// What a finished handshake leaves: the handshake hash and the peer's static
/// key.
pub struct InfoView {
    pub hash: Seq<u8>,
    pub remote_static: Seq<u8>,
}

/// What a handshake leaves when it is finished.
pub open spec fn handshake_finished(h: HandshakeView) -> Result<
    (TransportView, InfoView),
    SyncError,
> {
    if h.position != 3 {
        Err(SyncError::NoiseIncomplete)
    } else {
        match noise_remote_static(h) {
            None => Err(SyncError::NoisePeerKeyMissing),
            Some(key) => if key.len() != 32 {
                Err(SyncError::NoisePeerKeyLength)
            } else if h.hash.len() != 32 {
                Err(SyncError::NoiseHashLength)
            } else {
                Ok((noise_transport(h), InfoView { hash: h.hash, remote_static: key }))
            },
        }
    }
}

struct HandshakeInfo {
    hash: [u8; 32],
    remote_static: [u8; 32],
}

impl HandshakeInfo {
    spec fn model(&self) -> InfoView {
        InfoView { hash: self.hash@, remote_static: self.remote_static@ }
    }
}

/// Noise XX authenticates the handshake's DH material. Both Noise static keys
/// are then bound to the permanent Ed25519 identities by signatures over the
/// transcript; the device certificate alone does not authenticate a Noise
/// static key.
fn finish_handshake(handshake: snow::HandshakeState) -> (result: Result<
    (snow::TransportState, HandshakeInfo),
    SyncError,
>)
    requires
        handshake_view(handshake).params == NOISE_PARAMS@,
    ensures
        match result {
            Ok((transport, info)) => {
                &&& handshake_finished(handshake_view(handshake)) == Ok::<
                    (TransportView, InfoView),
                    SyncError,
                >((transport_view(transport), info.model()))
                &&& transport_view(transport).params == NOISE_PARAMS@
                &&& transport_view(transport).send_nonce == 0
            },
            Err(error) => handshake_finished(handshake_view(handshake)) == Err::<
                (TransportView, InfoView),
                SyncError,
            >(error),
        },
        result is Ok <==> handshake_view(handshake).position == 3,
{
    if !handshake.is_handshake_finished() {
        return Err(SyncError::NoiseIncomplete);
    }
    let remote: Vec<u8> = match noise::remote_static(&handshake) {
        Some(key) => key,
        None => {
            return Err(SyncError::NoisePeerKeyMissing);
        },
    };
    if remote.len() != 32 {
        return Err(SyncError::NoisePeerKeyLength);
    }
    let hash: [u8; 32] = array_32(noise::handshake_hash(&handshake));
    let remote_static: [u8; 32] = array_32(remote.as_slice());
    match handshake.into_transport_mode() {
        Ok(transport) => Ok((transport, HandshakeInfo { hash, remote_static })),
        Err(_) => Err(SyncError::NoiseTransport),
    }
}

// ---------------------------------------------------------------------------
// Whom an end accepts as its peer.
// ---------------------------------------------------------------------------
/// How a peer is validated: by its certificate now, or by the pins of an
/// established pairing.
pub enum ValidationView {
    Current { root: RootView, now: u64 },
    Paired(ContextView),
}

impl ValidationView {
    /// The authentication mode that goes with the validation.
    pub open spec fn mode(self) -> u8 {
        match self {
            ValidationView::Current { .. } => MODE_FIRST_CONTACT,
            ValidationView::Paired(_) => MODE_RECONNECT,
        }
    }

    /// The peer that an authentication payload introduces.
    pub open spec fn peer(self, payload: Seq<u8>, role: u8, signed: bool) -> Result<
        AuthView,
        SyncError,
    > {
        match self {
            ValidationView::Current { root, now } => current_peer(payload, root, now, signed),
            ValidationView::Paired(context) => pinned_peer(payload, context, role, signed),
        }
    }

    /// Whether a peer in a role is one that this validation lets pass.
    pub open spec fn accepts(
        self,
        device_id: Seq<char>,
        public_key: Seq<u8>,
        certificate: CertificateView,
        role: u8,
    ) -> bool {
        match self {
            ValidationView::Current { root, now } => {
                &&& certificate_error(certificate, root, now) is None
                &&& certificate.device_id == device_id
                &&& certificate.public_key == public_key
            },
            ValidationView::Paired(context) => {
                &&& device_id == context.device_id(role)
                &&& public_key == context.public_key(role)
                &&& certificate == context.certificate(role)
            },
        }
    }
}

enum PeerValidation {
    Current { root: PinnedOmarchyRoot, now: u64 },
    Paired(Box<PairedIdentityContext>),
}

impl PeerValidation {
    spec fn model(&self) -> ValidationView {
        match self {
            PeerValidation::Current { root, now } => ValidationView::Current {
                root: root@,
                now: *now,
            },
            PeerValidation::Paired(context) => ValidationView::Paired(context@),
        }
    }

    fn mode(&self) -> (result: u8)
        ensures
            result == self.model().mode(),
    {
        match self {
            PeerValidation::Current { .. } => MODE_FIRST_CONTACT,
            PeerValidation::Paired(_) => MODE_RECONNECT,
        }
    }
}

impl SessionView {
    /// Whether a session is the outcome of one bilateral authentication: the
    /// peer is one that the validation lets pass and that was expected, it
    /// signed the transcript in its own role, and the session is bound to that
    /// transcript, which covers the mode, the PairID and both certificates.
    pub open spec fn authenticated_by(
        self,
        validation: ValidationView,
        expected_peer: Seq<char>,
        transcript: TranscriptView,
        signature: Seq<u8>,
    ) -> bool {
        let initiates = self.local_role == ROLE_INITIATOR;
        let peer_role = if initiates {
            ROLE_RESPONDER
        } else {
            ROLE_INITIATOR
        };
        &&& self.peer_device_id == expected_peer
        &&& self.peer_device_id != self.local_device_id
        &&& self.local_device_id == self.local_certificate.device_id
        &&& validation.accepts(
            self.peer_device_id,
            self.peer_public_key,
            self.peer_certificate,
            peer_role,
        )
        &&& transcript.mode == validation.mode()
        &&& transcript.pair_id == self.pair_id
        &&& transcript.initiator_certificate == (if initiates {
            self.local_certificate
        } else {
            self.peer_certificate
        })
        &&& transcript.responder_certificate == (if initiates {
            self.peer_certificate
        } else {
            self.local_certificate
        })
        &&& transcript_encoded(transcript) matches Ok(bytes) && {
            &&& self.session_binding == sha256(bytes)
            &&& ed25519_verifies(
                self.peer_public_key,
                signature_message(bytes, peer_role),
                signature,
            )
        }
    }

    /// Whether some transcript and peer signature authenticate the session.
    pub open spec fn authentic(self, validation: ValidationView, expected_peer: Seq<char>) -> bool {
        exists|transcript: TranscriptView, signature: Seq<u8>|
            self.authenticated_by(validation, expected_peer, transcript, signature)
    }
}

// ---------------------------------------------------------------------------
// The initiator.
// ---------------------------------------------------------------------------
/// The state of an initiator.
pub struct InitiatorView {
    pub identity: Seq<u8>,
    pub pair_id: Seq<char>,
    pub certificate: CertificateView,
    pub expected_peer: Seq<char>,
    pub validation: ValidationView,
    pub handshake: Option<HandshakeView>,
    pub local_static: Seq<u8>,
    pub transport: Option<TransportView>,
    pub info: Option<InfoView>,
    pub transcript: Option<Seq<u8>>,
    pub peer: Option<AuthView>,
    pub sent_auth: bool,
}

impl InitiatorView {
    /// The transcript that this end makes with a peer.
    pub open spec fn transcript_with(self, info: InfoView, peer: CertificateView) -> TranscriptView {
        TranscriptView {
            hash: info.hash,
            mode: self.validation.mode(),
            pair_id: self.pair_id,
            initiator_certificate: self.certificate,
            responder_certificate: peer,
            initiator_static: self.local_static,
            responder_static: info.remote_static,
        }
    }

    /// Whether a peer has proved itself to this end.
    pub open spec fn proven(self, peer: AuthView) -> bool {
        &&& self.handshake is None
        &&& self.validation.accepts(
            peer.device_id,
            peer.public_key,
            peer.certificate,
            ROLE_RESPONDER,
        )
        &&& peer.device_id == self.expected_peer
        &&& peer.device_id != self.certificate.device_id
        &&& self.info matches Some(info) && self.transcript matches Some(bytes)
            && peer.signature matches Some(signature) && {
            &&& transcript_encoded(self.transcript_with(info, peer.certificate)) == Ok::<
                Seq<u8>,
                SyncError,
            >(bytes)
            &&& ed25519_verifies(
                peer.public_key,
                signature_message(bytes, ROLE_RESPONDER),
                signature,
            )
        }
    }

    /// The Noise states are of the pinned protocol and on the right side, and a
    /// peer is remembered only once it has proved itself.
    pub open spec fn wf(self) -> bool {
        &&& self.handshake matches Some(h) ==> h.params == NOISE_PARAMS@ && h.initiator
        &&& self.transport matches Some(t) ==> t.params == NOISE_PARAMS@ && self.handshake is None
        &&& self.peer matches Some(peer) ==> self.proven(peer)
    }

    /// A new initiator with a fresh Noise static key.
    pub open spec fn fresh(
        identity: Seq<u8>,
        pair_id: Seq<char>,
        certificate: CertificateView,
        expected_peer: Seq<char>,
        validation: ValidationView,
        secret: Seq<u8>,
    ) -> InitiatorView {
        InitiatorView {
            identity,
            pair_id,
            certificate,
            expected_peer,
            validation,
            handshake: Some(noise_start(true, secret, prologue(validation.mode(), pair_id))),
            local_static: noise_public(secret),
            transport: None,
            info: None,
            transcript: None,
            peer: None,
            sent_auth: false,
        }
    }

    /// Whether the initiator can send its start.
    pub open spec fn can_start(self) -> bool {
        &&& self.handshake matches Some(h)
        &&& h.my_turn()
        &&& h.position < 3
        &&& is_id(self.pair_id)
    }

    /// Whether the initiator takes a frame for the responder's handshake
    /// message, and can present its certificate in answer.
    pub open spec fn takes_handshake(self, frame: Seq<u8>) -> bool {
        &&& plain_frame_parsed(frame, MAX_HANDSHAKE_FRAME as int) matches Ok(f)
        &&& f.kind == KIND_HANDSHAKE
        &&& f.role == ROLE_RESPONDER
        &&& self.handshake matches Some(h)
        &&& noise_read(h, f.payload).0
        &&& certificate_shape_error(self.certificate) is None
    }

    /// What becomes of an initiator that starts, when Noise draws `ephemeral`.
    pub open spec fn started(self, ephemeral: Seq<u8>) -> (
        Result<Seq<u8>, SyncError>,
        InitiatorView,
    ) {
        match self.handshake {
            None => (Err(SyncError::PairingAdvanced), self),
            Some(h) => match handshake_written(h, ephemeral) {
                None => (Err(SyncError::NoiseWrite), self),
                Some((message, after)) => (
                    start_encoded(
                        KIND_HANDSHAKE,
                        ROLE_INITIATOR,
                        StartView {
                            mode: self.validation.mode(),
                            pair_id: self.pair_id,
                            message,
                        },
                        MAX_HANDSHAKE_FRAME as int,
                    ),
                    InitiatorView { handshake: Some(after), ..self },
                ),
            },
        }
    }

    /// What becomes of an initiator that receives the responder's handshake
    /// message, when Noise draws `ephemeral`.
    #[verifier::opaque]
    pub open spec fn after_handshake(self, frame: Seq<u8>, ephemeral: Seq<u8>) -> (
        Result<(Seq<u8>, Seq<u8>), SyncError>,
        InitiatorView,
    ) {
        match plain_frame_parsed(frame, MAX_HANDSHAKE_FRAME as int) {
            Err(error) => (Err(error), self),
            Ok(f) => if f.kind != KIND_HANDSHAKE || f.role != ROLE_RESPONDER {
                (Err(SyncError::ResponderHandshakeUnexpected), self)
            } else {
                match self.handshake {
                    None => (Err(SyncError::PairingAdvanced), self),
                    Some(h) => {
                        let (accepted, read) = noise_read(h, f.payload);
                        let reading = InitiatorView { handshake: Some(read), ..self };
                        if !accepted {
                            (Err(SyncError::NoiseRead), reading)
                        } else {
                            match handshake_written(read, ephemeral) {
                                None => (Err(SyncError::NoiseWrite), reading),
                                Some((message, written)) => self.after_messages(message, written),
                            }
                        }
                    },
                }
            },
        }
    }

    /// What becomes of an initiator whose Noise handshake has written its last
    /// message.
    pub open spec fn after_messages(self, message: Seq<u8>, written: HandshakeView) -> (
        Result<(Seq<u8>, Seq<u8>), SyncError>,
        InitiatorView,
    ) {
        match handshake_finished(written) {
            Err(error) => (Err(error), InitiatorView { handshake: None, ..self }),
            Ok((transport, info)) => {
                let ready = InitiatorView {
                    handshake: None,
                    info: Some(info),
                    transport: Some(transport),
                    sent_auth: true,
                    ..self
                };
                match hello_encoded(self.certificate) {
                    Err(error) => (Err(error), ready),
                    Ok(hello) => {
                        let (auth, after) = auth_sealed(transport, ROLE_INITIATOR, 1, hello);
                        let sent = InitiatorView { transport: Some(after), ..ready };
                        match auth {
                            Err(error) => (Err(error), sent),
                            Ok(auth_frame) => match frame_encoded(
                                FrameView {
                                    kind: KIND_HANDSHAKE,
                                    role: ROLE_INITIATOR,
                                    sequence: 0,
                                    payload: message,
                                },
                                MAX_HANDSHAKE_FRAME as int,
                            ) {
                                Err(error) => (Err(error), sent),
                                Ok(handshake_frame) => (Ok((handshake_frame, auth_frame)), sent),
                            },
                        }
                    },
                }
            },
        }
    }

    /// What an initiator makes of a decrypted responder proof: the peer and the
    /// transcript they share.
    #[verifier::opaque]
    pub open spec fn judged(self, payload: Seq<u8>) -> Result<(AuthView, Seq<u8>), SyncError> {
        match self.validation.peer(payload, ROLE_RESPONDER, true) {
            Err(error) => Err(error),
            Ok(peer) => if peer.device_id == self.certificate.device_id {
                Err(SyncError::Reflection)
            } else if peer.device_id != self.expected_peer {
                Err(SyncError::ResponderNotDiscovered)
            } else {
                match self.info {
                    None => Err(SyncError::HandshakeInfoMissing),
                    Some(info) => match transcript_encoded(
                        self.transcript_with(info, peer.certificate),
                    ) {
                        Err(error) => Err(error),
                        Ok(transcript) => match peer.signature {
                            None => Err(SyncError::PeerSignatureMissing),
                            Some(signature) => match signature_error(
                                peer.public_key,
                                transcript,
                                ROLE_RESPONDER,
                                signature,
                            ) {
                                Some(error) => Err(error),
                                None => Ok((peer, transcript)),
                            },
                        },
                    },
                }
            },
        }
    }

    /// Whether the initiator takes a frame for the responder's proof, and can
    /// still send.
    pub open spec fn takes_proof(self, frame: Seq<u8>) -> bool {
        &&& self.sent_auth
        &&& self.transport matches Some(t)
        &&& t.send_nonce < u64::MAX
        &&& auth_opened(t, frame, ROLE_RESPONDER, 2) matches (Ok(plaintext), after)
        &&& (InitiatorView { transport: Some(after), ..self }).judged(plaintext) is Ok
    }

    /// What becomes of an initiator that receives the responder's proof.
    #[verifier::opaque]
    pub open spec fn after_proof(self, frame: Seq<u8>) -> (
        Result<Seq<u8>, SyncError>,
        InitiatorView,
    ) {
        if !self.sent_auth {
            (Err(SyncError::HelloNotSent), self)
        } else {
            match self.transport {
                None => (Err(SyncError::TransportMissing), self),
                Some(t) => {
                    let (payload, after) = auth_opened(t, frame, ROLE_RESPONDER, 2);
                    let read = InitiatorView { transport: Some(after), ..self };
                    match payload {
                        Err(error) => (Err(error), read),
                        Ok(plaintext) => match read.judged(plaintext) {
                            Err(error) => (Err(error), read),
                            Ok((peer, transcript)) => {
                                let (reply, sent) = auth_sealed(
                                    after,
                                    ROLE_INITIATOR,
                                    3,
                                    ed25519_sign(
                                        self.identity,
                                        signature_message(transcript, ROLE_INITIATOR),
                                    ),
                                );
                                (
                                    reply,
                                    InitiatorView {
                                        transport: Some(sent),
                                        transcript: Some(transcript),
                                        peer: Some(peer),
                                        ..self
                                    },
                                )
                            },
                        },
                    }
                },
            }
        }
    }

    /// What becomes of an initiator that receives the acknowledgement.
    #[verifier::opaque]
    pub open spec fn after_ack(self, frame: Seq<u8>) -> (
        Result<SessionView, SyncError>,
        InitiatorView,
    ) {
        match self.transport {
            None => (Err(SyncError::TransportMissing), self),
            Some(t) => {
                let (payload, after) = auth_opened(t, frame, ROLE_RESPONDER, 4);
                let read = InitiatorView { transport: Some(after), ..self };
                match payload {
                    Err(error) => (Err(error), read),
                    Ok(plaintext) => if plaintext != utf8(ACK_MAGIC@) {
                        (Err(SyncError::AckInvalid), read)
                    } else {
                        match self.peer {
                            None => (Err(SyncError::ResponderProofMissing), read),
                            Some(peer) => match self.transcript {
                                None => (
                                    Err(SyncError::TranscriptMissing),
                                    InitiatorView { peer: None, ..read },
                                ),
                                Some(transcript) => (
                                    Ok(
                                        SessionView {
                                            pair_id: self.pair_id,
                                            local_device_id: self.certificate.device_id,
                                            peer_device_id: peer.device_id,
                                            local_certificate: self.certificate,
                                            peer_certificate: peer.certificate,
                                            session_binding: sha256(transcript),
                                            transport: after,
                                            peer_public_key: peer.public_key,
                                            local_role: ROLE_INITIATOR,
                                        },
                                    ),
                                    InitiatorView { peer: None, transport: None, ..self },
                                ),
                            },
                        }
                    },
                }
            },
        }
    }
}

/// Initiator side of the caller-driven pairing exchange.
pub struct PairingInitiator {
    identity: DeviceIdentity,
    pair_id: String,
    certificate: DeviceCertificate,
    expected_peer_device_id: String,
    validation: PeerValidation,
    handshake: Option<snow::HandshakeState>,
    local_static_public: [u8; 32],
    transport: Option<snow::TransportState>,
    handshake_info: Option<HandshakeInfo>,
    transcript: Option<Vec<u8>>,
    peer: Option<PeerAuth>,
    sent_auth: bool,
}

impl View for PairingInitiator {
    type V = InitiatorView;

    closed spec fn view(&self) -> InitiatorView {
        InitiatorView {
            identity: self.identity@,
            pair_id: self.pair_id@,
            certificate: self.certificate@,
            expected_peer: self.expected_peer_device_id@,
            validation: self.validation.model(),
            handshake: match self.handshake {
                Some(handshake) => Some(handshake_view(handshake)),
                None => None,
            },
            local_static: self.local_static_public@,
            transport: match self.transport {
                Some(transport) => Some(transport_view(transport)),
                None => None,
            },
            info: match self.handshake_info {
                Some(info) => Some(info.model()),
                None => None,
            },
            transcript: match self.transcript {
                Some(transcript) => Some(transcript@),
                None => None,
            },
            peer: match self.peer {
                Some(peer) => Some(peer@),
                None => None,
            },
            sent_auth: self.sent_auth,
        }
    }
}

impl PairingInitiator {
    /// Creates an initiator for first contact, under the PairID that sixteen
    /// random bytes give. The local certificate is checked before any network
    /// bytes are emitted.
    pub fn new(
        identity: DeviceIdentity,
        certificate: DeviceCertificate,
        expected_peer_device_id: String,
        root: PinnedOmarchyRoot,
        now: u64,
        pair_entropy: [u8; 16],
    ) -> (result: Result<Self, SyncError>)
        ensures
            match setup_error(
                identity@,
                certificate@,
                expected_peer_device_id@,
                root@,
                now,
            ) {
                Some(error) => result == Err::<Self, SyncError>(error),
                None => {
                    &&& result matches Ok(initiator)
                    &&& initiator@.wf()
                    &&& exists|secret: Seq<u8>|
                        secret.len() == 32 && initiator@ == #[trigger] InitiatorView::fresh(
                            identity@,
                            hex(pair_entropy@),
                            certificate@,
                            expected_peer_device_id@,
                            ValidationView::Current { root: root@, now },
                            secret,
                        )
                    &&& initiator@.can_start()
                },
            },
    {
        validate_local(&identity, &certificate, &root, now)?;
        validate_expected_peer(expected_peer_device_id.as_str(), certificate.device_id.as_str())?;
        let pair_id = random_pair_id(&pair_entropy);
        let (handshake, public) = build_handshake(true, MODE_FIRST_CONTACT, pair_id.as_str())?;
        let ghost secret = handshake_view(handshake).secret;
        let initiator = PairingInitiator {
            identity,
            pair_id,
            certificate,
            expected_peer_device_id,
            validation: PeerValidation::Current { root, now },
            handshake: Some(handshake),
            local_static_public: public,
            transport: None,
            handshake_info: None,
            transcript: None,
            peer: None,
            sent_auth: false,
        };
        assert(initiator@ == InitiatorView::fresh(
            identity@,
            hex(pair_entropy@),
            certificate@,
            expected_peer_device_id@,
            ValidationView::Current { root: root@, now },
            secret,
        ));
        Ok(initiator)
    }

    /// Creates an initiator for an already active bilateral pairing. The
    /// context pins the local and peer identities and contains the exact
    /// certificates validated when the pairing was authorized, so expiry of
    /// those certificates does not break this relationship.
    pub fn new_reconnect(identity: DeviceIdentity, context: PairedIdentityContext) -> (result:
        Result<Self, SyncError>)
        ensures
            match context@.role_of(identity@) {
                None => result == Err::<Self, SyncError>(SyncError::NotParticipant),
                Some(role) => if role != ROLE_INITIATOR {
                    result == Err::<Self, SyncError>(SyncError::NotInitiator)
                } else if !is_id(context@.pair_id) {
                    result == Err::<Self, SyncError>(SyncError::InvalidPairId)
                } else {
                    &&& result matches Ok(initiator)
                    &&& initiator@.wf()
                    &&& exists|secret: Seq<u8>|
                        secret.len() == 32 && initiator@ == #[trigger] InitiatorView::fresh(
                            identity@,
                            context@.pair_id,
                            context@.initiator_certificate,
                            context@.responder_device_id,
                            ValidationView::Paired(context@),
                            secret,
                        )
                    &&& initiator@.can_start()
                },
            },
    {
        let role: u8 = context.role_for(&identity)?;
        if role != ROLE_INITIATOR {
            return Err(SyncError::NotInitiator);
        }
        let certificate = context.local_certificate(role);
        let expected_peer_device_id = context.peer_device_id(role).to_string();
        let pair_id = context.pair_id().to_string();
        let (handshake, public) = build_handshake(true, MODE_RECONNECT, pair_id.as_str())?;
        let ghost secret = handshake_view(handshake).secret;
        let initiator = PairingInitiator {
            identity,
            pair_id,
            certificate,
            expected_peer_device_id,
            validation: PeerValidation::Paired(Box::new(context)),
            handshake: Some(handshake),
            local_static_public: public,
            transport: None,
            handshake_info: None,
            transcript: None,
            peer: None,
            sent_auth: false,
        };
        assert(initiator@ == InitiatorView::fresh(
            identity@,
            context@.pair_id,
            context@.initiator_certificate,
            context@.responder_device_id,
            ValidationView::Paired(context@),
            secret,
        ));
        Ok(initiator)
    }

    /// Emits Noise XX message 1. The frame explicitly identifies the sender
    /// role and sequence, preventing reflection across the handshake.
    pub fn start(&mut self) -> (result: Result<Vec<u8>, SyncError>)
        requires
            old(self)@.wf(),
        ensures
            final(self)@.wf(),
            exists|ephemeral: Seq<u8>|
                ephemeral.len() == 32 && (outcome(result), final(self)@) == #[trigger] old(
                    self,
                )@.started(ephemeral),
            result is Ok <==> old(self)@.can_start(),
    {
        let ghost zeros = Seq::new(32, |i: int| 0u8);
        let message: Vec<u8> = match &mut self.handshake {
            None => {
                assert(old(self)@.started(zeros).0 is Err);
                return Err(SyncError::PairingAdvanced);
            },
            Some(handshake) => match noise::write_handshake(handshake) {
                Ok(message) => message,
                Err(error) => {
                    assert(old(self)@.started(zeros).0 is Err);
                    return Err(error);
                },
            },
        };
        let mode: u8 = self.validation.mode();
        let result = encode_start_frame(
            KIND_HANDSHAKE,
            ROLE_INITIATOR,
            mode,
            self.pair_id.as_str(),
            message.as_slice(),
            MAX_HANDSHAKE_FRAME,
        );
        proof {
            let before = old(self)@.handshake->Some_0;
            let after = self@.handshake->Some_0;
            let ephemeral = choose|ephemeral: Seq<u8>|
                ephemeral.len() == 32 && #[trigger] noise_write(before, Seq::empty(), ephemeral)
                    == (message@, after);
            assert(old(self)@.started(ephemeral).1 == self@);
        }
        result
    }

    /// Consumes responder message 2 and returns message 3 plus the encrypted
    /// initiator authentication hello.
    pub fn receive_responder_handshake(&mut self, frame: &[u8]) -> (result: Result<
        (Vec<u8>, Vec<u8>),
        SyncError,
    >)
        requires
            old(self)@.wf(),
        ensures
            final(self)@.wf(),
            exists|ephemeral: Seq<u8>|
                ephemeral.len() == 32 && (frame_pair(result), final(self)@) == #[trigger] old(
                    self,
                )@.after_handshake(frame@, ephemeral),
            result is Ok <==> old(self)@.takes_handshake(frame@),
    {
        proof {
            reveal(InitiatorView::after_handshake);
        }
        let ghost zeros = Seq::new(32, |i: int| 0u8);
        let (kind, role, message) = match decode_frame(frame, MAX_HANDSHAKE_FRAME) {
            Ok(parts) => parts,
            Err(error) => {
                assert(old(self)@.after_handshake(frame@, zeros).0 is Err);
                return Err(error);
            },
        };
        if kind != KIND_HANDSHAKE || role != ROLE_RESPONDER {
            assert(old(self)@.after_handshake(frame@, zeros).0 is Err);
            return Err(SyncError::ResponderHandshakeUnexpected);
        }
        let mut handshake = match self.handshake.take() {
            Some(handshake) => handshake,
            None => {
                assert(old(self)@.after_handshake(frame@, zeros).0 is Err);
                return Err(SyncError::PairingAdvanced);
            },
        };
        if let Err(error) = noise::read_handshake(&mut handshake, message) {
            self.handshake = Some(handshake);
            assert(old(self)@.after_handshake(frame@, zeros).1 == self@);
            return Err(error);
        }
        let ghost read = handshake_view(handshake);
        let message3: Vec<u8> = match noise::write_handshake(&mut handshake) {
            Ok(message) => message,
            Err(error) => {
                self.handshake = Some(handshake);
                assert(old(self)@.after_handshake(frame@, zeros).1 == self@);
                return Err(error);
            },
        };
        let ghost written = handshake_view(handshake);
        let ghost ephemeral = choose|ephemeral: Seq<u8>|
            ephemeral.len() == 32 && #[trigger] noise_write(read, Seq::empty(), ephemeral) == (
                message3@,
                written,
            );
        assert(old(self)@.after_handshake(frame@, ephemeral) == old(self)@.after_messages(
            message3@,
            written,
        ));
        let (mut transport, info) = finish_handshake(handshake)?;
        self.handshake_info = Some(info);
        self.sent_auth = true;
        let hello: Vec<u8> = match auth_hello(&self.certificate) {
            Ok(hello) => hello,
            Err(error) => {
                self.transport = Some(transport);
                return Err(error);
            },
        };
        let auth = encrypt_auth(&mut transport, ROLE_INITIATOR, 1, hello.as_slice());
        self.transport = Some(transport);
        let auth_frame: Vec<u8> = auth?;
        let handshake_frame: Vec<u8> = encode_frame(
            KIND_HANDSHAKE,
            ROLE_INITIATOR,
            message3.as_slice(),
            MAX_HANDSHAKE_FRAME,
        )?;
        Ok((handshake_frame, auth_frame))
    }

    /// The peer that a decrypted responder proof introduces.
    fn parse_auth_proof(&self, payload: &[u8]) -> (result: Result<PeerAuth, SyncError>)
        ensures
            outcome(result) == self@.validation.peer(payload@, ROLE_RESPONDER, true),
    {
        match &self.validation {
            PeerValidation::Current { root, now } => parse_auth_proof(payload, root, *now),
            PeerValidation::Paired(context) => parse_paired_auth(
                payload,
                context,
                ROLE_RESPONDER,
                true,
            ),
        }
    }

    /// The transcript that this end makes with a peer.
    fn build_transcript(&self, peer: &PeerAuth) -> (result: Result<Vec<u8>, SyncError>)
        ensures
            outcome(result) == (match self@.info {
                None => Err::<Seq<u8>, SyncError>(SyncError::HandshakeInfoMissing),
                Some(info) => transcript_encoded(
                    self@.transcript_with(info, peer@.certificate),
                ),
            }),
    {
        match &self.handshake_info {
            None => Err(SyncError::HandshakeInfoMissing),
            Some(info) => make_transcript(
                &info.hash,
                self.validation.mode(),
                self.pair_id.as_str(),
                &self.certificate,
                &peer.certificate,
                &self.local_static_public,
                &info.remote_static,
            ),
        }
    }

    /// Judges a decrypted responder proof: the peer it introduces must be the
    /// expected one, and its signature must cover the transcript that this end
    /// makes with it.
    pub fn judge_responder_proof(&self, payload: &[u8]) -> (result: Result<
        (PeerAuth, Vec<u8>),
        SyncError,
    >)
        ensures
            match result {
                Ok((peer, transcript)) => self@.judged(payload@) == Ok::<
                    (AuthView, Seq<u8>),
                    SyncError,
                >((peer@, transcript@)),
                Err(error) => self@.judged(payload@) == Err::<(AuthView, Seq<u8>), SyncError>(
                    error,
                ),
            },
    {
        proof {
            reveal(InitiatorView::judged);
        }
        let peer = self.parse_auth_proof(payload)?;
        if peer.device_id == self.certificate.device_id {
            return Err(SyncError::Reflection);
        }
        if peer.device_id != self.expected_peer_device_id {
            return Err(SyncError::ResponderNotDiscovered);
        }
        let transcript: Vec<u8> = self.build_transcript(&peer)?;
        verify_signature(&peer, transcript.as_slice(), ROLE_RESPONDER)?;
        Ok((peer, transcript))
    }

    /// Verifies the responder's encrypted certificate and signature, then emits
    /// the initiator's encrypted transcript signature.
    pub fn receive_responder_auth(&mut self, frame: &[u8]) -> (result: Result<Vec<u8>, SyncError>)
        requires
            old(self)@.wf(),
        ensures
            final(self)@.wf(),
            (outcome(result), final(self)@) == old(self)@.after_proof(frame@),
            result is Ok <==> old(self)@.takes_proof(frame@),
    {
        proof {
            reveal(InitiatorView::after_proof);
            reveal(auth_opened);
        }
        if !self.sent_auth {
            return Err(SyncError::HelloNotSent);
        }
        let payload: Vec<u8> = match &mut self.transport {
            None => {
                return Err(SyncError::TransportMissing);
            },
            Some(transport) => decrypt_auth(transport, frame, ROLE_RESPONDER, 2)?,
        };
        let (peer, transcript) = self.judge_responder_proof(payload.as_slice())?;
        proof {
            judged_is_proven(self@, payload@);
        }
        let signature: Vec<u8> = signed_auth_payload(
            &self.identity,
            transcript.as_slice(),
            ROLE_INITIATOR,
        );
        self.transcript = Some(transcript);
        self.peer = Some(peer);
        match &mut self.transport {
            None => Err(SyncError::TransportMissing),
            Some(transport) => encrypt_auth(transport, ROLE_INITIATOR, 3, signature.as_slice()),
        }
    }

    /// Completes only after the responder acknowledges that it verified the
    /// initiator signature too. The session is the outcome of one bilateral
    /// authentication.
    pub fn receive_responder_ack(&mut self, frame: &[u8]) -> (result: Result<
        AuthenticatedPairingSession,
        SyncError,
    >)
        requires
            old(self)@.wf(),
        ensures
            final(self)@.wf(),
            (outcome(result), final(self)@) == old(self)@.after_ack(frame@),
            result matches Ok(session) ==> session@.wf() && session@.authentic(
                old(self)@.validation,
                old(self)@.expected_peer,
            ),
    {
        proof {
            reveal(InitiatorView::after_ack);
        }
        let payload: Vec<u8> = match &mut self.transport {
            None => {
                return Err(SyncError::TransportMissing);
            },
            Some(transport) => decrypt_auth(transport, frame, ROLE_RESPONDER, 4)?,
        };
        if !bytes_eq(payload.as_slice(), ACK_MAGIC.as_bytes()) {
            return Err(SyncError::AckInvalid);
        }
        let peer = match self.peer.take() {
            Some(peer) => peer,
            None => {
                return Err(SyncError::ResponderProofMissing);
            },
        };
        let session_binding: [u8; 32] = match &self.transcript {
            Some(transcript) => digest_transcript(transcript.as_slice()),
            None => {
                return Err(SyncError::TranscriptMissing);
            },
        };
        match self.transport.take() {
            None => Err(SyncError::TransportMissing),
            Some(transport) => {
                let session = AuthenticatedPairingSession {
                    pair_id: self.pair_id.clone(),
                    local_device_id: self.certificate.device_id.clone(),
                    peer_device_id: peer.device_id,
                    local_certificate: self.certificate.clone(),
                    peer_certificate: peer.certificate,
                    session_binding,
                    transport,
                    peer_public_key: peer.public_key,
                    local_role: ROLE_INITIATOR,
                };
                proof {
                    let before = old(self)@;
                    let who = before.peer->Some_0;
                    let t = before.transcript_with(before.info->Some_0, who.certificate);
                    assert(session@.authenticated_by(
                        before.validation,
                        before.expected_peer,
                        t,
                        who.signature->Some_0,
                    ));
                }
                Ok(session)
            },
        }
    }
}

/// A peer that was judged good has proved itself.
proof fn judged_is_proven(v: InitiatorView, payload: Seq<u8>)
    requires
        v.judged(payload) is Ok,
    ensures
        ({
            let (peer, bytes) = v.judged(payload)->Ok_0;
            let after = InitiatorView { transcript: Some(bytes), peer: Some(peer), ..v };
            v.handshake is None ==> after.proven(peer)
        }),
{
    reveal(InitiatorView::judged);
}

/// The outcome of an operation that gives two frames.
pub open spec fn frame_pair(result: Result<(Vec<u8>, Vec<u8>), SyncError>) -> Result<
    (Seq<u8>, Seq<u8>),
    SyncError,
> {
    match result {
        Ok((a, b)) => Ok((a@, b@)),
        Err(error) => Err(error),
    }
}

// ---------------------------------------------------------------------------
// The responder.
// ---------------------------------------------------------------------------
/// Whether `bytes` are a transcript of a pairing between two certificates.
pub open spec fn transcript_between(
    mode: u8,
    pair_id: Option<Seq<char>>,
    initiator: CertificateView,
    responder: CertificateView,
    t: TranscriptView,
    bytes: Seq<u8>,
) -> bool {
    &&& t.mode == mode
    &&& Some(t.pair_id) == pair_id
    &&& t.initiator_certificate == initiator
    &&& t.responder_certificate == responder
    &&& transcript_encoded(t) == Ok::<Seq<u8>, SyncError>(bytes)
}

/// Whether `bytes` are some transcript of a pairing between two certificates.
#[verifier::opaque]
pub open spec fn is_transcript_between(
    mode: u8,
    pair_id: Option<Seq<char>>,
    initiator: CertificateView,
    responder: CertificateView,
    bytes: Seq<u8>,
) -> bool {
    exists|t: TranscriptView| transcript_between(mode, pair_id, initiator, responder, t, bytes)
}

/// The state of a responder.
pub struct ResponderView {
    pub identity: Seq<u8>,
    pub pair_id: Option<Seq<char>>,
    pub certificate: CertificateView,
    pub expected_peer: Seq<char>,
    pub validation: ValidationView,
    pub handshake: Option<HandshakeView>,
    pub local_static: Seq<u8>,
    pub transport: Option<TransportView>,
    pub info: Option<InfoView>,
    pub transcript: Option<Seq<u8>>,
    pub peer: Option<AuthView>,
    pub sent_auth: bool,
}

impl ResponderView {
    /// The transcript that this end makes with a peer under a PairID.
    pub open spec fn transcript_with(
        self,
        info: InfoView,
        pair_id: Seq<char>,
        peer: CertificateView,
    ) -> TranscriptView {
        TranscriptView {
            hash: info.hash,
            mode: self.validation.mode(),
            pair_id,
            initiator_certificate: peer,
            responder_certificate: self.certificate,
            initiator_static: info.remote_static,
            responder_static: self.local_static,
        }
    }

    /// Whether a peer has introduced itself to this end, with a transcript that
    /// it has yet to sign.
    pub open spec fn introduced(self, peer: AuthView) -> bool {
        &&& self.validation.accepts(
            peer.device_id,
            peer.public_key,
            peer.certificate,
            ROLE_INITIATOR,
        )
        &&& peer.device_id == self.expected_peer
        &&& peer.device_id != self.certificate.device_id
        &&& self.pair_id is Some
        &&& self.transcript matches Some(bytes) && is_transcript_between(
            self.validation.mode(),
            self.pair_id,
            peer.certificate,
            self.certificate,
            bytes,
        )
    }

    /// The Noise states are of the pinned protocol and on the right side, and a
    /// peer is remembered only once it has introduced itself.
    pub open spec fn wf(self) -> bool {
        &&& self.handshake matches Some(h) ==> h.params == NOISE_PARAMS@ && !h.initiator
        &&& self.transport matches Some(t) ==> t.params == NOISE_PARAMS@
        &&& self.peer matches Some(peer) ==> self.introduced(peer)
    }

    /// A new responder.
    pub open spec fn fresh(
        identity: Seq<u8>,
        pair_id: Option<Seq<char>>,
        certificate: CertificateView,
        expected_peer: Seq<char>,
        validation: ValidationView,
    ) -> ResponderView {
        ResponderView {
            identity,
            pair_id,
            certificate,
            expected_peer,
            validation,
            handshake: None,
            local_static: Seq::new(32, |i: int| 0u8),
            transport: None,
            info: None,
            transcript: None,
            peer: None,
            sent_auth: false,
        }
    }

    /// Whether the responder takes a frame for the initiator's start, when its
    /// fresh static key is `secret`.
    pub open spec fn takes_start(self, frame: Seq<u8>, secret: Seq<u8>) -> bool {
        &&& start_parsed(frame, MAX_HANDSHAKE_FRAME as int) matches Ok(start)
        &&& start.mode == self.validation.mode()
        &&& self.pair_id matches Some(pair_id) ==> pair_id == start.pair_id
        &&& noise_read(
            noise_start(false, secret, prologue(start.mode, start.pair_id)),
            start.message,
        ).0
    }

    /// What becomes of a responder that receives the initiator's start, when
    /// its fresh static key is `secret` and Noise draws `ephemeral`.
    #[verifier::opaque]
    pub open spec fn after_start(self, frame: Seq<u8>, secret: Seq<u8>, ephemeral: Seq<u8>) -> (
        Result<Seq<u8>, SyncError>,
        ResponderView,
    ) {
        match start_parsed(frame, MAX_HANDSHAKE_FRAME as int) {
            Err(error) => (Err(error), self),
            Ok(start) => if start.mode != self.validation.mode() {
                (Err(SyncError::PairingModeMismatch), self)
            } else if self.pair_id is Some && self.pair_id != Some(start.pair_id) {
                (Err(SyncError::PairIdMismatch), self)
            } else {
                let begun = ResponderView {
                    pair_id: Some(start.pair_id),
                    local_static: noise_public(secret),
                    ..self
                };
                let h = noise_start(false, secret, prologue(start.mode, start.pair_id));
                let (accepted, read) = noise_read(h, start.message);
                let reading = ResponderView { handshake: Some(read), ..begun };
                if !accepted {
                    (Err(SyncError::NoiseRead), reading)
                } else {
                    match handshake_written(read, ephemeral) {
                        None => (Err(SyncError::NoiseWrite), reading),
                        Some((message, written)) => (
                            frame_encoded(
                                FrameView {
                                    kind: KIND_HANDSHAKE,
                                    role: ROLE_RESPONDER,
                                    sequence: 0,
                                    payload: message,
                                },
                                MAX_HANDSHAKE_FRAME as int,
                            ),
                            ResponderView { handshake: Some(written), ..begun },
                        ),
                    }
                }
            },
        }
    }

    /// What a responder makes of a decrypted initiator hello: the peer and the
    /// transcript they share.
    #[verifier::opaque]
    pub open spec fn judged(self, payload: Seq<u8>) -> Result<(AuthView, Seq<u8>), SyncError> {
        match self.validation.peer(payload, ROLE_INITIATOR, false) {
            Err(error) => Err(error),
            Ok(peer) => match self.info {
                None => Err(SyncError::HandshakeInfoMissing),
                Some(info) => match self.pair_id {
                    None => Err(SyncError::PairIdMissing),
                    Some(pair_id) => match transcript_encoded(
                        self.transcript_with(info, pair_id, peer.certificate),
                    ) {
                        Err(error) => Err(error),
                        Ok(transcript) => if peer.device_id == self.certificate.device_id {
                            Err(SyncError::Reflection)
                        } else if peer.device_id != self.expected_peer {
                            Err(SyncError::InitiatorNotDiscovered)
                        } else {
                            Ok((peer, transcript))
                        },
                    },
                },
            },
        }
    }

    /// Whether the responder takes two frames for the initiator's last
    /// handshake message and its hello, and can present its certificate in
    /// answer.
    pub open spec fn takes_finish(self, handshake_frame: Seq<u8>, auth_frame: Seq<u8>) -> bool {
        &&& plain_frame_parsed(handshake_frame, MAX_HANDSHAKE_FRAME as int) matches Ok(f)
        &&& f.kind == KIND_HANDSHAKE
        &&& f.role == ROLE_INITIATOR
        &&& self.handshake matches Some(h)
        &&& h.position == 2
        &&& noise_read(h, f.payload).0
        &&& {
            let (transport, info) = handshake_finished(noise_read(h, f.payload).1)->Ok_0;
            let ready = ResponderView {
                handshake: None,
                info: Some(info),
                transport: Some(transport),
                ..self
            };
            ready.takes_hello(transport, auth_frame)
        }
    }

    /// Whether a responder with a transport takes a frame for the initiator's
    /// hello.
    pub open spec fn takes_hello(self, transport: TransportView, auth_frame: Seq<u8>) -> bool {
        &&& auth_opened(transport, auth_frame, ROLE_INITIATOR, 1) matches (Ok(hello), after)
        &&& (ResponderView { transport: Some(after), ..self }).judged(hello) is Ok
        &&& certificate_shape_error(self.certificate) is None
    }

    /// What becomes of a responder that receives the initiator's last handshake
    /// message and its hello.
    #[verifier::opaque]
    pub open spec fn after_finish(self, handshake_frame: Seq<u8>, auth_frame: Seq<u8>) -> (
        Result<Seq<u8>, SyncError>,
        ResponderView,
    ) {
        match plain_frame_parsed(handshake_frame, MAX_HANDSHAKE_FRAME as int) {
            Err(error) => (Err(error), self),
            Ok(f) => if f.kind != KIND_HANDSHAKE || f.role != ROLE_INITIATOR {
                (Err(SyncError::InitiatorFinishUnexpected), self)
            } else {
                match self.handshake {
                    None => (Err(SyncError::PairingAdvanced), self),
                    Some(h) => {
                        let (accepted, read) = noise_read(h, f.payload);
                        if !accepted {
                            (
                                Err(SyncError::NoiseRead),
                                ResponderView { handshake: Some(read), ..self },
                            )
                        } else {
                            match handshake_finished(read) {
                                Err(error) => (
                                    Err(error),
                                    ResponderView { handshake: None, ..self },
                                ),
                                Ok((transport, info)) => ResponderView {
                                    handshake: None,
                                    info: Some(info),
                                    transport: Some(transport),
                                    ..self
                                }.after_hello(transport, auth_frame),
                            }
                        }
                    },
                }
            },
        }
    }

    /// What becomes of a responder with a transport that receives a hello.
    #[verifier::opaque]
    pub open spec fn after_hello(self, transport: TransportView, auth_frame: Seq<u8>) -> (
        Result<Seq<u8>, SyncError>,
        ResponderView,
    ) {
        let (payload, after) = auth_opened(transport, auth_frame, ROLE_INITIATOR, 1);
        let read = ResponderView { transport: Some(after), ..self };
        match payload {
            Err(error) => (Err(error), read),
            Ok(hello) => match read.judged(hello) {
                Err(error) => (Err(error), read),
                Ok((peer, transcript)) => match hello_encoded(self.certificate) {
                    Err(error) => (
                        Err(error),
                        ResponderView { peer: Some(peer), sent_auth: true, ..read },
                    ),
                    Ok(own) => {
                        let (reply, sent) = auth_sealed(
                            after,
                            ROLE_RESPONDER,
                            2,
                            own + ed25519_sign(
                                self.identity,
                                signature_message(transcript, ROLE_RESPONDER),
                            ),
                        );
                        (
                            reply,
                            ResponderView {
                                peer: Some(peer),
                                sent_auth: true,
                                transcript: Some(transcript),
                                transport: Some(sent),
                                ..self
                            },
                        )
                    },
                },
            },
        }
    }

    /// Why a decrypted initiator signature is not accepted.
    pub open spec fn signature_fault(self, payload: Seq<u8>) -> Option<SyncError> {
        match self.peer {
            None => Some(SyncError::InitiatorHelloMissing),
            Some(peer) => match self.transcript {
                None => Some(SyncError::TranscriptMissing),
                Some(transcript) => if payload.len() != 64 {
                    Some(SyncError::SignatureSize)
                } else {
                    signature_error(peer.public_key, transcript, ROLE_INITIATOR, payload)
                },
            },
        }
    }

    /// Whether the responder takes a frame for the initiator's signature, and
    /// can still send.
    pub open spec fn takes_signature(self, frame: Seq<u8>) -> bool {
        &&& self.sent_auth
        &&& self.pair_id is Some
        &&& self.transport matches Some(t)
        &&& t.send_nonce < u64::MAX
        &&& auth_opened(t, frame, ROLE_INITIATOR, 3) matches (Ok(signature), _)
        &&& self.signature_fault(signature) is None
    }

    /// What becomes of a responder that receives the initiator's signature.
    #[verifier::opaque]
    pub open spec fn after_signature(self, frame: Seq<u8>) -> (
        Result<(Seq<u8>, SessionView), SyncError>,
        ResponderView,
    ) {
        if !self.sent_auth {
            (Err(SyncError::ProofNotSent), self)
        } else {
            match self.transport {
                None => (Err(SyncError::TransportMissing), self),
                Some(t) => {
                    let (payload, after) = auth_opened(t, frame, ROLE_INITIATOR, 3);
                    let read = ResponderView { transport: Some(after), ..self };
                    match payload {
                        Err(error) => (Err(error), read),
                        Ok(signature) => match self.signature_fault(signature) {
                            Some(error) => (Err(error), read),
                            None => {
                                let (ack, sent) = auth_sealed(
                                    after,
                                    ROLE_RESPONDER,
                                    4,
                                    utf8(ACK_MAGIC@),
                                );
                                let acked = ResponderView { transport: Some(sent), ..self };
                                match ack {
                                    Err(error) => (Err(error), acked),
                                    Ok(ack_frame) => match self.pair_id {
                                        None => (Err(SyncError::PairIdMissing), acked),
                                        Some(pair_id) => (
                                            Ok((ack_frame, self.session(pair_id, sent))),
                                            ResponderView { transport: None, ..self },
                                        ),
                                    },
                                }
                            },
                        },
                    }
                },
            }
        }
    }

    /// The session that this end completes.
    pub open spec fn session(self, pair_id: Seq<char>, transport: TransportView) -> SessionView {
        let peer = self.peer->Some_0;
        SessionView {
            pair_id,
            local_device_id: self.certificate.device_id,
            peer_device_id: peer.device_id,
            local_certificate: self.certificate,
            peer_certificate: peer.certificate,
            session_binding: sha256(self.transcript->Some_0),
            transport,
            peer_public_key: peer.public_key,
            local_role: ROLE_RESPONDER,
        }
    }
}

/// Responder side of the caller-driven pairing exchange.
pub struct PairingResponder {
    identity: DeviceIdentity,
    pair_id: Option<String>,
    certificate: DeviceCertificate,
    expected_peer_device_id: String,
    validation: PeerValidation,
    handshake: Option<snow::HandshakeState>,
    local_static_public: [u8; 32],
    transport: Option<snow::TransportState>,
    handshake_info: Option<HandshakeInfo>,
    transcript: Option<Vec<u8>>,
    peer: Option<PeerAuth>,
    sent_auth: bool,
}

impl View for PairingResponder {
    type V = ResponderView;

    closed spec fn view(&self) -> ResponderView {
        ResponderView {
            identity: self.identity@,
            pair_id: match self.pair_id {
                Some(pair_id) => Some(pair_id@),
                None => None,
            },
            certificate: self.certificate@,
            expected_peer: self.expected_peer_device_id@,
            validation: self.validation.model(),
            handshake: match self.handshake {
                Some(handshake) => Some(handshake_view(handshake)),
                None => None,
            },
            local_static: self.local_static_public@,
            transport: match self.transport {
                Some(transport) => Some(transport_view(transport)),
                None => None,
            },
            info: match self.handshake_info {
                Some(info) => Some(info.model()),
                None => None,
            },
            transcript: match self.transcript {
                Some(transcript) => Some(transcript@),
                None => None,
            },
            peer: match self.peer {
                Some(peer) => Some(peer@),
                None => None,
            },
            sent_auth: self.sent_auth,
        }
    }
}

impl PairingResponder {
    /// Inspects the bounded start frame before constructing responder state.
    /// This lets recovery choose an existing pending context only when the
    /// initiator also retained that PairID; otherwise a fresh first-contact
    /// attempt can safely resume a responder-only pending authorization.
    pub fn start_is_reconnect(frame: &[u8]) -> (result: Result<bool, SyncError>)
        ensures
            result == (match start_parsed(frame@, MAX_HANDSHAKE_FRAME as int) {
                Ok(start) => Ok::<bool, SyncError>(start.mode == MODE_RECONNECT),
                Err(error) => Err(error),
            }),
    {
        let (mode, _pair_id, _message) = decode_start_frame(frame, MAX_HANDSHAKE_FRAME)?;
        Ok(mode == MODE_RECONNECT)
    }

    /// Creates a responder for first contact. The local certificate is checked
    /// before any network bytes are emitted.
    pub fn new(
        identity: DeviceIdentity,
        certificate: DeviceCertificate,
        expected_peer_device_id: String,
        root: PinnedOmarchyRoot,
        now: u64,
    ) -> (result: Result<Self, SyncError>)
        ensures
            outcome(result) == (match setup_error(
                identity@,
                certificate@,
                expected_peer_device_id@,
                root@,
                now,
            ) {
                Some(error) => Err::<ResponderView, SyncError>(error),
                None => Ok(
                    ResponderView::fresh(
                        identity@,
                        None,
                        certificate@,
                        expected_peer_device_id@,
                        ValidationView::Current { root: root@, now },
                    ),
                ),
            }),
            result matches Ok(responder) ==> responder@.wf(),
    {
        validate_local(&identity, &certificate, &root, now)?;
        validate_expected_peer(expected_peer_device_id.as_str(), certificate.device_id.as_str())?;
        let responder = PairingResponder {
            identity,
            pair_id: None,
            certificate,
            expected_peer_device_id,
            validation: PeerValidation::Current { root, now },
            handshake: None,
            local_static_public: [0u8; 32],
            transport: None,
            handshake_info: None,
            transcript: None,
            peer: None,
            sent_auth: false,
        };
        assert(responder@.local_static =~= Seq::new(32, |i: int| 0u8));
        Ok(responder)
    }

    /// Creates a responder for an already active bilateral pairing. No current
    /// certificate or root check is needed here: the trust store has already
    /// validated the signed record at its authorization time.
    pub fn new_reconnect(identity: DeviceIdentity, context: PairedIdentityContext) -> (result:
        Result<Self, SyncError>)
        ensures
            outcome(result) == (match context@.role_of(identity@) {
                None => Err::<ResponderView, SyncError>(SyncError::NotParticipant),
                Some(role) => if role != ROLE_RESPONDER {
                    Err(SyncError::NotResponder)
                } else {
                    Ok(
                        ResponderView::fresh(
                            identity@,
                            Some(context@.pair_id),
                            context@.responder_certificate,
                            context@.initiator_device_id,
                            ValidationView::Paired(context@),
                        ),
                    )
                },
            }),
            result matches Ok(responder) ==> responder@.wf(),
    {
        let role: u8 = context.role_for(&identity)?;
        if role != ROLE_RESPONDER {
            return Err(SyncError::NotResponder);
        }
        let certificate = context.local_certificate(role);
        let expected_peer_device_id = context.peer_device_id(role).to_string();
        let pair_id = context.pair_id().to_string();
        let responder = PairingResponder {
            identity,
            pair_id: Some(pair_id),
            certificate,
            expected_peer_device_id,
            validation: PeerValidation::Paired(Box::new(context)),
            handshake: None,
            local_static_public: [0u8; 32],
            transport: None,
            handshake_info: None,
            transcript: None,
            peer: None,
            sent_auth: false,
        };
        assert(responder@.local_static =~= Seq::new(32, |i: int| 0u8));
        Ok(responder)
    }

    /// Consumes Noise message 1 and emits Noise message 2.
    pub fn receive_initiator_start(&mut self, frame: &[u8]) -> (result: Result<Vec<u8>, SyncError>)
        requires
            old(self)@.wf(),
        ensures
            final(self)@.wf(),
            exists|secret: Seq<u8>, ephemeral: Seq<u8>|
                secret.len() == 32 && ephemeral.len() == 32 && (outcome(result), final(self)@)
                    == #[trigger] old(self)@.after_start(frame@, secret, ephemeral) && (result is Ok
                    <==> old(self)@.takes_start(frame@, secret)),
    {
        proof {
            reveal(ResponderView::after_start);
        }
        let ghost zeros = Seq::new(32, |i: int| 0u8);
        let (mode, pair_id, message) = match decode_start_frame(frame, MAX_HANDSHAKE_FRAME) {
            Ok(parts) => parts,
            Err(error) => {
                assert(old(self)@.after_start(frame@, zeros, zeros).0 is Err);
                return Err(error);
            },
        };
        if mode != self.validation.mode() {
            assert(old(self)@.after_start(frame@, zeros, zeros).0 is Err);
            return Err(SyncError::PairingModeMismatch);
        }
        match &self.pair_id {
            Some(expected) => {
                if *expected != pair_id {
                    assert(old(self)@.after_start(frame@, zeros, zeros).0 is Err);
                    return Err(SyncError::PairIdMismatch);
                }
            },
            None => {},
        }
        let (mut handshake, public) = build_handshake(false, mode, pair_id.as_str())?;
        let ghost secret = handshake_view(handshake).secret;
        self.pair_id = Some(pair_id);
        self.local_static_public = public;
        if let Err(error) = noise::read_handshake(&mut handshake, message) {
            self.handshake = Some(handshake);
            assert(old(self)@.after_start(frame@, secret, zeros).1 == self@);
            return Err(error);
        }
        let ghost read = handshake_view(handshake);
        let message2: Vec<u8> = match noise::write_handshake(&mut handshake) {
            Ok(message) => message,
            Err(error) => {
                self.handshake = Some(handshake);
                assert(old(self)@.after_start(frame@, secret, zeros).1 == self@);
                return Err(error);
            },
        };
        proof {
            let written = handshake_view(handshake);
            let ephemeral = choose|ephemeral: Seq<u8>|
                ephemeral.len() == 32 && #[trigger] noise_write(read, Seq::empty(), ephemeral) == (
                    message2@,
                    written,
                );
            assert(old(self)@.after_start(frame@, secret, ephemeral).1.handshake == Some(written));
        }
        self.handshake = Some(handshake);
        encode_frame(KIND_HANDSHAKE, ROLE_RESPONDER, message2.as_slice(), MAX_HANDSHAKE_FRAME)
    }

    /// The peer that a decrypted initiator hello introduces.
    fn parse_auth_hello(&self, payload: &[u8]) -> (result: Result<PeerAuth, SyncError>)
        ensures
            outcome(result) == self@.validation.peer(payload@, ROLE_INITIATOR, false),
    {
        match &self.validation {
            PeerValidation::Current { root, now } => parse_auth_hello(payload, root, *now),
            PeerValidation::Paired(context) => parse_paired_auth(
                payload,
                context,
                ROLE_INITIATOR,
                false,
            ),
        }
    }

    /// The transcript that this end makes with a peer.
    fn build_transcript(&self, peer: &PeerAuth) -> (result: Result<Vec<u8>, SyncError>)
        ensures
            outcome(result) == (match self@.info {
                None => Err::<Seq<u8>, SyncError>(SyncError::HandshakeInfoMissing),
                Some(info) => match self@.pair_id {
                    None => Err(SyncError::PairIdMissing),
                    Some(pair_id) => transcript_encoded(
                        self@.transcript_with(info, pair_id, peer@.certificate),
                    ),
                },
            }),
    {
        match &self.handshake_info {
            None => Err(SyncError::HandshakeInfoMissing),
            Some(info) => match &self.pair_id {
                None => Err(SyncError::PairIdMissing),
                Some(pair_id) => make_transcript(
                    &info.hash,
                    self.validation.mode(),
                    pair_id.as_str(),
                    &peer.certificate,
                    &self.certificate,
                    &info.remote_static,
                    &self.local_static_public,
                ),
            },
        }
    }

    /// Judges a decrypted initiator hello: the peer it introduces must be the
    /// expected one.
    pub fn judge_initiator_hello(&self, payload: &[u8]) -> (result: Result<
        (PeerAuth, Vec<u8>),
        SyncError,
    >)
        ensures
            match result {
                Ok((peer, transcript)) => self@.judged(payload@) == Ok::<
                    (AuthView, Seq<u8>),
                    SyncError,
                >((peer@, transcript@)),
                Err(error) => self@.judged(payload@) == Err::<(AuthView, Seq<u8>), SyncError>(
                    error,
                ),
            },
    {
        proof {
            reveal(ResponderView::judged);
        }
        let peer = self.parse_auth_hello(payload)?;
        let transcript: Vec<u8> = self.build_transcript(&peer)?;
        if peer.device_id == self.certificate.device_id {
            return Err(SyncError::Reflection);
        }
        if peer.device_id != self.expected_peer_device_id {
            return Err(SyncError::InitiatorNotDiscovered);
        }
        Ok((peer, transcript))
    }

    /// Consumes message 3 and the initiator's encrypted hello; returns the
    /// responder's encrypted certificate/signature proof.
    pub fn receive_initiator_finish(&mut self, handshake_frame: &[u8], auth_frame: &[u8]) -> (result:
        Result<Vec<u8>, SyncError>)
        requires
            old(self)@.wf(),
        ensures
            final(self)@.wf(),
            (outcome(result), final(self)@) == old(self)@.after_finish(
                handshake_frame@,
                auth_frame@,
            ),
            result is Ok <==> old(self)@.takes_finish(handshake_frame@, auth_frame@),
    {
        proof {
            reveal(ResponderView::after_finish);
        }
        let (kind, role, message) = decode_frame(handshake_frame, MAX_HANDSHAKE_FRAME)?;
        if kind != KIND_HANDSHAKE || role != ROLE_INITIATOR {
            return Err(SyncError::InitiatorFinishUnexpected);
        }
        let mut handshake = match self.handshake.take() {
            Some(handshake) => handshake,
            None => {
                return Err(SyncError::PairingAdvanced);
            },
        };
        if let Err(error) = noise::read_handshake(&mut handshake, message) {
            self.handshake = Some(handshake);
            return Err(error);
        }
        let (transport, info) = finish_handshake(handshake)?;
        self.handshake_info = Some(info);
        self.transport = Some(transport);
        self.receive_initiator_hello(auth_frame)
    }

    /// Consumes the initiator's encrypted hello.
    fn receive_initiator_hello(&mut self, auth_frame: &[u8]) -> (result: Result<Vec<u8>, SyncError>)
        requires
            old(self)@.wf(),
            old(self)@.transport is Some,
        ensures
            final(self)@.wf(),
            (outcome(result), final(self)@) == old(self)@.after_hello(
                old(self)@.transport->Some_0,
                auth_frame@,
            ),
            result is Ok <==> (old(self)@.transport->Some_0.send_nonce < u64::MAX && old(
                self,
            )@.takes_hello(old(self)@.transport->Some_0, auth_frame@)),
    {
        proof {
            reveal(ResponderView::after_hello);
            reveal(auth_opened);
        }
        let hello: Vec<u8> = match &mut self.transport {
            None => {
                return Err(SyncError::TransportMissing);
            },
            Some(transport) => decrypt_auth(transport, auth_frame, ROLE_INITIATOR, 1)?,
        };
        let (peer, transcript) = self.judge_initiator_hello(hello.as_slice())?;
        proof {
            judged_is_introduced(self@, hello@);
        }
        self.peer = Some(peer);
        self.sent_auth = true;
        let proof_bytes: Vec<u8> = auth_proof(
            &self.certificate,
            &self.identity,
            transcript.as_slice(),
            ROLE_RESPONDER,
        )?;
        self.transcript = Some(transcript);
        match &mut self.transport {
            None => Err(SyncError::TransportMissing),
            Some(transport) => encrypt_auth(transport, ROLE_RESPONDER, 2, proof_bytes.as_slice()),
        }
    }

    /// Judges a decrypted initiator signature: it must cover the transcript
    /// that this end made with the peer that introduced itself.
    pub fn judge_initiator_signature(&self, payload: &[u8]) -> (result: Result<(), SyncError>)
        ensures
            result == checked(self@.signature_fault(payload@)),
    {
        let peer = match &self.peer {
            Some(peer) => peer,
            None => {
                return Err(SyncError::InitiatorHelloMissing);
            },
        };
        let transcript = match &self.transcript {
            Some(transcript) => transcript,
            None => {
                return Err(SyncError::TranscriptMissing);
            },
        };
        verify_signature_payload(peer, transcript.as_slice(), ROLE_INITIATOR, payload)
    }

    /// Verifies the initiator's transcript signature and returns an encrypted
    /// ack together with the now-authenticated transport. The session is the
    /// outcome of one bilateral authentication.
    pub fn receive_initiator_auth(&mut self, frame: &[u8]) -> (result: Result<
        (Vec<u8>, AuthenticatedPairingSession),
        SyncError,
    >)
        requires
            old(self)@.wf(),
        ensures
            final(self)@.wf(),
            (acknowledged(result), final(self)@) == old(self)@.after_signature(frame@),
            result is Ok <==> old(self)@.takes_signature(frame@),
            result matches Ok((ack, session)) ==> session@.wf() && session@.authentic(
                old(self)@.validation,
                old(self)@.expected_peer,
            ),
    {
        proof {
            reveal(ResponderView::after_signature);
            reveal(auth_opened);
            auth_magic_lengths();
        }
        if !self.sent_auth {
            return Err(SyncError::ProofNotSent);
        }
        let payload: Vec<u8> = match &mut self.transport {
            None => {
                return Err(SyncError::TransportMissing);
            },
            Some(transport) => decrypt_auth(transport, frame, ROLE_INITIATOR, 3)?,
        };
        self.judge_initiator_signature(payload.as_slice())?;
        let ack: Vec<u8> = match &mut self.transport {
            None => {
                return Err(SyncError::TransportMissing);
            },
            Some(transport) => encrypt_auth(transport, ROLE_RESPONDER, 4, ACK_MAGIC.as_bytes())?,
        };
        let pair_id = match &self.pair_id {
            Some(pair_id) => pair_id.clone(),
            None => {
                return Err(SyncError::PairIdMissing);
            },
        };
        match (&self.peer, &self.transcript, self.transport.take()) {
            (Some(peer), Some(transcript), Some(transport)) => {
                let session = AuthenticatedPairingSession {
                    pair_id,
                    local_device_id: self.certificate.device_id.clone(),
                    peer_device_id: peer.device_id.clone(),
                    local_certificate: self.certificate.clone(),
                    peer_certificate: peer.certificate.clone(),
                    session_binding: digest_transcript(transcript.as_slice()),
                    transport,
                    peer_public_key: peer.public_key,
                    local_role: ROLE_RESPONDER,
                };
                proof {
                    let before = old(self)@;
                    let who = before.peer->Some_0;
                    let bytes = before.transcript->Some_0;
                    reveal(is_transcript_between);
                    let t = choose|t: TranscriptView|
                        transcript_between(
                            before.validation.mode(),
                            before.pair_id,
                            who.certificate,
                            before.certificate,
                            t,
                            bytes,
                        );
                    assert(session@.authenticated_by(
                        before.validation,
                        before.expected_peer,
                        t,
                        payload@,
                    ));
                }
                Ok((ack, session))
            },
            _ => Err(SyncError::TransportMissing),
        }
    }
}

/// The outcome of an operation that gives a frame and a session.
pub open spec fn acknowledged(
    result: Result<(Vec<u8>, AuthenticatedPairingSession), SyncError>,
) -> Result<(Seq<u8>, SessionView), SyncError> {
    match result {
        Ok((frame, session)) => Ok((frame@, session@)),
        Err(error) => Err(error),
    }
}

/// A peer that was judged good has introduced itself.
proof fn judged_is_introduced(v: ResponderView, payload: Seq<u8>)
    requires
        v.judged(payload) is Ok,
    ensures
        ({
            let (peer, bytes) = v.judged(payload)->Ok_0;
            ResponderView {
                transcript: Some(bytes),
                peer: Some(peer),
                ..v
            }.introduced(peer)
        }),
        hello_encoded(v.certificate) is Ok,
{
    reveal(ResponderView::judged);
    reveal(is_transcript_between);
    let (peer, bytes) = v.judged(payload)->Ok_0;
    let after = ResponderView { transcript: Some(bytes), peer: Some(peer), ..v };
    let t = v.transcript_with(v.info->Some_0, v.pair_id->Some_0, peer.certificate);
    assert(transcript_between(
        after.validation.mode(),
        after.pair_id,
        peer.certificate,
        after.certificate,
        t,
        bytes,
    ));
}

} // verus!
