//! The ways in which an operation of the library can be refused.
use vstd::prelude::*;

verus! {

/// One refusal. The variants are grouped by the part of the library that gives
/// them.
#[derive(Clone, Copy, Debug, PartialEq, Eq, Structural)]
pub enum SyncError {
    // Encoded fields.
    /// Truncated protocol-v3 message.
    Truncated,
    /// Trailing protocol-v3 bytes.
    TrailingBytes,
    /// Bounded field has invalid length.
    FieldLength,
    /// Bounded field exceeds limit.
    FieldExceedsLimit,
    /// Bounded field is not UTF-8.
    FieldNotUtf8,
    // Identities and capabilities.
    /// Device identity is not a regular file.
    IdentityNotRegular,
    /// Malformed device identity: expected 32 bytes.
    IdentityMalformed,
    /// Invalid DeviceID.
    InvalidDeviceId,
    /// Invalid capability.
    InvalidCapability,
    /// Cannot grant capability without an active bilateral pairing.
    CapabilityWithoutPairing,
    /// Capability record is not a regular file.
    CapabilityNotRegular,
    /// Malformed capability record.
    CapabilityMalformed,
    /// Capability record identity mismatch.
    CapabilityMismatch,
    // The pinned root.
    /// Invalid Ed25519 public key.
    InvalidPublicKey,
    /// Omarchy root key is neither raw bytes nor text.
    RootKeyNotText,
    /// Omarchy root key must be 32 raw bytes or 64 hexadecimal characters.
    RootKeyFormat,
    /// Invalid hexadecimal root key.
    RootKeyHex,
    /// Invalid Omarchy root Ed25519 key.
    RootKeyInvalid,
    /// Omarchy root key must be root-owned, regular, non-symlink, and non-writable.
    RootKeyNotSecure,
    /// Omarchy root key parent path is not root-controlled.
    RootKeyParentNotSecure,
    /// Omarchy root key file is too large.
    RootKeyTooLarge,
    // Certificates.
    /// Invalid certificate DeviceID.
    CertificateDeviceId,
    /// Invalid certified device name.
    CertificateName,
    /// Invalid certificate validity window.
    CertificateWindow,
    /// Invalid issuer key id.
    CertificateIssuerId,
    /// Certificate DeviceID does not match public key.
    CertificateBinding,
    /// Certificate exceeds size limit.
    CertificateTooLarge,
    /// Invalid certificate magic.
    CertificateMagic,
    /// Unsupported certificate schema.
    CertificateSchema,
    /// Invalid Omarchy certificate issuer signature.
    CertificateSignature,
    /// Certificate issuer key id is not pinned.
    CertificateIssuerNotPinned,
    /// Certificate is not yet valid.
    CertificateNotYetValid,
    /// Certificate has expired.
    CertificateExpired,
    // Discovery.
    /// Certificate does not belong to discovery identity.
    DiscoveryForeignCertificate,
    /// Discovery TCP port must not be zero.
    DiscoveryPortZero,
    /// Unsupported protocol version.
    DiscoveryVersion,
    /// Discovery announcement exceeds size limit.
    DiscoveryTooLarge,
    /// Invalid discovery magic.
    DiscoveryMagic,
    /// Unsupported or downgraded discovery protocol version.
    DiscoveryDowngraded,
    /// Discovery announcement is from the future.
    DiscoveryFromFuture,
    /// Discovery announcement is stale.
    DiscoveryStale,
    /// Invalid discovery device signature.
    DiscoverySignature,
    /// Discovery nonce has already been accepted.
    DiscoveryReplayed,
    /// Discovery replay cache is full.
    ReplayCacheFull,
    /// Replay cache limit must not be zero.
    ReplayLimitZero,
    // Pairing frames.
    /// Frame payload too large.
    FramePayloadTooLarge,
    /// Frame exceeds size limit.
    FrameTooLarge,
    /// Invalid or downgraded protocol frame.
    FrameProtocol,
    /// Invalid pairing role.
    FrameRole,
    /// Unexpected handshake or transport sequence.
    FrameSequence,
    /// Unexpected initiator handshake frame.
    StartFrameUnexpected,
    /// Truncated initiator handshake frame.
    StartFrameTruncated,
    /// Invalid pairing PairID.
    InvalidPairId,
    /// Invalid pairing authentication mode.
    PairingMode,
    // The Noise channel.
    /// Generate Noise static key.
    NoiseKeypair,
    /// Build Noise handshake.
    NoiseBuild,
    /// Write Noise handshake message.
    NoiseWrite,
    /// Read Noise handshake message.
    NoiseRead,
    /// Noise handshake is not finished.
    NoiseIncomplete,
    /// Missing Noise peer static key.
    NoisePeerKeyMissing,
    /// Invalid Noise peer static key length.
    NoisePeerKeyLength,
    /// Invalid Noise handshake hash length.
    NoiseHashLength,
    /// Enter Noise transport mode.
    NoiseTransport,
    /// Encrypt authentication frame.
    EncryptAuth,
    /// Decrypt authentication frame.
    DecryptAuth,
    /// Encrypt transport frame.
    EncryptTransport,
    /// Decrypt transport frame.
    DecryptTransport,
    // Authentication payloads.
    /// Invalid authentication payload.
    AuthPayload,
    /// Invalid peer DeviceID.
    AuthPeerId,
    /// Authentication hello unexpectedly contains signature.
    AuthHelloSigned,
    /// Authentication proof signature missing.
    AuthProofUnsigned,
    /// Peer certificate/key mismatch.
    PeerMismatch,
    /// Unexpected reconnect authentication signature state.
    ReconnectSignatureState,
    /// Reconnect peer identity differs from active pairing.
    ReconnectIdentity,
    /// Peer identity signature missing.
    PeerSignatureMissing,
    /// Peer identity signature invalid.
    PeerSignature,
    /// Invalid identity signature size.
    SignatureSize,
    /// Authentication payload exceeds size limit.
    AuthPayloadTooLarge,
    /// Unexpected authentication frame.
    AuthFrameUnexpected,
    // Pairing.
    /// Paired identity context fields differ.
    PairedContextMismatch,
    /// Device identity is not a participant in this pairing.
    NotParticipant,
    /// Paired identity is not the initiator for this session.
    NotInitiator,
    /// Paired identity is not the responder for this session.
    NotResponder,
    /// Local certificate does not match device identity.
    LocalCertificateMismatch,
    /// Invalid expected peer DeviceID.
    ExpectedPeerId,
    /// Expected peer DeviceID must differ from local identity.
    ExpectedPeerIsLocal,
    /// Pairing already advanced.
    PairingAdvanced,
    /// Unexpected responder handshake frame.
    ResponderHandshakeUnexpected,
    /// Unexpected initiator handshake completion frame.
    InitiatorFinishUnexpected,
    /// Initiator authentication hello was not sent.
    HelloNotSent,
    /// Responder authentication proof was not sent.
    ProofNotSent,
    /// Missing transport.
    TransportMissing,
    /// Missing Noise handshake info.
    HandshakeInfoMissing,
    /// Missing pairing PairID.
    PairIdMissing,
    /// Missing pairing transcript.
    TranscriptMissing,
    /// Pairing reflection detected.
    Reflection,
    /// Responder identity differs from authenticated discovery.
    ResponderNotDiscovered,
    /// Initiator identity differs from authenticated discovery.
    InitiatorNotDiscovered,
    /// Invalid pairing acknowledgement.
    AckInvalid,
    /// Responder proof was not verified.
    ResponderProofMissing,
    /// Initiator hello was not verified.
    InitiatorHelloMissing,
    /// Pairing authentication mode differs.
    PairingModeMismatch,
    /// Pairing PairID differs from the active relationship.
    PairIdMismatch,
    /// Transport plaintext exceeds size limit.
    TransportPlaintextTooLarge,
    /// Unexpected transport frame role or kind.
    TransportFrameUnexpected,
    // Pairing records.
    /// Invalid pairing ID.
    InvalidPairingId,
    /// Invalid pairing DeviceID.
    RecordDeviceId,
    /// Invalid pairing domain.
    RecordDomainLength,
    /// Invalid user-presence marker.
    UserPresence,
    /// Invalid authorization time.
    AuthorizationTime,
    /// Pairing certificates are required.
    CertificatesRequired,
    /// Certificate exceeds pairing record limit.
    RecordCertificateTooLarge,
    /// Pairing record exceeds size limit.
    RecordTooLarge,
    /// Malformed pairing record.
    RecordMalformed,
    /// Pairing record is not a regular file.
    RecordNotRegular,
    /// Invalid pairing record signature size.
    RecordSignatureSize,
    /// Invalid pairing record identity signature.
    RecordSignature,
    /// Pairing record protocol or domain mismatch.
    RecordProtocol,
    /// Pending pairing record protocol or domain mismatch.
    PendingProtocol,
    /// Active pairing record is incomplete.
    ActiveIncomplete,
    /// Pairing record is not fully bilateral.
    RecordIncomplete,
    /// Stored pairing certificate and identity fields differ.
    StoredIdentity,
    /// Pending pairing certificate and identity fields differ.
    PendingIdentity,
    /// Pairing certificate and identity fields differ.
    RecordIdentity,
    /// Pairing roles must identify different devices.
    RecordRoles,
    /// Pairing record is bound to another session.
    RecordSession,
    /// Pairing record public keys differ from session.
    RecordKeys,
    /// Authorization marker device is not a pairing participant.
    RecordAuthorizer,
    /// Local identity does not match authenticated session.
    RecordLocalIdentity,
    /// Conflicting pairing record already exists.
    RecordConflict,
    /// Local identity does not match authenticated pairing session.
    SessionIdentity,
    // The pairing store.
    /// Pairing authorization was not selected.
    AuthorizationNotSelected,
    /// Local pairing authorization could not be started.
    AuthorizationUnavailable,
    /// Local pairing authorization denied.
    AuthorizationDenied,
    /// Pairing record is already fully signed.
    AlreadyFullySigned,
    /// Local identity has already signed this record.
    AlreadySignedLocally,
    /// Pending authorization belongs to another device.
    PendingOfAnotherDevice,
    /// Active pairing record filename and PairID differ.
    RecordFilename,
    /// Pairing record appeared during write.
    RecordAppeared,
    /// Active pairing record is missing.
    ActiveMissing,
    /// Pairing PairID has been revoked.
    PairIdRevoked,
    /// Pairing has already been revoked.
    AlreadyRevoked,
    /// Local identity is not a participant in active pairing.
    NotActiveParticipant,
    /// Local identity is not a participant in pending pairing.
    NotPendingParticipant,
    // The runtime.
    /// Device certificate is not a regular file.
    EnrollmentNotRegular,
    /// Device certificate is group/world accessible.
    EnrollmentAccessible,
    /// Device certificate exceeds the 512-byte limit.
    EnrollmentTooLarge,
    /// Device certificate does not match the local DeviceIdentity.
    EnrollmentMismatch,
    /// Wire frame exceeds limit.
    WireLength,
    /// Pairing record application frame exceeds limit.
    AppFrameTooLarge,
    /// Invalid pairing application frame.
    AppFrame,
    /// Malformed pairing message.
    AppMessage,
    /// Invalid protocol-v3 routing preface.
    RoutePreface,
    /// Routing preface DeviceID differs from discovery.
    RouteDevice,
    /// Invalid routing preface signature.
    RouteSignature,
    /// Pairing recovery context is missing.
    RecoveryMissing,
    /// Pending recovery PairID differs from responder.
    RecoveryPairId,
    /// Active pairing record disappeared.
    ActiveDisappeared,
    /// Unexpected pairing record response.
    ResponseUnexpected,
    /// Expected finalized pairing acknowledgement.
    FinalizedExpected,
    /// Expected pairing record request.
    RequestExpected,
    /// Expected completed pairing record.
    CompleteExpected,
    /// Pairing run met an unexpected event.
    EventUnexpected,
    /// Another pairing is already in progress.
    PairingInProgress,
}

/// The outcome of an operation, with the value taken by its view.
pub open spec fn outcome<T: View>(result: Result<T, SyncError>) -> Result<T::V, SyncError> {
    match result {
        Ok(value) => Ok(value@),
        Err(error) => Err(error),
    }
}

/// The outcome of a check that finds a fault or none.
pub open spec fn checked(fault: Option<SyncError>) -> Result<(), SyncError> {
    match fault {
        Some(error) => Err(error),
        None => Ok(()),
    }
}

} // verus!
