use omarchy_syncd::authentication::{
    auth_hello, auth_proof, digest_transcript, make_transcript, parse_auth, parse_auth_hello,
    parse_auth_proof, signed_auth_payload, verify_signature, verify_signature_payload, PeerAuth,
};
use omarchy_syncd::error::SyncError;
use omarchy_syncd::frames::{
    decode_frame, decode_frame_with_sequence, decode_start_frame, encode_frame,
    encode_frame_with_sequence, encode_start_frame, validate_pair_id, FRAME_MAGIC, KIND_AUTH,
    KIND_HANDSHAKE, KIND_TRANSPORT, MAX_AUTH_FRAME, MAX_HANDSHAKE_FRAME, MAX_TRANSPORT_FRAME,
    MAX_TRANSPORT_PLAINTEXT, MODE_FIRST_CONTACT, MODE_RECONNECT, ROLE_INITIATOR, ROLE_RESPONDER,
};
use omarchy_syncd::identity::DeviceIdentity;
use omarchy_syncd::pairing::{
    random_pair_id, AuthenticatedPairingSession, PairingInitiator, PairingResponder,
};
use omarchy_syncd::protocol_v3::{DeviceCertificate, PinnedOmarchyRoot};

const PAIR_ID: &str = "00112233445566778899aabbccddeeff";

struct Fixture {
    root_identity: DeviceIdentity,
    initiator: DeviceIdentity,
    responder: DeviceIdentity,
    root: PinnedOmarchyRoot,
    now: u64,
}

impl Fixture {
    fn seeded(seed: u8) -> Self {
        let root_identity = DeviceIdentity::from_secret([seed; 32]);
        let root = PinnedOmarchyRoot::from_bytes(&root_identity.public_key()).unwrap();
        Self {
            root_identity,
            initiator: DeviceIdentity::from_secret([seed + 1; 32]),
            responder: DeviceIdentity::from_secret([seed + 2; 32]),
            root,
            now: 1_000_000,
        }
    }

    fn new() -> Self {
        Self::seeded(10)
    }

    fn certificate(&self, identity: &DeviceIdentity, name: &str) -> DeviceCertificate {
        let unsigned = DeviceCertificate::unsigned(
            identity.device_id(),
            identity.public_key(),
            name.to_string(),
            self.now - 10,
            self.now + 3_600,
            self.root.key_id().to_string(),
        )
        .unwrap();
        let signature = self.root_identity.sign(&unsigned.signing_bytes().unwrap());
        unsigned.with_signature(signature).unwrap()
    }

    fn ends(&self) -> (PairingInitiator, PairingResponder) {
        let initiator = PairingInitiator::new(
            self.initiator.clone(),
            self.certificate(&self.initiator, "Zenbook"),
            self.responder.device_id(),
            self.root.clone(),
            self.now,
            [0x5a; 16],
        )
        .unwrap();
        let responder = PairingResponder::new(
            self.responder.clone(),
            self.certificate(&self.responder, "K12"),
            self.initiator.device_id(),
            self.root.clone(),
            self.now,
        )
        .unwrap();
        (initiator, responder)
    }
}

fn exchange(
    fixture: Fixture,
) -> (AuthenticatedPairingSession, AuthenticatedPairingSession, Vec<u8>) {
    let (mut initiator, mut responder) = fixture.ends();
    let m1 = initiator.start().unwrap();
    let m2 = responder.receive_initiator_start(&m1).unwrap();
    let (m3, auth1) = initiator.receive_responder_handshake(&m2).unwrap();
    let auth2 = responder.receive_initiator_finish(&m3, &auth1).unwrap();
    let auth3 = initiator.receive_responder_auth(&auth2).unwrap();
    let (ack, responder_session) = responder.receive_initiator_auth(&auth3).unwrap();
    let initiator_session = initiator.receive_responder_ack(&ack).unwrap();
    (initiator_session, responder_session, auth1)
}

#[test]
fn mutually_authenticates_and_encrypts_application_data() {
    let (mut initiator, mut responder, _) = exchange(Fixture::new());
    assert_ne!(initiator.peer_device_id(), initiator.local_device_id());
    let wire = initiator.encrypt(b"secret payload").unwrap();
    assert!(!wire
        .windows(b"secret payload".len())
        .any(|window| window == b"secret payload"));
    assert_eq!(responder.decrypt(&wire).unwrap(), b"secret payload");
}

#[test]
fn altered_proof_and_reflected_role_are_rejected() {
    let (mut initiator, mut responder) = Fixture::new().ends();
    let m1 = initiator.start().unwrap();
    let m2 = responder.receive_initiator_start(&m1).unwrap();
    let mut reflected = m2.clone();
    reflected[FRAME_MAGIC.len() + 2] = ROLE_INITIATOR;
    assert!(initiator.receive_responder_handshake(&reflected).is_err());
    let (m3, auth1) = initiator.receive_responder_handshake(&m2).unwrap();
    let mut auth2 = responder.receive_initiator_finish(&m3, &auth1).unwrap();
    *auth2.last_mut().unwrap() ^= 1;
    assert!(initiator.receive_responder_auth(&auth2).is_err());
}

#[test]
fn wrong_or_expired_certificate_and_identity_mismatch_fail_before_network() {
    let fixture = Fixture::new();
    let expired_unsigned = DeviceCertificate::unsigned(
        fixture.initiator.device_id(),
        fixture.initiator.public_key(),
        "Zenbook".into(),
        fixture.now - 100,
        fixture.now - 1,
        fixture.root.key_id().into(),
    )
    .unwrap();
    let expired_signature = fixture.root_identity.sign(&expired_unsigned.signing_bytes().unwrap());
    let expired = expired_unsigned.with_signature(expired_signature).unwrap();
    let responder_id = fixture.responder.device_id();
    assert!(PairingInitiator::new(
        fixture.initiator,
        expired,
        responder_id,
        fixture.root,
        fixture.now,
        [0; 16],
    )
    .is_err());
    let other = DeviceIdentity::from_secret([99; 32]);
    let fixture = Fixture::new();
    let cert = fixture.certificate(&fixture.initiator, "Zenbook");
    assert!(PairingResponder::new(
        other,
        cert,
        fixture.initiator.device_id(),
        fixture.root,
        fixture.now
    )
    .is_err());
}

#[test]
fn authenticated_discovery_identity_is_required_on_both_ends() {
    let fixture = Fixture::new();
    let (_, mut responder) = fixture.ends();
    let wrong = "a".repeat(32);
    let mut initiator = PairingInitiator::new(
        fixture.initiator.clone(),
        fixture.certificate(&fixture.initiator, "Zenbook"),
        wrong,
        fixture.root.clone(),
        fixture.now,
        [1; 16],
    )
    .unwrap();
    let m1 = initiator.start().unwrap();
    let m2 = responder.receive_initiator_start(&m1).unwrap();
    let (m3, auth1) = initiator.receive_responder_handshake(&m2).unwrap();
    let auth2 = responder.receive_initiator_finish(&m3, &auth1).unwrap();
    assert_eq!(
        initiator.receive_responder_auth(&auth2),
        Err(SyncError::ResponderNotDiscovered)
    );
}

#[test]
fn active_mitm_cannot_complete_either_leg() {
    let fixture = Fixture::new();
    let initiator_id = fixture.initiator.device_id();
    let responder_id = fixture.responder.device_id();
    let attacker_a = DeviceIdentity::from_secret([70; 32]);
    let attacker_cert_a = fixture.certificate(&attacker_a, "Attacker-A");
    let attacker_b = DeviceIdentity::from_secret([71; 32]);
    let attacker_cert_b = fixture.certificate(&attacker_b, "Attacker-B");
    let (mut a, mut b) = fixture.ends();

    let mut mitm_responder = PairingResponder::new(
        attacker_a,
        attacker_cert_a,
        initiator_id.clone(),
        fixture.root.clone(),
        fixture.now,
    )
    .unwrap();
    let m1 = a.start().unwrap();
    let m2 = mitm_responder.receive_initiator_start(&m1).unwrap();
    let (m3, auth1) = a.receive_responder_handshake(&m2).unwrap();
    let auth2 = mitm_responder.receive_initiator_finish(&m3, &auth1).unwrap();
    assert!(a.receive_responder_auth(&auth2).is_err());

    let mut mitm_initiator = PairingInitiator::new(
        attacker_b,
        attacker_cert_b,
        responder_id,
        fixture.root.clone(),
        fixture.now,
        [2; 16],
    )
    .unwrap();
    let attacker_m1 = mitm_initiator.start().unwrap();
    let b_m2 = b.receive_initiator_start(&attacker_m1).unwrap();
    let (attacker_m3, attacker_auth1) = mitm_initiator.receive_responder_handshake(&b_m2).unwrap();
    assert_eq!(
        b.receive_initiator_finish(&attacker_m3, &attacker_auth1),
        Err(SyncError::InitiatorNotDiscovered)
    );
}

#[test]
fn identity_signature_is_bound_to_transcript_and_role() {
    let fixture = Fixture::new();
    let initiator_cert = fixture.certificate(&fixture.initiator, "Zenbook");
    let responder_cert = fixture.certificate(&fixture.responder, "K12");
    let transcript = make_transcript(
        &[1; 32],
        MODE_FIRST_CONTACT,
        PAIR_ID,
        &initiator_cert,
        &responder_cert,
        &[2; 32],
        &[3; 32],
    )
    .unwrap();
    let signature = signed_auth_payload(&fixture.initiator, &transcript, ROLE_INITIATOR);
    let peer = PeerAuth {
        device_id: fixture.initiator.device_id(),
        public_key: fixture.initiator.public_key(),
        certificate: initiator_cert,
        signature: None,
    };
    assert!(verify_signature_payload(&peer, &transcript, ROLE_INITIATOR, &signature).is_ok());
    let mut altered = transcript.clone();
    altered[0] ^= 1;
    assert!(verify_signature_payload(&peer, &altered, ROLE_INITIATOR, &signature).is_err());
    assert!(verify_signature_payload(&peer, &transcript, ROLE_RESPONDER, &signature).is_err());
    assert_eq!(
        verify_signature_payload(&peer, &transcript, ROLE_INITIATOR, &signature[1..]),
        Err(SyncError::SignatureSize)
    );
    assert_eq!(
        verify_signature(&peer, &transcript, ROLE_INITIATOR),
        Err(SyncError::PeerSignatureMissing)
    );
}

#[test]
fn oversized_authentication_and_transport_frames_are_rejected() {
    let (mut initiator, mut responder) = Fixture::new().ends();
    let m1 = initiator.start().unwrap();
    let m2 = responder.receive_initiator_start(&m1).unwrap();
    let (m3, _) = initiator.receive_responder_handshake(&m2).unwrap();
    assert!(responder.receive_initiator_finish(&m3, &vec![0; MAX_AUTH_FRAME + 1]).is_err());

    let (mut initiator, mut responder, _) = exchange(Fixture::new());
    assert_eq!(
        initiator.encrypt(&vec![0; MAX_TRANSPORT_PLAINTEXT + 1]),
        Err(SyncError::TransportPlaintextTooLarge)
    );
    assert_eq!(
        responder.decrypt(&vec![0; MAX_TRANSPORT_FRAME + 1]),
        Err(SyncError::FrameTooLarge)
    );
}

#[test]
fn bounds_downgrade_and_replay_are_rejected() {
    let (mut initiator, mut responder) = Fixture::new().ends();
    let m1 = initiator.start().unwrap();
    assert!(responder.receive_initiator_start(&vec![0; MAX_HANDSHAKE_FRAME + 1]).is_err());
    assert!(responder.receive_initiator_start(&m1[..m1.len() - 1]).is_err());
    let m2 = responder.receive_initiator_start(&m1).unwrap();
    let (m3, auth1) = initiator.receive_responder_handshake(&m2).unwrap();
    let _auth2 = responder.receive_initiator_finish(&m3, &auth1).unwrap();
    let (mut fresh_i, mut fresh_r) = Fixture::seeded(50).ends();
    let fresh_m1 = fresh_i.start().unwrap();
    let fresh_m2 = fresh_r.receive_initiator_start(&fresh_m1).unwrap();
    let mut downgrade = fresh_m2.clone();
    downgrade[FRAME_MAGIC.len()] = 2;
    assert!(fresh_i.receive_responder_handshake(&downgrade).is_err());
    let (fresh_m3, _) = fresh_i.receive_responder_handshake(&fresh_m2).unwrap();
    assert!(fresh_r.receive_initiator_finish(&fresh_m3, &auth1).is_err());
    assert!(fresh_i.receive_responder_handshake(&vec![0; MAX_HANDSHAKE_FRAME + 1]).is_err());
}

#[test]
fn sessions_belong_together() {
    let fixture = Fixture::new();
    let initiator_id = fixture.initiator.device_id();
    let responder_id = fixture.responder.device_id();
    let responder_key = fixture.responder.public_key();
    let (i, r, _) = exchange(fixture);
    assert_eq!(i.pair_id(), "5a".repeat(16));
    assert_eq!(i.pair_id(), r.pair_id());
    assert_eq!(i.session_binding(), r.session_binding());
    assert!(i.is_initiator() && !r.is_initiator());
    assert_eq!((i.local_device_id(), i.peer_device_id()), (&*initiator_id, &*responder_id));
    assert_eq!((r.local_device_id(), r.peer_device_id()), (&*responder_id, &*initiator_id));
    assert_eq!(i.peer_public_key(), responder_key);
    assert_eq!(i.local_certificate(), r.peer_certificate());
    assert_eq!(i.peer_certificate().device_name, "K12");
}

#[test]
fn fresh_sessions_have_fresh_bindings() {
    let (first, _, _) = exchange(Fixture::new());
    let (second, _, _) = exchange(Fixture::new());
    assert_ne!(first.session_binding(), second.session_binding());
}

#[test]
fn transport_frames_are_taken_once_in_order_and_from_the_peer() {
    let (mut i, mut r, _) = exchange(Fixture::new());
    let first = i.encrypt(b"one").unwrap();
    let second = i.encrypt(b"two").unwrap();
    assert_eq!(i.decrypt(&first), Err(SyncError::TransportFrameUnexpected));
    assert_eq!(r.decrypt(&second), Err(SyncError::DecryptTransport));
    assert_eq!(r.decrypt(&first).unwrap(), b"one");
    assert_eq!(r.decrypt(&first), Err(SyncError::DecryptTransport));
    assert_eq!(r.decrypt(&second).unwrap(), b"two");
    let back = r.encrypt(b"three").unwrap();
    assert_eq!(i.decrypt(&back).unwrap(), b"three");
}

#[test]
fn payloads_of_up_to_48_kib_go_through() {
    let (mut i, mut r, _) = exchange(Fixture::new());
    for length in [0, 1, 49_139, 49_140, 49_151, 49_152] {
        let payload = vec![7_u8; length];
        let frame = i.encrypt(&payload).unwrap();
        assert_eq!(frame.len(), length + 37);
        assert_eq!(r.decrypt(&frame).unwrap(), payload);
    }
    assert_eq!(MAX_TRANSPORT_FRAME, 49_189);
    // A refused payload leaves the two ends in step.
    assert_eq!(
        i.encrypt(&vec![7_u8; 49_153]),
        Err(SyncError::TransportPlaintextTooLarge)
    );
    let next = i.encrypt(b"next").unwrap();
    assert_eq!(r.decrypt(&next).unwrap(), b"next");
    assert_eq!(r.decrypt(&vec![0_u8; 49_190]), Err(SyncError::FrameTooLarge));
}

#[test]
fn refused_hello_and_proof_expose_no_session() {
    let (mut initiator, mut responder) = Fixture::new().ends();
    let (mut other_initiator, mut other_responder) = Fixture::new().ends();
    let (m3, hello) = {
        let m2 = responder.receive_initiator_start(&initiator.start().unwrap()).unwrap();
        initiator.receive_responder_handshake(&m2).unwrap()
    };
    let (other_m3, other_hello) = {
        let m2 = other_responder
            .receive_initiator_start(&other_initiator.start().unwrap())
            .unwrap();
        other_initiator.receive_responder_handshake(&m2).unwrap()
    };
    // A hello of another handshake does not open, and nothing follows from it.
    assert_eq!(
        responder.receive_initiator_finish(&m3, &other_hello).err(),
        Some(SyncError::DecryptAuth)
    );
    assert_eq!(
        responder.receive_initiator_finish(&m3, &hello).err(),
        Some(SyncError::PairingAdvanced)
    );
    assert_eq!(
        responder.receive_initiator_auth(&hello).err(),
        Some(SyncError::ProofNotSent)
    );
    // Nor from an altered proof.
    let proof = other_responder.receive_initiator_finish(&other_m3, &other_hello).unwrap();
    let mut altered = proof.clone();
    *altered.last_mut().unwrap() ^= 1;
    assert_eq!(
        other_initiator.receive_responder_auth(&altered).err(),
        Some(SyncError::DecryptAuth)
    );
    assert!(other_initiator.receive_responder_ack(&altered).is_err());
    // The proof itself is still taken, and only then is there a session.
    let signature = other_initiator.receive_responder_auth(&proof).unwrap();
    let (ack, _) = other_responder.receive_initiator_auth(&signature).unwrap();
    assert!(other_initiator.receive_responder_ack(&ack).is_ok());
}

#[test]
fn steps_out_of_order_are_refused() {
    let (mut initiator, mut responder) = Fixture::new().ends();
    let proof = encode_frame_with_sequence(KIND_AUTH, ROLE_RESPONDER, 2, b"x", MAX_AUTH_FRAME);
    let proof = proof.unwrap();
    assert_eq!(
        initiator.receive_responder_auth(&proof),
        Err(SyncError::HelloNotSent)
    );
    assert_eq!(
        responder.receive_initiator_auth(&proof).err(),
        Some(SyncError::ProofNotSent)
    );
    let m1 = initiator.start().unwrap();
    assert_eq!(
        initiator.receive_responder_handshake(&m1).err(),
        Some(SyncError::ResponderHandshakeUnexpected)
    );
    let m2 = responder.receive_initiator_start(&m1).unwrap();
    assert_eq!(
        responder.receive_initiator_finish(&m2, &m2).err(),
        Some(SyncError::InitiatorFinishUnexpected)
    );
}

#[test]
fn ends_are_checked_before_they_are_set_up() {
    let fixture = Fixture::new();
    let build = |identity: &DeviceIdentity, expected: &str, now: u64| {
        PairingInitiator::new(
            identity.clone(),
            fixture.certificate(&fixture.initiator, "Zenbook"),
            expected.to_string(),
            fixture.root.clone(),
            now,
            [0; 16],
        )
        .err()
    };
    let own = fixture.initiator.device_id();
    let peer = fixture.responder.device_id();
    assert_eq!(build(&fixture.initiator, &peer, fixture.now), None);
    assert_eq!(
        build(&fixture.responder, &peer, fixture.now),
        Some(SyncError::LocalCertificateMismatch)
    );
    assert_eq!(
        build(&fixture.initiator, &own, fixture.now),
        Some(SyncError::ExpectedPeerIsLocal)
    );
    assert_eq!(build(&fixture.initiator, "peer", fixture.now), Some(SyncError::ExpectedPeerId));
    assert_eq!(
        build(&fixture.initiator, &peer, fixture.now + 3_601),
        Some(SyncError::CertificateExpired)
    );
}

#[test]
fn frame_layout_is_exact() {
    let frame =
        encode_frame_with_sequence(KIND_AUTH, ROLE_RESPONDER, 2, b"abc", MAX_AUTH_FRAME).unwrap();
    assert_eq!(frame, b"OMARCHY-PAIR-V3\x03\x02\x02\x02\x00\x03abc".to_vec());
    let (kind, role, sequence, payload) =
        decode_frame_with_sequence(&frame, MAX_AUTH_FRAME).unwrap();
    assert_eq!((kind, role, sequence, payload), (KIND_AUTH, ROLE_RESPONDER, 2, &b"abc"[..]));
    let plain = encode_frame(KIND_TRANSPORT, ROLE_INITIATOR, b"abc", MAX_TRANSPORT_FRAME).unwrap();
    assert_eq!(plain, b"OMARCHY-PAIR-V3\x03\x03\x01\x00\x00\x03abc".to_vec());
}

#[test]
fn frames_say_why_they_are_refused() {
    let good = encode_frame(KIND_TRANSPORT, ROLE_INITIATOR, b"abc", 64).unwrap();
    let decode = |bytes: &[u8]| decode_frame(bytes, 64).err();
    assert_eq!(decode(&good), None);
    assert_eq!(decode(&vec![0; 65]), Some(SyncError::FrameTooLarge));
    assert_eq!(decode(&good[..10]), Some(SyncError::Truncated));
    assert_eq!(decode(&good[..good.len() - 1]), Some(SyncError::Truncated));
    let changed = |at: usize, value: u8| {
        let mut bytes = good.clone();
        bytes[at] = value;
        decode(&bytes)
    };
    assert_eq!(changed(0, 0), Some(SyncError::FrameProtocol));
    assert_eq!(changed(15, 2), Some(SyncError::FrameProtocol));
    assert_eq!(changed(17, 3), Some(SyncError::FrameRole));
    assert_eq!(changed(18, 1), Some(SyncError::FrameSequence));
    let mut longer = good.clone();
    longer.push(0);
    assert_eq!(decode(&longer), Some(SyncError::TrailingBytes));
    assert_eq!(
        encode_frame(KIND_TRANSPORT, ROLE_INITIATOR, &vec![0; 65_536], 70_000),
        Err(SyncError::FramePayloadTooLarge)
    );
    assert_eq!(
        encode_frame(KIND_TRANSPORT, ROLE_INITIATOR, &vec![0; 44], 64),
        Err(SyncError::FrameTooLarge)
    );
}

#[test]
fn start_frames_name_mode_and_pair() {
    let encode = |mode: u8, pair_id: &str| {
        encode_start_frame(KIND_HANDSHAKE, ROLE_INITIATOR, mode, pair_id, b"m", 2048)
    };
    let frame = encode(MODE_RECONNECT, PAIR_ID).unwrap();
    let (mode, pair_id, message) = decode_start_frame(&frame, 2048).unwrap();
    assert_eq!((mode, pair_id.as_str(), message), (MODE_RECONNECT, PAIR_ID, &b"m"[..]));
    assert_eq!(PairingResponder::start_is_reconnect(&frame), Ok(true));
    let first = encode(MODE_FIRST_CONTACT, PAIR_ID).unwrap();
    assert_eq!(PairingResponder::start_is_reconnect(&first), Ok(false));
    assert_eq!(encode(3, PAIR_ID), Err(SyncError::PairingMode));
    assert_eq!(encode(MODE_RECONNECT, "x"), Err(SyncError::InvalidPairId));
    assert_eq!(validate_pair_id(PAIR_ID), Ok(()));
    assert_eq!(validate_pair_id(&PAIR_ID.to_uppercase()), Err(SyncError::InvalidPairId));
    let short = encode_frame(KIND_HANDSHAKE, ROLE_INITIATOR, &[1; 32], 2048).unwrap();
    assert_eq!(decode_start_frame(&short, 2048).err(), Some(SyncError::StartFrameTruncated));
    let role = encode_frame(KIND_HANDSHAKE, ROLE_RESPONDER, &[1; 40], 2048).unwrap();
    assert_eq!(decode_start_frame(&role, 2048).err(), Some(SyncError::StartFrameUnexpected));
    let mut mode = first.clone();
    mode[21] = 9;
    assert_eq!(decode_start_frame(&mode, 2048).unwrap().0, 9);
    let (_, mut responder) = Fixture::new().ends();
    assert_eq!(
        responder.receive_initiator_start(&mode),
        Err(SyncError::PairingModeMismatch)
    );
}

#[test]
fn pair_ids_are_entropy_in_hexadecimal() {
    let entropy: Vec<u8> = (0..16).map(|i| i * 17).collect();
    assert_eq!(random_pair_id(&entropy.try_into().unwrap()), PAIR_ID);
}

#[test]
fn transcript_layout_and_digest_are_exact() {
    let fixture = Fixture::new();
    let i = fixture.certificate(&fixture.initiator, "Zenbook");
    let r = fixture.certificate(&fixture.responder, "K12");
    let transcript =
        make_transcript(&[1; 32], MODE_FIRST_CONTACT, PAIR_ID, &i, &r, &[2; 32], &[3; 32]).unwrap();
    let (i_bytes, r_bytes) = (i.to_bytes().unwrap(), r.to_bytes().unwrap());
    assert!(transcript.starts_with(b"OMARCHY-SYNC-V3-PAIRING-TRANSCRIPT"));
    assert!(transcript.windows(i_bytes.len()).any(|window| window == i_bytes));
    assert!(transcript.windows(r_bytes.len()).any(|window| window == r_bytes));
    let mut other = transcript.clone();
    other[40] ^= 1;
    assert_ne!(digest_transcript(&transcript), digest_transcript(&other));
    let empty = "e3b0c44298fc1c149afbf4c8996fb92427ae41e4649b934ca495991b7852b855";
    let digest: String = digest_transcript(b"").iter().map(|b| format!("{b:02x}")).collect();
    assert_eq!(digest, empty);
}

#[test]
fn authentication_payloads_round_trip_and_are_checked() {
    let fixture = Fixture::new();
    let cert = fixture.certificate(&fixture.initiator, "Zenbook");
    let hello = auth_hello(&cert).unwrap();
    let parsed = parse_auth_hello(&hello, &fixture.root, fixture.now).unwrap();
    assert_eq!(parsed.certificate, cert);
    assert_eq!(parsed.signature, None);
    assert_eq!(
        parse_auth_proof(&hello, &fixture.root, fixture.now).err(),
        Some(SyncError::AuthProofUnsigned)
    );
    let proof = auth_proof(&cert, &fixture.initiator, b"transcript", ROLE_INITIATOR).unwrap();
    let signed = parse_auth_proof(&proof, &fixture.root, fixture.now).unwrap();
    assert!(verify_signature(&signed, b"transcript", ROLE_INITIATOR).is_ok());
    assert_eq!(
        verify_signature(&signed, b"transcript", ROLE_RESPONDER),
        Err(SyncError::PeerSignature)
    );
    assert_eq!(
        parse_auth_hello(&proof, &fixture.root, fixture.now).err(),
        Some(SyncError::AuthHelloSigned)
    );
    assert_eq!(
        parse_auth_hello(&hello, &fixture.root, fixture.now + 3_601).err(),
        Some(SyncError::CertificateExpired)
    );
    let mut magic = hello.clone();
    magic[0] ^= 1;
    assert_eq!(parse_auth(&magic).err(), Some(SyncError::AuthPayload));
    let mut id = hello.clone();
    id[15] = b'Z';
    assert!(parse_auth(&id).is_err());
    assert!(parse_auth(&hello[..hello.len() - 1]).is_err());
}
