use omarchy_syncd::error::SyncError;
use omarchy_syncd::identity::DeviceIdentity;
use omarchy_syncd::protocol_v3::{
    hex_value, root_controlled_parent_chain, root_key_policy, DeviceCertificate,
    DiscoveryAnnouncement, DiscoveryVerifier, PathFacts, PinnedOmarchyRoot, CERT_MAGIC,
    DISCOVERY_MAGIC, MAX_DISCOVERY_BYTES,
};

fn root_identity() -> DeviceIdentity {
    DeviceIdentity::from_secret([1_u8; 32])
}

fn certify(device: &DeviceIdentity, root: &PinnedOmarchyRoot) -> DeviceCertificate {
    let unsigned = DeviceCertificate::unsigned(
        device.device_id(),
        device.public_key(),
        "K12".into(),
        100,
        1_000,
        root.key_id().into(),
    )
    .unwrap();
    let signing_bytes = unsigned.signing_bytes().unwrap();
    unsigned.with_signature(root_identity().sign(&signing_bytes)).unwrap()
}

fn fixture() -> (DeviceIdentity, PinnedOmarchyRoot, DeviceCertificate) {
    let device = DeviceIdentity::from_secret([2_u8; 32]);
    let root = PinnedOmarchyRoot::from_bytes(&root_identity().public_key()).unwrap();
    let certificate = certify(&device, &root);
    (device, root, certificate)
}

#[test]
fn certificate_and_discovery_round_trip_and_replay_is_rejected() {
    let (device, root, cert) = fixture();
    let packet = DiscoveryAnnouncement::sign(&device, cert, [7; 32], 500, 49_321)
        .unwrap()
        .to_bytes()
        .unwrap();
    let mut verifier = DiscoveryVerifier::with_window(root, 90, 10);
    assert_eq!(verifier.verify(&packet, 500).unwrap().device_name, "K12");
    assert!(verifier.verify(&packet, 500).is_err());
}

#[test]
fn tampering_certificate_fields_and_discovery_fields_fails() {
    let (device, root, cert) = fixture();
    let announcement = DiscoveryAnnouncement::sign(&device, cert, [8; 32], 500, 49_321).unwrap();
    let mut bytes = announcement.to_bytes().unwrap();
    bytes[DISCOVERY_MAGIC.len() + 1 + 2 + 32] ^= 1;
    let mut verifier = DiscoveryVerifier::new(root.clone());
    assert!(verifier.verify(&bytes, 500).is_err());
    let mut bytes = announcement.to_bytes().unwrap();
    *bytes.last_mut().unwrap() ^= 1;
    assert!(verifier.verify(&bytes, 500).is_err());
}

#[test]
fn stale_future_and_version_announcements_fail() {
    let (device, root, cert) = fixture();
    let mut verifier = DiscoveryVerifier::new(root);
    let stale = DiscoveryAnnouncement::sign(&device, cert.clone(), [1; 32], 1, 4)
        .unwrap()
        .to_bytes()
        .unwrap();
    assert!(verifier.verify(&stale, 500).is_err());
    let future = DiscoveryAnnouncement::sign(&device, cert, [2; 32], 600, 4)
        .unwrap()
        .to_bytes()
        .unwrap();
    assert!(verifier.verify(&future, 500).is_err());
}

#[test]
fn every_signed_discovery_field_is_bound_and_limits_are_enforced() {
    let (device, root, cert) = fixture();
    let announcement = DiscoveryAnnouncement::sign(&device, cert, [3; 32], 500, 49_321).unwrap();
    let original = announcement.to_bytes().unwrap();
    let cert_start = DISCOVERY_MAGIC.len() + 1 + 2;
    let cert_len = u16::from_be_bytes(
        original[DISCOVERY_MAGIC.len() + 1..DISCOVERY_MAGIC.len() + 3].try_into().unwrap(),
    ) as usize;
    let after_cert = cert_start + cert_len;
    let mut cases = Vec::new();

    // Certificate name and device key are issuer-signed fields.
    let name_offset = cert_start + CERT_MAGIC.len() + 1 + 32 + 32 + 2;
    let mut changed = original.clone();
    changed[name_offset] ^= 1;
    cases.push(changed);
    let mut changed = original.clone();
    changed[cert_start + CERT_MAGIC.len() + 1 + 32] ^= 1;
    cases.push(changed);
    // The discovery nonce, timestamp, port, and device signature are covered
    // by the certified device key.
    for offset in [after_cert, after_cert + 32, after_cert + 32 + 8] {
        let mut changed = original.clone();
        changed[offset] ^= 1;
        cases.push(changed);
    }
    let signature_offset = after_cert + 32 + 8 + 2;
    let mut changed = original.clone();
    changed[signature_offset] ^= 1;
    cases.push(changed);

    for changed in cases {
        assert!(DiscoveryVerifier::new(root.clone()).verify(&changed, 500).is_err());
    }
    assert!(DiscoveryVerifier::new(root.clone()).verify(&[], 500).is_err());
    assert!(DiscoveryVerifier::new(root.clone())
        .verify(&vec![0_u8; MAX_DISCOVERY_BYTES + 1], 500)
        .is_err());

    for version in [0_u8, 2_u8, 4_u8] {
        let mut changed = original.clone();
        changed[DISCOVERY_MAGIC.len()] = version;
        assert!(DiscoveryVerifier::new(root.clone()).verify(&changed, 500).is_err());
    }
}

fn facts(owner_uid: u32, mode: u32) -> PathFacts {
    PathFacts { owner_uid, mode, regular_file: true, directory: false }
}

fn directory(owner_uid: u32, mode: u32) -> PathFacts {
    PathFacts { owner_uid, mode, regular_file: false, directory: true }
}

#[test]
fn certificate_root_pin_validity_and_secure_loading_are_required() {
    let (device, root, cert) = fixture();
    assert!(cert.verify(&root, 99).is_err());
    assert!(cert.verify(&root, 1_001).is_err());

    let other = DeviceIdentity::from_secret([3_u8; 32]);
    let wrong_root = PinnedOmarchyRoot::from_bytes(&other.public_key()).unwrap();
    assert!(cert.verify(&wrong_root, 500).is_err());

    // User-owned files must not be accepted as production trust anchors even
    // when their mode is 0600.
    let pin = root.public_key();
    let user_file = facts(1000, 0o600);
    assert!(PinnedOmarchyRoot::from_secure_path(&user_file, &vec![], &pin).is_err());
    assert!(!root_key_policy(user_file.owner_uid, user_file.mode, user_file.regular_file));
    assert!(root_key_policy(0, 0o644, true));
    assert!(!root_key_policy(1000, 0o600, true));
    assert!(!root_key_policy(0, 0o664, true));
    assert!(!root_key_policy(0, 0o644, false));
    assert!(PinnedOmarchyRoot::from_secure_path(&user_file, &vec![], &vec![0_u8; 4_097]).is_err());
    let _ = device;
}

#[test]
fn replay_cache_is_bounded_and_prunes_expired_entries() {
    let (device, root, cert) = fixture();
    let packet_one = DiscoveryAnnouncement::sign(&device, cert.clone(), [11; 32], 500, 49_321)
        .unwrap()
        .to_bytes()
        .unwrap();
    let packet_two = DiscoveryAnnouncement::sign(&device, cert.clone(), [12; 32], 500, 49_321)
        .unwrap()
        .to_bytes()
        .unwrap();
    let mut verifier = DiscoveryVerifier::with_replay_limit(root, 90, 10, 1).unwrap();
    verifier.verify(&packet_one, 500).unwrap();
    assert!(verifier.verify(&packet_two, 500).is_err());

    // At 601 the first acceptance is outside the 100-second retention horizon.
    // A fresh, valid announcement can therefore be accepted.
    let packet_three = DiscoveryAnnouncement::sign(&device, cert, [13; 32], 601, 49_321)
        .unwrap()
        .to_bytes()
        .unwrap();
    assert!(verifier.verify(&packet_three, 601).is_ok());
}

#[test]
fn production_root_needs_a_root_controlled_path() {
    let (_, root, _) = fixture();
    let pin = root.public_key();
    let file = facts(0, 0o644);
    let parents = vec![directory(0, 0o755), directory(0, 0o755)];
    let loaded = PinnedOmarchyRoot::from_production_path(&file, &parents, &pin).unwrap();
    assert_eq!(loaded, root);
    assert_eq!(
        PinnedOmarchyRoot::from_production_path(&facts(0, 0o666), &parents, &pin),
        Err(SyncError::RootKeyNotSecure)
    );
    for weak in [directory(1000, 0o755), directory(0, 0o777), facts(0, 0o755)] {
        let parents = vec![directory(0, 0o755), weak];
        assert!(!root_controlled_parent_chain(&parents));
        assert_eq!(
            PinnedOmarchyRoot::from_production_path(&file, &parents, &pin),
            Err(SyncError::RootKeyParentNotSecure)
        );
    }
    assert_eq!(
        PinnedOmarchyRoot::from_production_path(&file, &parents, &vec![0x20_u8; 4_097]),
        Err(SyncError::RootKeyTooLarge)
    );
}

#[test]
fn root_keys_are_raw_or_hexadecimal() {
    let (_, root, _) = fixture();
    let digits: String = root.public_key().iter().map(|b| format!("{b:02X}")).collect();
    let spaced = format!("  {digits}\n");
    assert_eq!(PinnedOmarchyRoot::from_bytes(spaced.as_bytes()).unwrap(), root);
    assert_eq!(root.key_id(), root_identity().device_id());
    assert_eq!(
        PinnedOmarchyRoot::from_bytes(&[0xff_u8; 31]),
        Err(SyncError::RootKeyNotText)
    );
    assert_eq!(
        PinnedOmarchyRoot::from_bytes(b"not a key"),
        Err(SyncError::RootKeyFormat)
    );
    // The y coordinate 2 belongs to no point of the curve.
    let mut invalid = [0_u8; 32];
    invalid[0] = 2;
    assert_eq!(PinnedOmarchyRoot::from_bytes(&invalid), Err(SyncError::RootKeyInvalid));
    assert_eq!(hex_value(b'f'), Ok(15));
    assert_eq!(hex_value(b'A'), Ok(10));
    assert_eq!(hex_value(b'7'), Ok(7));
    assert_eq!(hex_value(b'g'), Err(SyncError::RootKeyHex));
}

#[test]
fn certificate_fields_are_checked() {
    let (device, root, _) = fixture();
    let build = |id: &str, name: &str, from: u64, to: u64, issuer: &str| {
        DeviceCertificate::unsigned(
            id.into(),
            device.public_key(),
            name.into(),
            from,
            to,
            issuer.into(),
        )
    };
    let id = device.device_id();
    let issuer = root.key_id();
    assert!(build(&id, "K12", 100, 1_000, issuer).is_ok());
    assert_eq!(build(&"A".repeat(32), "K12", 1, 2, issuer), Err(SyncError::CertificateDeviceId));
    assert_eq!(build("ab", "K12", 1, 2, issuer), Err(SyncError::CertificateDeviceId));
    assert_eq!(build(&id, "", 1, 2, issuer), Err(SyncError::CertificateName));
    assert_eq!(build(&id, &"n".repeat(65), 1, 2, issuer), Err(SyncError::CertificateName));
    assert_eq!(build(&id, "K12", 2, 2, issuer), Err(SyncError::CertificateWindow));
    assert_eq!(build(&id, "K12", 1, 2, "a b"), Err(SyncError::CertificateIssuerId));
    assert_eq!(build(&id, "K12", 1, 2, ""), Err(SyncError::CertificateIssuerId));
    assert_eq!(
        build(&"a".repeat(32), "K12", 1, 2, issuer),
        Err(SyncError::CertificateBinding)
    );
}

#[test]
fn certificate_layout_is_exact() {
    let (device, root, cert) = fixture();
    let bytes = cert.to_bytes().unwrap();
    let mut expected = Vec::new();
    expected.extend_from_slice(b"OMARCHY-CERT-V3");
    expected.push(1);
    expected.extend_from_slice(device.device_id().as_bytes());
    expected.extend_from_slice(&device.public_key());
    expected.extend_from_slice(&[0, 3]);
    expected.extend_from_slice(b"K12");
    expected.extend_from_slice(&100_u64.to_be_bytes());
    expected.extend_from_slice(&1_000_u64.to_be_bytes());
    expected.extend_from_slice(&[0, 32]);
    expected.extend_from_slice(root.key_id().as_bytes());
    assert_eq!(cert.signing_bytes().unwrap(), expected);
    expected.extend_from_slice(&cert.signature);
    assert_eq!(bytes, expected);
    assert_eq!(DeviceCertificate::from_bytes(&bytes).unwrap(), cert);
}

#[test]
fn certificate_bytes_say_why_they_are_refused() {
    let (_, root, cert) = fixture();
    let bytes = cert.to_bytes().unwrap();
    assert_eq!(
        DeviceCertificate::from_bytes(&vec![0; 513]),
        Err(SyncError::CertificateTooLarge)
    );
    assert_eq!(
        DeviceCertificate::from_bytes(&bytes[..bytes.len() - 1]),
        Err(SyncError::Truncated)
    );
    let mut longer = bytes.clone();
    longer.push(0);
    assert_eq!(DeviceCertificate::from_bytes(&longer), Err(SyncError::TrailingBytes));
    let mut magic = bytes.clone();
    magic[0] ^= 1;
    assert_eq!(DeviceCertificate::from_bytes(&magic), Err(SyncError::CertificateMagic));
    let mut schema = bytes.clone();
    schema[15] = 2;
    assert_eq!(DeviceCertificate::from_bytes(&schema), Err(SyncError::CertificateSchema));
    let name_length = 15 + 1 + 32 + 32;
    let mut name = bytes.clone();
    name[name_length + 2] = 0xff;
    assert_eq!(DeviceCertificate::from_bytes(&name), Err(SyncError::FieldNotUtf8));
    let mut empty = bytes.clone();
    empty[name_length + 1] = 0;
    assert_eq!(DeviceCertificate::from_bytes(&empty), Err(SyncError::FieldExceedsLimit));

    let mut forged = cert.clone();
    forged.signature[10] ^= 1;
    assert_eq!(forged.verify(&root, 500), Err(SyncError::CertificateSignature));
    assert_eq!(cert.verify(&root, 99), Err(SyncError::CertificateNotYetValid));
    assert_eq!(cert.verify(&root, 1_000), Err(SyncError::CertificateExpired));
    assert!(cert.verify(&root, 100).is_ok());
    assert!(cert.verify(&root, 999).is_ok());
}

#[test]
fn certificate_of_another_issuer_id_is_refused() {
    let (device, root, _) = fixture();
    let cert = DeviceCertificate::issue(
        &[1_u8; 32],
        device.device_id(),
        device.public_key(),
        "K12".into(),
        100,
        1_000,
        "another-issuer".into(),
    )
    .unwrap();
    assert_eq!(cert.verify(&root, 500), Err(SyncError::CertificateIssuerNotPinned));
}

#[test]
fn announcement_layout_is_exact() {
    let (device, _, cert) = fixture();
    let announcement =
        DiscoveryAnnouncement::sign(&device, cert.clone(), [9; 32], 500, 49_321).unwrap();
    let certificate = cert.to_bytes().unwrap();
    let mut expected = Vec::new();
    expected.extend_from_slice(b"OMARCHY-DISCOVERY-V3");
    expected.push(3);
    expected.extend_from_slice(&(certificate.len() as u16).to_be_bytes());
    expected.extend_from_slice(&certificate);
    expected.extend_from_slice(&[9; 32]);
    expected.extend_from_slice(&500_u64.to_be_bytes());
    expected.extend_from_slice(&49_321_u16.to_be_bytes());
    assert_eq!(announcement.signing_bytes().unwrap(), expected);
    assert_eq!(announcement.signature, device.sign(&expected));
    let bytes = announcement.to_bytes().unwrap();
    assert_eq!(DiscoveryAnnouncement::from_bytes(&bytes).unwrap(), announcement);
}

#[test]
fn announcements_say_why_they_are_refused() {
    let (device, root, cert) = fixture();
    let sign = |at: u64, port: u16| {
        DiscoveryAnnouncement::sign(&device, cert.clone(), [4; 32], at, port)
    };
    assert_eq!(sign(500, 0), Err(SyncError::DiscoveryPortZero));
    let stranger = DeviceIdentity::from_secret([8_u8; 32]);
    assert_eq!(
        DiscoveryAnnouncement::sign(&stranger, cert.clone(), [4; 32], 500, 1),
        Err(SyncError::DiscoveryForeignCertificate)
    );
    let mut verifier = DiscoveryVerifier::new(root.clone());
    let good = sign(500, 1).unwrap().to_bytes().unwrap();
    let mut check = |bytes: &[u8], now: u64| verifier.verify(bytes, now).err();
    assert_eq!(check(&good, 489), Some(SyncError::DiscoveryFromFuture));
    assert_eq!(check(&good, 591), Some(SyncError::DiscoveryStale));
    assert_eq!(check(&vec![0; 2_049], 500), Some(SyncError::DiscoveryTooLarge));
    let mut magic = good.clone();
    magic[0] ^= 1;
    assert_eq!(check(&magic, 500), Some(SyncError::DiscoveryMagic));
    let mut version = good.clone();
    version[DISCOVERY_MAGIC.len()] = 2;
    assert_eq!(check(&version, 500), Some(SyncError::DiscoveryDowngraded));
    let mut forged = good.clone();
    *forged.last_mut().unwrap() ^= 1;
    assert_eq!(check(&forged, 500), Some(SyncError::DiscoverySignature));
    assert_eq!(check(&good, 500), None);
    assert_eq!(check(&good, 500), Some(SyncError::DiscoveryReplayed));
    let mut announcement = sign(500, 1).unwrap();
    announcement.protocol_version = 2;
    assert_eq!(announcement.to_bytes(), Err(SyncError::DiscoveryVersion));
}

#[test]
fn full_replay_cache_fails_closed() {
    let (device, root, cert) = fixture();
    assert_eq!(
        DiscoveryVerifier::with_replay_limit(root.clone(), 90, 10, 0).err(),
        Some(SyncError::ReplayLimitZero)
    );
    let packet = |nonce: u8, at: u64| {
        DiscoveryAnnouncement::sign(&device, cert.clone(), [nonce; 32], at, 1)
            .unwrap()
            .to_bytes()
            .unwrap()
    };
    let mut verifier = DiscoveryVerifier::with_replay_limit(root, 90, 10, 2).unwrap();
    assert!(verifier.verify(&packet(1, 500), 500).is_ok());
    assert!(verifier.verify(&packet(2, 500), 500).is_ok());
    assert_eq!(verifier.verify(&packet(3, 500), 500), Err(SyncError::ReplayCacheFull));
    assert_eq!(verifier.verify(&packet(1, 500), 500), Err(SyncError::DiscoveryReplayed));
    assert!(verifier.verify(&packet(4, 601), 601).is_ok());
}

#[test]
fn nonce_of_one_device_is_refused_from_another() {
    let (device, root, cert) = fixture();
    let other = DeviceIdentity::from_secret([3_u8; 32]);
    let other_cert = certify(&other, &root);
    let packet = |device: &DeviceIdentity, cert: &DeviceCertificate, nonce: u8, at: u64| {
        DiscoveryAnnouncement::sign(device, cert.clone(), [nonce; 32], at, 49_321)
            .unwrap()
            .to_bytes()
            .unwrap()
    };
    let mut verifier = DiscoveryVerifier::new(root);
    assert!(verifier.verify(&packet(&device, &cert, 7, 500), 500).is_ok());
    let repeated = packet(&other, &other_cert, 7, 500);
    assert_eq!(verifier.verify(&repeated, 500), Err(SyncError::DiscoveryReplayed));
    // So it is as long as the first announcement would be fresh.
    let later = packet(&other, &other_cert, 7, 590);
    assert_eq!(verifier.verify(&later, 590), Err(SyncError::DiscoveryReplayed));
    assert!(verifier.verify(&packet(&other, &other_cert, 8, 590), 590).is_ok());
    let last = packet(&other, &other_cert, 7, 591);
    assert_eq!(verifier.verify(&last, 591).unwrap().device_id, other.device_id());
}
