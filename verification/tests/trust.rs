use omarchy_syncd::error::SyncError;
use omarchy_syncd::frames::{ROLE_INITIATOR, ROLE_RESPONDER};
use omarchy_syncd::identity::{CapabilityStore, DeviceIdentity};
use omarchy_syncd::pairing::{AuthenticatedPairingSession, PairingInitiator, PairingResponder};
use omarchy_syncd::protocol_v3::{DeviceCertificate, PinnedOmarchyRoot};
use omarchy_syncd::record::validate_session_identity;
use omarchy_syncd::trust::{
    pairing_domain, record_file_name, record_fingerprint, AuthorizationBroker, AuthorizationGrant,
    Change, Entry, EntryContent, PairingRecord, PairingStore,
};
use serde_json::Value;

struct Fixture {
    root_identity: DeviceIdentity,
    initiator: DeviceIdentity,
    responder: DeviceIdentity,
    root: PinnedOmarchyRoot,
    now: u64,
}

impl Fixture {
    fn new() -> Self {
        let root_identity = DeviceIdentity::from_secret([30; 32]);
        let root = PinnedOmarchyRoot::from_bytes(&root_identity.public_key()).unwrap();
        Self {
            root_identity,
            initiator: DeviceIdentity::from_secret([31; 32]),
            responder: DeviceIdentity::from_secret([32; 32]),
            root,
            now: 1_000_000,
        }
    }

    fn cert(&self, identity: &DeviceIdentity, name: &str) -> DeviceCertificate {
        let unsigned = DeviceCertificate::unsigned(
            identity.device_id(),
            identity.public_key(),
            name.to_string(),
            self.now - 1,
            self.now + 3600,
            self.root.key_id().to_string(),
        )
        .unwrap();
        let signature = self.root_identity.sign(&unsigned.signing_bytes().unwrap());
        unsigned.with_signature(signature).unwrap()
    }

    fn store(&self) -> PairingStore {
        PairingStore::open(vec![], vec![], vec![], self.root.clone(), self.now)
    }

    /// A pairing that both sides have completed under a PairID.
    fn paired(&self, pair: u8) -> (PairingStore, PairingStore, PairingRecord) {
        let (is, rs) = sessions(self, pair);
        let (mut i_store, mut r_store) = (self.store(), self.store());
        let partial = i_store.prepare(&is, &self.initiator, &Approve).unwrap();
        let complete = r_store.co_sign(&rs, &self.responder, &partial).unwrap();
        i_store.finalize(&is, &self.initiator, &complete).unwrap();
        r_store.finalize(&rs, &self.responder, &complete).unwrap();
        (i_store, r_store, complete)
    }
}

fn converse(
    i: &mut PairingInitiator,
    r: &mut PairingResponder,
) -> (AuthenticatedPairingSession, AuthenticatedPairingSession) {
    let m1 = i.start().unwrap();
    let m2 = r.receive_initiator_start(&m1).unwrap();
    let (m3, a1) = i.receive_responder_handshake(&m2).unwrap();
    let a2 = r.receive_initiator_finish(&m3, &a1).unwrap();
    let a3 = i.receive_responder_auth(&a2).unwrap();
    let (ack, rs) = r.receive_initiator_auth(&a3).unwrap();
    let is = i.receive_responder_ack(&ack).unwrap();
    (is, rs)
}

fn sessions(
    f: &Fixture,
    pair: u8,
) -> (AuthenticatedPairingSession, AuthenticatedPairingSession) {
    let mut i = PairingInitiator::new(
        f.initiator.clone(),
        f.cert(&f.initiator, "Zenbook"),
        f.responder.device_id(),
        f.root.clone(),
        f.now,
        [pair; 16],
    )
    .unwrap();
    let mut r = PairingResponder::new(
        f.responder.clone(),
        f.cert(&f.responder, "K12"),
        f.initiator.device_id(),
        f.root.clone(),
        f.now,
    )
    .unwrap();
    converse(&mut i, &mut r)
}

struct Approve;

impl AuthorizationBroker for Approve {
    fn authorize(&self, peer: &DeviceCertificate) -> Result<AuthorizationGrant, SyncError> {
        assert!(!peer.device_name.is_empty());
        Ok(AuthorizationGrant { user_presence: "local-user-presence".into() })
    }
}

struct Deny;

impl AuthorizationBroker for Deny {
    fn authorize(&self, _peer: &DeviceCertificate) -> Result<AuthorizationGrant, SyncError> {
        Err(SyncError::AuthorizationDenied)
    }
}

fn optional(bytes: &Option<Vec<u8>>) -> Value {
    match bytes {
        Some(bytes) => Value::from(bytes.clone()),
        None => Value::Null,
    }
}

fn value(record: &PairingRecord) -> Value {
    let mut map = serde_json::Map::new();
    let mut put = |name: &str, value: Value| map.insert(name.to_string(), value);
    put("protocol_version", Value::from(record.protocol_version));
    put("domain", Value::from(record.domain.clone()));
    put("pair_id", Value::from(record.pair_id.clone()));
    put("initiator_device_id", Value::from(record.initiator_device_id.clone()));
    put("responder_device_id", Value::from(record.responder_device_id.clone()));
    put("initiator_public_key", Value::from(record.initiator_public_key.to_vec()));
    put("responder_public_key", Value::from(record.responder_public_key.to_vec()));
    put("initiator_certificate", Value::from(record.initiator_certificate.clone()));
    put("responder_certificate", Value::from(record.responder_certificate.clone()));
    put("session_binding", Value::from(record.session_binding.to_vec()));
    put("authorizing_device_id", Value::from(record.authorizing_device_id.clone()));
    put("user_presence", Value::from(record.user_presence.clone()));
    put("authorized_at", Value::from(record.authorized_at));
    put("initiator_signature", optional(&record.initiator_signature));
    put("responder_signature", optional(&record.responder_signature));
    Value::Object(map)
}

fn entry(record: &PairingRecord) -> Entry {
    Entry {
        name: record_file_name(&record.pair_id),
        content: EntryContent::Record(record.clone()),
    }
}

fn stored_bytes(store: &PairingStore, pair_id: &str) -> Vec<u8> {
    let record = store.load(pair_id).unwrap().unwrap();
    record.to_bytes().unwrap()
}

#[test]
fn approved_pairing_is_bilateral_and_byte_identical() {
    let f = Fixture::new();
    let (is, rs) = sessions(&f, 1);
    let (mut i_store, mut r_store) = (f.store(), f.store());
    let partial = i_store.prepare(&is, &f.initiator, &Approve).unwrap();
    assert!(partial.is_pending());
    assert!(i_store.load(&partial.pair_id).unwrap().is_none());
    let mut capabilities = CapabilityStore::open(vec![]);
    assert!(capabilities
        .grant_capability(&i_store, is.local_device_id(), is.peer_device_id(), "sync.theme")
        .is_err());
    let complete = r_store.co_sign(&rs, &f.responder, &partial).unwrap();
    i_store.finalize(&is, &f.initiator, &complete).unwrap();
    r_store.finalize(&rs, &f.responder, &complete).unwrap();
    assert_eq!(
        i_store.load(&complete.pair_id).unwrap().unwrap(),
        r_store.load(&complete.pair_id).unwrap().unwrap()
    );
    assert_eq!(
        complete.to_bytes().unwrap(),
        stored_bytes(&i_store, &complete.pair_id)
    );
    assert_eq!(
        stored_bytes(&i_store, &complete.pair_id),
        stored_bytes(&r_store, &complete.pair_id)
    );
    let granted = capabilities
        .grant_capability(&i_store, is.local_device_id(), is.peer_device_id(), "sync.theme")
        .unwrap();
    assert!(granted.contains("sync.theme"));
    assert!(capabilities.load(is.peer_device_id()).unwrap().is_some());
    assert!(capabilities.load(is.local_device_id()).unwrap().is_none());
}

#[test]
fn authorization_denial_and_one_signature_never_activate() {
    let f = Fixture::new();
    let (is, _rs) = sessions(&f, 1);
    let mut store = f.store();
    assert_eq!(
        store.prepare(&is, &f.initiator, &Deny).err(),
        Some(SyncError::AuthorizationDenied)
    );
    assert!(store.take_changes().is_empty());
    let partial = store.prepare(&is, &f.initiator, &Approve).unwrap();
    assert_eq!(
        store.finalize(&is, &f.initiator, &partial),
        Err(SyncError::RecordIncomplete)
    );
    assert!(store.load(&partial.pair_id).unwrap().is_none());
    assert!(store.load_pending(&partial.pair_id).unwrap().is_some());
}

#[test]
fn altered_record_wrong_root_and_reconciliation_are_rejected_or_repaired() {
    let f = Fixture::new();
    let (is, rs) = sessions(&f, 1);
    let (mut i_store, mut r_store) = (f.store(), f.store());
    let partial = i_store.prepare(&is, &f.initiator, &Approve).unwrap();
    let mut altered = partial.clone();
    altered.user_presence.push('x');
    assert!(r_store.co_sign(&rs, &f.responder, &altered).is_err());
    let complete = r_store.co_sign(&rs, &f.responder, &partial).unwrap();
    r_store.finalize(&rs, &f.responder, &complete).unwrap();
    assert!(i_store.load(&complete.pair_id).unwrap().is_none());
    // Reconciliation happens on a fresh Noise session: the certified
    // identities must match, but the old transcript binding need not.
    let (new_is, _new_rs) = sessions(&f, 2);
    i_store.reconcile(&new_is, &f.initiator, &complete).unwrap();
    assert_eq!(i_store.load(&complete.pair_id).unwrap(), Some(complete.clone()));
    let other_root_identity = DeviceIdentity::from_secret([77; 32]);
    let other_root = PinnedOmarchyRoot::from_bytes(&other_root_identity.public_key()).unwrap();
    let mut wrong_root_store = PairingStore::open(vec![], vec![], vec![], other_root, f.now);
    assert!(wrong_root_store.finalize(&is, &f.initiator, &complete).is_err());
}

#[test]
fn active_record_loads_after_enrollment_certificate_expiry() {
    let f = Fixture::new();
    let (_, _, complete) = f.paired(1);
    // The fixture certificate expires at now + 3,600; active trust is
    // intentionally inspected well after that point.
    let expired_time = f.now + 7_200;
    let expired_store =
        PairingStore::open(vec![entry(&complete)], vec![], vec![], f.root.clone(), expired_time);
    assert_eq!(expired_store.load(&complete.pair_id).unwrap(), Some(complete));
}

#[test]
fn reconnect_uses_active_identity_after_certificate_expiry() {
    let f = Fixture::new();
    let (_, _, complete) = f.paired(1);
    let expired_now = f.now + 7_200;
    let expired =
        PairingStore::open(vec![entry(&complete)], vec![], vec![], f.root.clone(), expired_now);
    let i_context = expired.reconnect_context(&f.initiator, &complete.pair_id).unwrap();
    let r_context = expired.reconnect_context(&f.responder, &complete.pair_id).unwrap();
    let mut i = PairingInitiator::new_reconnect(f.initiator.clone(), i_context).unwrap();
    let mut r = PairingResponder::new_reconnect(f.responder.clone(), r_context).unwrap();
    let (is, rs) = converse(&mut i, &mut r);
    assert_eq!(is.local_device_id(), complete.initiator_device_id);
    assert_eq!(rs.local_device_id(), complete.responder_device_id);
    assert_eq!(is.peer_public_key(), complete.responder_public_key);
    assert_ne!(is.session_binding(), complete.session_binding);
    assert_eq!(is.session_binding(), rs.session_binding());
}

#[test]
fn reconnect_requires_active_complete_record_and_exact_participant() {
    let f = Fixture::new();
    let (is, _rs) = sessions(&f, 1);
    let mut store = f.store();
    let partial = store.prepare(&is, &f.initiator, &Approve).unwrap();
    assert_eq!(
        store.reconnect_context(&f.initiator, &partial.pair_id).err(),
        Some(SyncError::ActiveMissing)
    );
    let outsider = DeviceIdentity::from_secret([66; 32]);
    assert!(store.reconnect_context(&outsider, &partial.pair_id).is_err());
    let (active, _, complete) = f.paired(2);
    assert_eq!(
        active.reconnect_context(&outsider, &complete.pair_id).err(),
        Some(SyncError::NotActiveParticipant)
    );
}

#[test]
fn revoked_record_cannot_be_used_for_reconnect() {
    let f = Fixture::new();
    let (mut i_store, _, complete) = f.paired(1);
    i_store.revoke(&complete.pair_id).unwrap();
    assert_eq!(i_store.persist_active(&complete), Err(SyncError::PairIdRevoked));
    let (fresh_is, _fresh_rs) = sessions(&f, 2);
    assert!(i_store.reconcile(&fresh_is, &f.initiator, &complete).is_err());
    assert!(i_store.reconnect_context(&f.initiator, &complete.pair_id).is_err());
    assert!(i_store.load(&complete.pair_id).unwrap().is_none());
}

#[test]
fn distinct_active_pair_ids_cannot_cross_connect() {
    let f = Fixture::new();
    let (mut i_store, mut r_store, complete1) = f.paired(1);
    let (is2, rs2) = sessions(&f, 2);
    let partial2 = i_store.prepare(&is2, &f.initiator, &Approve).unwrap();
    let complete2 = r_store.co_sign(&rs2, &f.responder, &partial2).unwrap();
    i_store.finalize(&is2, &f.initiator, &complete2).unwrap();
    r_store.finalize(&rs2, &f.responder, &complete2).unwrap();
    assert_ne!(complete1.pair_id, complete2.pair_id);

    let mut first_contact = PairingInitiator::new(
        f.initiator.clone(),
        f.cert(&f.initiator, "Zenbook"),
        complete1.responder_device_id.clone(),
        f.root.clone(),
        f.now,
        [3; 16],
    )
    .unwrap();
    let reconnect_responder_context =
        r_store.reconnect_context(&f.responder, &complete1.pair_id).unwrap();
    let mut reconnect_responder =
        PairingResponder::new_reconnect(f.responder.clone(), reconnect_responder_context).unwrap();
    assert_eq!(
        reconnect_responder.receive_initiator_start(&first_contact.start().unwrap()),
        Err(SyncError::PairingModeMismatch)
    );

    let i_context = i_store.reconnect_context(&f.initiator, &complete1.pair_id).unwrap();
    let r_context = r_store.reconnect_context(&f.responder, &complete2.pair_id).unwrap();
    let mut initiator = PairingInitiator::new_reconnect(f.initiator.clone(), i_context).unwrap();
    let mut responder = PairingResponder::new_reconnect(f.responder.clone(), r_context).unwrap();
    assert_eq!(
        responder.receive_initiator_start(&initiator.start().unwrap()),
        Err(SyncError::PairIdMismatch)
    );
}

#[test]
fn reconnect_rejects_altered_record_and_valid_different_device_mitm() {
    let f = Fixture::new();
    let (i_store, _, complete) = f.paired(1);
    let good_context = i_store.reconnect_context(&f.initiator, &complete.pair_id).unwrap();
    let mut altered = complete.clone();
    altered.initiator_public_key[0] ^= 1;
    let altered_store =
        PairingStore::open(vec![entry(&altered)], vec![], vec![], f.root.clone(), f.now);
    assert!(altered_store.reconnect_context(&f.initiator, &complete.pair_id).is_err());

    let attacker = DeviceIdentity::from_secret([88; 32]);
    let attacker_cert = f.cert(&attacker, "Attacker");
    assert_eq!(
        PairingResponder::new_reconnect(attacker.clone(), good_context.clone()).err(),
        Some(SyncError::NotParticipant)
    );
    let mut reconnect_initiator =
        PairingInitiator::new_reconnect(f.initiator.clone(), good_context).unwrap();
    let mut fresh_mitm = PairingResponder::new(
        attacker,
        attacker_cert,
        complete.initiator_device_id.clone(),
        f.root.clone(),
        f.now,
    )
    .unwrap();
    assert!(fresh_mitm
        .receive_initiator_start(&reconnect_initiator.start().unwrap())
        .is_err());
}

#[test]
fn pair_id_conflicts_cannot_replace_pending_or_active_records() {
    let f = Fixture::new();
    let (is, rs) = sessions(&f, 1);
    let (mut i_store, mut r_store) = (f.store(), f.store());
    let partial = i_store.prepare(&is, &f.initiator, &Approve).unwrap();
    let mut pending_conflict = partial.clone();
    pending_conflict.user_presence.push('!');
    assert_eq!(i_store.write_pending(&pending_conflict), Err(SyncError::RecordConflict));
    let complete = r_store.co_sign(&rs, &f.responder, &partial).unwrap();
    i_store.finalize(&is, &f.initiator, &complete).unwrap();
    // Replaying the exact record is idempotent; changing its signed content or
    // either signature is a conflict, never an overwrite.
    i_store.persist_active(&complete).unwrap();
    let mut active_conflict = complete.clone();
    active_conflict.responder_signature.as_mut().unwrap()[0] ^= 1;
    assert_eq!(i_store.persist_active(&active_conflict), Err(SyncError::RecordConflict));
    let mut binding_conflict = complete.clone();
    binding_conflict.session_binding[0] ^= 1;
    assert_eq!(i_store.persist_active(&binding_conflict), Err(SyncError::RecordConflict));
    assert_eq!(i_store.load(&complete.pair_id).unwrap(), Some(complete));
}

#[test]
fn journal_names_each_change_in_order() {
    let f = Fixture::new();
    let (is, rs) = sessions(&f, 1);
    let (mut i_store, mut r_store) = (f.store(), f.store());
    let partial = i_store.prepare(&is, &f.initiator, &Approve).unwrap();
    let complete = r_store.co_sign(&rs, &f.responder, &partial).unwrap();
    i_store.finalize(&is, &f.initiator, &complete).unwrap();
    i_store.revoke(&complete.pair_id).unwrap();
    let changes = i_store.take_changes();
    assert_eq!(changes.len(), 4);
    let file = format!("{}.json", complete.pair_id).into_bytes();
    let (half, full) = (partial.to_bytes().unwrap(), complete.to_bytes().unwrap());
    assert!(matches!(
        &changes[0],
        Change::WritePending(name, bytes) if *name == file && *bytes == half
    ));
    assert!(matches!(
        &changes[1],
        Change::WriteActive(name, bytes) if *name == file && *bytes == full
    ));
    assert!(matches!(&changes[2], Change::RemovePending(name) if *name == file));
    assert!(matches!(&changes[3], Change::Revoke(name) if *name == file));
    assert!(i_store.take_changes().is_empty());
    assert_eq!(record_file_name(&complete.pair_id), file);
}

#[test]
fn resumed_authorization_needs_no_second_approval() {
    let f = Fixture::new();
    let (_, rs) = sessions(&f, 1);
    let mut r_store = f.store();
    let first = r_store.prepare(&rs, &f.responder, &Approve).unwrap();
    let (is2, rs2) = sessions(&f, 2);
    let resumed = r_store.resume_prepare(&rs2, &f.responder, &first).unwrap();
    assert_eq!(resumed.pair_id, rs2.pair_id());
    assert_eq!(resumed.user_presence, first.user_presence);
    assert_eq!(resumed.authorized_at, first.authorized_at);
    let mut i_store = f.store();
    let complete = i_store.co_sign(&is2, &f.initiator, &resumed).unwrap();
    r_store.finalize(&rs2, &f.responder, &complete).unwrap();
    assert_eq!(r_store.load(&complete.pair_id).unwrap(), Some(complete));
    assert_eq!(
        r_store.pending_for_peer(&f.responder.device_id(), &f.initiator.device_id()),
        Ok(None)
    );
    assert_eq!(
        f.store().resume_prepare(&is2, &f.initiator, &first).err(),
        Some(SyncError::PendingOfAnotherDevice)
    );
}

#[test]
fn co_signing_is_refused_where_it_must_be() {
    let f = Fixture::new();
    let (is, rs) = sessions(&f, 1);
    let (mut i_store, mut r_store) = (f.store(), f.store());
    let partial = i_store.prepare(&is, &f.initiator, &Approve).unwrap();
    assert_eq!(
        i_store.co_sign(&is, &f.initiator, &partial).err(),
        Some(SyncError::AlreadySignedLocally)
    );
    let complete = r_store.co_sign(&rs, &f.responder, &partial).unwrap();
    assert_eq!(
        r_store.co_sign(&rs, &f.responder, &complete).err(),
        Some(SyncError::AlreadyFullySigned)
    );
    assert_eq!(
        r_store.co_sign(&rs, &f.initiator, &partial).err(),
        Some(SyncError::SessionIdentity)
    );
    let (_, other) = sessions(&f, 2);
    assert_eq!(
        f.store().co_sign(&other, &f.responder, &partial).err(),
        Some(SyncError::RecordSession)
    );
    assert_eq!(validate_session_identity(&is, &f.initiator), Ok(()));
    assert_eq!(validate_session_identity(&is, &f.responder), Err(SyncError::SessionIdentity));
}

#[test]
fn pending_records_are_not_overwritten() {
    let f = Fixture::new();
    let (is, _) = sessions(&f, 1);
    let mut store = f.store();
    let partial = store.prepare(&is, &f.initiator, &Approve).unwrap();
    assert_eq!(store.write_pending(&partial), Err(SyncError::RecordAppeared));
    let loaded = store.load_pending(&partial.pair_id).unwrap();
    assert_eq!(loaded, Some(partial.clone()));
    let own = f.initiator.device_id();
    let peer = f.responder.device_id();
    assert_eq!(store.pending_for_peer(&own, &peer), Ok(Some(partial.clone())));
    assert_eq!(store.pending_for_peer(&peer, &own), Ok(Some(partial)));
    assert_eq!(store.pending_for_peer(&own, &"a".repeat(32)), Ok(None));
    assert_eq!(store.pending_for_peer(&own, "x"), Err(SyncError::InvalidDeviceId));
    assert_eq!(store.load_pending("x"), Err(SyncError::InvalidPairingId));
}

#[test]
fn recovery_uses_pending_before_active_state() {
    let f = Fixture::new();
    let (i_store, _, complete) = f.paired(1);
    let peer = f.responder.device_id();
    let context = i_store.recovery_context(&f.initiator, &peer).unwrap().unwrap();
    assert_eq!(context.pair_id(), complete.pair_id);
    let (is, _) = sessions(&f, 2);
    let mut store = f.store();
    assert!(store.recovery_context(&f.initiator, &peer).unwrap().is_none());
    let partial = store.prepare(&is, &f.initiator, &Approve).unwrap();
    let pending = store.recovery_context(&f.initiator, &peer).unwrap().unwrap();
    assert_eq!(pending.pair_id(), partial.pair_id);
    assert_eq!(store.has_active_pairing(&f.initiator.device_id(), &peer), Ok(false));
    assert_eq!(i_store.has_active_pairing(&f.initiator.device_id(), &peer), Ok(true));
    assert_eq!(
        i_store.active_pair_for_peer(&f.initiator.device_id(), &peer),
        Ok(Some(complete.pair_id))
    );
}

#[test]
fn unreadable_state_fails_closed() {
    let f = Fixture::new();
    let broken = |content: EntryContent| {
        let name = record_file_name(&"0".repeat(32));
        vec![Entry { name, content }]
    };
    let store = |active: Vec<Entry>, pending: Vec<Entry>| {
        PairingStore::open(active, pending, vec![], f.root.clone(), f.now)
    };
    let unreadable = || broken(EntryContent::Unreadable(SyncError::RecordNotRegular));
    let own = f.initiator.device_id();
    let peer = f.responder.device_id();
    assert_eq!(
        store(unreadable(), vec![]).has_active_pairing(&own, &peer),
        Err(SyncError::RecordNotRegular)
    );
    assert_eq!(
        store(unreadable(), vec![]).load(&"0".repeat(32)),
        Err(SyncError::RecordNotRegular)
    );
    assert_eq!(
        store(vec![], unreadable()).pending_for_peer(&own, &peer),
        Err(SyncError::RecordNotRegular)
    );
    let absent = || broken(EntryContent::Absent);
    assert_eq!(store(absent(), absent()).has_active_pairing(&own, &peer), Ok(false));
    assert_eq!(store(absent(), absent()).pending_for_peer(&own, &peer), Ok(None));
    let (_, _, complete) = f.paired(1);
    let misnamed = vec![Entry {
        name: record_file_name(&"0".repeat(32)),
        content: EntryContent::Record(complete),
    }];
    assert_eq!(
        store(misnamed, vec![]).load(&"0".repeat(32)),
        Err(SyncError::RecordFilename)
    );
}

#[test]
fn revoking_needs_an_active_record() {
    let f = Fixture::new();
    let (mut store, _, complete) = f.paired(1);
    assert_eq!(store.revoke(&"0".repeat(32)), Err(SyncError::ActiveMissing));
    assert_eq!(store.revoke("x"), Err(SyncError::InvalidPairingId));
    store.revoke(&complete.pair_id).unwrap();
    assert_eq!(store.revoke(&complete.pair_id), Err(SyncError::ActiveMissing));
    let mut both = PairingStore::open(
        vec![entry(&complete)],
        vec![],
        vec![record_file_name(&complete.pair_id)],
        f.root.clone(),
        f.now,
    );
    assert_eq!(both.revoke(&complete.pair_id), Err(SyncError::AlreadyRevoked));
}

#[test]
fn record_signing_bytes_are_exact() {
    let f = Fixture::new();
    let (_, _, record) = f.paired(1);
    let mut expected = Vec::new();
    expected.extend_from_slice(b"OMARCHY-SYNC-V3-PAIRING-RECORD");
    expected.extend_from_slice(&[1, 3]);
    expected.extend_from_slice(&[0, 23]);
    expected.extend_from_slice(b"omarchy-sync/pairing/v3");
    expected.extend_from_slice(&[0, 32]);
    expected.extend_from_slice(record.pair_id.as_bytes());
    expected.extend_from_slice(record.initiator_device_id.as_bytes());
    expected.extend_from_slice(record.responder_device_id.as_bytes());
    expected.extend_from_slice(&record.initiator_public_key);
    expected.extend_from_slice(&record.responder_public_key);
    for certificate in [&record.initiator_certificate, &record.responder_certificate] {
        expected.extend_from_slice(&(certificate.len() as u16).to_be_bytes());
        expected.extend_from_slice(certificate);
    }
    expected.extend_from_slice(&record.session_binding);
    expected.extend_from_slice(record.authorizing_device_id.as_bytes());
    expected.extend_from_slice(&[0, 19]);
    expected.extend_from_slice(b"local-user-presence");
    expected.extend_from_slice(&1_000_000_u64.to_be_bytes());
    assert_eq!(record.signing_bytes().unwrap(), expected);
    assert_eq!(
        record_fingerprint(&record).unwrap(),
        omarchy_syncd::authentication::digest_transcript(&expected)
    );
    assert_eq!(pairing_domain(), "omarchy-sync/pairing/v3");
    expected.push(ROLE_INITIATOR);
    let signature = f.initiator.sign(&expected);
    assert_eq!(record.initiator_signature, Some(signature.to_vec()));
    assert!(record.verify_record_signature(ROLE_INITIATOR, &signature).is_ok());
    assert_eq!(
        record.verify_record_signature(ROLE_RESPONDER, &signature),
        Err(SyncError::RecordSignature)
    );
    assert_eq!(
        record.verify_record_signature(ROLE_INITIATOR, &signature[1..]),
        Err(SyncError::RecordSignatureSize)
    );
    assert_eq!(
        record.verify_record_signature(9, &signature),
        Err(SyncError::FrameRole)
    );
}

#[test]
fn record_bytes_are_bounded_and_parsed() {
    let f = Fixture::new();
    let (_, _, record) = f.paired(1);
    let bytes = record.to_bytes().unwrap();
    assert_eq!(serde_json::from_slice::<Value>(&bytes).unwrap(), value(&record));
    assert_eq!(PairingRecord::from_bytes(&bytes, Some(record.clone())), Ok(record.clone()));
    assert_eq!(PairingRecord::from_bytes(b"{}", None), Err(SyncError::RecordMalformed));
    assert_eq!(
        PairingRecord::from_bytes(&vec![0; 4_097], Some(record.clone())),
        Err(SyncError::RecordTooLarge)
    );
    let altered = |change: fn(&mut PairingRecord)| {
        let mut record = record.clone();
        change(&mut record);
        PairingRecord::from_bytes(b"{}", Some(record)).err()
    };
    assert_eq!(altered(|r| r.pair_id.push('0')), Some(SyncError::InvalidPairingId));
    assert_eq!(altered(|r| r.responder_device_id.clear()), Some(SyncError::RecordDeviceId));
    assert_eq!(altered(|r| r.domain.clear()), Some(SyncError::RecordDomainLength));
    assert_eq!(altered(|r| r.authorizing_device_id.clear()), Some(SyncError::InvalidDeviceId));
    assert_eq!(altered(|r| r.user_presence = "x".repeat(129)), Some(SyncError::UserPresence));
    assert_eq!(altered(|r| r.authorized_at = 0), Some(SyncError::AuthorizationTime));
    assert_eq!(
        altered(|r| r.initiator_certificate.clear()),
        Some(SyncError::CertificatesRequired)
    );
}

#[test]
fn record_has_an_exact_stored_form() {
    let id = |digit: &str| digit.repeat(32);
    let record = PairingRecord {
        protocol_version: 3,
        domain: "d".to_string(),
        pair_id: id("a"),
        initiator_device_id: id("b"),
        responder_device_id: id("c"),
        initiator_public_key: [0; 32],
        responder_public_key: [9; 32],
        initiator_certificate: vec![],
        responder_certificate: vec![10, 255, 0],
        session_binding: [1; 32],
        authorizing_device_id: id("d"),
        user_presence: "a\"\\\n\t\r\u{8}\u{c}\u{1}\u{1f}\u{7f}\u{e9}\u{1f600}/".to_string(),
        authorized_at: 18_446_744_073_709_551_615,
        initiator_signature: None,
        responder_signature: Some(vec![5]),
    };
    let list = |digit: &str| vec![digit; 32].join(",");
    let expected = [
        r#"{"protocol_version":3,"domain":"d""#.to_string(),
        format!(r#""pair_id":"{}""#, id("a")),
        format!(r#""initiator_device_id":"{}""#, id("b")),
        format!(r#""responder_device_id":"{}""#, id("c")),
        format!(r#""initiator_public_key":[{}]"#, list("0")),
        format!(r#""responder_public_key":[{}]"#, list("9")),
        r#""initiator_certificate":[],"responder_certificate":[10,255,0]"#.to_string(),
        format!(r#""session_binding":[{}]"#, list("1")),
        format!(r#""authorizing_device_id":"{}""#, id("d")),
        r#""user_presence":"a\"\\\n\t\r\b\f\u0001\u001f"#.to_string()
            + "\u{7f}\u{e9}\u{1f600}/\"",
        r#""authorized_at":18446744073709551615"#.to_string(),
        r#""initiator_signature":null,"responder_signature":[5]}"#.to_string(),
    ]
    .join(",");
    assert_eq!(String::from_utf8(record.to_bytes().unwrap()).unwrap(), expected);
}

#[test]
fn oversized_records_are_neither_stored_nor_written() {
    let f = Fixture::new();
    let (_, _, mut record) = f.paired(1);
    record.user_presence = "x".repeat(128);
    let length = record.to_bytes().unwrap().len();
    // A line feed takes two bytes in the stored form.
    record.user_presence = "\n".repeat(128);
    assert_eq!(record.to_bytes().unwrap().len(), length + 128);
    let mut large = record.clone();
    large.pair_id = "e".repeat(32);
    large.initiator_certificate = vec![255; 900];
    assert_eq!(large.to_bytes(), Err(SyncError::RecordTooLarge));
    let mut store = f.store();
    assert_eq!(store.write_pending(&large), Err(SyncError::RecordTooLarge));
    assert_eq!(store.persist_active(&large), Err(SyncError::RecordTooLarge));
    assert!(store.take_changes().is_empty());
}

#[test]
fn stored_records_are_validated() {
    let f = Fixture::new();
    let (_, _, record) = f.paired(1);
    let check = |change: fn(&mut PairingRecord)| {
        let mut record = record.clone();
        change(&mut record);
        (record.validate_stored(&f.root).err(), record.validate_pending_stored(&f.root).err())
    };
    assert_eq!(check(|_| {}), (None, None));
    assert_eq!(
        check(|r| r.protocol_version = 2),
        (Some(SyncError::RecordProtocol), Some(SyncError::PendingProtocol))
    );
    assert_eq!(
        check(|r| r.responder_signature = None),
        (Some(SyncError::ActiveIncomplete), None)
    );
    assert_eq!(
        check(|r| r.initiator_public_key[0] ^= 1),
        (Some(SyncError::StoredIdentity), Some(SyncError::PendingIdentity))
    );
    let short = check(|r| r.initiator_signature = Some(vec![0; 63]));
    let size = Some(SyncError::RecordSignatureSize);
    assert_eq!(short, (size, size));
    let forged = check(|r| r.session_binding[0] ^= 1);
    let signature = Some(SyncError::RecordSignature);
    assert_eq!(forged, (signature, signature));
    let late = check(|r| r.authorized_at += 7_200);
    let expired = Some(SyncError::CertificateExpired);
    assert_eq!(late, (expired, expired));
}
