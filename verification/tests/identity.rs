use ed25519_dalek::{Signature, VerifyingKey};
use omarchy_syncd::capability::{
    validate_capability, CapabilityRecord, CapabilitySet, GrantContent, GrantEntry,
};
use omarchy_syncd::error::SyncError;
use omarchy_syncd::identity::{
    device_id_for_public_key, ActivePairingLookup, CapabilityStore, DeviceIdentity, StoredKey,
};

struct NoPair;

impl ActivePairingLookup for NoPair {
    fn has_active_pairing(&self, _local: &str, _peer: &str) -> Result<bool, SyncError> {
        Ok(false)
    }
}

struct Paired;

impl ActivePairingLookup for Paired {
    fn has_active_pairing(&self, _local: &str, _peer: &str) -> Result<bool, SyncError> {
        Ok(true)
    }
}

struct Unreadable;

impl ActivePairingLookup for Unreadable {
    fn has_active_pairing(&self, _local: &str, _peer: &str) -> Result<bool, SyncError> {
        Err(SyncError::RecordMalformed)
    }
}

fn bytes_of(text: &str) -> Vec<u8> {
    (0..text.len() / 2).map(|i| u8::from_str_radix(&text[2 * i..2 * i + 2], 16).unwrap()).collect()
}

/// The first test vector of RFC 8032.
fn vector_identity() -> DeviceIdentity {
    let secret = bytes_of("9d61b19deffd5a60ba844af492ec2cc44449c5697b326919703bac031cae7f60");
    DeviceIdentity::from_secret(secret.try_into().unwrap())
}

#[test]
fn identity_is_stable_across_loads() {
    let fresh = [41_u8; 32];
    let first = DeviceIdentity::load_or_create(StoredKey::Missing, fresh).unwrap();
    let first_id = first.device_id();
    let first_public = first.public_key();
    drop(first);
    let second =
        DeviceIdentity::load_or_create(StoredKey::Bytes(fresh.to_vec()), [42_u8; 32]).unwrap();
    assert_eq!(first_id, second.device_id());
    assert_eq!(first_public, second.public_key());
}

#[test]
fn identity_signatures_verify_with_the_public_key() {
    let identity = DeviceIdentity::from_secret([5_u8; 32]);
    let message = b"omarchy-sync protocol v3";
    let signature = Signature::from_bytes(&identity.sign(message));
    let public = VerifyingKey::from_bytes(&identity.public_key()).unwrap();
    assert!(public.verify_strict(message, &signature).is_ok());
}

#[test]
fn malformed_identity_is_rejected() {
    let stored = StoredKey::Bytes(b"not-a-key".to_vec());
    assert_eq!(
        DeviceIdentity::load_or_create(stored, [0_u8; 32]).err(),
        Some(SyncError::IdentityMalformed)
    );
}

#[test]
fn identity_must_be_a_regular_file() {
    assert_eq!(
        DeviceIdentity::load_or_create(StoredKey::NotRegular, [0_u8; 32]).err(),
        Some(SyncError::IdentityNotRegular)
    );
}

#[test]
fn identity_has_the_published_keys_and_signatures() {
    let identity = vector_identity();
    assert_eq!(
        identity.public_key().to_vec(),
        bytes_of("d75a980182b10ab7d54bfed3c964073a0ee172f3daa62325af021a68f707511a")
    );
    assert_eq!(
        identity.sign(b"").to_vec(),
        bytes_of(concat_signature().as_str())
    );
}

fn concat_signature() -> String {
    let first = "e5564300c360ac729086e2cc806e828a84877f1eb8e5d974d873e06522490155";
    let second = "5fb8821590a33bacc61e39701cf9b46bd25bf5f0595bbe24655141438e7a100b";
    format!("{first}{second}")
}

#[test]
fn device_id_is_the_head_of_the_digest_in_hexadecimal() {
    let identity = vector_identity();
    assert_eq!(identity.device_id(), "21fe31dfa154a261626bf854046fd227");
    assert_eq!(device_id_for_public_key(&identity.public_key()), identity.device_id());
}

#[test]
fn capability_store_rejects_unknown_devices() {
    let mut capabilities = CapabilityStore::open(Vec::new());
    let unknown = "a".repeat(32);
    assert!(capabilities
        .grant_capability(&NoPair, &unknown, &"b".repeat(32), "sync.theme")
        .is_err());
    assert!(capabilities.load(&unknown).unwrap().is_none());
}

#[test]
fn capability_grants_say_why_they_are_refused() {
    let mut store = CapabilityStore::open(Vec::new());
    let local = "a".repeat(32);
    let peer = "b".repeat(32);
    assert_eq!(
        store.grant_capability(&NoPair, &local, &peer, "sync.theme").err(),
        Some(SyncError::CapabilityWithoutPairing)
    );
    assert_eq!(
        store.grant_capability(&Unreadable, &local, &peer, "sync.theme").err(),
        Some(SyncError::RecordMalformed)
    );
    assert_eq!(
        store.grant_capability(&Paired, &local, &peer, "sync theme").err(),
        Some(SyncError::InvalidCapability)
    );
    assert_eq!(
        store.grant_capability(&Paired, &local, "short", "sync.theme").err(),
        Some(SyncError::InvalidDeviceId)
    );
    assert!(store.load(&peer).unwrap().is_none());
}

#[test]
fn capability_grants_add_up_in_order_and_per_device() {
    let mut store = CapabilityStore::open(Vec::new());
    let local = "a".repeat(32);
    let peer = "b".repeat(32);
    let other = "c".repeat(32);
    store.grant_capability(&Paired, &local, &peer, "sync.theme").unwrap();
    store.grant_capability(&Paired, &local, &peer, "mount").unwrap();
    let all = store.grant_capability(&Paired, &local, &peer, "sync.theme").unwrap();
    assert_eq!(all.len(), 2);
    assert_eq!(all.get(0), "mount");
    assert_eq!(all.get(1), "sync.theme");
    assert!(all.contains("mount"));
    assert!(!all.contains("ssh"));
    assert_eq!(store.load(&peer).unwrap(), Some(all));
    assert!(store.load(&other).unwrap().is_none());
}

#[test]
fn each_grant_writes_the_whole_record_of_the_peer() {
    let mut store = CapabilityStore::open(Vec::new());
    let local = "a".repeat(32);
    let peer = "ab".repeat(16);
    assert!(store.grant_capability(&NoPair, &local, &peer, "mount").is_err());
    assert!(store.take_writes().is_empty());
    store.grant_capability(&Paired, &local, &peer, "sync.theme").unwrap();
    store.grant_capability(&Paired, &local, &peer, "mount").unwrap();
    let writes = store.take_writes();
    let head = "{\n  \"device_id\": \"abababababababababababababababab\",\n  \"capabilities\": [";
    assert_eq!(writes.len(), 2);
    for write in &writes {
        assert_eq!(write.name, format!("{peer}.json").into_bytes());
    }
    assert_eq!(writes[0].bytes, format!("{head}\n    \"sync.theme\"\n  ]\n}}").into_bytes());
    assert_eq!(
        writes[1].bytes,
        format!("{head}\n    \"mount\",\n    \"sync.theme\"\n  ]\n}}").into_bytes()
    );
    assert!(store.take_writes().is_empty());
}

fn stored(name: &str, content: GrantContent) -> CapabilityStore {
    CapabilityStore::open(vec![GrantEntry { name: name.as_bytes().to_vec(), content }])
}

#[test]
fn stored_capabilities_are_checked() {
    let peer = "b".repeat(32);
    let name = format!("{peer}.json");
    assert_eq!(
        stored(&name, GrantContent::NotRegular).load(&peer).err(),
        Some(SyncError::CapabilityNotRegular)
    );
    assert_eq!(
        stored(&name, GrantContent::Malformed).load(&peer).err(),
        Some(SyncError::CapabilityMalformed)
    );
    let foreign = CapabilityRecord {
        device_id: "c".repeat(32),
        capabilities: CapabilitySet::new(),
    };
    assert_eq!(
        stored(&name, GrantContent::Record(foreign)).load(&peer).err(),
        Some(SyncError::CapabilityMismatch)
    );
    let own = CapabilityRecord {
        device_id: peer.clone(),
        capabilities: CapabilitySet::from_items(vec!["b".into(), "a".into(), "b".into()]),
    };
    let set = stored(&name, GrantContent::Record(own)).load(&peer).unwrap().unwrap();
    assert_eq!((set.len(), set.get(0), set.get(1)), (2, "a", "b"));
}

#[test]
fn capability_files_are_named_after_devices() {
    let id = "0123456789abcdefABCDEF0123456789";
    assert_eq!(CapabilityStore::path_for(id).unwrap(), format!("{id}.json").into_bytes());
    assert_eq!(CapabilityStore::path_for("../x").err(), Some(SyncError::InvalidDeviceId));
    assert_eq!(
        CapabilityStore::path_for(&"g".repeat(32)).err(),
        Some(SyncError::InvalidDeviceId)
    );
}

#[test]
fn capability_names_are_bounded() {
    assert!(validate_capability("sync.theme-1_x").is_ok());
    assert!(validate_capability(&"a".repeat(64)).is_ok());
    for bad in ["", "a b", "a/b", "\u{e9}"] {
        assert_eq!(validate_capability(bad), Err(SyncError::InvalidCapability));
    }
    assert_eq!(validate_capability(&"a".repeat(65)), Err(SyncError::InvalidCapability));
}

#[test]
fn grants_have_an_exact_stored_form() {
    let record = |items: Vec<String>| CapabilityRecord {
        device_id: "ab".repeat(16),
        capabilities: CapabilitySet::from_items(items),
    };
    let text = |record: &CapabilityRecord| String::from_utf8(record.to_bytes()).unwrap();
    assert_eq!(
        text(&record(vec!["sync.theme".into(), "mount".into()])),
        "{\n  \"device_id\": \"abababababababababababababababab\",\n  \"capabilities\": \
         [\n    \"mount\",\n    \"sync.theme\"\n  ]\n}"
    );
    assert_eq!(
        text(&record(vec![])),
        "{\n  \"device_id\": \"abababababababababababababababab\",\n  \"capabilities\": []\n}"
    );
    // It is what the JSON library makes of the same fields.
    let one = record(vec!["a\"b".into()]);
    let parsed: serde_json::Value = serde_json::from_slice(&one.to_bytes()).unwrap();
    assert_eq!(parsed["capabilities"][0], "a\"b");
    assert_eq!(parsed["device_id"], "ab".repeat(16));
}
