use omarchy_syncd::discovery::{DiscoveryVerifier, VerifiedDiscovery};
use omarchy_syncd::error::SyncError;
use omarchy_syncd::identity::DeviceIdentity;
use omarchy_syncd::pairing_run::{
    plan_initiator, plan_responder, Action, Event, InitiatorRun, ReceivedMessage, ReceivedRecord,
    ResponderRun,
};
use omarchy_syncd::peers::{PairCoordinator, PeerCache, PAIR_COOLDOWN, PEER_MAX_AGE};
use omarchy_syncd::prompt::{next_prompt, prompt_body, Asked, Prompt, Ran};
use omarchy_syncd::protocol_v3::{DeviceCertificate, PinnedOmarchyRoot};
use omarchy_syncd::runtime_v3::{
    announcement_due, build_runtime, certificate_path, decode_app, device_name, encode_app,
    load_enrollment, read_wire, route_device_id, route_preface, state_dir, verify_route_preface,
    write_wire, Admission, CertificateFile, Enrollment, PairMessage, Runtime, DISCOVERY_INTERVAL,
    MAX_WIRE_FRAME,
};
use omarchy_syncd::trust::{AuthorizationGrant, PairingRecord, PairingStore};
use serde_json::Value;
use std::collections::VecDeque;

const NOW: u64 = 1_000_000;
const CLOCK: u64 = 60_000_000_000;
const ISSUER: [u8; 32] = [7; 32];

// Parsing records and messages.

fn text(value: &Value, name: &str) -> Option<String> {
    Some(value.get(name)?.as_str()?.to_string())
}

fn bytes(value: &Value, name: &str) -> Option<Vec<u8>> {
    let items = value.get(name)?.as_array()?;
    items.iter().map(|item| u8::try_from(item.as_u64()?).ok()).collect()
}

fn parse_record(content: &[u8]) -> Option<PairingRecord> {
    let value: Value = serde_json::from_slice(content).ok()?;
    Some(PairingRecord {
        protocol_version: u8::try_from(value.get("protocol_version")?.as_u64()?).ok()?,
        domain: text(&value, "domain")?,
        pair_id: text(&value, "pair_id")?,
        initiator_device_id: text(&value, "initiator_device_id")?,
        responder_device_id: text(&value, "responder_device_id")?,
        initiator_public_key: bytes(&value, "initiator_public_key")?.try_into().ok()?,
        responder_public_key: bytes(&value, "responder_public_key")?.try_into().ok()?,
        initiator_certificate: bytes(&value, "initiator_certificate")?,
        responder_certificate: bytes(&value, "responder_certificate")?,
        session_binding: bytes(&value, "session_binding")?.try_into().ok()?,
        authorizing_device_id: text(&value, "authorizing_device_id")?,
        user_presence: text(&value, "user_presence")?,
        authorized_at: value.get("authorized_at")?.as_u64()?,
        initiator_signature: bytes(&value, "initiator_signature"),
        responder_signature: bytes(&value, "responder_signature"),
    })
}

fn parse_message(content: &[u8]) -> ReceivedMessage {
    let Ok(value) = serde_json::from_slice::<Value>(content) else {
        return ReceivedMessage::Malformed;
    };
    let received = bytes(&value, "record").map(|bytes| {
        let parsed = parse_record(&bytes);
        ReceivedRecord { bytes, parsed }
    });
    match (text(&value, "type").as_deref(), received) {
        (Some("request"), _) => ReceivedMessage::Request,
        (Some("finalized"), _) => ReceivedMessage::Finalized,
        (Some("prepared"), Some(record)) => ReceivedMessage::Prepared(record),
        (Some("complete"), Some(record)) => ReceivedMessage::Complete(record),
        _ => ReceivedMessage::Malformed,
    }
}

// Two devices and a connection between them.

struct Device {
    identity: DeviceIdentity,
    runtime: Runtime,
    store: PairingStore,
}

fn root() -> PinnedOmarchyRoot {
    let issuer = DeviceIdentity::from_secret(ISSUER);
    PinnedOmarchyRoot::from_bytes(&issuer.public_key()).unwrap()
}

fn device(secret: u8, name: &str) -> Device {
    let identity = DeviceIdentity::from_secret([secret; 32]);
    let certificate = DeviceCertificate::issue(
        &ISSUER,
        identity.device_id(),
        identity.public_key(),
        name.into(),
        NOW - 1,
        NOW + 3600,
        root().key_id().to_string(),
    )
    .unwrap();
    let runtime = build_runtime(
        b"/state".to_vec(),
        name.into(),
        identity.device_id(),
        Enrollment { root: root(), certificate },
        49_321,
    );
    let store = PairingStore::open(vec![], vec![], vec![], root(), NOW);
    Device { identity, runtime, store }
}

fn discovery(of: &Device) -> VerifiedDiscovery {
    let certificate = &of.runtime.enrollment().certificate;
    VerifiedDiscovery {
        device_id: certificate.device_id.clone(),
        device_name: certificate.device_name.clone(),
        public_key: certificate.public_key,
        timestamp: NOW,
        port: 49_321,
    }
}

/// A pair of which the left device has the lower DeviceID.
fn fixture() -> (Device, Device) {
    let (a, b) = (device(81, "Left"), device(82, "Right"));
    if a.identity.device_id() < b.identity.device_id() {
        (a, b)
    } else {
        (b, a)
    }
}

#[derive(Clone, Copy, PartialEq)]
enum Fault {
    Nowhere,
    PreparedSent,
    InitiatorCoSigned,
    ResponderFinalized,
}

struct Broker {
    calls: usize,
    allow: bool,
}

impl Broker {
    fn new(allow: bool) -> Self {
        Broker { calls: 0, allow }
    }

    fn authorize(&mut self) -> Result<AuthorizationGrant, SyncError> {
        self.calls += 1;
        if self.allow {
            Ok(AuthorizationGrant { user_presence: "mock-approved".into() })
        } else {
            Err(SyncError::AuthorizationDenied)
        }
    }
}

/// How a side of a connection ended: the connection may just have died.
#[derive(Debug, PartialEq)]
enum Ended {
    Well,
    Lost,
    Refused(SyncError),
}

/// What is left to do on one side, and the frames that have arrived there.
struct Side {
    next: Option<Action>,
    inbox: VecDeque<Vec<u8>>,
    ended: Option<Ended>,
}

impl Side {
    fn waits(&self) -> bool {
        self.ended.is_none() && self.next.is_none() && self.inbox.is_empty()
    }
}

/// Performs the next action of a side; the event it gives rise to, if any.
fn perform(side: &mut Side, peer: &mut VecDeque<Vec<u8>>, broker: &mut Broker) -> Option<Event> {
    match side.next.take() {
        None => side.inbox.pop_front().map(Event::Frame),
        Some(Action::Exchange(frames)) => {
            for frame in frames {
                peer.push_back(unwired(&frame));
            }
            side.inbox.pop_front().map(Event::Frame)
        }
        Some(Action::Parse(content)) => Some(Event::Message(parse_message(&content))),
        Some(Action::Authorize(_)) => Some(Event::Decision(broker.authorize())),
        Some(Action::Finish(frames)) => {
            for frame in frames {
                peer.push_back(unwired(&frame));
            }
            side.ended = Some(Ended::Well);
            None
        }
    }
}

/// A frame that goes through its length-prefixed form.
fn unwired(frame: &[u8]) -> Vec<u8> {
    let wire = write_wire(frame).unwrap();
    let header: [u8; 4] = wire[..4].try_into().unwrap();
    assert_eq!(read_wire(&header).unwrap(), wire.len() - 4);
    wire[4..].to_vec()
}

fn connect(
    left: &mut Device,
    right: &mut Device,
    left_knows: &VerifiedDiscovery,
    right_knows: &VerifiedDiscovery,
    broker: &mut Broker,
    fault: Fault,
    entropy: u8,
) -> (Ended, Ended) {
    let begun = InitiatorRun::begin(
        &left.store,
        &left.identity,
        left.runtime.enrollment(),
        left.runtime.identity(),
        &left_knows.device_id,
        NOW,
        [entropy; 16],
    );
    let (mut i_run, action) = match begun {
        Ok((run, action)) => (Some(run), action),
        Err(error) => return (Ended::Refused(error), Ended::Lost),
    };
    let Action::Exchange(opening) = action else {
        panic!("a run opens with frames");
    };
    if let Err(error) = verify_route_preface(&opening[0], right_knows) {
        return (Ended::Lost, Ended::Refused(error));
    }
    if let Err(error) = right.runtime.begin_response(&right_knows.device_id, CLOCK) {
        return (Ended::Lost, Ended::Refused(error));
    }
    let begun = ResponderRun::begin(
        &right.store,
        &right.identity,
        right.runtime.enrollment(),
        right.runtime.identity(),
        &right_knows.device_id,
        NOW,
        &opening[1],
    );
    let mut i = Side { next: None, inbox: VecDeque::new(), ended: None };
    let mut r = Side { next: None, inbox: VecDeque::new(), ended: None };
    let mut r_run = match begun {
        Ok((run, action)) => {
            r.next = Some(action);
            Some(run)
        }
        Err(error) => {
            r.ended = Some(Ended::Refused(error));
            None
        }
    };
    while i.ended.is_none() || r.ended.is_none() {
        if r.ended.is_none() {
            if fault == Fault::ResponderFinalized
                && matches!(r.next, Some(Action::Finish(_)))
            {
                r.ended = Some(Ended::Lost);
                continue;
            }
            let preparing = matches!(r.next, Some(Action::Authorize(_)));
            if let Some(event) = perform(&mut r, &mut i.inbox, broker) {
                match r_run.take().unwrap().step(event, &mut right.store) {
                    Ok((run, action)) => {
                        r_run = Some(run);
                        r.next = Some(action);
                    }
                    Err(error) => r.ended = Some(Ended::Refused(error)),
                }
            }
            if preparing && fault == Fault::PreparedSent {
                perform(&mut r, &mut i.inbox, broker);
                r.ended = Some(Ended::Lost);
            }
        }
        if i.ended.is_none() {
            let reading = matches!(i.next, Some(Action::Parse(_)));
            if let Some(event) = perform(&mut i, &mut r.inbox, broker) {
                match i_run.take().unwrap().step(event, &mut left.store) {
                    Ok((run, action)) => {
                        i_run = Some(run);
                        i.next = Some(action);
                    }
                    Err(error) => i.ended = Some(Ended::Refused(error)),
                }
            }
            let co_signed = reading && matches!(i.next, Some(Action::Exchange(_)));
            if co_signed && fault == Fault::InitiatorCoSigned {
                i.ended = Some(Ended::Lost);
            }
        }
        if r.ended.is_some() && i.waits() {
            i.ended = Some(Ended::Lost);
        }
        if i.ended.is_some() && r.waits() {
            r.ended = Some(Ended::Lost);
        }
    }
    let ended = r.ended.unwrap();
    let failed = ended != Ended::Well;
    let peer_id = &right_knows.device_id;
    let retry_later = right.runtime.retry_later(failed, Some(&right.store), peer_id);
    right.runtime.end_attempt(peer_id, retry_later, CLOCK);
    (i.ended.unwrap(), ended)
}

fn pair(
    left: &mut Device,
    right: &mut Device,
    broker: &mut Broker,
    fault: Fault,
) -> (Ended, Ended) {
    let (left_knows, right_knows) = (discovery(right), discovery(left));
    let entropy = 16 * fault as u8 + broker.calls as u8;
    connect(left, right, &left_knows, &right_knows, broker, fault, entropy)
}

fn active(of: &Device, peer: &Device) -> Option<PairingRecord> {
    let (own, other) = (of.identity.device_id(), peer.identity.device_id());
    let pair_id = of.store.active_pair_for_peer(&own, &other).unwrap()?;
    of.store.load(&pair_id).unwrap()
}

fn pending(of: &Device, peer: &Device) -> Option<PairingRecord> {
    let (own, other) = (of.identity.device_id(), peer.identity.device_id());
    of.store.pending_for_peer(&own, &other).unwrap()
}

#[test]
fn certificate_path_is_fixed_under_identity_state() {
    assert_eq!(certificate_path(b"/state"), b"/state/identity/device-cert.bin".to_vec());
}

#[test]
fn certificate_path_takes_any_root() {
    assert_eq!(certificate_path(b"/state/"), b"/state/identity/device-cert.bin".to_vec());
    assert_eq!(certificate_path(b""), b"identity/device-cert.bin".to_vec());
}

#[test]
fn state_directory_is_the_first_that_is_known() {
    let (given, state, home) = (&b"/given"[..], &b"/xdg/"[..], &b"/home/me"[..]);
    assert_eq!(state_dir(Some(given), Some(state), Some(home)), b"/given");
    assert_eq!(state_dir(None, Some(state), Some(home)), b"/xdg/omarchy-sync");
    assert_eq!(state_dir(None, None, Some(home)), b"/home/me/.local/state/omarchy-sync");
    assert_eq!(state_dir(None, None, None), b"/var/lib/omarchy-sync");
}

#[test]
fn device_is_named_after_its_host() {
    assert_eq!(device_name(Some(" k12\n")), "k12");
    assert_eq!(device_name(Some(" \n")), "omarchy");
    assert_eq!(device_name(None), "omarchy");
}

#[test]
fn application_messages_are_bounded_and_tagged() {
    let bytes = encode_app(&PairMessage::Prepared(vec![1, 2, 3])).unwrap();
    assert!(matches!(
        parse_message(&decode_app(&bytes).unwrap()),
        ReceivedMessage::Prepared(_)
    ));
    assert!(decode_app(b"bad").is_err());
}

#[test]
fn application_messages_have_exact_forms() {
    let encoded = |message: PairMessage| {
        let payload = encode_app(&message).unwrap();
        assert_eq!(&payload[..22], b"OMARCHY-PAIR-RECORD-V3");
        String::from_utf8(decode_app(&payload).unwrap()).unwrap()
    };
    assert_eq!(encoded(PairMessage::Request), r#"{"type":"request"}"#);
    assert_eq!(
        encoded(PairMessage::Prepared(vec![1, 20, 255])),
        r#"{"type":"prepared","record":[1,20,255]}"#
    );
    assert_eq!(encoded(PairMessage::Complete(vec![])), r#"{"type":"complete","record":[]}"#);
    assert_eq!(encoded(PairMessage::Finalized), r#"{"type":"finalized"}"#);
}

#[test]
fn application_frames_have_exact_limits() {
    // Two bytes for each item, between a head of 28 and a tail of two.
    let mut record = vec![0_u8; (49_152 - 22 - 30) / 2];
    let encoded = encode_app(&PairMessage::Prepared(record.clone())).unwrap();
    assert_eq!(encoded.len(), 49_152);
    assert!(decode_app(&encoded).is_ok());
    record[0] = 10;
    assert_eq!(encode_app(&PairMessage::Prepared(record)), Err(SyncError::AppFrameTooLarge));
    let mut longer = encoded.clone();
    longer.push(0);
    assert_eq!(decode_app(&longer), Err(SyncError::AppFrame));
    assert_eq!(decode_app(b"OMARCHY-PAIR-RECORD-V2{}"), Err(SyncError::AppFrame));
}

#[test]
fn coordinator_allows_one_attempt_and_cools_down_failures() {
    let now = 1_000_000_000;
    let mut coordinator = PairCoordinator::new();
    assert!(coordinator.enter("peer", now));
    assert!(!coordinator.enter("peer", now));
    coordinator.leave("peer", true, now);
    assert!(!coordinator.enter("peer", now));
    assert!(coordinator.enter("another-peer", now));
}

#[test]
fn cooldown_ends_and_success_has_none() {
    let now = 1_000_000_000;
    let mut coordinator = PairCoordinator::new();
    assert!(coordinator.enter("peer", now));
    coordinator.leave("peer", true, now);
    assert!(!coordinator.enter("peer", now + PAIR_COOLDOWN - 1));
    assert!(coordinator.enter("peer", now + PAIR_COOLDOWN));
    coordinator.leave("peer", false, now + PAIR_COOLDOWN);
    assert!(coordinator.enter("peer", now + PAIR_COOLDOWN));
}

#[test]
fn runtime_pairing_is_discovery_bound_and_bilateral() {
    let (mut left, mut right) = fixture();
    let mut broker = Broker::new(true);
    let ended = pair(&mut left, &mut right, &mut broker, Fault::Nowhere);
    assert_eq!(ended, (Ended::Well, Ended::Well));
    assert_eq!(broker.calls, 1);
    let record = active(&left, &right).unwrap();
    assert_eq!(active(&right, &left), Some(record.clone()));
    assert!(record.is_complete());
    assert_eq!(record.user_presence, "mock-approved");
    assert_eq!(pending(&left, &right), None);
    assert_eq!(pending(&right, &left), None);
}

const LOCAL_IP: [u8; 4] = [127, 0, 0, 1];

#[test]
fn listener_routes_ephemeral_client_by_signed_device_preface() {
    let (mut left, mut right) = fixture();
    let packet = left.runtime.announce(&left.identity, [3; 32], NOW).unwrap();
    let mut verifier = DiscoveryVerifier::new(root());
    let ip = LOCAL_IP.to_vec();
    let found = right.runtime.discover(&mut verifier, &packet, ip.clone(), NOW, CLOCK).unwrap();
    assert_eq!(found, discovery(&left));
    let route = route_preface(&left.identity);
    let Admission::Peer(peer) = right.runtime.screen(&route, &ip, CLOCK) else {
        panic!("the discovered peer is admitted");
    };
    let mut broker = Broker::new(true);
    let knows = discovery(&right);
    let ended = connect(
        &mut left,
        &mut right,
        &knows,
        &peer.discovery,
        &mut broker,
        Fault::Nowhere,
        1,
    );
    assert_eq!(ended, (Ended::Well, Ended::Well));
    assert_eq!(broker.calls, 1);
}

#[test]
fn connections_are_screened() {
    let (left, mut right) = fixture();
    let stranger = device(90, "Stranger");
    let ip = LOCAL_IP.to_vec();
    let mut verifier = DiscoveryVerifier::new(root());
    let packet = left.runtime.announce(&left.identity, [3; 32], NOW).unwrap();
    right.runtime.discover(&mut verifier, &packet, ip.clone(), NOW, CLOCK).unwrap();
    assert!(matches!(
        right.runtime.screen(b"hello", &ip, CLOCK),
        Admission::InvalidPreface
    ));
    assert!(matches!(
        right.runtime.screen(&route_preface(&stranger.identity), &ip, CLOCK),
        Admission::NotDiscovered
    ));
    let route = route_preface(&left.identity);
    assert!(matches!(
        right.runtime.screen(&route, &[10, 0, 0, 1], CLOCK),
        Admission::Unbound
    ));
    let mut forged = route.clone();
    forged[60] ^= 1;
    assert!(matches!(right.runtime.screen(&forged, &ip, CLOCK), Admission::Unbound));
    assert!(matches!(right.runtime.screen(&route, &ip, CLOCK), Admission::Peer(_)));
    let stale = CLOCK + PEER_MAX_AGE + 1;
    assert!(matches!(
        right.runtime.screen(&route, &ip, stale),
        Admission::NotDiscovered
    ));
}

#[test]
fn own_announcements_are_ignored() {
    let (mut left, _) = fixture();
    let packet = left.runtime.announce(&left.identity, [3; 32], NOW).unwrap();
    let mut verifier = DiscoveryVerifier::new(root());
    let ip = LOCAL_IP.to_vec();
    assert_eq!(left.runtime.discover(&mut verifier, &packet, ip.clone(), NOW, CLOCK), None);
    let route = route_preface(&left.identity);
    assert!(matches!(left.runtime.screen(&route, &ip, CLOCK), Admission::NotDiscovered));
}

#[test]
fn runtime_global_concurrency_limits_two_distinct_pair_attempts() {
    let (mut left, mut right) = fixture();
    let mut third = device(83, "Third");
    let mut broker = Broker::new(true);
    // The left device's attempt is in progress.
    right.runtime.begin_response(&left.identity.device_id(), CLOCK).unwrap();
    let ended = pair(&mut third, &mut right, &mut broker, Fault::Nowhere);
    assert_eq!(ended, (Ended::Lost, Ended::Refused(SyncError::PairingInProgress)));
    assert_eq!(broker.calls, 0);
    right.runtime.end_attempt(&left.identity.device_id(), false, CLOCK);
    let ended = pair(&mut left, &mut right, &mut broker, Fault::Nowhere);
    assert_eq!(ended, (Ended::Well, Ended::Well));
    assert_eq!(broker.calls, 1);
    assert_eq!(active(&right, &third), None);
}

fn run_fault_recovery(fault: Fault) {
    let (mut left, mut right) = fixture();
    let mut broker = Broker::new(true);
    let first = pair(&mut left, &mut right, &mut broker, fault);
    assert_ne!(first.0, Ended::Well);
    let second = pair(&mut left, &mut right, &mut broker, Fault::Nowhere);
    assert_eq!(second, (Ended::Well, Ended::Well));
    assert_eq!(broker.calls, 1);
    let record = active(&left, &right).unwrap();
    assert!(record.is_complete());
    assert_eq!(active(&right, &left), Some(record));
    assert_eq!(pending(&left, &right), None);
    assert_eq!(pending(&right, &left), None);
}

#[test]
fn runtime_recovers_when_connection_dies_after_prepared() {
    run_fault_recovery(Fault::PreparedSent);
}

#[test]
fn runtime_recovers_when_connection_dies_after_initiator_cosign() {
    run_fault_recovery(Fault::InitiatorCoSigned);
}

#[test]
fn runtime_recovers_when_finalized_ack_is_lost() {
    run_fault_recovery(Fault::ResponderFinalized);
}

fn run_series(faults: &[Fault]) {
    let (mut left, mut right) = fixture();
    let mut broker = Broker::new(true);
    for fault in faults {
        let ended = pair(&mut left, &mut right, &mut broker, *fault);
        assert_ne!(ended, (Ended::Well, Ended::Well));
        assert_eq!(broker.calls, 1);
    }
    let last = pair(&mut left, &mut right, &mut broker, Fault::Nowhere);
    assert_eq!(last, (Ended::Well, Ended::Well));
    assert_eq!(broker.calls, 1);
    let record = active(&left, &right).unwrap();
    assert!(record.is_complete());
    assert_eq!(record.user_presence, "mock-approved");
    assert_eq!(active(&right, &left), Some(record));
    assert_eq!(pending(&left, &right), None);
    assert_eq!(pending(&right, &left), None);
}

#[test]
fn several_interruptions_after_a_co_signature_are_made_up_for() {
    run_series(&[
        Fault::InitiatorCoSigned,
        Fault::InitiatorCoSigned,
        Fault::ResponderFinalized,
    ]);
}

#[test]
fn several_interruptions_after_an_approval_are_made_up_for() {
    run_series(&[Fault::PreparedSent, Fault::ResponderFinalized]);
}

#[test]
fn runtime_denial_creates_no_trust_and_no_prompt_retry() {
    let (mut left, mut right) = fixture();
    let mut broker = Broker::new(false);
    let ended = pair(&mut left, &mut right, &mut broker, Fault::Nowhere);
    assert_eq!(ended, (Ended::Lost, Ended::Refused(SyncError::AuthorizationDenied)));
    assert_eq!(broker.calls, 1);
    assert_eq!(active(&left, &right), None);
    assert_eq!(active(&right, &left), None);
    assert_eq!(pending(&right, &left), None);
    // The peer is left alone for a while.
    let id = left.identity.device_id();
    assert_eq!(
        right.runtime.begin_response(&id, CLOCK + PAIR_COOLDOWN - 1),
        Err(SyncError::PairingInProgress)
    );
}

#[test]
fn runtime_wrong_discovered_device_id_fails_before_trust() {
    let (mut left, mut right) = fixture();
    let (mut left_knows, mut right_knows) = (discovery(&right), discovery(&left));
    left_knows.device_id = "f".repeat(32);
    right_knows.device_id = "f".repeat(32);
    let mut broker = Broker::new(true);
    let ended = connect(
        &mut left,
        &mut right,
        &left_knows,
        &right_knows,
        &mut broker,
        Fault::Nowhere,
        1,
    );
    assert_eq!(ended, (Ended::Lost, Ended::Refused(SyncError::RouteDevice)));
    assert_eq!(broker.calls, 0);
    assert_eq!(active(&left, &right), None);
    assert_eq!(active(&right, &left), None);
}

#[test]
fn missing_enrollment_is_fail_closed() {
    let identity = DeviceIdentity::from_secret([81; 32]);
    let missing = CertificateFile { regular_file: false, mode: 0, size: 0 };
    assert!(load_enrollment(root(), &missing, &[], &identity, NOW).is_err());
    let empty = CertificateFile { regular_file: true, mode: 0o100600, size: 0 };
    assert!(load_enrollment(root(), &empty, &[], &identity, NOW).is_err());
}

#[test]
fn enrollment_is_checked() {
    let (left, right) = fixture();
    let certificate = left.runtime.enrollment().certificate.clone();
    let bytes = certificate.to_bytes().unwrap();
    let file = |regular_file: bool, mode: u32, size: u64| CertificateFile {
        regular_file,
        mode,
        size,
    };
    let size = bytes.len() as u64;
    let load = |file: CertificateFile, identity: &DeviceIdentity, now: u64| {
        load_enrollment(root(), &file, &bytes, identity, now).err()
    };
    let own = &left.identity;
    assert_eq!(load(file(true, 0o100600, size), own, NOW), None);
    assert_eq!(
        load(file(false, 0o100600, size), own, NOW),
        Some(SyncError::EnrollmentNotRegular)
    );
    assert_eq!(
        load(file(true, 0o100640, size), own, NOW),
        Some(SyncError::EnrollmentAccessible)
    );
    assert_eq!(
        load(file(true, 0o100600, 513), own, NOW),
        Some(SyncError::EnrollmentTooLarge)
    );
    assert_eq!(
        load(file(true, 0o100600, size), &right.identity, NOW),
        Some(SyncError::EnrollmentMismatch)
    );
    assert_eq!(
        load(file(true, 0o100600, size), own, NOW + 3601),
        Some(SyncError::CertificateExpired)
    );
    let enrollment =
        load_enrollment(root(), &file(true, 0o100600, size), &bytes, own, NOW).unwrap();
    assert_eq!((enrollment.root, enrollment.certificate), (root(), certificate));
}

#[test]
fn stored_records_are_read_back_as_written() {
    let (mut left, mut right) = fixture();
    let mut broker = Broker::new(true);
    pair(&mut left, &mut right, &mut broker, Fault::Nowhere);
    let mut record = active(&left, &right).unwrap();
    let plain = record.to_bytes().unwrap();
    for presence in ["mock", "a\"b\\c\n\u{1}\u{e9}\u{1f600}", "\\u0001"] {
        record.user_presence = presence.into();
        record.responder_signature = if presence == "mock" { None } else { Some(vec![0, 7, 255]) };
        let stored = record.to_bytes().unwrap();
        assert_ne!(stored, plain);
        let read = PairingRecord::from_bytes(&stored, parse_record(&stored)).unwrap();
        assert_eq!(read, record);
    }
}

#[test]
fn active_pairings_reconnect_without_a_prompt() {
    let (mut left, mut right) = fixture();
    let mut broker = Broker::new(true);
    pair(&mut left, &mut right, &mut broker, Fault::Nowhere);
    let record = active(&left, &right);
    left.store.take_changes();
    right.store.take_changes();
    let again = pair(&mut left, &mut right, &mut broker, Fault::Nowhere);
    assert_eq!(again, (Ended::Well, Ended::Well));
    assert_eq!(broker.calls, 1);
    assert_eq!(active(&left, &right), record);
    assert!(left.store.take_changes().is_empty());
    assert!(right.store.take_changes().is_empty());
}

#[test]
fn pending_state_of_one_side_is_resumed_or_recovered() {
    let (mut left, mut right) = fixture();
    let mut broker = Broker::new(true);
    pair(&mut left, &mut right, &mut broker, Fault::InitiatorCoSigned);
    let (own, peer) = (left.identity.device_id(), right.identity.device_id());
    assert!(plan_initiator(&left.store, &left.identity, &own, &peer).unwrap().is_some());
    let plan = plan_responder(&right.store, &right.identity, &peer, &own, false).unwrap();
    assert!(plan.active_pair.is_none() && plan.pending.is_some() && plan.context.is_none());
    let plan = plan_responder(&right.store, &right.identity, &peer, &own, true).unwrap();
    assert!(plan.context.is_some());
    // The initiator forgets; the responder still needs no second approval.
    left.store = PairingStore::open(vec![], vec![], vec![], root(), NOW);
    assert!(plan_initiator(&left.store, &left.identity, &own, &peer).unwrap().is_none());
    let again = pair(&mut left, &mut right, &mut broker, Fault::Nowhere);
    assert_eq!(again, (Ended::Well, Ended::Well));
    assert_eq!(broker.calls, 1);
    assert_eq!(active(&left, &right), active(&right, &left));
}

#[test]
fn runs_refuse_events_out_of_turn() {
    let (mut left, mut right) = fixture();
    let begin = |left: &Device, right: &Device| {
        InitiatorRun::begin(
            &left.store,
            &left.identity,
            left.runtime.enrollment(),
            left.runtime.identity(),
            &right.identity.device_id(),
            NOW,
            [1; 16],
        )
        .unwrap()
    };
    let (run, action) = begin(&left, &right);
    let Action::Exchange(opening) = action else {
        panic!("a run opens with frames");
    };
    let wrong = run.step(Event::Message(ReceivedMessage::Finalized), &mut left.store).err();
    assert_eq!(wrong, Some(SyncError::EventUnexpected));
    let (run, _) = ResponderRun::begin(
        &right.store,
        &right.identity,
        right.runtime.enrollment(),
        right.runtime.identity(),
        &left.identity.device_id(),
        NOW,
        &opening[1],
    )
    .unwrap();
    let decision = Event::Decision(Err(SyncError::AuthorizationDenied));
    assert_eq!(run.step(decision, &mut right.store).err(), Some(SyncError::EventUnexpected));
}

#[test]
fn wire_frames_carry_their_length() {
    assert_eq!(write_wire(b"abc").unwrap(), b"\x00\x00\x00\x03abc".to_vec());
    assert_eq!(write_wire(b""), Err(SyncError::WireLength));
    assert!(write_wire(&vec![0; MAX_WIRE_FRAME]).is_ok());
    assert_eq!(write_wire(&vec![0; MAX_WIRE_FRAME + 1]), Err(SyncError::WireLength));
    assert_eq!(read_wire(&[0, 1, 0, 0]), Ok(65_536));
    assert_eq!(read_wire(&[0, 1, 0, 1]), Err(SyncError::WireLength));
    assert_eq!(read_wire(&[0, 0, 0, 0]), Err(SyncError::WireLength));
}

#[test]
fn route_prefaces_name_and_prove_the_device() {
    let (left, right) = fixture();
    let route = route_preface(&left.identity);
    let id = left.identity.device_id();
    let signed = format!("OMARCHY-ROUTE-V3{id}").into_bytes();
    assert_eq!(route[..48], signed[..]);
    assert_eq!(route[48..], left.identity.sign(&signed));
    assert_eq!(route_device_id(&route), Some(id));
    assert_eq!(route_device_id(&route[1..]), None);
    let known = discovery(&left);
    assert_eq!(verify_route_preface(&route, &known), Ok(()));
    assert_eq!(verify_route_preface(&route[1..], &known), Err(SyncError::RoutePreface));
    assert_eq!(
        verify_route_preface(&route, &discovery(&right)),
        Err(SyncError::RouteDevice)
    );
    let mut forged = route.clone();
    forged[100] ^= 1;
    assert_eq!(verify_route_preface(&forged, &known), Err(SyncError::RouteSignature));
}

#[test]
fn lower_device_id_initiates_once() {
    let (mut left, mut right) = fixture();
    let (low, high) = (left.identity.device_id(), right.identity.device_id());
    assert!(!right.runtime.initiate(&right.store, &low, CLOCK));
    assert!(left.runtime.initiate(&left.store, &high, CLOCK));
    assert!(!left.runtime.initiate(&left.store, &high, CLOCK));
    left.runtime.end_attempt(&high, true, CLOCK);
    assert!(!left.runtime.initiate(&left.store, &high, CLOCK + PAIR_COOLDOWN - 1));
    assert!(left.runtime.initiate(&left.store, &high, CLOCK + PAIR_COOLDOWN));
    left.runtime.end_attempt(&high, false, CLOCK);
    let mut broker = Broker::new(true);
    pair(&mut left, &mut right, &mut broker, Fault::Nowhere);
    // A healthy relationship is no reason to pair again.
    assert!(!left.runtime.initiate(&left.store, &high, CLOCK + 2 * PAIR_COOLDOWN));
}

#[test]
fn announcements_are_periodic() {
    assert!(announcement_due(DISCOVERY_INTERVAL, 0));
    assert!(!announcement_due(DISCOVERY_INTERVAL - 1, 0));
    assert!(!announcement_due(0, 1));
}

#[test]
fn peers_are_cached_by_device_and_age_out() {
    let (left, _) = fixture();
    let known = discovery(&left);
    let mut cache = PeerCache::new();
    assert!(cache.by_id(&known.device_id, CLOCK).is_none());
    cache.put(known.clone(), vec![10, 0, 0, 1], CLOCK);
    cache.put(known.clone(), vec![10, 0, 0, 2], CLOCK + 1);
    let found = cache.by_id(&known.device_id, CLOCK + 1).unwrap();
    assert_eq!((found.ip, found.seen), (vec![10, 0, 0, 2], CLOCK + 1));
    assert!(cache.by_id(&known.device_id, CLOCK + 1 + PEER_MAX_AGE + 1).is_none());
    assert!(cache.by_id(&known.device_id, CLOCK + 1).is_none());
}

#[test]
fn peer_cache_drops_the_oldest_when_full() {
    let (left, _) = fixture();
    let mut cache = PeerCache::new();
    for index in 0..129_u64 {
        let mut known = discovery(&left);
        known.device_id = format!("{index:032x}");
        cache.put(known, vec![10, 0, 0, 1], CLOCK + index);
    }
    assert!(cache.by_id(&format!("{:032x}", 0), CLOCK + 200).is_none());
    assert!(cache.by_id(&format!("{:032x}", 1), CLOCK + 200).is_some());
    assert!(cache.by_id(&format!("{:032x}", 128), CLOCK + 200).is_some());
}

// The local prompt.

/// The decision, and how many programs were run for it.
fn asked(notification: Ran, dialog: Ran, policy: Ran) -> (Option<String>, Option<SyncError>, usize) {
    let (mut prompt, mut run) = (Prompt::Notification, 0);
    loop {
        let ran = match prompt {
            Prompt::Notification => &notification,
            Prompt::Dialog => &dialog,
            Prompt::Policy => &policy,
        };
        run += 1;
        match next_prompt(&prompt, ran) {
            Asked::Next(next) => prompt = next,
            Asked::Decided(Ok(grant)) => return (Some(grant.user_presence), None, run),
            Asked::Decided(Err(error)) => return (None, Some(error), run),
        }
    }
}

fn printed(answer: &[u8]) -> Ran {
    Ran::Succeeded(answer.to_vec())
}

#[test]
fn notification_answer_is_final() {
    let approved = Some("pkcheck-approved".to_string());
    for answer in [&b"pair"[..], b"pair\n", b" \tPaIR\r\n", "\u{a0}PAIR\u{2003}".as_bytes()] {
        let decided = asked(printed(answer), Ran::Failed, printed(b""));
        assert_eq!(decided, (approved.clone(), None, 2));
    }
    let refused = Some(SyncError::AuthorizationNotSelected);
    for answer in [&b"no\n"[..], b"", b"pairs", b"pai", b"p air", b"pair\xff", b"\xffpair"] {
        let decided = asked(printed(answer), printed(b""), printed(b""));
        assert_eq!(decided, (None, refused, 1));
    }
}

#[test]
fn dialog_stands_in_where_notifications_fail() {
    let approved = Some("pkcheck-approved".to_string());
    let refused = Some(SyncError::AuthorizationNotSelected);
    for notification in [Ran::NotStarted, Ran::Failed] {
        let decided = asked(notification, printed(b""), printed(b""));
        assert_eq!(decided, (approved.clone(), None, 3));
    }
    assert_eq!(asked(Ran::Failed, Ran::Failed, printed(b"")), (None, refused, 2));
    assert_eq!(asked(Ran::NotStarted, Ran::NotStarted, printed(b"")), (None, refused, 2));
}

#[test]
fn policy_has_the_last_word() {
    let denied = Some(SyncError::AuthorizationDenied);
    let missing = Some(SyncError::AuthorizationUnavailable);
    assert_eq!(asked(printed(b"pair"), Ran::Failed, Ran::Failed), (None, denied, 2));
    assert_eq!(asked(printed(b"pair"), Ran::Failed, Ran::NotStarted), (None, missing, 2));
    assert_eq!(prompt_body("K12", "ab"), "Sync with certified device K12 (ab)?");
}
