//! Protocol-v3 daemon runtime: everything it decides.
//!
//! There is deliberately no accept-first-contact path: discovery, pairing, and
//! reconnect all require the pinned Omarchy root and a locally provisioned
//! device certificate.
use crate::codec::{append, be_bound, be_bytes, be_value_of_be_bytes, text_from_utf8, utf8};
use crate::crypto;
use crate::crypto::{
    ed25519_key_valid, ed25519_public, ed25519_sign, ed25519_verifies, neutral_point,
};
use crate::discovery::{
    announcement_bytes, announcement_of, announcement_signed, AnnouncementView, DiscoveredView,
    DiscoveryAnnouncement, DiscoveryVerifier, VerifiedDiscovery,
};
use crate::error::{checked, outcome, SyncError};
use crate::identity::{device_id_of, DeviceIdentity};
use crate::json::{json_bytes, json_bytes_len, put_list};
use crate::peers::{
    fresh_peers, peer_with_id, peers_after_put, CachedPeer, CoordinatorView, PairCoordinator,
    PeerCache, PeerView,
};
use crate::protocol_v3::{
    certificate_error, certificate_parsed, certificate_shape_error, CertificateView,
    DeviceCertificate, PinnedOmarchyRoot, RootView, MAX_CERTIFICATE_BYTES, MAX_DISCOVERY_BYTES,
};
use crate::record::MAX_RECORD_BYTES;
use crate::text::{
    array_64, bytes_eq, bytes_less, is_id, starts_with, str_less, trim, trimmed,
};
use crate::trust::{PairingStore, StoreView};
use vstd::prelude::*;
use vstd::slice::slice_subrange;
use vstd::utf8::*;

verus! {

pub const DEVICE_CERTIFICATE_PATH_SUFFIX: &'static str = "identity/device-cert.bin";

/// Nanoseconds between two announcements: 5 seconds.
pub const DISCOVERY_INTERVAL: u64 = 5_000_000_000;

pub const MAX_WIRE_FRAME: usize = 65536;

pub const APP_FRAME_LIMIT: usize = 49152;

pub const APP_MAGIC: &'static str = "OMARCHY-PAIR-RECORD-V3";

pub const ROUTE_MAGIC: &'static str = "OMARCHY-ROUTE-V3";

/// The magic texts are ASCII, so each character is one byte.
pub proof fn runtime_magic_lengths()
    ensures
        utf8(APP_MAGIC@).len() == 22,
        utf8(ROUTE_MAGIC@).len() == 16,
{
    reveal_strlit("OMARCHY-PAIR-RECORD-V3");
    assert(is_ascii_chars(APP_MAGIC@));
    is_ascii_chars_encode_utf8(APP_MAGIC@);
    reveal_strlit("OMARCHY-ROUTE-V3");
    assert(is_ascii_chars(ROUTE_MAGIC@));
    is_ascii_chars_encode_utf8(ROUTE_MAGIC@);
}

// ---------------------------------------------------------------------------
// Enrollment.
// ---------------------------------------------------------------------------
/// The trust anchor and the certificate of this device.
pub struct EnrollmentView {
    pub root: RootView,
    pub certificate: CertificateView,
}

/// The trust anchor and the certificate of this device.
pub struct Enrollment {
    pub root: PinnedOmarchyRoot,
    pub certificate: DeviceCertificate,
}

impl View for Enrollment {
    type V = EnrollmentView;

    open spec fn view(&self) -> EnrollmentView {
        EnrollmentView { root: self.root@, certificate: self.certificate@ }
    }
}

impl Clone for Enrollment {
    fn clone(&self) -> (result: Self)
        ensures
            result@ == self@,
    {
        Enrollment { root: self.root.clone(), certificate: self.certificate.clone() }
    }
}

/// A relative path below a directory: one separator stands between them, unless
/// the directory is empty or ends with one.
pub open spec fn joined(directory: Seq<u8>, relative: Seq<u8>) -> Seq<u8> {
    if directory.len() == 0 || directory.last() == 0x2f {
        directory + relative
    } else {
        directory + seq![0x2fu8] + relative
    }
}

/// A relative path below a directory.
fn join(directory: &[u8], relative: &str) -> (result: Vec<u8>)
    ensures
        result@ == joined(directory@, utf8(relative@)),
{
    let mut path: Vec<u8> = Vec::new();
    append(&mut path, directory);
    assert(path@ =~= directory@);
    if directory.len() != 0 && directory[directory.len() - 1] != 0x2f {
        path.push(0x2f);
    }
    append(&mut path, relative.as_bytes());
    assert(path@ =~= joined(directory@, utf8(relative@)));
    path
}

/// Where the device certificate is provisioned below the state directory.
pub fn certificate_path(state_root: &[u8]) -> (result: Vec<u8>)
    ensures
        result@ == joined(state_root@, utf8(DEVICE_CERTIFICATE_PATH_SUFFIX@)),
{
    join(state_root, DEVICE_CERTIFICATE_PATH_SUFFIX)
}

/// Where the daemon keeps its state: in the directory that it was given, or else
/// below the user's state directory or home directory, or else in a directory
/// of the system.
pub fn state_dir(given: Option<&[u8]>, state_home: Option<&[u8]>, home: Option<&[u8]>) -> (result:
    Vec<u8>)
    ensures
        result@ == (match (given, state_home, home) {
            (Some(directory), _, _) => directory@,
            (None, Some(directory), _) => joined(directory@, utf8("omarchy-sync"@)),
            (None, None, Some(directory)) => joined(
                directory@,
                utf8(".local/state/omarchy-sync"@),
            ),
            (None, None, None) => utf8("/var/lib/omarchy-sync"@),
        }),
{
    match (given, state_home, home) {
        (Some(directory), _, _) => vstd::slice::slice_to_vec(directory),
        (None, Some(directory), _) => join(directory, "omarchy-sync"),
        (None, None, Some(directory)) => join(directory, ".local/state/omarchy-sync"),
        (None, None, None) => vstd::slice::slice_to_vec("/var/lib/omarchy-sync".as_bytes()),
    }
}

/// The name of this device: its host name without white space around it, if
/// anything is left.
pub fn device_name(hostname: Option<&str>) -> (result: String)
    ensures
        result@ == (match hostname {
            Some(text) => if trimmed(text@).len() != 0 {
                trimmed(text@)
            } else {
                "omarchy"@
            },
            None => "omarchy"@,
        }),
{
    match hostname {
        Some(text) => {
            let name: &str = trim(text);
            if name.unicode_len() != 0 {
                return String::from_str(name);
            }
        },
        None => {},
    }
    String::from_str("omarchy")
}

/// What the file system reports of the provisioned certificate.
pub struct CertificateFile {
    pub regular_file: bool,
    pub mode: u32,
    pub size: u64,
}

/// The enrollment that a root and a provisioned certificate give.
pub open spec fn enrolled(
    root: RootView,
    file: CertificateFile,
    bytes: Seq<u8>,
    secret: Seq<u8>,
    now: u64,
) -> Result<EnrollmentView, SyncError> {
    if !file.regular_file {
        Err(SyncError::EnrollmentNotRegular)
    } else if file.mode & 0o077 != 0 {
        Err(SyncError::EnrollmentAccessible)
    } else if file.size > MAX_CERTIFICATE_BYTES {
        Err(SyncError::EnrollmentTooLarge)
    } else {
        match certificate_parsed(bytes) {
            Err(error) => Err(error),
            Ok(certificate) => match certificate_error(certificate, root, now) {
                Some(error) => Err(error),
                None => if certificate.device_id != device_id_of(ed25519_public(secret))
                    || certificate.public_key != ed25519_public(secret) {
                    Err(SyncError::EnrollmentMismatch)
                } else {
                    Ok(EnrollmentView { root, certificate })
                },
            },
        }
    }
}

/// Accepts the production trust anchor and the provisioned device certificate.
/// No caller-controlled root path, generated certificate, or self-signed mode
/// is accepted here.
pub fn load_enrollment(
    root: PinnedOmarchyRoot,
    file: &CertificateFile,
    bytes: &[u8],
    identity: &DeviceIdentity,
    now: u64,
) -> (result: Result<Enrollment, SyncError>)
    ensures
        outcome(result) == enrolled(root@, *file, bytes@, identity@, now),
{
    if !file.regular_file {
        return Err(SyncError::EnrollmentNotRegular);
    }
    if file.mode & 0o077 != 0 {
        return Err(SyncError::EnrollmentAccessible);
    }
    if file.size > MAX_CERTIFICATE_BYTES as u64 {
        return Err(SyncError::EnrollmentTooLarge);
    }
    let certificate = DeviceCertificate::from_bytes(bytes)?;
    certificate.verify(&root, now)?;
    if certificate.device_id != identity.device_id() || !bytes_eq(
        certificate.public_key.as_slice(),
        identity.public_key().as_slice(),
    ) {
        return Err(SyncError::EnrollmentMismatch);
    }
    Ok(Enrollment { root, certificate })
}

// ---------------------------------------------------------------------------
// Frames on the wire.
// ---------------------------------------------------------------------------
/// A frame on the wire: its length in four bytes, then its content.
pub open spec fn wire_bytes(content: Seq<u8>) -> Seq<u8> {
    be_bytes(content.len(), 4) + content
}

/// Whether content may go over the wire.
pub open spec fn wire_length_ok(length: int) -> bool {
    0 < length <= MAX_WIRE_FRAME
}

/// Frames content for the wire.
pub fn write_wire(content: &[u8]) -> (result: Result<Vec<u8>, SyncError>)
    ensures
        outcome(result) == (if wire_length_ok(content@.len() as int) {
            Ok::<Seq<u8>, SyncError>(wire_bytes(content@))
        } else {
            Err(SyncError::WireLength)
        }),
{
    if content.len() == 0 || content.len() > MAX_WIRE_FRAME {
        return Err(SyncError::WireLength);
    }
    let length: u32 = content.len() as u32;
    let mut out: Vec<u8> = Vec::new();
    out.push((length / 0x100_0000) as u8);
    out.push((length / 0x1_0000 % 256) as u8);
    out.push((length / 0x100 % 256) as u8);
    out.push((length % 256) as u8);
    proof {
        reveal_with_fuel(be_bytes, 5);
        assert(out@ =~= be_bytes(length as nat, 4));
    }
    append(&mut out, content);
    Ok(out)
}

/// The length of the frame that a header announces.
pub fn read_wire(header: &[u8; 4]) -> (result: Result<usize, SyncError>)
    ensures
        ({
            let length = crate::codec::be_value(header@);
            result == (if wire_length_ok(length as int) {
                Ok::<usize, SyncError>(length as usize)
            } else {
                Err(SyncError::WireLength)
            })
        }),
{
    let length: u32 = header[0] as u32 * 0x100_0000 + header[1] as u32 * 0x1_0000 + header[2] as u32
        * 0x100 + header[3] as u32;
    proof {
        reveal_with_fuel(crate::codec::be_value, 5);
    }
    if length == 0 || length > MAX_WIRE_FRAME as u32 {
        return Err(SyncError::WireLength);
    }
    Ok(length as usize)
}

/// A header announces exactly the content that follows it.
pub proof fn wire_round_trip(content: Seq<u8>)
    requires
        wire_length_ok(content.len() as int),
    ensures
        wire_bytes(content).len() == 4 + content.len(),
        crate::codec::be_value(wire_bytes(content).subrange(0, 4)) == content.len(),
        wire_bytes(content).subrange(4, wire_bytes(content).len() as int) == content,
{
    assert(be_bound(4) == 0x1_0000_0000) by {
        reveal_with_fuel(be_bound, 5);
    }
    be_value_of_be_bytes(content.len(), 4);
    let b = wire_bytes(content);
    assert(b.subrange(0, 4) =~= be_bytes(content.len(), 4));
    assert(b.subrange(4, b.len() as int) =~= content);
}

/// A message to send to the peer, inside the authenticated session. Records are
/// in their stored form.
pub enum PairMessage {
    Request,
    Prepared(Vec<u8>),
    Complete(Vec<u8>),
    Finalized,
}

/// A message to send to the peer.
pub enum MessageView {
    Request,
    Prepared(Seq<u8>),
    Complete(Seq<u8>),
    Finalized,
}

impl View for PairMessage {
    type V = MessageView;

    open spec fn view(&self) -> MessageView {
        match self {
            PairMessage::Request => MessageView::Request,
            PairMessage::Prepared(record) => MessageView::Prepared(record@),
            PairMessage::Complete(record) => MessageView::Complete(record@),
            PairMessage::Finalized => MessageView::Finalized,
        }
    }
}

/// The encoded form of a message: a JSON object with its type and, as a list of
/// bytes, its record.
pub open spec fn message_json(message: MessageView) -> Seq<u8> {
    match message {
        MessageView::Request => utf8("{\"type\":\"request\"}"@),
        MessageView::Prepared(record) => utf8("{\"type\":\"prepared\",\"record\":"@) + json_bytes(
            record,
        ) + utf8("}"@),
        MessageView::Complete(record) => utf8("{\"type\":\"complete\",\"record\":"@) + json_bytes(
            record,
        ) + utf8("}"@),
        MessageView::Finalized => utf8("{\"type\":\"finalized\"}"@),
    }
}

/// The application payload with a message, if it is within bounds.
pub open spec fn app_encoded(message: MessageView) -> Result<Seq<u8>, SyncError> {
    if 22 + message_json(message).len() > APP_FRAME_LIMIT {
        Err(SyncError::AppFrameTooLarge)
    } else {
        Ok(utf8(APP_MAGIC@) + message_json(message))
    }
}

/// The application payload with a message.
pub fn encode_app(message: &PairMessage) -> (result: Result<Vec<u8>, SyncError>)
    ensures
        outcome(result) == app_encoded(message@),
{
    let mut payload: Vec<u8> = Vec::new();
    append(&mut payload, APP_MAGIC.as_bytes());
    match message {
        PairMessage::Request => append(&mut payload, "{\"type\":\"request\"}".as_bytes()),
        PairMessage::Prepared(record) => {
            put_list(&mut payload, "{\"type\":\"prepared\",\"record\":", record.as_slice());
            append(&mut payload, "}".as_bytes());
        },
        PairMessage::Complete(record) => {
            put_list(&mut payload, "{\"type\":\"complete\",\"record\":", record.as_slice());
            append(&mut payload, "}".as_bytes());
        },
        PairMessage::Finalized => append(&mut payload, "{\"type\":\"finalized\"}".as_bytes()),
    }
    proof {
        runtime_magic_lengths();
        assert(payload@ =~= utf8(APP_MAGIC@) + message_json(message@));
    }
    if payload.len() > APP_FRAME_LIMIT {
        return Err(SyncError::AppFrameTooLarge);
    }
    Ok(payload)
}

/// A message with a record that is within the bounds of what is stored is far
/// within the bounds of a payload.
pub proof fn stored_records_fit(message: MessageView)
    requires
        message matches MessageView::Prepared(record) ==> record.len() <= MAX_RECORD_BYTES,
        message matches MessageView::Complete(record) ==> record.len() <= MAX_RECORD_BYTES,
    ensures
        message_json(message).len() <= 16500,
{
    reveal_strlit("{\"type\":\"request\"}");
    is_ascii_chars_encode_utf8("{\"type\":\"request\"}"@);
    reveal_strlit("{\"type\":\"prepared\",\"record\":");
    is_ascii_chars_encode_utf8("{\"type\":\"prepared\",\"record\":"@);
    reveal_strlit("{\"type\":\"complete\",\"record\":");
    is_ascii_chars_encode_utf8("{\"type\":\"complete\",\"record\":"@);
    reveal_strlit("{\"type\":\"finalized\"}");
    is_ascii_chars_encode_utf8("{\"type\":\"finalized\"}"@);
    reveal_strlit("}");
    is_ascii_chars_encode_utf8("}"@);
    match message {
        MessageView::Prepared(record) => json_bytes_len(record),
        MessageView::Complete(record) => json_bytes_len(record),
        _ => {},
    }
}

/// The encoded form of the pairing message in an application payload.
pub open spec fn app_decoded(payload: Seq<u8>) -> Result<Seq<u8>, SyncError> {
    if payload.len() > APP_FRAME_LIMIT || payload.len() < 22 || payload.subrange(0, 22) != utf8(
        APP_MAGIC@,
    ) {
        Err(SyncError::AppFrame)
    } else {
        Ok(payload.subrange(22, payload.len() as int))
    }
}

/// The encoded form of the pairing message in an application payload.
pub fn decode_app(payload: &[u8]) -> (result: Result<Vec<u8>, SyncError>)
    ensures
        outcome(result) == app_decoded(payload@),
{
    proof {
        runtime_magic_lengths();
    }
    if payload.len() > APP_FRAME_LIMIT || !starts_with(payload, APP_MAGIC.as_bytes()) {
        return Err(SyncError::AppFrame);
    }
    let mut message: Vec<u8> = Vec::new();
    append(&mut message, slice_subrange(payload, 22, payload.len()));
    assert(message@ =~= payload@.subrange(22, payload@.len() as int));
    Ok(message)
}

/// The encoded form of a message is what is read from its payload.
pub proof fn app_round_trip(message: MessageView)
    requires
        app_encoded(message) is Ok,
    ensures
        app_decoded(app_encoded(message)->Ok_0) == Ok::<Seq<u8>, SyncError>(message_json(message)),
{
    runtime_magic_lengths();
    let json = message_json(message);
    let payload = utf8(APP_MAGIC@) + json;
    assert(payload.subrange(0, 22) =~= utf8(APP_MAGIC@));
    assert(payload.subrange(22, payload.len() as int) =~= json);
}

// ---------------------------------------------------------------------------
// The routing preface.
// ---------------------------------------------------------------------------
/// What a routing preface signs: the magic and the sender's DeviceID.
pub open spec fn route_signed(device_id: Seq<char>) -> Seq<u8> {
    utf8(ROUTE_MAGIC@) + utf8(device_id)
}

/// The preface with which an identity opens a connection.
pub fn route_preface(identity: &DeviceIdentity) -> (result: Vec<u8>)
    ensures
        ({
            let signed = route_signed(device_id_of(ed25519_public(identity@)));
            &&& result@ == signed + ed25519_sign(identity@, signed)
            &&& result@.subrange(48, 80) != neutral_point() ==> ed25519_verifies(
                ed25519_public(identity@),
                signed,
                result@.subrange(48, 112),
            )
        }),
        result@.len() == 112,
{
    let id = identity.device_id();
    let mut preface: Vec<u8> = Vec::new();
    append(&mut preface, ROUTE_MAGIC.as_bytes());
    append(&mut preface, id.as_str().as_bytes());
    assert(preface@ =~= route_signed(id@));
    let ghost signed = preface@;
    let signature: [u8; 64] = identity.sign(preface.as_slice());
    append(&mut preface, signature.as_slice());
    proof {
        runtime_magic_lengths();
        assert(preface@.subrange(48, 112) =~= signature@);
        assert(preface@.subrange(48, 80) =~= signature@.subrange(0, 32));
    }
    preface
}

/// The DeviceID that a routing preface claims.
pub open spec fn route_claim(bytes: Seq<u8>) -> Option<Seq<char>> {
    if bytes.len() == 112 && bytes.subrange(0, 16) == utf8(ROUTE_MAGIC@) && valid_utf8(
        bytes.subrange(16, 48),
    ) {
        Some(decode_utf8(bytes.subrange(16, 48)))
    } else {
        None
    }
}

/// Why a routing preface is not a peer's.
pub open spec fn route_error(bytes: Seq<u8>, peer: DiscoveredView) -> Option<SyncError> {
    if bytes.len() != 112 || bytes.subrange(0, 16) != utf8(ROUTE_MAGIC@) || !valid_utf8(
        bytes.subrange(16, 48),
    ) {
        Some(SyncError::RoutePreface)
    } else if decode_utf8(bytes.subrange(16, 48)) != peer.device_id {
        Some(SyncError::RouteDevice)
    } else if !ed25519_key_valid(peer.public_key) {
        Some(SyncError::InvalidPublicKey)
    } else if !ed25519_verifies(
        peer.public_key,
        bytes.subrange(0, 48),
        bytes.subrange(48, 112),
    ) {
        Some(SyncError::RouteSignature)
    } else {
        None
    }
}

/// Verifies that a routing preface is a discovered peer's.
pub fn verify_route_preface(bytes: &[u8], peer: &VerifiedDiscovery) -> (result: Result<
    (),
    SyncError,
>)
    ensures
        result == checked(route_error(bytes@, peer@)),
{
    proof {
        runtime_magic_lengths();
    }
    if bytes.len() != 112 || !starts_with(bytes, ROUTE_MAGIC.as_bytes()) {
        return Err(SyncError::RoutePreface);
    }
    let device_id = match text_from_utf8(slice_subrange(bytes, 16, 48)) {
        Some(text) => text,
        None => {
            return Err(SyncError::RoutePreface);
        },
    };
    if device_id != peer.device_id {
        return Err(SyncError::RouteDevice);
    }
    let signature: [u8; 64] = array_64(slice_subrange(bytes, 48, 112));
    if !crypto::key_valid(&peer.public_key) {
        return Err(SyncError::InvalidPublicKey);
    }
    if !crypto::verify(&peer.public_key, slice_subrange(bytes, 0, 48), &signature) {
        return Err(SyncError::RouteSignature);
    }
    Ok(())
}

/// The DeviceID that a routing preface claims.
pub fn route_device_id(bytes: &[u8]) -> (result: Option<String>)
    ensures
        (match result {
            Some(id) => Some(id@),
            None => None,
        }) == route_claim(bytes@),
{
    proof {
        runtime_magic_lengths();
    }
    if bytes.len() != 112 || !starts_with(bytes, ROUTE_MAGIC.as_bytes()) {
        return None;
    }
    text_from_utf8(slice_subrange(bytes, 16, 48))
}

/// The preface of an identity passes as that of the peer with its DeviceID and
/// key, and claims its DeviceID.
pub proof fn route_preface_is_accepted(secret: Seq<u8>, peer: DiscoveredView, bytes: Seq<u8>)
    requires
        is_id(peer.device_id),
        peer.device_id == device_id_of(ed25519_public(secret)),
        peer.public_key == ed25519_public(secret),
        ed25519_key_valid(peer.public_key),
        bytes == route_signed(peer.device_id) + ed25519_sign(
            secret,
            route_signed(peer.device_id),
        ),
        ed25519_sign(secret, route_signed(peer.device_id)).len() == 64,
        ed25519_verifies(
            peer.public_key,
            route_signed(peer.device_id),
            ed25519_sign(secret, route_signed(peer.device_id)),
        ),
    ensures
        route_claim(bytes) == Some(peer.device_id),
        route_error(bytes, peer) is None,
{
    runtime_magic_lengths();
    let signature = ed25519_sign(secret, route_signed(peer.device_id));
    encode_utf8_valid_utf8(peer.device_id);
    encode_utf8_decode_utf8(peer.device_id);
    assert(bytes.subrange(0, 16) =~= utf8(ROUTE_MAGIC@));
    assert(bytes.subrange(16, 48) =~= utf8(peer.device_id));
    assert(bytes.subrange(0, 48) =~= route_signed(peer.device_id));
    assert(bytes.subrange(48, 112) =~= signature);
}

// ---------------------------------------------------------------------------
// The runtime.
// ---------------------------------------------------------------------------
/// The state of a runtime.
pub struct RuntimeView {
    pub state_root: Seq<u8>,
    pub identity: Seq<char>,
    pub enrollment: EnrollmentView,
    pub port: u16,
    pub peers: Seq<PeerView>,
    pub coordinator: CoordinatorView,
}

/// What becomes of a connection.
pub enum Admission {
    /// It does not begin with a routing preface.
    InvalidPreface,
    /// The claimed device has not been discovered.
    NotDiscovered,
    /// The preface is not that of the discovered device, or comes from another
    /// address.
    Unbound,
    /// It comes from this device itself.
    Own,
    /// It is the discovered peer's.
    Peer(CachedPeer),
}

/// What becomes of a connection.
pub enum AdmissionView {
    InvalidPreface,
    NotDiscovered,
    Unbound,
    Own,
    Peer(PeerView),
}

impl View for Admission {
    type V = AdmissionView;

    open spec fn view(&self) -> AdmissionView {
        match self {
            Admission::InvalidPreface => AdmissionView::InvalidPreface,
            Admission::NotDiscovered => AdmissionView::NotDiscovered,
            Admission::Unbound => AdmissionView::Unbound,
            Admission::Own => AdmissionView::Own,
            Admission::Peer(peer) => AdmissionView::Peer(peer@),
        }
    }
}

/// Whether a search found something. A search that failed found nothing.
pub open spec fn found_something<T>(result: Result<Option<T>, SyncError>) -> bool {
    result matches Ok(Some(_))
}

/// Whether a device, by what its store holds, has a reason to begin a pairing
/// with a discovered peer: a healthy active relationship is reconnectable but
/// is not an automatic pairing trigger, pending state is the explicit recovery
/// exception, and the lexicographically lower DeviceID owns initiation.
pub open spec fn initiates_with(store: StoreView, own: Seq<char>, peer: Seq<char>) -> bool {
    let active = found_something(store.active_pair(store.active, own, peer));
    let pending = found_something(store.pending_between(own, peer));
    !(active && !pending) && bytes_less(utf8(own), utf8(peer))
}

/// Whether a peer is left alone after a failed response: unless an active or
/// pending record shows that there is something to recover.
pub open spec fn responds_later(store: Option<StoreView>, own: Seq<char>, peer: Seq<char>) -> bool {
    match store {
        None => true,
        Some(view) => !found_something(view.active_pair(view.active, own, peer))
            && !found_something(view.pending_between(own, peer)),
    }
}

impl RuntimeView {
    /// What becomes of a connection that begins with `route`.
    pub open spec fn admitted(self, route: Seq<u8>, source_ip: Seq<u8>, now: u64) -> (
        AdmissionView,
        RuntimeView,
    ) {
        match route_claim(route) {
            None => (AdmissionView::InvalidPreface, self),
            Some(id) => {
                let peers = fresh_peers(self.peers, now);
                let after = RuntimeView { peers, ..self };
                match peer_with_id(peers, id) {
                    None => (AdmissionView::NotDiscovered, after),
                    Some(peer) => if peer.ip != source_ip || route_error(
                        route,
                        peer.discovery,
                    ) is Some {
                        (AdmissionView::Unbound, after)
                    } else if peer.discovery.device_id == self.identity {
                        (AdmissionView::Own, after)
                    } else {
                        (AdmissionView::Peer(peer), after)
                    },
                }
            },
        }
    }
}

/// The daemon's own identity and enrollment, and what it knows of its peers.
pub struct Runtime {
    state_root: Vec<u8>,
    identity: String,
    enrollment: Enrollment,
    port: u16,
    peers: PeerCache,
    coordinator: PairCoordinator,
}

impl View for Runtime {
    type V = RuntimeView;

    closed spec fn view(&self) -> RuntimeView {
        RuntimeView {
            state_root: self.state_root@,
            identity: self.identity@,
            enrollment: self.enrollment@,
            port: self.port,
            peers: self.peers@,
            coordinator: self.coordinator@,
        }
    }
}

/// A runtime that knows no peers yet.
pub fn build_runtime(
    state_root: Vec<u8>,
    _name: String,
    identity: String,
    enrollment: Enrollment,
    port: u16,
) -> (result: Runtime)
    ensures
        result@ == (RuntimeView {
            state_root: state_root@,
            identity: identity@,
            enrollment: enrollment@,
            port,
            peers: Seq::empty(),
            coordinator: CoordinatorView { active: false, cooldown: Seq::empty() },
        }),
{
    Runtime {
        state_root,
        identity,
        enrollment,
        port,
        peers: PeerCache::new(),
        coordinator: PairCoordinator::new(),
    }
}

/// Whether it is time for the next announcement.
pub fn announcement_due(now: u64, advertised: u64) -> (result: bool)
    ensures
        result == (now >= advertised + DISCOVERY_INTERVAL),
        result <==> now >= advertised + 5_000_000_000,
{
    now >= advertised && now - advertised >= DISCOVERY_INTERVAL
}

impl Runtime {
    pub fn state_root(&self) -> (result: &[u8])
        ensures
            result@ == self@.state_root,
    {
        self.state_root.as_slice()
    }

    pub fn identity(&self) -> (result: &str)
        ensures
            result@ == self@.identity,
    {
        self.identity.as_str()
    }

    pub fn enrollment(&self) -> (result: &Enrollment)
        ensures
            result@ == self@.enrollment,
    {
        &self.enrollment
    }

    pub fn port(&self) -> (result: u16)
        ensures
            result == self@.port,
    {
        self.port
    }

    /// The announcement to broadcast, with a fresh random nonce.
    pub fn announce(&self, identity: &DeviceIdentity, nonce: [u8; 32], now: u64) -> (result: Result<
        Vec<u8>,
        SyncError,
    >)
        ensures
            ({
                let certificate = self@.enrollment.certificate;
                let a = announcement_of(certificate, nonce@, now, self@.port);
                outcome(result) == (if certificate.public_key != ed25519_public(identity@)
                    || certificate.device_id != device_id_of(ed25519_public(identity@)) {
                    Err::<Seq<u8>, SyncError>(SyncError::DiscoveryForeignCertificate)
                } else if self@.port == 0 {
                    Err(SyncError::DiscoveryPortZero)
                } else {
                    match certificate_shape_error(certificate) {
                        Some(error) => Err(error),
                        None => Ok(
                            announcement_bytes(
                                AnnouncementView {
                                    signature: ed25519_sign(identity@, announcement_signed(a)),
                                    ..a
                                },
                            ),
                        ),
                    }
                })
            }),
            result matches Ok(bytes) ==> bytes@.len() <= MAX_DISCOVERY_BYTES,
    {
        let announcement = DiscoveryAnnouncement::sign(
            identity,
            self.enrollment.certificate.clone(),
            nonce,
            now,
            self.port,
        )?;
        announcement.to_bytes()
    }

    /// Takes in a packet: where it is an acceptable announcement of another
    /// device, that device is remembered under the address it came from.
    pub fn discover(
        &mut self,
        verifier: &mut DiscoveryVerifier,
        packet: &[u8],
        source_ip: Vec<u8>,
        time: u64,
        now: u64,
    ) -> (result: Option<VerifiedDiscovery>)
        ensures
            final(verifier)@ == old(verifier)@.after(packet@, time),
            match old(verifier)@.answer(packet@, time) {
                Err(_) => result is None && final(self)@ == old(self)@,
                Ok(discovery) => if discovery.device_id == old(self)@.identity {
                    result is None && final(self)@ == old(self)@
                } else {
                    &&& result matches Some(peer)
                    &&& peer@ == discovery
                    &&& final(self)@ == (RuntimeView {
                        peers: peers_after_put(
                            old(self)@.peers,
                            PeerView { discovery, ip: source_ip@, seen: now },
                        ),
                        ..old(self)@
                    })
                },
            },
    {
        match verifier.verify(packet, time) {
            Err(_) => None,
            Ok(discovery) => {
                if discovery.device_id == self.identity {
                    return None;
                }
                self.peers.put(discovery.clone(), source_ip, now);
                Some(discovery)
            },
        }
    }

    /// Whether to begin a pairing with a discovered peer; if so, the attempt is
    /// in progress until it is ended.
    pub fn initiate(&mut self, store: &PairingStore, peer_device_id: &str, now: u64) -> (result:
        bool)
        ensures
            ({
                let entered = old(self)@.coordinator.entered(peer_device_id@, now);
                if initiates_with(store@, old(self)@.identity, peer_device_id@) {
                    &&& result == entered.0
                    &&& final(self)@ == (RuntimeView { coordinator: entered.1, ..old(self)@ })
                } else {
                    &&& !result
                    &&& final(self)@ == old(self)@
                }
            }),
    {
        let own = self.identity.as_str();
        let active: bool = match store.active_pair_for_peer(own, peer_device_id) {
            Ok(Some(_)) => true,
            _ => false,
        };
        let pending: bool = match store.pending_for_peer(own, peer_device_id) {
            Ok(Some(_)) => true,
            _ => false,
        };
        if active && !pending {
            return false;
        }
        if !str_less(own, peer_device_id) {
            return false;
        }
        self.coordinator.enter(peer_device_id, now)
    }

    /// Decides on a connection that begins with `route`.
    pub fn screen(&mut self, route: &[u8], source_ip: &[u8], now: u64) -> (result: Admission)
        ensures
            (result@, final(self)@) == old(self)@.admitted(route@, source_ip@, now),
    {
        let route_id = match route_device_id(route) {
            Some(id) => id,
            None => {
                return Admission::InvalidPreface;
            },
        };
        let peer = match self.peers.by_id(route_id.as_str(), now) {
            Some(peer) => peer,
            None => {
                return Admission::NotDiscovered;
            },
        };
        if !bytes_eq(peer.ip.as_slice(), source_ip) || verify_route_preface(
            route,
            &peer.discovery,
        ).is_err() {
            return Admission::Unbound;
        }
        if peer.discovery.device_id == self.identity {
            return Admission::Own;
        }
        Admission::Peer(peer)
    }

    /// Begins to respond to a peer.
    pub fn begin_response(&mut self, peer_device_id: &str, now: u64) -> (result: Result<
        (),
        SyncError,
    >)
        ensures
            ({
                let entered = old(self)@.coordinator.entered(peer_device_id@, now);
                &&& final(self)@ == (RuntimeView { coordinator: entered.1, ..old(self)@ })
                &&& result == (if entered.0 {
                    Ok::<(), SyncError>(())
                } else {
                    Err(SyncError::PairingInProgress)
                })
            }),
    {
        if !self.coordinator.enter(peer_device_id, now) {
            return Err(SyncError::PairingInProgress);
        }
        Ok(())
    }

    /// Ends an attempt with a peer.
    pub fn end_attempt(&mut self, peer_device_id: &str, retry_later: bool, now: u64)
        requires
            now <= u64::MAX - crate::peers::PAIR_COOLDOWN,
        ensures
            final(self)@ == (RuntimeView {
                coordinator: old(self)@.coordinator.left(peer_device_id@, retry_later, now),
                ..old(self)@
            }),
    {
        self.coordinator.leave(peer_device_id, retry_later, now);
    }

    /// Whether a peer is left alone after a response that failed or not. The
    /// store is the one opened after the failure, if it could be opened.
    pub fn retry_later(&self, failed: bool, store: Option<&PairingStore>, peer_device_id: &str) -> (result:
        bool)
        ensures
            result == (failed && responds_later(
                match store {
                    Some(opened) => Some(opened@),
                    None => None,
                },
                self@.identity,
                peer_device_id@,
            )),
    {
        if !failed {
            return false;
        }
        match store {
            None => true,
            Some(opened) => {
                let own = self.identity.as_str();
                let active: bool = match opened.active_pair_for_peer(own, peer_device_id) {
                    Ok(Some(_)) => true,
                    _ => false,
                };
                let pending: bool = match opened.pending_for_peer(own, peer_device_id) {
                    Ok(Some(_)) => true,
                    _ => false,
                };
                !active && !pending
            },
        }
    }
}

/// Of two different devices, at most one begins a pairing on discovering the
/// other, whatever their stores hold.
pub proof fn only_one_side_initiates(
    a_store: StoreView,
    b_store: StoreView,
    a: Seq<char>,
    b: Seq<char>,
)
    ensures
        !(initiates_with(a_store, a, b) && initiates_with(b_store, b, a)),
{
    crate::text::bytes_less_total(utf8(a), utf8(b));
}

/// Two devices without any records between them do begin: the one with the
/// lower DeviceID.
pub proof fn strangers_pair(a_store: StoreView, b_store: StoreView, a: Seq<char>, b: Seq<char>)
    requires
        a != b,
        a_store.active.len() == 0,
        a_store.pending.len() == 0,
        b_store.active.len() == 0,
        b_store.pending.len() == 0,
    ensures
        initiates_with(a_store, a, b) != initiates_with(b_store, b, a),
{
    crate::text::bytes_less_total(utf8(a), utf8(b));
    if utf8(a) == utf8(b) {
        crate::codec::utf8_injective(a, b);
    }
}

/// A connection is admitted only as that of a peer that was discovered
/// recently, from the address it announced itself from, with a preface that it
/// signed.
pub proof fn admitted_is_discovered(v: RuntimeView, route: Seq<u8>, source_ip: Seq<u8>, now: u64)
    requires
        v.admitted(route, source_ip, now).0 is Peer,
    ensures
        v.admitted(route, source_ip, now).0 matches AdmissionView::Peer(peer) && {
            &&& v.peers.contains(peer)
            &&& crate::peers::peer_fresh(peer, now)
            &&& peer.ip == source_ip
            &&& peer.discovery.device_id != v.identity
            &&& route_claim(route) == Some(peer.discovery.device_id)
            &&& ed25519_verifies(
                peer.discovery.public_key,
                route.subrange(0, 48),
                route.subrange(48, 112),
            )
        },
{
    crate::peers::stale_peer_is_not_found(v.peers, route_claim(route)->Some_0, now);
}

} // verus!
