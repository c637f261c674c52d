//! What a refusal says.
use crate::authentication::{hello_bytes, hello_round_trip, proof_round_trip, ContextView};
use crate::certified::{filter_keeps_fewer, spent_entry};
use crate::codec::utf8;
use crate::crypto::{ed25519_key_valid, ed25519_public};
use crate::discovery::{
    announcement_parsed, remembers, AnnouncementView, DiscoveredView, ReplayView, VerifierView,
};
use crate::encounters::{made_by, peers_are_found_by_id, peers_are_fresh_for_ninety_seconds};
use crate::error::SyncError;
use crate::exchange::presentable;
use crate::frames::{frame_encoded, frame_parsed, FrameView};
use crate::identity::device_id_of;
use crate::judgement::{lets_pass, proofs_are_judged};
use crate::pairing::{setup_error, InitiatorView, ResponderView, SessionView, ValidationView};
use crate::peers::{fresh_keeps_distinct, fresh_peers, peers_distinct, PeerView};
use crate::protocol_v3::{certificate_error, certificate_parsed, CertificateView, RootView};
use crate::record::{
    pending_error, record_json, record_shape_error, session_record_error, stored_error, Demands,
    RecordView,
};
use crate::runtime_v3::{runtime_magic_lengths, AdmissionView, RuntimeView};
use crate::terms::{certified_record, formed, of_session, signatures_hold};
use crate::text::is_id;
use crate::trust::{lookup, StoreView};
use vstd::prelude::*;
use vstd::utf8::*;

verus! {

// ---------------------------------------------------------------------------
// Records.
// ---------------------------------------------------------------------------
/// A record that lacks the form of one is refused for the first of these: its
/// PairID, its DeviceIDs, its domain, who authorized it, the marker, the time,
/// the certificates.
pub proof fn malformed_records_say_why(r: RecordView)
    ensures
        ({
            let error = record_shape_error(r);
            let devices = is_id(r.initiator_device_id) && is_id(r.responder_device_id);
            let domain = 1 <= utf8(r.domain).len() <= 64;
            let marker = 1 <= utf8(r.user_presence).len() <= 128;
            let named = is_id(r.pair_id) && devices && domain && is_id(r.authorizing_device_id);
            &&& !is_id(r.pair_id) ==> error == Some(SyncError::InvalidPairingId)
            &&& is_id(r.pair_id) && !devices ==> error == Some(SyncError::RecordDeviceId)
            &&& is_id(r.pair_id) && devices && !domain ==> error == Some(
                SyncError::RecordDomainLength,
            )
            &&& is_id(r.pair_id) && devices && domain && !is_id(r.authorizing_device_id) ==> error
                == Some(SyncError::InvalidDeviceId)
            &&& named && !marker ==> error == Some(SyncError::UserPresence)
            &&& named && marker && r.authorized_at == 0 ==> error == Some(
                SyncError::AuthorizationTime,
            )
            &&& named && marker && r.authorized_at > 0 && (r.initiator_certificate.len() == 0
                || r.responder_certificate.len() == 0) ==> error == Some(
                SyncError::CertificatesRequired,
            )
        }),
{
}

/// Whether both certificates of a record are accepted under a root at a time.
pub open spec fn certificates_hold(r: RecordView, root: RootView, time: u64) -> bool {
    &&& certificate_parsed(r.initiator_certificate) matches Ok(c)
    &&& certificate_error(c, root, time) is None
    &&& certificate_parsed(r.responder_certificate) matches Ok(d)
    &&& certificate_error(d, root, time) is None
}

/// A stored record that is not accepted as active trust says what it lacks: the
/// protocol, a signature, or the identities that its certificates name.
pub proof fn refused_active_records_say_why(r: RecordView, root: RootView)
    requires
        formed(r),
    ensures
        ({
            let protocol = r.protocol_version == 3 && r.domain == "omarchy-sync/pairing/v3"@;
            let both = r.initiator_signature is Some && r.responder_signature is Some;
            let error = stored_error(r, root);
            &&& !protocol ==> error == Some(SyncError::RecordProtocol)
            &&& protocol && !both ==> error == Some(SyncError::ActiveIncomplete)
            &&& (protocol && both && certificates_hold(r, root, r.authorized_at)
                && !certified_record(r, root, r.authorized_at)) ==> error == Some(
                SyncError::StoredIdentity,
            )
        }),
{
}

/// A stored record that is not accepted as pending state says what it lacks: the
/// protocol, or the identities that its certificates name and a signature.
pub proof fn refused_pending_records_say_why(r: RecordView, root: RootView)
    requires
        formed(r),
    ensures
        ({
            let protocol = r.protocol_version == 3 && r.domain == "omarchy-sync/pairing/v3"@;
            let unsigned = r.initiator_signature is None && r.responder_signature is None;
            let error = pending_error(r, root);
            &&& !protocol ==> error == Some(SyncError::PendingProtocol)
            &&& (protocol && certificates_hold(r, root, r.authorized_at) && (unsigned
                || !certified_record(r, root, r.authorized_at))) ==> error == Some(
                SyncError::PendingIdentity,
            )
        }),
{
}

/// A record that is refused in a session although the root vouches for its two
/// devices says why: a signature is missing, it is of another session or of other
/// devices, of other keys, someone else authorized it, or the identity is not the
/// local end.
pub proof fn records_refused_in_sessions_say_why(
    r: RecordView,
    s: SessionView,
    secret: Seq<u8>,
    root: RootView,
    now: u64,
    demands: Demands,
)
    requires
        certified_record(
            r,
            root,
            if demands.at_authorization {
                r.authorized_at
            } else {
                now
            },
        ),
    ensures
        ({
            let error = session_record_error(r, s, secret, root, now, demands);
            let lacks = demands.complete && (r.initiator_signature is None
                || r.responder_signature is None);
            let foreign = demands.bound && r.session_binding != s.session_binding;
            let one = r.authorizing_device_id == r.initiator_device_id || r.authorizing_device_id
                == r.responder_device_id;
            let local = device_id_of(ed25519_public(secret)) == s.local_device_id;
            &&& lacks ==> error == Some(SyncError::RecordIncomplete)
            &&& !lacks && foreign ==> error == Some(SyncError::RecordSession)
            &&& !lacks && !foreign && !of_session(r, s) ==> error == Some(SyncError::RecordSession)
                || error == Some(SyncError::RecordKeys)
            &&& !lacks && !foreign && of_session(r, s) && !one ==> error == Some(
                SyncError::RecordAuthorizer,
            )
            &&& !lacks && !foreign && of_session(r, s) && one && !local ==> error == Some(
                SyncError::RecordLocalIdentity,
            )
            &&& (!lacks && !foreign && of_session(r, s) && one && local && !signatures_hold(r))
                ==> error is Some
        }),
{
}

// ---------------------------------------------------------------------------
// Stores.
// ---------------------------------------------------------------------------
/// An operation on a store that is refused says why: the PairID is none, another
/// record is there, the stored form is too long, or nothing is active.
pub proof fn refused_operations_say_why(v: StoreView, r: RecordView, secret: Seq<u8>)
    ensures
        ({
            let name = utf8(r.pair_id) + utf8(".json"@);
            let active = lookup(v.active, name);
            let pending = lookup(v.pending, name);
            &&& !is_id(r.pair_id) ==> {
                &&& v.loaded(r.pair_id) == Err::<Option<RecordView>, SyncError>(
                    SyncError::InvalidPairingId,
                )
                &&& v.loaded_pending(r.pair_id) == Err::<Option<RecordView>, SyncError>(
                    SyncError::InvalidPairingId,
                )
                &&& v.activated(r) == (Err::<(), SyncError>(SyncError::InvalidPairingId), v)
                &&& v.pending_written(r) == (Err::<(), SyncError>(SyncError::InvalidPairingId), v)
                &&& v.revoking(r.pair_id) == (Err::<(), SyncError>(SyncError::InvalidPairingId), v)
            }
            &&& is_id(r.pair_id) && !v.revoked.contains(name) ==> {
                &&& active matches Some(Err(error)) ==> v.activated(r) == (
                    Err::<(), SyncError>(error),
                    v,
                )
                &&& (active is Some && active->Some_0 is Ok && active->Some_0->Ok_0 != r)
                    ==> v.activated(r) == (Err::<(), SyncError>(SyncError::RecordConflict), v)
                &&& active is None && record_json(r).len() > 4096 ==> v.activated(r) == (
                    Err::<(), SyncError>(SyncError::RecordTooLarge),
                    v,
                )
            }
            &&& is_id(r.pair_id) && pending is None && record_json(r).len() > 4096
                ==> v.pending_written(r) == (Err::<(), SyncError>(SyncError::RecordTooLarge), v)
            &&& is_id(r.pair_id) && active is None ==> v.reconnecting(secret, r.pair_id) == Err::<
                ContextView,
                SyncError,
            >(SyncError::ActiveMissing)
            &&& is_id(r.pair_id) && (active matches Some(Ok(q)) && q.pair_id != r.pair_id)
                ==> v.loaded(r.pair_id) == Err::<Option<RecordView>, SyncError>(
                SyncError::RecordFilename,
            )
        }),
{
}

/// Searches are refused for what is no DeviceID.
pub proof fn searches_are_for_devices(v: StoreView, local: Seq<char>, peer: Seq<char>)
    requires
        !is_id(local) || !is_id(peer),
    ensures
        v.pending_between(local, peer) == Err::<Option<RecordView>, SyncError>(
            SyncError::InvalidDeviceId,
        ),
        v.active_between(local, peer) == Err::<bool, SyncError>(SyncError::InvalidDeviceId),
{
}

// ---------------------------------------------------------------------------
// Peers.
// ---------------------------------------------------------------------------
/// An end that may not be set up says why: the certificate is not its own, the
/// root does not accept it, or the peer is no device or the end itself.
pub proof fn refused_setups_say_why(
    secret: Seq<u8>,
    c: CertificateView,
    expected: Seq<char>,
    root: RootView,
    now: u64,
)
    ensures
        ({
            let own = c.public_key == ed25519_public(secret) && c.device_id == device_id_of(
                ed25519_public(secret),
            );
            let error = setup_error(secret, c, expected, root, now);
            let accepted = certificate_error(c, root, now);
            &&& !own ==> error == Some(SyncError::LocalCertificateMismatch)
            &&& own && accepted is Some ==> error == accepted
            &&& own && accepted is None && !is_id(expected) ==> error == Some(
                SyncError::ExpectedPeerId,
            )
            &&& own && accepted is None && is_id(expected) && expected == c.device_id ==> error
                == Some(SyncError::ExpectedPeerIsLocal)
        }),
{
}

/// A peer whose certificate passes, and who is yet refused, is told why: it is
/// this very device, it is not the one that was expected, or, of a proof, it is
/// not signed by the device.
pub proof fn refused_peers_are_told_why(
    i: InitiatorView,
    r: ResponderView,
    c: CertificateView,
    signature: Seq<u8>,
)
    requires
        presentable(c),
        presentable(i.certificate),
        presentable(r.certificate),
        signature.len() == 64,
        is_id(i.pair_id),
        i.info is Some,
        r.pair_id matches Some(pair_id) && is_id(pair_id),
        r.info is Some,
        i.validation matches ValidationView::Paired(pins) ==> pins.consistent(),
        r.validation matches ValidationView::Paired(pins) ==> pins.consistent(),
        lets_pass(i.validation, c, false),
        lets_pass(r.validation, c, true),
    ensures
        ({
            let proven = i.judged(hello_bytes(c) + signature);
            let met = r.judged(hello_bytes(c));
            &&& c.device_id == i.certificate.device_id ==> proven is Err && proven->Err_0
                == SyncError::Reflection
            &&& c.device_id != i.certificate.device_id && c.device_id != i.expected_peer
                ==> proven is Err && proven->Err_0 == SyncError::ResponderNotDiscovered
            &&& (c.device_id != i.certificate.device_id && c.device_id == i.expected_peer
                && ed25519_key_valid(c.public_key) && proven is Err) ==> proven->Err_0
                == SyncError::PeerSignature
            &&& c.device_id == r.certificate.device_id ==> met is Err && met->Err_0
                == SyncError::Reflection
            &&& c.device_id != r.certificate.device_id && c.device_id != r.expected_peer
                ==> met is Err && met->Err_0 == SyncError::InitiatorNotDiscovered
        }),
{
    reveal(InitiatorView::judged);
    reveal(ResponderView::judged);
    hello_round_trip(c);
    proof_round_trip(c, signature);
    proofs_are_judged(i, c, signature);
}

/// A connection of a peer that was discovered within the last ninety seconds is
/// answered as unbound exactly where it comes from another address or the peer
/// did not make the preface, and as this device's own exactly where it is.
pub proof fn known_connections_are_told(
    v: RuntimeView,
    peer: PeerView,
    route: Seq<u8>,
    source_ip: Seq<u8>,
    now: u64,
)
    requires
        peers_distinct(v.peers),
        v.peers.contains(peer),
        now <= peer.seen + 90_000_000_000,
        route.len() == 112,
        route.subrange(0, 16) == utf8("OMARCHY-ROUTE-V3"@),
        route.subrange(16, 48) == utf8(peer.discovery.device_id),
    ensures
        ({
            let answer = v.admitted(route, source_ip, now).0;
            let bound = peer.ip == source_ip && made_by(route, peer);
            let own = peer.discovery.device_id == v.identity;
            &&& answer is Unbound <==> !bound
            &&& answer is Own <==> bound && own
            &&& answer == AdmissionView::Peer(peer) <==> bound && !own
        }),
{
    let fresh = fresh_peers(v.peers, now);
    runtime_magic_lengths();
    fresh_keeps_distinct(v.peers, now);
    peers_are_fresh_for_ninety_seconds(v.peers, now, peer);
    encode_utf8_valid_utf8(peer.discovery.device_id);
    encode_utf8_decode_utf8(peer.discovery.device_id);
    peers_are_found_by_id(fresh, peer.discovery.device_id, peer);
}

// ---------------------------------------------------------------------------
// Announcements.
// ---------------------------------------------------------------------------
/// An announcement that is not in order is refused for the first of these: it is
/// of another protocol version, its certificate is not accepted, it is dated too
/// far ahead, it is too old, its key is none, its holder did not sign it.
pub proof fn refused_announcements_say_why(v: VerifierView, a: AnnouncementView, now: u64)
    ensures
        ({
            let error = v.announcement_error(a, now);
            let certificate = certificate_error(a.certificate, v.root, now);
            let dated = a.timestamp <= now + v.max_future && now <= a.timestamp + v.max_age;
            &&& a.protocol_version != 3 ==> error == Some(SyncError::DiscoveryDowngraded)
            &&& a.protocol_version == 3 && certificate is Some ==> error == certificate
            &&& a.protocol_version == 3 && certificate is None ==> {
                &&& a.timestamp > now + v.max_future && now + v.max_future <= u64::MAX ==> error
                    == Some(SyncError::DiscoveryFromFuture)
                &&& a.timestamp <= now && now > a.timestamp + v.max_age ==> error == Some(
                    SyncError::DiscoveryStale,
                )
                &&& dated && !ed25519_key_valid(a.certificate.public_key) ==> error == Some(
                    SyncError::InvalidPublicKey,
                )
                &&& (dated && ed25519_key_valid(a.certificate.public_key) && error is Some)
                    ==> error == Some(SyncError::DiscoverySignature)
            }
        }),
{
}

/// An announcement in order whose nonce is remembered and still counts is refused
/// as a repetition, and nothing is added.
pub proof fn repeated_announcements_are_refused(
    v: VerifierView,
    bytes: Seq<u8>,
    now: u64,
    k: int,
)
    requires
        announcement_parsed(bytes) is Ok,
        v.announcement_error(announcement_parsed(bytes)->Ok_0, now) is None,
        0 <= k < v.seen.len(),
        v.seen[k].nonce == announcement_parsed(bytes)->Ok_0.nonce,
        !spent_entry(v, v.seen[k], now),
    ensures
        v.answer(bytes, now) == Err::<DiscoveredView, SyncError>(SyncError::DiscoveryReplayed),
        v.after(bytes, now).seen.len() <= v.seen.len(),
{
    let kept = |e: ReplayView| v.retains(e, now);
    let entry = v.seen[k];
    filter_keeps_fewer(v.seen, kept);
    assert(kept(entry));
    assert(v.pruned(now).contains(entry)) by {
        broadcast use vstd::seq_lib::group_filter_ensures;

        assert(v.seen.filter(kept).contains(v.seen[k]));
    }
    let j = choose|j: int| 0 <= j < v.pruned(now).len() && v.pruned(now)[j] == entry;
    assert(v.pruned(now)[j].nonce == entry.nonce);
    assert(remembers(v.pruned(now), entry.nonce));
}

// ---------------------------------------------------------------------------
// Frames.
// ---------------------------------------------------------------------------
/// Frames that are too long are refused as such, both when they are made and when
/// they are read; and so is content that a session does not carry.
pub proof fn long_frames_are_refused(
    f: FrameView,
    bytes: Seq<u8>,
    max: int,
    s: SessionView,
    content: Seq<u8>,
)
    requires
        max <= 65535,
    ensures
        f.payload.len() <= 65535 && 21 + f.payload.len() > max ==> frame_encoded(f, max) == Err::<
            Seq<u8>,
            SyncError,
        >(SyncError::FrameTooLarge),
        f.payload.len() > 65535 ==> frame_encoded(f, max) == Err::<Seq<u8>, SyncError>(
            SyncError::FramePayloadTooLarge,
        ),
        bytes.len() > max ==> frame_parsed(bytes, max) == Err::<FrameView, SyncError>(
            SyncError::FrameTooLarge,
        ),
        content.len() > 49152 ==> s.encrypted(content) == (
            Err::<Seq<u8>, SyncError>(SyncError::TransportPlaintextTooLarge),
            s,
        ),
{
}

} // verus!
