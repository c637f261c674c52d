//! Which records are accepted, when, and by whom.
use crate::codec::utf8;
use crate::crypto::{ed25519_key_valid, ed25519_public, ed25519_verifies};
use crate::error::SyncError;
use crate::identity::device_id_of;
use crate::pairing::SessionView;
use crate::protocol_v3::{certificate_error, certificate_parsed, RootView};
use crate::record::{
    binding_error, is_marker, pending_error, record_accepted, record_binds, record_json,
    record_shape_error, record_sign_error, record_signed, record_stored, session_record,
    session_record_error, stored_error, Demands, RecordView,
};
use crate::text::is_id;
use vstd::prelude::*;

verus! {

/// Whether a record has the form of one: four IDs, a domain of one to
/// sixty-four bytes, a marker of one to 128 bytes, a time, and two certificates.
pub open spec fn formed(r: RecordView) -> bool {
    &&& is_id(r.pair_id)
    &&& is_id(r.initiator_device_id)
    &&& is_id(r.responder_device_id)
    &&& is_id(r.authorizing_device_id)
    &&& 1 <= utf8(r.domain).len() <= 64
    &&& 1 <= utf8(r.user_presence).len() <= 128
    &&& r.authorized_at > 0
    &&& r.initiator_certificate.len() > 0
    &&& r.responder_certificate.len() > 0
}

/// A record is of valid form exactly if it has the form of one; a marker is
/// acceptable exactly if it has one to 128 bytes.
pub proof fn records_have_a_form(r: RecordView, marker: Seq<char>)
    ensures
        record_shape_error(r) is None <==> formed(r),
        is_marker(marker) <==> 1 <= utf8(marker).len() <= 128,
{
}

/// Whether an encoded certificate is that of an identity, and accepted under a
/// root at a time.
pub open spec fn vouches(
    certificate: Seq<u8>,
    device_id: Seq<char>,
    public_key: Seq<u8>,
    root: RootView,
    time: u64,
) -> bool {
    &&& certificate_parsed(certificate) matches Ok(c)
    &&& c.device_id == device_id
    &&& c.public_key == public_key
    &&& certificate_error(c, root, time) is None
}

/// Whether a record is one of this protocol between two devices that the root
/// vouched for at a time.
pub open spec fn certified_record(r: RecordView, root: RootView, time: u64) -> bool {
    &&& formed(r)
    &&& r.protocol_version == 3
    &&& r.domain == "omarchy-sync/pairing/v3"@
    &&& r.initiator_device_id != r.responder_device_id
    &&& vouches(r.initiator_certificate, r.initiator_device_id, r.initiator_public_key, root, time)
    &&& vouches(r.responder_certificate, r.responder_device_id, r.responder_public_key, root, time)
}

/// Whether a device signed a record in a role, one for the initiator and two for
/// the responder.
pub open spec fn signed_in_role(
    r: RecordView,
    role: u8,
    public_key: Seq<u8>,
    signature: Seq<u8>,
) -> bool {
    &&& signature.len() == 64
    &&& r.initiator_certificate.len() <= 512
    &&& r.responder_certificate.len() <= 512
    &&& ed25519_key_valid(public_key)
    &&& ed25519_verifies(public_key, record_signed(r) + seq![role], signature)
}

/// Whether each signature that a record has is that of the device in its role.
pub open spec fn signatures_hold(r: RecordView) -> bool {
    &&& r.initiator_signature matches Some(s) ==> signed_in_role(r, 1, r.initiator_public_key, s)
    &&& r.responder_signature matches Some(s) ==> signed_in_role(r, 2, r.responder_public_key, s)
}

/// A record is accepted as active trust exactly if the root vouched for its two
/// devices when it was authorized, and both signed it. Nothing else is asked:
/// neither the time now, nor who authorized it, nor in which session.
pub proof fn active_records_are_signed_by_both(r: RecordView, root: RootView)
    ensures
        stored_error(r, root) is None <==> {
            &&& certified_record(r, root, r.authorized_at)
            &&& r.initiator_signature is Some
            &&& r.responder_signature is Some
            &&& signatures_hold(r)
        },
{
    records_have_a_form(r, r.user_presence);
}

/// A record is accepted as pending state exactly if the root vouched for its two
/// devices when it was authorized, and one of them signed it, or both.
pub proof fn pending_records_are_signed_by_one(r: RecordView, root: RootView)
    ensures
        pending_error(r, root) is None <==> {
            &&& certified_record(r, root, r.authorized_at)
            &&& r.initiator_signature is Some || r.responder_signature is Some
            &&& signatures_hold(r)
        },
{
    records_have_a_form(r, r.user_presence);
}

/// Active trust is pending state with both signatures.
pub proof fn complete_pending_records_are_active_trust(r: RecordView, root: RootView)
    ensures
        stored_error(r, root) is None <==> pending_error(r, root) is None && r.complete(),
        r.complete() <==> r.initiator_signature is Some && r.responder_signature is Some,
{
}

/// Whether a record is that of the two ends of a session, each in its role.
pub open spec fn of_session(r: RecordView, s: SessionView) -> bool {
    let local = (s.local_certificate.device_id, s.local_certificate.public_key);
    let peer = (s.peer_certificate.device_id, s.peer_certificate.public_key);
    let initiator = (r.initiator_device_id, r.initiator_public_key);
    let responder = (r.responder_device_id, r.responder_public_key);
    if s.local_role == 1 {
        local == initiator && peer == responder
    } else {
        local == responder && peer == initiator
    }
}

/// A record is accepted in a session exactly if the root vouches for its two
/// devices, they are the two ends in their roles, one of them authorized it,
/// the identity is the local end, the signatures that it has hold, and it meets
/// what is demanded: both signatures, and the session's own binding. The
/// certificates are judged at the time of authorization or now, as demanded.
pub proof fn records_are_accepted_in_sessions(
    r: RecordView,
    s: SessionView,
    secret: Seq<u8>,
    root: RootView,
    now: u64,
    demands: Demands,
)
    ensures
        session_record_error(r, s, secret, root, now, demands) is None <==> {
            &&& certified_record(
                r,
                root,
                if demands.at_authorization {
                    r.authorized_at
                } else {
                    now
                },
            )
            &&& demands.complete ==> r.initiator_signature is Some && r.responder_signature is Some
            &&& demands.bound ==> r.session_binding == s.session_binding
            &&& of_session(r, s)
            &&& r.authorizing_device_id == r.initiator_device_id || r.authorizing_device_id
                == r.responder_device_id
            &&& device_id_of(ed25519_public(secret)) == s.local_device_id
            &&& signatures_hold(r)
        },
{
    records_have_a_form(r, r.user_presence);
}

/// Two records are the same pairing exactly if they agree in everything but
/// their signatures, and can be signed.
pub proof fn pairings_agree_but_for_signatures(a: RecordView, b: RecordView)
    requires
        a.initiator_public_key.len() == 32,
        a.responder_public_key.len() == 32,
        a.session_binding.len() == 32,
        b.initiator_public_key.len() == 32,
        b.responder_public_key.len() == 32,
        b.session_binding.len() == 32,
    ensures
        binding_error(a, b) is None <==> {
            &&& formed(a)
            &&& a.initiator_certificate.len() <= 512
            &&& a.responder_certificate.len() <= 512
            &&& b == (RecordView {
                initiator_signature: b.initiator_signature,
                responder_signature: b.responder_signature,
                ..a
            })
        },
{
    records_have_a_form(a, a.user_presence);
    records_have_a_form(b, b.user_presence);
    if binding_error(a, b) is None {
        record_binds(a, b);
        assert(b.unsigned() == a.unsigned());
    }
}

/// A record of valid form is stored exactly if its stored form has at most 4096
/// bytes, and then as that form; and only what has at most 4096 bytes, parses
/// and is of valid form is read.
pub proof fn records_are_stored_within_bounds(r: RecordView, bytes: Seq<u8>)
    ensures
        record_json(r).len() <= 4096 ==> record_stored(r) == Ok::<Seq<u8>, SyncError>(
            record_json(r),
        ),
        record_json(r).len() > 4096 ==> record_stored(r) == Err::<Seq<u8>, SyncError>(
            SyncError::RecordTooLarge,
        ),
        record_accepted(bytes, Some(r)) is Ok <==> bytes.len() <= 4096 && formed(r),
        record_accepted(bytes, Some(r)) is Ok ==> record_accepted(bytes, Some(r))->Ok_0 == r,
        record_accepted(bytes, None) is Err,
{
    records_have_a_form(r, r.user_presence);
}

/// A record can be signed exactly if it has the form of one and its certificates
/// have at most 512 bytes.
pub proof fn formed_records_are_signed(r: RecordView)
    ensures
        record_sign_error(r) is None <==> formed(r) && r.initiator_certificate.len() <= 512
            && r.responder_certificate.len() <= 512,
{
    records_have_a_form(r, r.user_presence);
}

/// The record that a session gives rise to is the same at both ends, but for who
/// authorized it; it names each end by its certificate in its role, and carries
/// the session's binding, the marker and the time as they are given.
pub proof fn sessions_give_one_record(
    a: SessionView,
    b: SessionView,
    pair_id: Seq<char>,
    marker: Seq<char>,
    secret: Seq<u8>,
    time: u64,
)
    requires
        a.local_role == 1,
        b.local_role == 2,
        a.local_certificate == b.peer_certificate,
        b.local_certificate == a.peer_certificate,
        a.session_binding == b.session_binding,
    ensures
        ({
            let r = session_record(a, pair_id, marker, secret, time);
            &&& session_record(b, pair_id, marker, secret, time) == r
            &&& r.protocol_version == 3
            &&& r.domain == "omarchy-sync/pairing/v3"@
            &&& r.pair_id == pair_id
            &&& of_session(r, a)
            &&& of_session(r, b)
            &&& r.session_binding == a.session_binding
            &&& r.authorizing_device_id == device_id_of(ed25519_public(secret))
            &&& r.user_presence == marker
            &&& r.authorized_at == time
            &&& r.initiator_signature is None
            &&& r.responder_signature is None
        }),
{
}

} // verus!
