//! When a record is prepared, resumed, co-signed and accepted.
use crate::codec::utf8;
use crate::crypto::{ed25519_public, ed25519_sign};
use crate::error::SyncError;
use crate::identity::device_id_of;
use crate::pairing::SessionView;
use crate::protocol_v3::{certificate_shape_error, RootView};
use crate::record::{
    pending_error, record_signature_error, record_signed, session_record, Demands, RecordView,
};
use crate::terms::{
    certified_record, formed, of_session, records_are_accepted_in_sessions, signatures_hold,
    signed_in_role,
};
use crate::trust::StoreView;
use vstd::prelude::*;

verus! {

// ---------------------------------------------------------------------------
// Signatures.
// ---------------------------------------------------------------------------
/// A signature in a role is a record's exactly if the role is one of the two,
/// the record has the form of one, and the device in that role made it.
pub proof fn record_signatures_are_judged(r: RecordView, role: u8, signature: Seq<u8>)
    ensures
        record_signature_error(r, role, signature) is None <==> {
            &&& formed(r)
            &&& {
                ||| role == 1 && signed_in_role(r, 1, r.initiator_public_key, signature)
                ||| role == 2 && signed_in_role(r, 2, r.responder_public_key, signature)
            }
        },
{
}

/// Setting a signature in a role sets that one, and nothing else; what is signed
/// stays the same.
pub proof fn signatures_are_set_in_their_role(r: RecordView, signature: Seq<u8>)
    ensures
        r.with_signature(1, signature) == (RecordView {
            initiator_signature: Some(signature),
            ..r
        }),
        r.with_signature(2, signature) == (RecordView {
            responder_signature: Some(signature),
            ..r
        }),
        r.signature(1) == r.initiator_signature,
        r.signature(2) == r.responder_signature,
        record_signed(r.with_signature(1, signature)) == record_signed(r),
        record_signed(r.with_signature(2, signature)) == record_signed(r),
{
}

/// A record with the signature of the local end of a session.
pub open spec fn signed_locally(r: RecordView, s: SessionView, secret: Seq<u8>) -> RecordView {
    if s.local_role == 1 {
        RecordView {
            initiator_signature: Some(ed25519_sign(secret, record_signed(r) + seq![1u8])),
            ..r
        }
    } else {
        RecordView {
            responder_signature: Some(ed25519_sign(secret, record_signed(r) + seq![2u8])),
            ..r
        }
    }
}

/// Whether an identity is the local end of a session.
pub open spec fn is_local_end(s: SessionView, secret: Seq<u8>) -> bool {
    &&& s.local_device_id == device_id_of(ed25519_public(secret))
    &&& s.local_certificate.public_key == ed25519_public(secret)
}

/// Whether a record is in order in its own session now.
pub open spec fn in_order_now(
    r: RecordView,
    s: SessionView,
    secret: Seq<u8>,
    root: RootView,
    now: u64,
) -> bool {
    &&& certified_record(r, root, now)
    &&& r.session_binding == s.session_binding
    &&& of_session(r, s)
    &&& r.authorizing_device_id == r.initiator_device_id || r.authorizing_device_id
        == r.responder_device_id
    &&& device_id_of(ed25519_public(secret)) == s.local_device_id
    &&& signatures_hold(r)
}

// ---------------------------------------------------------------------------
// Operations.
// ---------------------------------------------------------------------------
/// A record of a session is prepared exactly where the local user approved with a
/// marker of one to 128 bytes, the identity is the local end, both certificates
/// have the form of one, and the record, signed by the local end, is in order
/// and can be written. It is the session's, authorized now by the local device.
pub proof fn approved_records_are_prepared(
    v: StoreView,
    s: SessionView,
    secret: Seq<u8>,
    decision: Result<Seq<char>, SyncError>,
)
    ensures
        ({
            let r = signed_locally(
                session_record(s, s.pair_id, decision->Ok_0, secret, v.now),
                s,
                secret,
            );
            let (result, after) = v.prepared(s, secret, decision);
            &&& result is Ok <==> {
                &&& decision is Ok
                &&& 1 <= utf8(decision->Ok_0).len() <= 128
                &&& is_local_end(s, secret)
                &&& certificate_shape_error(s.local_certificate) is None
                &&& certificate_shape_error(s.peer_certificate) is None
                &&& r.initiator_certificate.len() <= 512
                &&& r.responder_certificate.len() <= 512
                &&& in_order_now(r, s, secret, v.root, v.now)
                &&& v.pending_written(r).0 is Ok
            }
            &&& result is Ok ==> result->Ok_0 == r && after == v.pending_written(r).1
            &&& result is Err && decision is Err ==> after == v
        }),
{
    reveal(StoreView::prepared);
    let r = signed_locally(
        session_record(s, s.pair_id, decision->Ok_0, secret, v.now),
        s,
        secret,
    );
    records_are_accepted_in_sessions(
        r,
        s,
        secret,
        v.root,
        v.now,
        (Demands { complete: false, bound: true, at_authorization: false }),
    );
}

/// A pending approval is bound to a new session exactly where it is in order, the
/// local device gave it, and the record that it makes of the session, signed by
/// the local end, is in order and can be written. That record carries the marker
/// and the time of the approval.
pub proof fn approvals_are_resumed(
    v: StoreView,
    s: SessionView,
    secret: Seq<u8>,
    approval: RecordView,
)
    ensures
        ({
            let r = signed_locally(
                session_record(
                    s,
                    s.pair_id,
                    approval.user_presence,
                    secret,
                    approval.authorized_at,
                ),
                s,
                secret,
            );
            let (result, after) = v.resumed(s, secret, approval);
            &&& result is Ok <==> {
                &&& pending_error(approval, v.root) is None
                &&& approval.authorizing_device_id == device_id_of(ed25519_public(secret))
                &&& is_local_end(s, secret)
                &&& certificate_shape_error(s.local_certificate) is None
                &&& certificate_shape_error(s.peer_certificate) is None
                &&& r.initiator_certificate.len() <= 512
                &&& r.responder_certificate.len() <= 512
                &&& in_order_now(r, s, secret, v.root, v.now)
                &&& v.pending_written(r).0 is Ok
            }
            &&& result is Ok ==> result->Ok_0 == r && after == v.pending_written(r).1
        }),
{
    reveal(StoreView::resumed);
    let r = signed_locally(
        session_record(s, s.pair_id, approval.user_presence, secret, approval.authorized_at),
        s,
        secret,
    );
    records_are_accepted_in_sessions(
        r,
        s,
        secret,
        v.root,
        v.now,
        (Demands { complete: false, bound: true, at_authorization: false }),
    );
}

/// A record is co-signed exactly where it is in order in the session, the local
/// end has not signed it yet, not both have, and with the local signature it has
/// both, is in order and can be written.
pub proof fn prepared_records_are_co_signed(
    v: StoreView,
    s: SessionView,
    secret: Seq<u8>,
    half: RecordView,
)
    ensures
        ({
            let r = signed_locally(half, s, secret);
            let (result, after) = v.co_signed(s, secret, half);
            &&& result is Ok <==> {
                &&& is_local_end(s, secret)
                &&& in_order_now(half, s, secret, v.root, v.now)
                &&& s.local_role == 1 ==> half.initiator_signature is None
                    && half.responder_signature is Some
                &&& s.local_role != 1 ==> half.responder_signature is None
                    && half.initiator_signature is Some
                &&& half.initiator_certificate.len() <= 512
                &&& half.responder_certificate.len() <= 512
                &&& in_order_now(r, s, secret, v.root, v.now)
                &&& v.pending_written(r).0 is Ok
            }
            &&& result is Ok ==> result->Ok_0 == r && after == v.pending_written(r).1
        }),
{
    reveal(StoreView::co_signed);
    let r = signed_locally(half, s, secret);
    records_are_accepted_in_sessions(
        half,
        s,
        secret,
        v.root,
        v.now,
        (Demands { complete: false, bound: true, at_authorization: false }),
    );
    records_are_accepted_in_sessions(
        r,
        s,
        secret,
        v.root,
        v.now,
        (Demands { complete: true, bound: true, at_authorization: false }),
    );
}

/// A record is finalized exactly where both signed it and it is in order in its
/// own session now, and it can become active; it is reconciled exactly where both
/// signed it, it was in order when it was authorized, and its two devices are the
/// ends of the session, whatever session it came from.
pub proof fn complete_records_are_accepted(
    v: StoreView,
    s: SessionView,
    secret: Seq<u8>,
    r: RecordView,
)
    ensures
        ({
            let both = r.initiator_signature is Some && r.responder_signature is Some;
            &&& v.accepted(s, secret, r, false).0 is Ok <==> {
                &&& is_local_end(s, secret)
                &&& both
                &&& in_order_now(r, s, secret, v.root, v.now)
                &&& v.activated(r).0 is Ok
            }
            &&& v.accepted(s, secret, r, true).0 is Ok <==> {
                &&& is_local_end(s, secret)
                &&& both
                &&& in_order_now(
                    r,
                    (SessionView { session_binding: r.session_binding, ..s }),
                    secret,
                    v.root,
                    r.authorized_at,
                )
                &&& v.activated(r).0 is Ok
            }
            &&& v.accepted(s, secret, r, false).0 is Ok ==> v.accepted(s, secret, r, false).1
                == v.activated(r).1
            &&& v.accepted(s, secret, r, true).0 is Ok ==> v.accepted(s, secret, r, true).1
                == v.activated(r).1
        }),
{
    reveal(StoreView::accepted);
    let unbound = SessionView { session_binding: r.session_binding, ..s };
    assert(of_session(r, unbound) == of_session(r, s));
    records_are_accepted_in_sessions(
        r,
        s,
        secret,
        v.root,
        v.now,
        (Demands { complete: true, bound: true, at_authorization: false }),
    );
    records_are_accepted_in_sessions(
        r,
        s,
        secret,
        v.root,
        v.now,
        (Demands { complete: true, bound: false, at_authorization: true }),
    );
}

} // verus!
