//! Who may open a pairing, which peers are let pass, and what a run answers.
use crate::authentication::{
    current_peer, hello_bytes, hello_round_trip, pinned_peer, proof_round_trip, transcript_bytes,
    AuthView, ContextView, TranscriptView,
};
use crate::codec::utf8;
use crate::crypto::{ed25519_key_valid, ed25519_public, ed25519_verifies};
use crate::error::SyncError;
use crate::exchange::{aead_sound, presentable};
use crate::frames::{frame_round_trip, FrameView};
use crate::identity::device_id_of;
use crate::noise::{noise_seal, TransportView};
use crate::pairing::{
    auth_opened, auth_sealed, setup_error, InitiatorView, ResponderView, SessionView,
    ValidationView,
};
use crate::pairing_run::{
    complete_sealed, completed, initiator_ready, message_sealed, responder_ready, ActionView,
    InitiatorRunView, InitiatorStageView, ReceivedView, ResponderRunView, ResponderStageView,
};
use crate::protocol_v3::{certificate_error, CertificateView, RootView};
use crate::record::RecordView;
use crate::runtime_v3::{EnrollmentView, MessageView};
use crate::text::is_id;
use crate::trust::StoreView;
use vstd::prelude::*;

verus! {

// ---------------------------------------------------------------------------
// Setting up.
// ---------------------------------------------------------------------------
/// An end may be set up for first contact exactly with its own certificate, while
/// the root accepts it, and for a peer that is another device.
pub proof fn ends_are_set_up_with_their_own(
    secret: Seq<u8>,
    certificate: CertificateView,
    expected: Seq<char>,
    root: RootView,
    now: u64,
)
    ensures
        setup_error(secret, certificate, expected, root, now) is None <==> {
            &&& certificate.public_key == ed25519_public(secret)
            &&& certificate.device_id == device_id_of(ed25519_public(secret))
            &&& certificate_error(certificate, root, now) is None
            &&& is_id(expected)
            &&& expected != certificate.device_id
        },
{
}

/// An identity takes part in an established pairing in the role in which the
/// pairing names it, one for the initiator and two for the responder; nobody
/// else takes part.
pub proof fn identities_take_part_in_their_roles(pins: ContextView, secret: Seq<u8>)
    requires
        pins.initiator_device_id != pins.responder_device_id,
    ensures
        ({
            let own = (device_id_of(ed25519_public(secret)), ed25519_public(secret));
            &&& pins.role_of(secret) == Some(1u8) <==> own == (
                pins.initiator_device_id,
                pins.initiator_public_key,
            )
            &&& pins.role_of(secret) == Some(2u8) <==> own == (
                pins.responder_device_id,
                pins.responder_public_key,
            )
            &&& pins.role_of(secret) matches Some(role) ==> role == 1 || role == 2
        }),
{
}

/// Each role, one for the initiator and two for the responder, has its own
/// DeviceID, key and certificate among the pins, and the other role's device for
/// a peer.
pub proof fn pins_are_told_by_role(pins: ContextView)
    ensures
        pins.device_id(1) == pins.initiator_device_id,
        pins.device_id(2) == pins.responder_device_id,
        pins.public_key(1) == pins.initiator_public_key,
        pins.public_key(2) == pins.responder_public_key,
        pins.certificate(1) == pins.initiator_certificate,
        pins.certificate(2) == pins.responder_certificate,
        pins.peer_device_id(1) == pins.responder_device_id,
        pins.peer_device_id(2) == pins.initiator_device_id,
{
}

/// A run can open a pairing exactly where it is the initiator of the pins that it
/// plans with, or has none and may be set up for first contact. It expects the
/// device that the pins name, under their PairID, or else the peer, under a new
/// one.
pub proof fn initiators_are_made_ready(
    plan: Option<ContextView>,
    secret: Seq<u8>,
    enrollment: EnrollmentView,
    peer: Seq<char>,
    now: u64,
    pair_id: Seq<char>,
    noise_secret: Seq<u8>,
)
    ensures
        ({
            let own = (device_id_of(ed25519_public(secret)), ed25519_public(secret));
            let ready = initiator_ready(plan, secret, enrollment, peer, now, pair_id, noise_secret);
            &&& plan matches Some(pins) ==> {
                &&& ready is Ok <==> own == (pins.initiator_device_id, pins.initiator_public_key)
                    && is_id(pins.pair_id)
                &&& ready matches Ok(i) ==> {
                    &&& i.pair_id == pins.pair_id
                    &&& i.certificate == pins.initiator_certificate
                    &&& i.expected_peer == pins.responder_device_id
                    &&& i.validation == ValidationView::Paired(pins)
                }
            }
            &&& plan is None ==> {
                &&& ready is Ok <==> {
                    let c = enrollment.certificate;
                    &&& (c.device_id, c.public_key) == own
                    &&& certificate_error(c, enrollment.root, now) is None
                    &&& is_id(peer)
                    &&& peer != c.device_id
                }
                &&& ready matches Ok(i) ==> {
                    &&& i.pair_id == pair_id
                    &&& i.certificate == enrollment.certificate
                    &&& i.expected_peer == peer
                    &&& i.validation == (ValidationView::Current { root: enrollment.root, now })
                }
            }
            &&& ready matches Ok(i) ==> i.identity == secret
        }),
{
}

/// A run can answer a pairing exactly where it is the responder of the pins that
/// it plans with, or has none and may be set up for first contact. It expects
/// the device that the pins name, under their PairID and no other, or else the
/// peer, under whatever PairID it brings.
pub proof fn responders_are_made_ready(
    plan: Option<ContextView>,
    secret: Seq<u8>,
    enrollment: EnrollmentView,
    peer: Seq<char>,
    now: u64,
)
    ensures
        ({
            let own = (device_id_of(ed25519_public(secret)), ed25519_public(secret));
            let ready = responder_ready(plan, secret, enrollment, peer, now);
            &&& plan matches Some(pins) ==> {
                &&& pins.initiator_device_id != pins.responder_device_id ==> (ready is Ok <==> own
                    == (pins.responder_device_id, pins.responder_public_key))
                &&& ready matches Ok(r) ==> {
                    &&& r.pair_id == Some(pins.pair_id)
                    &&& r.certificate == pins.responder_certificate
                    &&& r.expected_peer == pins.initiator_device_id
                    &&& r.validation == ValidationView::Paired(pins)
                }
            }
            &&& plan is None ==> {
                &&& ready is Ok <==> {
                    let c = enrollment.certificate;
                    &&& (c.device_id, c.public_key) == own
                    &&& certificate_error(c, enrollment.root, now) is None
                    &&& is_id(peer)
                    &&& peer != c.device_id
                }
                &&& ready matches Ok(r) ==> {
                    &&& r.pair_id is None
                    &&& r.certificate == enrollment.certificate
                    &&& r.expected_peer == peer
                    &&& r.validation == (ValidationView::Current { root: enrollment.root, now })
                }
            }
            &&& ready matches Ok(r) ==> r.identity == secret
        }),
{
}

// ---------------------------------------------------------------------------
// Peers.
// ---------------------------------------------------------------------------
/// A peer that presents a certificate is let pass under a root exactly while the
/// root accepts the certificate. A hello carries no signature, a proof does.
pub proof fn certified_peers_pass(
    c: CertificateView,
    signature: Seq<u8>,
    root: RootView,
    now: u64,
)
    requires
        presentable(c),
        signature.len() == 64,
    ensures
        ({
            let hello = hello_bytes(c);
            let signed_hello = hello_bytes(c) + signature;
            let peer = AuthView {
                certificate: c,
                public_key: c.public_key,
                device_id: c.device_id,
                signature: None,
            };
            let accepted = certificate_error(c, root, now) is None;
            &&& current_peer(hello, root, now, false) is Ok <==> accepted
            &&& accepted ==> current_peer(hello, root, now, false)->Ok_0 == peer
            &&& current_peer(signed_hello, root, now, true) is Ok <==> accepted
            &&& accepted ==> current_peer(signed_hello, root, now, true)->Ok_0 == (AuthView {
                signature: Some(signature),
                ..peer
            })
            &&& current_peer(hello, root, now, true) is Err
            &&& current_peer(signed_hello, root, now, false) is Err
        }),
{
    hello_round_trip(c);
    proof_round_trip(c, signature);
}

/// A peer that presents a certificate is let pass in an established pairing
/// exactly if it is the certificate that is pinned for its role, whatever the
/// time. A hello carries no signature, a proof does.
pub proof fn pinned_peers_pass(c: CertificateView, signature: Seq<u8>, pins: ContextView)
    requires
        presentable(c),
        signature.len() == 64,
        pins.consistent(),
    ensures
        ({
            let hello = hello_bytes(c);
            let signed_hello = hello_bytes(c) + signature;
            let peer = AuthView {
                certificate: c,
                public_key: c.public_key,
                device_id: c.device_id,
                signature: None,
            };
            let full = AuthView { signature: Some(signature), ..peer };
            &&& pinned_peer(hello, pins, 1, false) is Ok <==> c == pins.initiator_certificate
            &&& pinned_peer(hello, pins, 2, false) is Ok <==> c == pins.responder_certificate
            &&& pinned_peer(signed_hello, pins, 1, true) is Ok <==> c == pins.initiator_certificate
            &&& pinned_peer(signed_hello, pins, 2, true) is Ok <==> c == pins.responder_certificate
            &&& pinned_peer(hello, pins, 1, false) matches Ok(found) ==> found == peer
            &&& pinned_peer(signed_hello, pins, 2, true) matches Ok(found) ==> found == full
            &&& pinned_peer(hello, pins, 1, true) is Err
            &&& pinned_peer(hello, pins, 2, true) is Err
            &&& pinned_peer(signed_hello, pins, 1, false) is Err
            &&& pinned_peer(signed_hello, pins, 2, false) is Err
        }),
{
    hello_round_trip(c);
    proof_round_trip(c, signature);
}

/// Whether a validation lets a certificate pass in a role: under a root, while
/// the root accepts it; in an established pairing, if it is the pinned one.
pub open spec fn lets_pass(
    validation: ValidationView,
    c: CertificateView,
    initiator: bool,
) -> bool {
    match validation {
        ValidationView::Current { root, now } => certificate_error(c, root, now) is None,
        ValidationView::Paired(pins) => c == (if initiator {
            pins.initiator_certificate
        } else {
            pins.responder_certificate
        }),
    }
}

/// What a device signs of a transcript in a role.
pub open spec fn signed_transcript(t: TranscriptView, role: u8) -> Seq<u8> {
    utf8("OMARCHY-SYNC-V3-PAIRING-SIGNATURE"@) + transcript_bytes(t) + seq![role]
}

/// The mode in which a validation authenticates: one for first contact, two for
/// a reconnection.
pub open spec fn mode_number(validation: ValidationView) -> u8 {
    match validation {
        ValidationView::Current { .. } => 1,
        ValidationView::Paired(_) => 2,
    }
}

/// An initiator accepts a responder's proof exactly if the certificate passes,
/// it is that of the device that was expected and not its own, and the device
/// signed, as responder, the transcript that the two share: of their handshake,
/// in this mode, under this PairID, with both certificates and both keys.
pub proof fn proofs_are_judged(i: InitiatorView, c: CertificateView, signature: Seq<u8>)
    requires
        presentable(c),
        presentable(i.certificate),
        signature.len() == 64,
        is_id(i.pair_id),
        i.info is Some,
        i.validation matches ValidationView::Paired(pins) ==> pins.consistent(),
    ensures
        ({
            let t = TranscriptView {
                hash: i.info->Some_0.hash,
                mode: mode_number(i.validation),
                pair_id: i.pair_id,
                initiator_certificate: i.certificate,
                responder_certificate: c,
                initiator_static: i.local_static,
                responder_static: i.info->Some_0.remote_static,
            };
            &&& i.judged(hello_bytes(c) + signature) is Ok <==> {
                &&& lets_pass(i.validation, c, false)
                &&& c.device_id == i.expected_peer
                &&& c.device_id != i.certificate.device_id
                &&& ed25519_key_valid(c.public_key)
                &&& ed25519_verifies(c.public_key, signed_transcript(t, 2), signature)
            }
            &&& i.judged(hello_bytes(c) + signature) matches Ok((peer, transcript)) ==> {
                &&& transcript == transcript_bytes(t)
                &&& peer.certificate == c
                &&& peer.device_id == c.device_id
                &&& peer.public_key == c.public_key
            }
            &&& i.judged(hello_bytes(c)) is Err
        }),
{
    reveal(InitiatorView::judged);
    hello_round_trip(c);
    proof_round_trip(c, signature);
}

/// A responder accepts an initiator's hello exactly if the certificate passes,
/// and is that of the device that was expected and not its own; the transcript
/// is then that of their handshake, in this mode, under this PairID, with both
/// certificates and both keys.
pub proof fn hellos_are_judged(r: ResponderView, c: CertificateView, signature: Seq<u8>)
    requires
        presentable(c),
        presentable(r.certificate),
        signature.len() == 64,
        r.pair_id matches Some(pair_id) && is_id(pair_id),
        r.info is Some,
        r.validation matches ValidationView::Paired(pins) ==> pins.consistent(),
    ensures
        ({
            let t = TranscriptView {
                hash: r.info->Some_0.hash,
                mode: mode_number(r.validation),
                pair_id: r.pair_id->Some_0,
                initiator_certificate: c,
                responder_certificate: r.certificate,
                initiator_static: r.info->Some_0.remote_static,
                responder_static: r.local_static,
            };
            &&& r.judged(hello_bytes(c)) is Ok <==> {
                &&& lets_pass(r.validation, c, true)
                &&& c.device_id == r.expected_peer
                &&& c.device_id != r.certificate.device_id
            }
            &&& r.judged(hello_bytes(c)) matches Ok((peer, transcript)) ==> {
                &&& transcript == transcript_bytes(t)
                &&& peer.certificate == c
                &&& peer.device_id == c.device_id
                &&& peer.public_key == c.public_key
            }
            &&& r.judged(hello_bytes(c) + signature) is Err
        }),
{
    reveal(ResponderView::judged);
    hello_round_trip(c);
    proof_round_trip(c, signature);
}

/// A responder accepts an initiator's signature exactly if it has sixty-four
/// bytes, and the device that introduced itself made it, as initiator, of the
/// transcript that the two share.
pub proof fn signatures_are_judged(r: ResponderView, payload: Seq<u8>)
    ensures
        r.signature_fault(payload) is None <==> {
            &&& r.peer matches Some(peer)
            &&& r.transcript matches Some(transcript)
            &&& payload.len() == 64
            &&& ed25519_key_valid(peer.public_key)
            &&& ed25519_verifies(
                peer.public_key,
                utf8("OMARCHY-SYNC-V3-PAIRING-SIGNATURE"@) + transcript + seq![1u8],
                payload,
            )
        },
{
}

// ---------------------------------------------------------------------------
// Authentication frames.
// ---------------------------------------------------------------------------
/// An authentication payload of up to 2048 bytes is sent in a role and with a
/// number, and read by whoever expects that role and that number; it is refused
/// by whoever expects another role or number, who is left as before. Longer
/// payloads are not sent.
pub proof fn authentication_frames_carry_payloads(
    from: TransportView,
    to: TransportView,
    role: u8,
    sequence: u8,
    payload: Seq<u8>,
    other_role: u8,
    other_sequence: u8,
)
    requires
        aead_sound(),
        role == 1 || role == 2,
        to.receive_key == from.send_key,
        to.receive_nonce == from.send_nonce,
        from.send_nonce < u64::MAX,
    ensures
        ({
            let (frame, _) = auth_sealed(from, role, sequence, payload);
            &&& frame is Ok <==> payload.len() <= 2048
            &&& frame is Ok ==> {
                &&& auth_opened(to, frame->Ok_0, role, sequence).0 == Ok::<Seq<u8>, SyncError>(
                    payload,
                )
                &&& other_role != role || other_sequence != sequence ==> auth_opened(
                    to,
                    frame->Ok_0,
                    other_role,
                    other_sequence,
                ) == (Err::<Seq<u8>, SyncError>(SyncError::AuthFrameUnexpected), to)
            }
        }),
{
    reveal(auth_sealed);
    reveal(auth_opened);
    if payload.len() <= 2048 {
        let ciphertext = noise_seal(from.send_key, from.send_nonce, payload);
        frame_round_trip(FrameView { kind: 2, role, sequence, payload: ciphertext }, 4096);
    }
}

// ---------------------------------------------------------------------------
// Answers.
// ---------------------------------------------------------------------------
/// What an initiator returns for a prepared record. A complete copy that it has
/// pending with the same PairID is returned, and one with another PairID is a
/// fault; without one, a record that it has signed itself is returned as it is;
/// and any other is co-signed. Only co-signing changes the store.
pub proof fn prepared_records_are_completed(
    s: SessionView,
    secret: Seq<u8>,
    store: StoreView,
    prepared: RecordView,
    local: Option<RecordView>,
)
    requires
        store.pending_between(device_id_of(ed25519_public(secret)), s.peer_device_id) == Ok::<
            Option<RecordView>,
            SyncError,
        >(local),
    ensures
        ({
            let id = device_id_of(ed25519_public(secret));
            let whole = local matches Some(r) && r.initiator_signature is Some
                && r.responder_signature is Some;
            let signed = (id == prepared.initiator_device_id
                && prepared.initiator_signature is Some) || (id == prepared.responder_device_id
                && prepared.responder_signature is Some);
            let (result, after) = completed(s, secret, store, prepared);
            &&& whole && local->Some_0.pair_id == prepared.pair_id ==> result == Ok::<
                RecordView,
                SyncError,
            >(local->Some_0) && after == store
            &&& whole && local->Some_0.pair_id != prepared.pair_id ==> result is Err && after
                == store
            &&& !whole && signed ==> result == Ok::<RecordView, SyncError>(prepared) && after
                == store
            &&& !whole && !signed ==> (result, after) == store.co_signed(s, secret, prepared)
        }),
{
    reveal(completed);
}

/// What a responder answers a request with. An active pairing is confirmed with
/// its record, as it loads now; without one, a pending record is offered as it
/// is where the initiator means to reconnect, and made anew for the session
/// where it does not; and without either the local user is asked about the peer,
/// and nothing changes yet.
pub proof fn requests_are_answered(run: ResponderRunView, s: SessionView, store: StoreView)
    ensures
        ({
            let (result, after) = run.requested(s, ReceivedView::Request, store);
            match (run.active_pair, run.pending) {
                (Some(id), _) => {
                    &&& after == store
                    &&& result is Ok ==> (store.loaded(id) matches Ok(Some(record)) && result
                        == run.confirmed(s, record))
                    &&& store.loaded(id) matches Ok(Some(record)) ==> result == run.confirmed(
                        s,
                        record,
                    )
                },
                (None, Some(record)) => if run.reconnect_start {
                    after == store && result == run.offered(s, (Ok(record), store)).0
                } else {
                    after == store.resumed(s, run.identity, record).1
                },
                (None, None) => {
                    &&& after == store
                    &&& (s.local_device_id == device_id_of(ed25519_public(run.identity))
                        && s.local_certificate.public_key == ed25519_public(run.identity))
                        ==> result == Ok::<(ResponderRunView, ActionView), SyncError>(
                        (
                            ResponderRunView { stage: ResponderStageView::Decision(s), ..run },
                            ActionView::Authorize(s.peer_certificate),
                        ),
                    )
                },
            }
        }),
{
}

/// What an initiator makes of an answer to its request. A complete record is
/// taken exactly where the run reconnects, and waits for the acknowledgement; a
/// prepared one is completed and sent back; anything else is refused. Nothing
/// becomes active yet, and a refusal without co-signing changes nothing.
pub proof fn answers_are_taken(
    run: InitiatorRunView,
    s: SessionView,
    record: RecordView,
    store: StoreView,
)
    ensures
        ({
            let whole = run.answered(s, ReceivedView::Complete(Ok(record)), store);
            let half = run.answered(s, ReceivedView::Prepared(Ok(record)), store);
            let (done, after) = completed(s, run.identity, store, record);
            &&& whole.1 == store
            &&& run.reconnect ==> whole.0 == Ok::<(InitiatorRunView, ActionView), SyncError>(
                (
                    InitiatorRunView { stage: InitiatorStageView::Finalized(s, record), ..run },
                    ActionView::Exchange(Seq::empty()),
                ),
            )
            &&& !run.reconnect ==> whole.0 is Err
            &&& half.1 == after
            &&& done is Err ==> half.0 is Err
            &&& done matches Ok(full) ==> {
                &&& half.0 is Ok <==> complete_sealed(s, full).0 is Ok
                &&& complete_sealed(s, full).0 matches Ok(frame) ==> half.0 == Ok::<
                    (InitiatorRunView, ActionView),
                    SyncError,
                >(
                    (
                        InitiatorRunView {
                            stage: InitiatorStageView::Finalized(complete_sealed(s, full).1, full),
                            ..run
                        },
                        ActionView::Exchange(seq![frame]),
                    ),
                )
            }
            &&& run.answered(s, ReceivedView::Request, store) == (
                Err::<(InitiatorRunView, ActionView), SyncError>(SyncError::ResponseUnexpected),
                store,
            )
            &&& run.answered(s, ReceivedView::Finalized, store) == (
                Err::<(InitiatorRunView, ActionView), SyncError>(SyncError::ResponseUnexpected),
                store,
            )
            &&& run.answered(s, ReceivedView::Malformed, store) == (
                Err::<(InitiatorRunView, ActionView), SyncError>(SyncError::AppMessage),
                store,
            )
        }),
{
}

/// On the final acknowledgement, and on nothing else, an initiator reconciles the
/// record, and is done exactly if that succeeds.
pub proof fn initiators_conclude(
    run: InitiatorRunView,
    s: SessionView,
    record: RecordView,
    message: ReceivedView,
    store: StoreView,
)
    ensures
        ({
            let (result, after) = run.concluded(s, record, message, store);
            let accepted = store.accepted(s, run.identity, record, true);
            &&& message is Finalized ==> after == accepted.1 && (result is Ok <==> accepted.0 is Ok)
            &&& message !is Finalized ==> result is Err && after == store
            &&& result matches Ok((next, action)) ==> next.stage is Done && action
                == ActionView::Finish(Seq::empty())
        }),
{
}

/// A responder takes a complete record by finalizing it where it is of this
/// session, and else by reconciling it, and then tells the initiator; a record
/// that is not complete changes nothing, and is acknowledged; anything else is
/// refused.
pub proof fn responders_conclude(
    run: ResponderRunView,
    s: SessionView,
    record: RecordView,
    message: ReceivedView,
    store: StoreView,
)
    ensures
        ({
            let (result, after) = run.concluded(s, ReceivedView::Complete(Ok(record)), store);
            let both = record.initiator_signature is Some && record.responder_signature is Some;
            let own = record.session_binding == s.session_binding;
            let accepted = store.accepted(s, run.identity, record, !own);
            let told = message_sealed(s, MessageView::Finalized).0;
            &&& both ==> after == accepted.1 && (result is Ok <==> accepted.0 is Ok && told is Ok)
            &&& !both ==> after == store && (result is Ok <==> told is Ok)
            &&& result matches Ok((next, action)) ==> next.stage is Done && action
                == ActionView::Finish(seq![told->Ok_0])
            &&& message !is Complete ==> run.concluded(s, message, store).0 is Err
                && run.concluded(s, message, store).1 == store
        }),
{
}

} // verus!
