//! What holds of the runs of a pairing, one by one and of two together.
use crate::bilateral::{
    accepted_leaves_nothing_pending, bilateral_pairing_completes, can_pair, can_reconcile,
    complete_records_reconcile, nothing_pending, only_bilateral_records_activate,
    preparing_never_activates, resumed_pairing_completes, sessions_match,
};
use crate::crypto::{ed25519_public, ed25519_sign, ed25519_verifies};
use crate::error::SyncError;
use crate::exchange::{aead_sound, matched};
use crate::frames::{
    frame_round_trip, is_role, FrameView, KIND_TRANSPORT, MAX_TRANSPORT_FRAME, ROLE_INITIATOR,
    ROLE_RESPONDER,
};
use crate::identity::device_id_of;
use crate::noise::{noise_seal, TransportView};
use crate::pairing::SessionView;
use crate::pairing_run::{
    completed, message_opened, message_sealed, ActionView, EventView, InitiatorRunView,
    InitiatorStageView, ReceivedView, ResponderRunView, ResponderStageView,
};
use crate::record::{
    pending_error, record_json, record_keys_session, record_message, record_names_session,
    session_encode_error, session_identity_error, session_record, session_record_error, storable,
    Demands, RecordView,
};
use crate::runtime_v3::{
    app_encoded, app_round_trip, message_json, runtime_magic_lengths, stored_records_fit,
    MessageView,
};
use crate::trust::StoreView;
use vstd::prelude::*;

verus! {

// ---------------------------------------------------------------------------
// One run.
// ---------------------------------------------------------------------------
/// Whether both identities have signed a record that names the two ends of a
/// session.
pub open spec fn bilateral(record: RecordView, s: SessionView) -> bool {
    &&& record.complete()
    &&& ed25519_verifies(
        record.initiator_public_key,
        record_message(record, ROLE_INITIATOR),
        record.initiator_signature->Some_0,
    )
    &&& ed25519_verifies(
        record.responder_public_key,
        record_message(record, ROLE_RESPONDER),
        record.responder_signature->Some_0,
    )
    &&& record_names_session(record, s)
}

/// An initiating run activates nothing before the responder's final
/// acknowledgement, and then only a record that both identities have signed and
/// that names the two ends of its session.
pub proof fn initiator_activates_bilateral_records(
    v: InitiatorRunView,
    event: EventView,
    store: StoreView,
    ephemeral: Seq<u8>,
)
    requires
        v.stepped(event, store, ephemeral).1.active != store.active,
    ensures
        event == EventView::Message(ReceivedView::Finalized),
        v.stage matches InitiatorStageView::FinalizedRead(s, record) && bilateral(record, s),
{
    reveal(InitiatorRunView::stepped);
    match (v.stage, event) {
        (InitiatorStageView::ResponseRead(s), EventView::Message(message)) => {
            match message {
                ReceivedView::Prepared(Ok(record)) => {
                    reveal(completed);
                    preparing_never_activates(
                        store,
                        s,
                        v.identity,
                        Err(SyncError::AuthorizationDenied),
                        record,
                    );
                },
                _ => {},
            }
        },
        (InitiatorStageView::FinalizedRead(s, record), EventView::Message(message)) => {
            only_bilateral_records_activate(store, s, v.identity, record, true);
        },
        _ => {},
    }
}

/// A responding run activates only the completed record that the initiator
/// returned, and only where both identities have signed it and it names the two
/// ends of the session.
pub proof fn responder_activates_bilateral_records(
    v: ResponderRunView,
    event: EventView,
    store: StoreView,
)
    requires
        v.stepped(event, store).1.active != store.active,
    ensures
        event matches EventView::Message(ReceivedView::Complete(Ok(record))) && (v.stage
            matches ResponderStageView::CompleteRead(s) && bilateral(record, s)),
{
    reveal(ResponderRunView::stepped);
    match (v.stage, event) {
        (ResponderStageView::RequestRead(s), EventView::Message(ReceivedView::Request)) => {
            match v.pending {
                Some(record) => {
                    preparing_never_activates(
                        store,
                        s,
                        v.identity,
                        Err(SyncError::AuthorizationDenied),
                        record,
                    );
                },
                None => {},
            }
        },
        (ResponderStageView::Decision(s), EventView::Decision(decision)) => {
            preparing_never_activates(store, s, v.identity, decision, arbitrary());
        },
        (
            ResponderStageView::CompleteRead(s),
            EventView::Message(ReceivedView::Complete(Ok(record))),
        ) => {
            only_bilateral_records_activate(
                store,
                s,
                v.identity,
                record,
                record.session_binding != s.session_binding,
            );
        },
        _ => {},
    }
}

/// A refusal by the local user ends the run and changes nothing.
pub proof fn denial_changes_nothing(v: ResponderRunView, refusal: SyncError, store: StoreView)
    requires
        v.stage is Decision,
    ensures
        v.stepped(EventView::Decision(Err(refusal)), store).0 is Err,
        v.stepped(EventView::Decision(Err(refusal)), store).1 == store,
{
    reveal(ResponderRunView::stepped);
    reveal(StoreView::prepared);
}

/// The local user is asked only about a peer with which nothing is active or
/// pending, and about the certificate that the peer has proven.
pub proof fn only_strangers_are_put_to_the_user(
    v: ResponderRunView,
    event: EventView,
    store: StoreView,
)
    requires
        v.stepped(event, store).0 is Ok,
        v.stepped(event, store).0->Ok_0.1 is Authorize,
    ensures
        v.active_pair is None,
        v.pending is None,
        v.stage matches ResponderStageView::RequestRead(s) && v.stepped(event, store).0->Ok_0.1
            == ActionView::Authorize(s.peer_certificate),
        v.stepped(event, store).1 == store,
{
    match (v.stage, event) {
        (ResponderStageView::RequestRead(s), EventView::Message(message)) => {
            assert(v.stepped(event, store) == v.requested(s, message, store)) by {
                reveal(ResponderRunView::stepped);
            }
        },
        (ResponderStageView::CompleteRead(s), EventView::Message(message)) => {
            assert(v.stepped(event, store) == v.concluded(s, message, store)) by {
                reveal(ResponderRunView::stepped);
            }
        },
        (ResponderStageView::Decision(s), EventView::Decision(decision)) => {
            let prepared = store.prepared(s, v.identity, decision);
            assert(v.stepped(event, store) == v.offered(s, prepared)) by {
                reveal(ResponderRunView::stepped);
            }
        },
        _ => {
            reveal(ResponderRunView::stepped);
        },
    }
}

// ---------------------------------------------------------------------------
// Two runs.
// ---------------------------------------------------------------------------
/// The session with another transport.
pub open spec fn carried(s: SessionView, transport: TransportView) -> SessionView {
    SessionView { transport, ..s }
}

/// Whether two sessions are at the same point of one conversation, with so many
/// messages left to send and to receive.
#[verifier::opaque]
pub open spec fn in_step(from: SessionView, to: SessionView, sends: int, receives: int) -> bool {
    &&& matched(from.transport, to.transport)
    &&& is_role(from.local_role)
    &&& is_role(to.local_role)
    &&& from.local_role != to.local_role
    &&& from.transport.send_nonce + sends <= u64::MAX
    &&& from.transport.receive_nonce + receives <= u64::MAX
}

/// What the two ends are left with after one message from the first: the
/// sessions differ in their transports alone, and the second end is to speak.
spec fn handed_over(
    from: SessionView,
    to: SessionView,
    sent: SessionView,
    read: SessionView,
    sends: int,
    receives: int,
) -> bool {
    &&& sent == carried(from, sent.transport)
    &&& read == carried(to, read.transport)
    &&& in_step(read, sent, receives, sends - 1)
    &&& in_step(sent, read, sends - 1, receives)
}

/// A message that one end sends over matched transports is what the other
/// receives, and the transports still match.
proof fn message_delivered(
    from: SessionView,
    to: SessionView,
    message: MessageView,
    sends: int,
    receives: int,
)
    requires
        aead_sound(),
        in_step(from, to, sends, receives),
        sends >= 1,
        message_json(message).len() <= 16500,
    ensures
        ({
            let (frame, sent) = message_sealed(from, message);
            let (received, read) = message_opened(to, frame->Ok_0);
            &&& frame is Ok
            &&& received == Ok::<Seq<u8>, SyncError>(message_json(message))
            &&& handed_over(from, to, sent, read, sends, receives)
        }),
{
    reveal(in_step);
    reveal(message_sealed);
    reveal(message_opened);
    runtime_magic_lengths();
    app_round_trip(message);
    let payload = app_encoded(message)->Ok_0;
    let ciphertext = noise_seal(from.transport.send_key, from.transport.send_nonce, payload);
    frame_round_trip(
        FrameView { kind: KIND_TRANSPORT, role: from.local_role, sequence: 0, payload: ciphertext },
        MAX_TRANSPORT_FRAME as int,
    );
}

/// What is checked of a record against a session does not depend on the
/// session's transport.
proof fn record_ignores_transport(
    v: StoreView,
    s: SessionView,
    transport: TransportView,
    secret: Seq<u8>,
    record: RecordView,
    demands: Demands,
)
    ensures
        session_record_error(record, carried(s, transport), secret, v.root, v.now, demands)
            == session_record_error(record, s, secret, v.root, v.now, demands),
{
    let t = carried(s, transport);
    assert(record_names_session(record, t) == record_names_session(record, s));
    assert(record_keys_session(record, t) == record_keys_session(record, s));
}

/// What is prepared for a session does not depend on its transport.
proof fn prepared_ignores_transport(
    v: StoreView,
    s: SessionView,
    transport: TransportView,
    secret: Seq<u8>,
    presence: Seq<char>,
)
    ensures
        v.prepared(carried(s, transport), secret, Ok(presence)) == v.prepared(
            s,
            secret,
            Ok(presence),
        ),
{
    let t = carried(s, transport);
    let record = session_record(s, s.pair_id, presence, secret, v.now);
    assert(session_record(t, t.pair_id, presence, secret, v.now) == record);
    assert(session_encode_error(t) == session_encode_error(s));
    assert(session_identity_error(t, secret) == session_identity_error(s, secret));
    signed_ignores_transport(v, s, transport, secret, record, false);
    reveal(StoreView::prepared);
}

/// What is resumed for a session does not depend on its transport.
proof fn resumed_ignores_transport(
    v: StoreView,
    s: SessionView,
    transport: TransportView,
    secret: Seq<u8>,
    held: RecordView,
)
    ensures
        v.resumed(carried(s, transport), secret, held) == v.resumed(s, secret, held),
{
    let t = carried(s, transport);
    let record = session_record(s, s.pair_id, held.user_presence, secret, held.authorized_at);
    assert(session_record(t, t.pair_id, held.user_presence, secret, held.authorized_at) == record);
    assert(session_encode_error(t) == session_encode_error(s));
    assert(session_identity_error(t, secret) == session_identity_error(s, secret));
    signed_ignores_transport(v, s, transport, secret, record, false);
    reveal(StoreView::resumed);
}

/// How a record is signed in a session does not depend on its transport.
proof fn signed_ignores_transport(
    v: StoreView,
    s: SessionView,
    transport: TransportView,
    secret: Seq<u8>,
    record: RecordView,
    complete: bool,
)
    ensures
        v.signed_and_written(record, carried(s, transport), secret, complete)
            == v.signed_and_written(record, s, secret, complete),
{
    let role = if s.local_role == ROLE_INITIATOR {
        ROLE_INITIATOR
    } else {
        ROLE_RESPONDER
    };
    let signed = record.with_signature(role, ed25519_sign(secret, record_message(record, role)));
    record_ignores_transport(
        v,
        s,
        transport,
        secret,
        signed,
        Demands { complete, bound: true, at_authorization: false },
    );
}

/// What is co-signed for a session does not depend on its transport.
proof fn co_signed_ignores_transport(
    v: StoreView,
    s: SessionView,
    transport: TransportView,
    secret: Seq<u8>,
    record: RecordView,
)
    ensures
        v.co_signed(carried(s, transport), secret, record) == v.co_signed(s, secret, record),
{
    assert(session_identity_error(carried(s, transport), secret) == session_identity_error(
        s,
        secret,
    ));
    record_ignores_transport(
        v,
        s,
        transport,
        secret,
        record,
        Demands { complete: false, bound: true, at_authorization: false },
    );
    signed_ignores_transport(v, s, transport, secret, record, true);
    reveal(StoreView::co_signed);
}

/// What is accepted in a session does not depend on its transport.
proof fn accepted_ignores_transport(
    v: StoreView,
    s: SessionView,
    transport: TransportView,
    secret: Seq<u8>,
    record: RecordView,
    reconciling: bool,
)
    ensures
        v.accepted(carried(s, transport), secret, record, reconciling) == v.accepted(
            s,
            secret,
            record,
            reconciling,
        ),
{
    assert(session_identity_error(carried(s, transport), secret) == session_identity_error(
        s,
        secret,
    ));
    record_ignores_transport(
        v,
        s,
        transport,
        secret,
        record,
        Demands { complete: true, bound: !reconciling, at_authorization: reconciling },
    );
    reveal(StoreView::accepted);
}

/// Noise draws an ephemeral key only where an initiating run answers the
/// handshake; every other step is the same whatever is drawn.
pub proof fn only_the_handshake_draws(
    i: InitiatorRunView,
    event: EventView,
    store: StoreView,
    e: Seq<u8>,
    other: Seq<u8>,
)
    requires
        !(i.stage is Handshake),
    ensures
        i.stepped(event, store, e) == i.stepped(event, store, other),
{
    reveal(InitiatorRunView::stepped);
}

/// The run after a step that succeeded.
pub open spec fn run_of<R>(step: (Result<(R, ActionView), SyncError>, StoreView)) -> R {
    step.0->Ok_0.0
}

/// What a step that succeeded asks for.
pub open spec fn action_of<R>(step: (Result<(R, ActionView), SyncError>, StoreView)) -> ActionView {
    step.0->Ok_0.1
}

/// The one frame that a step writes.
pub open spec fn frame_of<R>(step: (Result<(R, ActionView), SyncError>, StoreView)) -> Seq<u8> {
    match action_of(step) {
        ActionView::Exchange(frames) => frames[0],
        ActionView::Finish(frames) => frames[0],
        _ => Seq::empty(),
    }
}

/// Whether two runs have just authenticated each other, `signature` being the
/// initiator's last word, in sessions over which they can pair with an approval
/// of time `at` on the responding side; the initiator has nothing pending.
pub open spec fn acquainted(
    i: InitiatorRunView,
    r: ResponderRunView,
    signature: Seq<u8>,
    i_store: StoreView,
    r_store: StoreView,
    presence: Seq<char>,
    at: u64,
) -> bool {
    &&& i.stage matches InitiatorStageView::Ack(initiator)
    &&& r.stage matches ResponderStageView::Signature(responder)
    &&& responder.after_signature(signature).0 matches Ok((ack, sr))
    &&& initiator.after_ack(ack).0 matches Ok(si)
    &&& r.active_pair is None
    &&& i_store.pending_between(
        device_id_of(ed25519_public(i.identity)),
        si.peer_device_id,
    ) == Ok::<Option<RecordView>, SyncError>(None)
    &&& si.local_role == ROLE_INITIATOR
    &&& in_step(si, sr, 2, 2)
    &&& can_pair(r_store, i_store, sr, si, r.identity, i.identity, presence, at)
}

/// The record that an initiator completes for a stranger is the co-signed one.
proof fn stranger_is_co_signed(
    s: SessionView,
    secret: Seq<u8>,
    store: StoreView,
    record: RecordView,
)
    requires
        store.pending_between(device_id_of(ed25519_public(secret)), s.peer_device_id) == Ok::<
            Option<RecordView>,
            SyncError,
        >(None),
        s.local_role == ROLE_INITIATOR,
        session_identity_error(s, secret) is None,
        s.local_device_id == s.local_certificate.device_id,
        s.local_certificate.device_id != s.peer_certificate.device_id,
        record_names_session(record, s),
        record.signature(ROLE_INITIATOR) is None,
    ensures
        completed(s, secret, store, record) == store.co_signed(s, secret, record),
{
    reveal(completed);
}

/// The initiator's request reaches the responder.
proof fn request_is_sent(
    i: InitiatorRunView,
    r: ResponderRunView,
    ack: Seq<u8>,
    signature: Seq<u8>,
    i_store: StoreView,
    r_store: StoreView,
    si: SessionView,
    sr: SessionView,
)
    requires
        aead_sound(),
        in_step(si, sr, 2, 2),
        i.stage matches InitiatorStageView::Ack(initiator) && initiator.after_ack(ack).0 == Ok::<
            SessionView,
            SyncError,
        >(si),
        r.stage matches ResponderStageView::Signature(responder) && responder.after_signature(
            signature,
        ).0 == Ok::<(Seq<u8>, SessionView), SyncError>((ack, sr)),
    ensures
        ({
            let (frame, si1) = message_sealed(si, MessageView::Request);
            let sr1 = message_opened(sr, frame->Ok_0).1;
            let r1 = r.stepped(EventView::Frame(signature), r_store);
            let i1 = i.stepped(EventView::Frame(frame_of(r1)), i_store, Seq::empty());
            &&& handed_over(si, sr, si1, sr1, 2, 2)
            &&& r1.0 is Ok
            &&& r1.1 == r_store
            &&& i1 == (
                Ok::<(InitiatorRunView, ActionView), SyncError>(
                    (
                        i.at(InitiatorStageView::Response(si1)),
                        ActionView::Exchange(seq![frame->Ok_0]),
                    ),
                ),
                i_store,
            )
            &&& frame_of(i1) == frame->Ok_0
            &&& run_of(r1).stepped(EventView::Frame(frame->Ok_0), r_store) == (
                Ok::<(ResponderRunView, ActionView), SyncError>(
                    (
                        r.at(ResponderStageView::RequestRead(sr1)),
                        ActionView::Parse(message_json(MessageView::Request)),
                    ),
                ),
                r_store,
            )
        }),
{
    reveal(InitiatorRunView::stepped);
    reveal(ResponderRunView::stepped);
    stored_records_fit(MessageView::Request);
    message_delivered(si, sr, MessageView::Request, 2, 2);
    let r1 = r.stepped(EventView::Frame(signature), r_store);
    assert(frame_of(r1) == ack);
    assert(run_of(r1) == r.at(ResponderStageView::Request(sr)));
    assert(run_of(r1).at(
        ResponderStageView::RequestRead(
            message_opened(sr, message_sealed(si, MessageView::Request).0->Ok_0).1,
        ),
    ) == r.at(
        ResponderStageView::RequestRead(
            message_opened(sr, message_sealed(si, MessageView::Request).0->Ok_0).1,
        ),
    ));
}

/// A prepared record reaches the initiator.
proof fn offer_is_sent(
    i: InitiatorRunView,
    r: ResponderRunView,
    i_store: StoreView,
    si: SessionView,
    sr: SessionView,
    prepared: (Result<RecordView, SyncError>, StoreView),
)
    requires
        aead_sound(),
        in_step(sr, si, 2, 1),
        i.stage == InitiatorStageView::Response(si),
        prepared.0 is Ok,
        storable(prepared.0->Ok_0),
    ensures
        ({
            let message = MessageView::Prepared(record_json(prepared.0->Ok_0));
            let (frame, sr1) = message_sealed(sr, message);
            let si1 = message_opened(si, frame->Ok_0).1;
            &&& handed_over(sr, si, sr1, si1, 2, 1)
            &&& r.offered(sr, prepared) == (
                Ok::<(ResponderRunView, ActionView), SyncError>(
                    (
                        r.at(ResponderStageView::Complete(sr1)),
                        ActionView::Exchange(seq![frame->Ok_0]),
                    ),
                ),
                prepared.1,
            )
            &&& i.stepped(EventView::Frame(frame->Ok_0), i_store, Seq::empty()) == (
                Ok::<(InitiatorRunView, ActionView), SyncError>(
                    (
                        i.at(InitiatorStageView::ResponseRead(si1)),
                        ActionView::Parse(message_json(message)),
                    ),
                ),
                i_store,
            )
        }),
{
    reveal(InitiatorRunView::stepped);
    let message = MessageView::Prepared(record_json(prepared.0->Ok_0));
    stored_records_fit(message);
    message_delivered(sr, si, message, 2, 1);
}

/// The record that the initiator completes reaches the responder.
proof fn complete_is_sent(
    i: InitiatorRunView,
    r: ResponderRunView,
    i_store: StoreView,
    r_store: StoreView,
    si: SessionView,
    sr: SessionView,
    half: RecordView,
    whole: (Result<RecordView, SyncError>, StoreView),
)
    requires
        aead_sound(),
        in_step(si, sr, 1, 1),
        i.stage == InitiatorStageView::ResponseRead(si),
        r.stage == ResponderStageView::Complete(sr),
        whole == completed(si, i.identity, i_store, half),
        whole.0 is Ok,
        storable(whole.0->Ok_0),
    ensures
        ({
            let full = whole.0->Ok_0;
            let message = MessageView::Complete(record_json(full));
            let (frame, si1) = message_sealed(si, message);
            let sr1 = message_opened(sr, frame->Ok_0).1;
            &&& handed_over(si, sr, si1, sr1, 1, 1)
            &&& i.stepped(
                EventView::Message(ReceivedView::Prepared(Ok(half))),
                i_store,
                Seq::empty(),
            ) == (
                Ok::<(InitiatorRunView, ActionView), SyncError>(
                    (
                        i.at(InitiatorStageView::Finalized(si1, full)),
                        ActionView::Exchange(seq![frame->Ok_0]),
                    ),
                ),
                whole.1,
            )
            &&& r.stepped(EventView::Frame(frame->Ok_0), r_store) == (
                Ok::<(ResponderRunView, ActionView), SyncError>(
                    (
                        r.at(ResponderStageView::CompleteRead(sr1)),
                        ActionView::Parse(message_json(message)),
                    ),
                ),
                r_store,
            )
        }),
{
    reveal(InitiatorRunView::stepped);
    reveal(ResponderRunView::stepped);
    let message = MessageView::Complete(record_json(whole.0->Ok_0));
    stored_records_fit(message);
    message_delivered(si, sr, message, 1, 1);
}

/// The responder activates the record and says so, and the initiator activates
/// it too.
proof fn finalized_is_sent(
    i: InitiatorRunView,
    r: ResponderRunView,
    i_store: StoreView,
    r_store: StoreView,
    si: SessionView,
    sr: SessionView,
    full: RecordView,
)
    requires
        aead_sound(),
        in_step(sr, si, 1, 0),
        i.stage == InitiatorStageView::Finalized(si, full),
        r.stage == ResponderStageView::CompleteRead(sr),
        full.complete(),
        r_store.accepted(sr, r.identity, full, full.session_binding != sr.session_binding).0 is Ok,
        i_store.accepted(si, i.identity, full, true).0 is Ok,
    ensures
        ({
            let (frame, sr1) = message_sealed(sr, MessageView::Finalized);
            let si1 = message_opened(si, frame->Ok_0).1;
            let told = i.at(InitiatorStageView::FinalizedRead(si1, full));
            &&& r.stepped(EventView::Message(ReceivedView::Complete(Ok(full))), r_store) == (
                Ok::<(ResponderRunView, ActionView), SyncError>(
                    (r.at(ResponderStageView::Done), ActionView::Finish(seq![frame->Ok_0])),
                ),
                r_store.accepted(
                    sr,
                    r.identity,
                    full,
                    full.session_binding != sr.session_binding,
                ).1,
            )
            &&& i.stepped(EventView::Frame(frame->Ok_0), i_store, Seq::empty()) == (
                Ok::<(InitiatorRunView, ActionView), SyncError>(
                    (told, ActionView::Parse(message_json(MessageView::Finalized))),
                ),
                i_store,
            )
            &&& told.stepped(
                EventView::Message(ReceivedView::Finalized),
                i_store,
                Seq::empty(),
            ) == (
                Ok::<(InitiatorRunView, ActionView), SyncError>(
                    (i.at(InitiatorStageView::Done), ActionView::Finish(Seq::empty())),
                ),
                i_store.accepted(si, i.identity, full, true).1,
            )
        }),
{
    reveal(InitiatorRunView::stepped);
    reveal(ResponderRunView::stepped);
    stored_records_fit(MessageView::Finalized);
    message_delivered(sr, si, MessageView::Finalized, 1, 0);
    let si1 = message_opened(si, message_sealed(sr, MessageView::Finalized).0->Ok_0).1;
    accepted_ignores_transport(i_store, si, si1.transport, i.identity, full, true);
}

/// What two ends that can pair know of each other, and that it does not depend
/// on their transports.
proof fn pairing_ignores_transport(
    a: StoreView,
    b: StoreView,
    s: SessionView,
    t: SessionView,
    a_secret: Seq<u8>,
    b_secret: Seq<u8>,
    presence: Seq<char>,
    at: u64,
    s_transport: TransportView,
    t_transport: TransportView,
)
    requires
        can_pair(a, b, s, t, a_secret, b_secret, presence, at),
    ensures
        can_pair(
            a,
            b,
            carried(s, s_transport),
            carried(t, t_transport),
            a_secret,
            b_secret,
            presence,
            at,
        ),
        sessions_match(s, t),
        session_identity_error(s, a_secret) is None,
        session_identity_error(t, b_secret) is None,
{
    reveal(can_pair);
    let s1 = carried(s, s_transport);
    let t1 = carried(t, t_transport);
    assert(session_record(s1, s1.pair_id, presence, a_secret, at) == session_record(
        s,
        s.pair_id,
        presence,
        a_secret,
        at,
    ));
    assert(session_identity_error(s1, a_secret) == session_identity_error(s, a_secret));
    assert(session_identity_error(t1, b_secret) == session_identity_error(t, b_secret));
}

/// From the offer of a prepared record on, two runs lead to the same active
/// record on both sides, and leave nothing pending between the two devices.
#[verifier::opaque]
pub open spec fn offer_leads_to(
    i: InitiatorRunView,
    offer: (Result<(ResponderRunView, ActionView), SyncError>, StoreView),
    i_store: StoreView,
    half: RecordView,
    full: RecordView,
) -> bool {
    let none = Seq::<u8>::empty();
    let i1 = i.stepped(EventView::Frame(frame_of(offer)), i_store, none);
    // The completed record.
    let i2 = run_of(i1).stepped(
        EventView::Message(ReceivedView::Prepared(Ok(half))),
        i1.1,
        none,
    );
    let r1 = run_of(offer).stepped(EventView::Frame(frame_of(i2)), offer.1);
    let r2 = run_of(r1).stepped(EventView::Message(ReceivedView::Complete(Ok(full))), r1.1);
    // The final acknowledgement.
    let i3 = run_of(i2).stepped(EventView::Frame(frame_of(r2)), i2.1, none);
    let i4 = run_of(i3).stepped(EventView::Message(ReceivedView::Finalized), i3.1, none);
    &&& offer.0 is Ok
    &&& action_of(offer) is Exchange
    &&& i1.0 is Ok
    &&& i1.1 == i_store
    &&& action_of(i1) == ActionView::Parse(message_json(MessageView::Prepared(record_json(half))))
    &&& i2.0 is Ok
    &&& r1.0 is Ok
    &&& r1.1 == offer.1
    &&& action_of(r1) == ActionView::Parse(message_json(MessageView::Complete(record_json(full))))
    &&& r2.0 is Ok
    &&& run_of(r2).stage is Done
    &&& i3.0 is Ok
    &&& i3.1 == i2.1
    &&& action_of(i3) == ActionView::Parse(message_json(MessageView::Finalized))
    &&& i4.0 is Ok
    &&& run_of(i4).stage is Done
    &&& full.complete()
    &&& i4.1.loaded(full.pair_id) == Ok::<Option<RecordView>, SyncError>(Some(full))
    &&& r2.1.loaded(full.pair_id) == Ok::<Option<RecordView>, SyncError>(Some(full))
    &&& nothing_pending(i4.1.pending, full)
    &&& nothing_pending(r2.1.pending, full)
}

/// The stores that two runs leave from the offer of a prepared record on: the
/// initiator's when it has completed the record, the responder's when it has
/// taken it, and the initiator's when it has taken it too.
#[verifier::opaque]
pub open spec fn stores_after_offer(
    i: InitiatorRunView,
    offer: (Result<(ResponderRunView, ActionView), SyncError>, StoreView),
    i_store: StoreView,
    half: RecordView,
    full: RecordView,
) -> (StoreView, StoreView, StoreView) {
    let none = Seq::<u8>::empty();
    let i1 = i.stepped(EventView::Frame(frame_of(offer)), i_store, none);
    let i2 = run_of(i1).stepped(
        EventView::Message(ReceivedView::Prepared(Ok(half))),
        i1.1,
        none,
    );
    let r1 = run_of(offer).stepped(EventView::Frame(frame_of(i2)), offer.1);
    let r2 = run_of(r1).stepped(EventView::Message(ReceivedView::Complete(Ok(full))), r1.1);
    let i3 = run_of(i2).stepped(EventView::Frame(frame_of(r2)), i2.1, none);
    let i4 = run_of(i3).stepped(EventView::Message(ReceivedView::Finalized), i3.1, none);
    (i2.1, r2.1, i4.1)
}

/// An offered record leads to the record that the initiator completes, where
/// both sides accept that.
proof fn offer_is_completed(
    i: InitiatorRunView,
    r: ResponderRunView,
    i_store: StoreView,
    si: SessionView,
    sr: SessionView,
    prepared: (Result<RecordView, SyncError>, StoreView),
    whole: (Result<RecordView, SyncError>, StoreView),
)
    requires
        aead_sound(),
        in_step(sr, si, 2, 1),
        i.stage == InitiatorStageView::Response(si),
        prepared.0 is Ok,
        storable(prepared.0->Ok_0),
        whole.0 is Ok,
        storable(whole.0->Ok_0),
        whole.0->Ok_0.complete(),
        forall|transport: TransportView|
            #[trigger] completed(
                carried(si, transport),
                i.identity,
                i_store,
                prepared.0->Ok_0,
            ) == whole,
        ({
            let full = whole.0->Ok_0;
            let reconciles = full.session_binding != sr.session_binding;
            let (first, r_after) = prepared.1.accepted(sr, r.identity, full, reconciles);
            let (second, i_after) = whole.1.accepted(si, i.identity, full, true);
            &&& first is Ok
            &&& second is Ok
            &&& r_after.loaded(full.pair_id) == Ok::<Option<RecordView>, SyncError>(Some(full))
            &&& i_after.loaded(full.pair_id) == Ok::<Option<RecordView>, SyncError>(Some(full))
        }),
    ensures
        offer_leads_to(
            i,
            r.offered(sr, prepared),
            i_store,
            prepared.0->Ok_0,
            whole.0->Ok_0,
        ),
        stores_after_offer(
            i,
            r.offered(sr, prepared),
            i_store,
            prepared.0->Ok_0,
            whole.0->Ok_0,
        ) == (
            whole.1,
            prepared.1.accepted(
                sr,
                r.identity,
                whole.0->Ok_0,
                whole.0->Ok_0.session_binding != sr.session_binding,
            ).1,
            whole.1.accepted(si, i.identity, whole.0->Ok_0, true).1,
        ),
{
    reveal(offer_leads_to);
    reveal(stores_after_offer);
    let half = prepared.0->Ok_0;
    let full = whole.0->Ok_0;
    offer_is_sent(i, r, i_store, si, sr, prepared);
    let m2 = MessageView::Prepared(record_json(half));
    let (f2, sr1) = message_sealed(sr, m2);
    let si1 = message_opened(si, f2->Ok_0).1;
    let i1 = i.at(InitiatorStageView::ResponseRead(si1));
    let r1 = r.at(ResponderStageView::Complete(sr1));
    complete_is_sent(i1, r1, i_store, prepared.1, si1, sr1, half, whole);
    let m3 = MessageView::Complete(record_json(full));
    let (f3, si2) = message_sealed(si1, m3);
    let sr2 = message_opened(sr1, f3->Ok_0).1;
    let i2 = i1.at(InitiatorStageView::Finalized(si2, full));
    let r2 = r1.at(ResponderStageView::CompleteRead(sr2));
    let reconciles = full.session_binding != sr.session_binding;
    accepted_ignores_transport(prepared.1, sr, sr2.transport, r.identity, full, reconciles);
    accepted_ignores_transport(whole.1, si, si2.transport, i.identity, full, true);
    accepted_leaves_nothing_pending(prepared.1, sr, r.identity, full, reconciles);
    accepted_leaves_nothing_pending(whole.1, si, i.identity, full, true);
    finalized_is_sent(i2, r2, whole.1, prepared.1, si2, sr2, full);
}

/// What a stranger's initiator completes does not depend on the transport.
proof fn stranger_is_completed(
    i: InitiatorRunView,
    i_store: StoreView,
    si: SessionView,
    half: RecordView,
)
    requires
        i_store.pending_between(
            device_id_of(ed25519_public(i.identity)),
            si.peer_device_id,
        ) == Ok::<Option<RecordView>, SyncError>(None),
        si.local_role == ROLE_INITIATOR,
        session_identity_error(si, i.identity) is None,
        si.local_device_id == si.local_certificate.device_id,
        si.local_certificate.device_id != si.peer_certificate.device_id,
        record_names_session(half, si),
        half.signature(ROLE_INITIATOR) is None,
    ensures
        forall|transport: TransportView|
            #[trigger] completed(carried(si, transport), i.identity, i_store, half)
                == i_store.co_signed(si, i.identity, half),
{
    assert forall|transport: TransportView|
        #[trigger] completed(carried(si, transport), i.identity, i_store, half)
            == i_store.co_signed(si, i.identity, half) by {
        let s = carried(si, transport);
        assert(session_identity_error(s, i.identity) == session_identity_error(si, i.identity));
        assert(record_names_session(half, s));
        stranger_is_co_signed(s, i.identity, i_store, half);
        co_signed_ignores_transport(i_store, si, transport, i.identity, half);
    }
}

/// A request from a stranger is put to the local user.
proof fn stranger_is_asked_about(r: ResponderRunView, s: SessionView, store: StoreView)
    requires
        r.stage == ResponderStageView::RequestRead(s),
        r.active_pair is None,
        r.pending is None,
        session_identity_error(s, r.identity) is None,
    ensures
        r.stepped(EventView::Message(ReceivedView::Request), store) == (
            Ok::<(ResponderRunView, ActionView), SyncError>(
                (
                    r.at(ResponderStageView::Decision(s)),
                    ActionView::Authorize(s.peer_certificate),
                ),
            ),
            store,
        ),
{
    reveal(ResponderRunView::stepped);
}

/// What an approval prepares is offered.
proof fn approval_is_offered(
    r: ResponderRunView,
    s: SessionView,
    store: StoreView,
    presence: Seq<char>,
)
    requires
        r.stage == ResponderStageView::Decision(s),
    ensures
        r.stepped(EventView::Decision(Ok(presence)), store) == r.offered(
            s,
            store.prepared(s, r.identity, Ok(presence)),
        ),
{
    reveal(ResponderRunView::stepped);
}

/// What is pending is offered without asking, to a peer that reconnects as it
/// is, to any other rebound to the session.
proof fn pending_is_offered(
    r: ResponderRunView,
    s: SessionView,
    store: StoreView,
    held: RecordView,
)
    requires
        r.stage == ResponderStageView::RequestRead(s),
        r.active_pair is None,
        r.pending == Some(held),
    ensures
        r.stepped(EventView::Message(ReceivedView::Request), store) == r.offered(
            s,
            if r.reconnect_start {
                (Ok(held), store)
            } else {
                store.resumed(s, r.identity, held)
            },
        ),
{
    reveal(ResponderRunView::stepped);
}

/// Two strangers that have just authenticated each other, step by step: the
/// initiator asks, the responder puts the initiator to its user, and on approval
/// prepares a record; the initiator co-signs it; the responder activates it and
/// says so; the initiator activates it. Both ends finish, and load the same
/// record under the PairID of the session.
pub proof fn strangers_are_paired(
    i: InitiatorRunView,
    r: ResponderRunView,
    signature: Seq<u8>,
    i_store: StoreView,
    r_store: StoreView,
    presence: Seq<char>,
)
    requires
        aead_sound(),
        acquainted(i, r, signature, i_store, r_store, presence, r_store.now),
        r.pending is None,
    ensures
        ({
            let (ack, sr) = r.stage->Signature_0.after_signature(signature).0->Ok_0;
            let si = i.stage->Ack_0.after_ack(ack).0->Ok_0;
            let half = r_store.prepared(sr, r.identity, Ok(presence)).0->Ok_0;
            let full = i_store.co_signed(si, i.identity, half).0->Ok_0;
            let r1 = r.stepped(EventView::Frame(signature), r_store);
            let i1 = i.stepped(EventView::Frame(frame_of(r1)), i_store, Seq::empty());
            let r2 = run_of(r1).stepped(EventView::Frame(frame_of(i1)), r1.1);
            let r3 = run_of(r2).stepped(EventView::Message(ReceivedView::Request), r2.1);
            let offer = run_of(r3).stepped(EventView::Decision(Ok(presence)), r3.1);
            &&& r1.0 is Ok
            &&& i1.0 is Ok
            &&& r2.0 is Ok
            &&& action_of(r2) == ActionView::Parse(message_json(MessageView::Request))
            &&& r3.0 is Ok
            &&& action_of(r3) == ActionView::Authorize(si.local_certificate)
            &&& offer_leads_to(run_of(i1), offer, i1.1, half, full)
            &&& full.pair_id == si.pair_id
            &&& full.user_presence == presence
            &&& r1.1 == r_store
            &&& i1.1 == i_store
            &&& r2.1 == r_store
            &&& r3.1 == r_store
            &&& offer.1 == r_store.prepared(sr, r.identity, Ok(presence)).1
            &&& stores_after_offer(run_of(i1), offer, i1.1, half, full) == (
                i_store.co_signed(si, i.identity, half).1,
                offer.1.accepted(sr, r.identity, full, false).1,
                i_store.co_signed(si, i.identity, half).1.accepted(
                    si,
                    i.identity,
                    full,
                    true,
                ).1,
            )
        }),
{
    let (ack, sr) = r.stage->Signature_0.after_signature(signature).0->Ok_0;
    let si = i.stage->Ack_0.after_ack(ack).0->Ok_0;
    request_is_sent(i, r, ack, signature, i_store, r_store, si, sr);
    let (f1, si1) = message_sealed(si, MessageView::Request);
    let sr1 = message_opened(sr, f1->Ok_0).1;
    let i1 = i.at(InitiatorStageView::Response(si1));
    let r2 = r.at(ResponderStageView::RequestRead(sr1));
    let r3 = r2.at(ResponderStageView::Decision(sr1));
    pairing_ignores_transport(
        r_store,
        i_store,
        sr,
        si,
        r.identity,
        i.identity,
        presence,
        r_store.now,
        sr1.transport,
        si1.transport,
    );
    prepared_ignores_transport(r_store, sr, sr1.transport, r.identity, presence);
    bilateral_pairing_completes(
        r_store,
        i_store,
        sr1,
        si1,
        r.identity,
        i.identity,
        presence,
        false,
        true,
    );
    let prepared = r_store.prepared(sr1, r.identity, Ok(presence));
    let half = prepared.0->Ok_0;
    co_signed_ignores_transport(i_store, si, si1.transport, i.identity, half);
    assert(session_identity_error(si1, i.identity) == session_identity_error(si, i.identity));
    assert(session_identity_error(sr1, r.identity) == session_identity_error(sr, r.identity));
    stranger_is_completed(i1, i_store, si1, half);
    offer_is_completed(
        i1,
        r3,
        i_store,
        si1,
        sr1,
        prepared,
        i_store.co_signed(si1, i.identity, half),
    );
    stranger_is_asked_about(r2, sr1, r_store);
    approval_is_offered(r3, sr1, r_store, presence);
    let (whole, i_after) = i_store.co_signed(si, i.identity, half);
    accepted_ignores_transport(prepared.1, sr, sr1.transport, r.identity, whole->Ok_0, false);
    accepted_ignores_transport(i_after, si, si1.transport, i.identity, whole->Ok_0, true);
}

/// A responder that has prepared a record for a peer, and lost the connection
/// then, needs no second approval when the peer comes again as a stranger: the
/// pending approval is rebound to the new session, and both ends finish with
/// the same active record.
pub proof fn interrupted_pairing_resumes(
    i: InitiatorRunView,
    r: ResponderRunView,
    signature: Seq<u8>,
    i_store: StoreView,
    r_store: StoreView,
    held: RecordView,
)
    requires
        aead_sound(),
        acquainted(
            i,
            r,
            signature,
            i_store,
            r_store,
            held.user_presence,
            held.authorized_at,
        ),
        r.pending == Some(held),
        !r.reconnect_start,
        pending_error(held, r_store.root) is None,
        held.authorizing_device_id == device_id_of(ed25519_public(r.identity)),
    ensures
        ({
            let (ack, sr) = r.stage->Signature_0.after_signature(signature).0->Ok_0;
            let si = i.stage->Ack_0.after_ack(ack).0->Ok_0;
            let half = r_store.resumed(sr, r.identity, held).0->Ok_0;
            let full = i_store.co_signed(si, i.identity, half).0->Ok_0;
            let r1 = r.stepped(EventView::Frame(signature), r_store);
            let i1 = i.stepped(EventView::Frame(frame_of(r1)), i_store, Seq::empty());
            let r2 = run_of(r1).stepped(EventView::Frame(frame_of(i1)), r1.1);
            let offer = run_of(r2).stepped(EventView::Message(ReceivedView::Request), r2.1);
            &&& r1.0 is Ok
            &&& i1.0 is Ok
            &&& r2.0 is Ok
            &&& action_of(r2) == ActionView::Parse(message_json(MessageView::Request))
            &&& offer_leads_to(run_of(i1), offer, i1.1, half, full)
            &&& full.pair_id == si.pair_id
            &&& full.user_presence == held.user_presence
            &&& r1.1 == r_store
            &&& i1.1 == i_store
            &&& r2.1 == r_store
            &&& offer.1 == r_store.resumed(sr, r.identity, held).1
            &&& stores_after_offer(run_of(i1), offer, i1.1, half, full) == (
                i_store.co_signed(si, i.identity, half).1,
                offer.1.accepted(sr, r.identity, full, false).1,
                i_store.co_signed(si, i.identity, half).1.accepted(
                    si,
                    i.identity,
                    full,
                    true,
                ).1,
            )
        }),
{
    let (ack, sr) = r.stage->Signature_0.after_signature(signature).0->Ok_0;
    let si = i.stage->Ack_0.after_ack(ack).0->Ok_0;
    request_is_sent(i, r, ack, signature, i_store, r_store, si, sr);
    let (f1, si1) = message_sealed(si, MessageView::Request);
    let sr1 = message_opened(sr, f1->Ok_0).1;
    let i1 = i.at(InitiatorStageView::Response(si1));
    let r2 = r.at(ResponderStageView::RequestRead(sr1));
    pairing_ignores_transport(
        r_store,
        i_store,
        sr,
        si,
        r.identity,
        i.identity,
        held.user_presence,
        held.authorized_at,
        sr1.transport,
        si1.transport,
    );
    resumed_ignores_transport(r_store, sr, sr1.transport, r.identity, held);
    resumed_pairing_completes(
        r_store,
        i_store,
        sr1,
        si1,
        r.identity,
        i.identity,
        held,
        false,
        true,
    );
    let prepared = r_store.resumed(sr1, r.identity, held);
    let half = prepared.0->Ok_0;
    co_signed_ignores_transport(i_store, si, si1.transport, i.identity, half);
    assert(session_identity_error(si1, i.identity) == session_identity_error(si, i.identity));
    stranger_is_completed(i1, i_store, si1, half);
    offer_is_completed(
        i1,
        r2,
        i_store,
        si1,
        sr1,
        prepared,
        i_store.co_signed(si1, i.identity, half),
    );
    pending_is_offered(r2, sr1, r_store, held);
    let (whole, i_after) = i_store.co_signed(si, i.identity, half);
    accepted_ignores_transport(prepared.1, sr, sr1.transport, r.identity, whole->Ok_0, false);
    accepted_ignores_transport(i_after, si, si1.transport, i.identity, whole->Ok_0, true);
}

/// An initiator that has co-signed a record, and lost the connection then, meets
/// the responder again: both have the pairing pending, the responder offers its
/// copy, the initiator answers with the complete one, and both ends finish with
/// that record active. Nobody is asked.
pub proof fn interrupted_completion_recovers(
    i: InitiatorRunView,
    r: ResponderRunView,
    ack: Seq<u8>,
    signature: Seq<u8>,
    si: SessionView,
    sr: SessionView,
    i_store: StoreView,
    r_store: StoreView,
    half: RecordView,
    full: RecordView,
)
    requires
        aead_sound(),
        i.stage matches InitiatorStageView::Ack(initiator) && initiator.after_ack(ack).0 == Ok::<
            SessionView,
            SyncError,
        >(si),
        r.stage matches ResponderStageView::Signature(responder) && responder.after_signature(
            signature,
        ).0 == Ok::<(Seq<u8>, SessionView), SyncError>((ack, sr)),
        in_step(si, sr, 2, 2),
        r.active_pair is None,
        r.reconnect_start,
        r.pending == Some(half),
        storable(half),
        i_store.pending_between(
            device_id_of(ed25519_public(i.identity)),
            si.peer_device_id,
        ) == Ok::<Option<RecordView>, SyncError>(Some(full)),
        full.complete(),
        full.pair_id == half.pair_id,
        full.session_binding != sr.session_binding,
        can_reconcile(i_store, si, i.identity, full),
        can_reconcile(r_store, sr, r.identity, full),
    ensures
        ({
            let r1 = r.stepped(EventView::Frame(signature), r_store);
            let i1 = i.stepped(EventView::Frame(frame_of(r1)), i_store, Seq::empty());
            let r2 = run_of(r1).stepped(EventView::Frame(frame_of(i1)), r1.1);
            let offer = run_of(r2).stepped(EventView::Message(ReceivedView::Request), r2.1);
            &&& r1.0 is Ok
            &&& i1.0 is Ok
            &&& r2.0 is Ok
            &&& action_of(r2) == ActionView::Parse(message_json(MessageView::Request))
            &&& offer_leads_to(run_of(i1), offer, i1.1, half, full)
            &&& r1.1 == r_store
            &&& i1.1 == i_store
            &&& r2.1 == r_store
            &&& offer.1 == r_store
            &&& stores_after_offer(run_of(i1), offer, i1.1, half, full) == (
                i_store,
                r_store.accepted(sr, r.identity, full, true).1,
                i_store.accepted(si, i.identity, full, true).1,
            )
        }),
{
    request_is_sent(i, r, ack, signature, i_store, r_store, si, sr);
    let (f1, si1) = message_sealed(si, MessageView::Request);
    let sr1 = message_opened(sr, f1->Ok_0).1;
    let i1 = i.at(InitiatorStageView::Response(si1));
    let r2 = r.at(ResponderStageView::RequestRead(sr1));
    let prepared = (Ok::<RecordView, SyncError>(half), r_store);
    let whole = (Ok::<RecordView, SyncError>(full), i_store);
    assert(storable(full)) by {
        reveal(can_reconcile);
    }
    complete_records_reconcile(i_store, si, i.identity, full);
    complete_records_reconcile(r_store, sr, r.identity, full);
    accepted_ignores_transport(i_store, si, si1.transport, i.identity, full, true);
    accepted_ignores_transport(r_store, sr, sr1.transport, r.identity, full, true);
    assert forall|transport: TransportView|
        #[trigger] completed(carried(si1, transport), i.identity, i_store, half) == whole by {
        reveal(completed);
    }
    offer_is_completed(i1, r2, i_store, si1, sr1, prepared, whole);
    pending_is_offered(r2, sr1, r_store, half);
}

/// What an initiator does with the acknowledgement and with the answer that it
/// gets, step by step.
proof fn reconnecting_initiator_steps(
    i: InitiatorRunView,
    s: SessionView,
    record: RecordView,
    frame: Seq<u8>,
    store: StoreView,
)
    requires
        i.reconnect,
    ensures
        ({
            let none = Seq::<u8>::empty();
            let (opened, after) = message_opened(s, frame);
            let asked = i.at(InitiatorStageView::Response(s));
            let answered = i.at(InitiatorStageView::ResponseRead(s));
            let waiting = i.at(InitiatorStageView::Finalized(s, record));
            let told = i.at(InitiatorStageView::FinalizedRead(s, record));
            &&& asked.stepped(EventView::Frame(frame), store, none) == (
                asked.received(opened, InitiatorStageView::ResponseRead(after)),
                store,
            )
            &&& answered.stepped(
                EventView::Message(ReceivedView::Complete(Ok(record))),
                store,
                none,
            ) == (
                Ok::<(InitiatorRunView, ActionView), SyncError>(
                    (waiting, ActionView::Exchange(Seq::empty())),
                ),
                store,
            )
            &&& waiting.stepped(EventView::Frame(frame), store, none) == (
                waiting.received(opened, InitiatorStageView::FinalizedRead(after, record)),
                store,
            )
            &&& told.stepped(EventView::Message(ReceivedView::Finalized), store, none)
                == told.concluded(s, record, ReceivedView::Finalized, store)
        }),
{
    reveal(InitiatorRunView::stepped);
}

/// The acknowledgement is answered with the request.
proof fn acknowledgement_is_answered(
    i: InitiatorRunView,
    ack: Seq<u8>,
    s: SessionView,
    store: StoreView,
)
    requires
        i.stage matches InitiatorStageView::Ack(initiator) && initiator.after_ack(ack).0 == Ok::<
            SessionView,
            SyncError,
        >(s),
    ensures
        i.stepped(EventView::Frame(ack), store, Seq::empty()) == (
            i.sent(
                message_sealed(s, MessageView::Request).0,
                InitiatorStageView::Response(message_sealed(s, MessageView::Request).1),
            ),
            store,
        ),
{
    reveal(InitiatorRunView::stepped);
}

/// A request about an active pairing is read, and the pairing is confirmed.
proof fn active_is_confirmed(
    r: ResponderRunView,
    s: SessionView,
    frame: Seq<u8>,
    store: StoreView,
    pair_id: Seq<char>,
    record: RecordView,
)
    requires
        r.active_pair == Some(pair_id),
        store.loaded(pair_id) == Ok::<Option<RecordView>, SyncError>(Some(record)),
    ensures
        ({
            let (opened, after) = message_opened(s, frame);
            let waiting = r.at(ResponderStageView::Request(s));
            let asked = r.at(ResponderStageView::RequestRead(s));
            &&& opened matches Ok(encoded) ==> waiting.stepped(EventView::Frame(frame), store) == (
                Ok::<(ResponderRunView, ActionView), SyncError>(
                    (r.at(ResponderStageView::RequestRead(after)), ActionView::Parse(encoded)),
                ),
                store,
            )
            &&& asked.stepped(EventView::Message(ReceivedView::Request), store) == (
                asked.confirmed(s, record),
                store,
            )
        }),
{
    reveal(ResponderRunView::stepped);
}

/// From the confirmation of an active record on, the initiating run takes that
/// record too: both sides then have it active, and the initiator has nothing
/// pending between the two devices.
#[verifier::opaque]
pub open spec fn confirmation_leads_to(
    i: InitiatorRunView,
    confirmed: (Result<(ResponderRunView, ActionView), SyncError>, StoreView),
    i_store: StoreView,
    record: RecordView,
) -> bool {
    let none = Seq::<u8>::empty();
    let frames = action_of(confirmed)->Finish_0;
    let i1 = i.stepped(EventView::Frame(frames[0]), i_store, none);
    let i2 = run_of(i1).stepped(
        EventView::Message(ReceivedView::Complete(Ok(record))),
        i1.1,
        none,
    );
    let i3 = run_of(i2).stepped(EventView::Frame(frames[1]), i2.1, none);
    let i4 = run_of(i3).stepped(EventView::Message(ReceivedView::Finalized), i3.1, none);
    &&& confirmed.0 is Ok
    &&& run_of(confirmed).stage is Done
    &&& action_of(confirmed) is Finish
    &&& frames.len() == 2
    &&& i1.0 is Ok
    &&& action_of(i1) == ActionView::Parse(
        message_json(MessageView::Complete(record_json(record))),
    )
    &&& i2.0 is Ok
    &&& i3.0 is Ok
    &&& action_of(i3) == ActionView::Parse(message_json(MessageView::Finalized))
    &&& i4.0 is Ok
    &&& run_of(i4).stage is Done
    &&& i4.1.loaded(record.pair_id) == Ok::<Option<RecordView>, SyncError>(Some(record))
    &&& confirmed.1.loaded(record.pair_id) == Ok::<Option<RecordView>, SyncError>(Some(record))
    &&& nothing_pending(i4.1.pending, record)
}

/// The store that an initiating run leaves once it has taken a confirmed record.
#[verifier::opaque]
pub open spec fn store_after_confirmation(
    i: InitiatorRunView,
    confirmed: (Result<(ResponderRunView, ActionView), SyncError>, StoreView),
    i_store: StoreView,
    record: RecordView,
) -> StoreView {
    let none = Seq::<u8>::empty();
    let frames = action_of(confirmed)->Finish_0;
    let i1 = i.stepped(EventView::Frame(frames[0]), i_store, none);
    let i2 = run_of(i1).stepped(
        EventView::Message(ReceivedView::Complete(Ok(record))),
        i1.1,
        none,
    );
    let i3 = run_of(i2).stepped(EventView::Frame(frames[1]), i2.1, none);
    run_of(i3).stepped(EventView::Message(ReceivedView::Finalized), i3.1, none).1
}

/// A reconnecting initiator is sent the responder's active record and the final
/// acknowledgement, and accepts that record: an end that missed the
/// acknowledgement of an earlier run catches up without asking anyone.
pub proof fn active_pairing_is_confirmed(
    i: InitiatorRunView,
    r: ResponderRunView,
    ack: Seq<u8>,
    i_store: StoreView,
    r_store: StoreView,
    pair_id: Seq<char>,
    record: RecordView,
)
    requires
        aead_sound(),
        i.reconnect,
        i.stage matches InitiatorStageView::Ack(initiator) && r.stage
            matches ResponderStageView::Request(sr) && initiator.after_ack(ack).0 matches Ok(si)
            && in_step(si, sr, 1, 2) && can_reconcile(i_store, si, i.identity, record),
        r.active_pair == Some(pair_id),
        r_store.loaded(pair_id) == Ok::<Option<RecordView>, SyncError>(Some(record)),
        storable(record),
    ensures
        ({
            let i1 = i.stepped(EventView::Frame(ack), i_store, Seq::empty());
            let r1 = r.stepped(EventView::Frame(frame_of(i1)), r_store);
            let r2 = run_of(r1).stepped(EventView::Message(ReceivedView::Request), r1.1);
            &&& i1.0 is Ok
            &&& i1.1 == i_store
            &&& r1.0 is Ok
            &&& r1.1 == r_store
            &&& action_of(r1) == ActionView::Parse(message_json(MessageView::Request))
            &&& r2.1 == r_store
            &&& confirmation_leads_to(run_of(i1), r2, i1.1, record)
            &&& store_after_confirmation(run_of(i1), r2, i1.1, record) == i_store.accepted(
                i.stage->Ack_0.after_ack(ack).0->Ok_0,
                i.identity,
                record,
                true,
            ).1
        }),
{
    reveal(confirmation_leads_to);
    reveal(store_after_confirmation);
    let si = i.stage->Ack_0.after_ack(ack).0->Ok_0;
    let sr = r.stage->Request_0;
    complete_records_reconcile(i_store, si, i.identity, record);
    accepted_leaves_nothing_pending(i_store, si, i.identity, record, true);
    stored_records_fit(MessageView::Request);
    message_delivered(si, sr, MessageView::Request, 1, 2);
    let (f1, si1) = message_sealed(si, MessageView::Request);
    let sr1 = message_opened(sr, f1->Ok_0).1;
    let complete = MessageView::Complete(record_json(record));
    stored_records_fit(complete);
    message_delivered(sr1, si1, complete, 2, 0);
    let (f2, sr2) = message_sealed(sr1, complete);
    let si2 = message_opened(si1, f2->Ok_0).1;
    stored_records_fit(MessageView::Finalized);
    message_delivered(sr2, si2, MessageView::Finalized, 1, 0);
    let f3 = message_sealed(sr2, MessageView::Finalized).0;
    let si3 = message_opened(si2, f3->Ok_0).1;
    accepted_ignores_transport(i_store, si, si3.transport, i.identity, record, true);
    acknowledgement_is_answered(i, ack, si, i_store);
    assert(r.at(ResponderStageView::Request(sr)) == r);
    active_is_confirmed(r, sr, f1->Ok_0, r_store, pair_id, record);
    active_is_confirmed(r, sr1, f1->Ok_0, r_store, pair_id, record);
    reconnecting_initiator_steps(i, si1, record, f2->Ok_0, i_store);
    reconnecting_initiator_steps(i, si2, record, f3->Ok_0, i_store);
    reconnecting_initiator_steps(i, si3, record, f3->Ok_0, i_store);
}

} // verus!
