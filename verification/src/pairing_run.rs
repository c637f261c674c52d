//! One run of a pairing over a connection, on either side.
//!
//! A run decides; its caller performs. Each step takes what happened last and
//! says what to do next: exchange frames, parse a message, ask the local user,
//! or finish.
use crate::authentication::{ContextView, PairedIdentityContext};
use crate::error::{outcome, SyncError};
use crate::crypto::{ed25519_public, ed25519_sign};
use crate::frames::{
    start_parsed, MAX_HANDSHAKE_FRAME, MODE_RECONNECT, ROLE_INITIATOR, ROLE_RESPONDER,
};
use crate::identity::{device_id_of, DeviceIdentity};
use crate::pairing::{
    frame_pair, setup_error, AuthenticatedPairingSession, InitiatorView, PairingInitiator,
    PairingResponder, ResponderView, SessionView, ValidationView,
};
use crate::protocol_v3::{CertificateView, DeviceCertificate};
use crate::record::{
    record_accepted, record_stored, session_identity_error, validate_session_identity,
    PairingRecord, RecordView,
};
use crate::runtime_v3::{
    app_decoded, app_encoded, app_round_trip, decode_app, encode_app, message_json, route_preface,
    route_signed, Enrollment, EnrollmentView, MessageView, PairMessage,
};
use crate::text::{bytes_eq, hex, is_id};
use crate::trust::{found, AuthorizationGrant, PairingStore, StoreView};
use vstd::prelude::*;

verus! {

// ---------------------------------------------------------------------------
// Messages, events and actions.
// ---------------------------------------------------------------------------
/// The stored form of a record that the peer sent, and what was parsed from it.
pub struct ReceivedRecord {
    pub bytes: Vec<u8>,
    pub parsed: Option<PairingRecord>,
}

/// A message that the peer sent.
pub enum ReceivedMessage {
    Malformed,
    Request,
    Prepared(ReceivedRecord),
    Complete(ReceivedRecord),
    Finalized,
}

/// A message that the peer sent, its record accepted or refused.
pub enum ReceivedView {
    Malformed,
    Request,
    Prepared(Result<RecordView, SyncError>),
    Complete(Result<RecordView, SyncError>),
    Finalized,
}

/// What is made of a record that the peer sent.
pub open spec fn received_record(record: ReceivedRecord) -> Result<RecordView, SyncError> {
    record_accepted(
        record.bytes@,
        match record.parsed {
            Some(parsed) => Some(parsed@),
            None => None,
        },
    )
}

impl View for ReceivedMessage {
    type V = ReceivedView;

    open spec fn view(&self) -> ReceivedView {
        match self {
            ReceivedMessage::Malformed => ReceivedView::Malformed,
            ReceivedMessage::Request => ReceivedView::Request,
            ReceivedMessage::Prepared(record) => ReceivedView::Prepared(received_record(*record)),
            ReceivedMessage::Complete(record) => ReceivedView::Complete(received_record(*record)),
            ReceivedMessage::Finalized => ReceivedView::Finalized,
        }
    }
}

/// What happened last.
pub enum Event {
    /// A frame was read.
    Frame(Vec<u8>),
    /// The received message was parsed.
    Message(ReceivedMessage),
    /// The local user decided.
    Decision(Result<AuthorizationGrant, SyncError>),
}

/// What happened last.
pub enum EventView {
    Frame(Seq<u8>),
    Message(ReceivedView),
    Decision(Result<Seq<char>, SyncError>),
}

impl View for Event {
    type V = EventView;

    open spec fn view(&self) -> EventView {
        match self {
            Event::Frame(frame) => EventView::Frame(frame@),
            Event::Message(message) => EventView::Message(message@),
            Event::Decision(decision) => EventView::Decision(outcome(*decision)),
        }
    }
}

/// What to do next.
pub enum Action {
    /// Write the frames, in order, and read one.
    Exchange(Vec<Vec<u8>>),
    /// Parse a message.
    Parse(Vec<u8>),
    /// Ask the local user about a certified peer.
    Authorize(DeviceCertificate),
    /// Write the frames, in order; the run is over.
    Finish(Vec<Vec<u8>>),
}

/// What to do next.
pub enum ActionView {
    Exchange(Seq<Seq<u8>>),
    Parse(Seq<u8>),
    Authorize(CertificateView),
    Finish(Seq<Seq<u8>>),
}

/// The contents of frames.
pub open spec fn frames_view(frames: Seq<Vec<u8>>) -> Seq<Seq<u8>> {
    frames.map_values(|frame: Vec<u8>| frame@)
}

impl View for Action {
    type V = ActionView;

    open spec fn view(&self) -> ActionView {
        match self {
            Action::Exchange(frames) => ActionView::Exchange(frames_view(frames@)),
            Action::Parse(bytes) => ActionView::Parse(bytes@),
            Action::Authorize(certificate) => ActionView::Authorize(certificate@),
            Action::Finish(frames) => ActionView::Finish(frames_view(frames@)),
        }
    }
}

/// No frames.
fn no_frames() -> (result: Vec<Vec<u8>>)
    ensures
        frames_view(result@) == Seq::<Seq<u8>>::empty(),
{
    let frames: Vec<Vec<u8>> = Vec::new();
    assert(frames_view(frames@) =~= Seq::empty());
    frames
}

/// One frame.
fn one_frame(frame: Vec<u8>) -> (result: Vec<Vec<u8>>)
    ensures
        frames_view(result@) == seq![frame@],
{
    let mut frames: Vec<Vec<u8>> = Vec::new();
    frames.push(frame);
    assert(frames_view(frames@) =~= seq![frame@]);
    frames
}

/// Two frames.
fn two_frames(first: Vec<u8>, second: Vec<u8>) -> (result: Vec<Vec<u8>>)
    ensures
        frames_view(result@) == seq![first@, second@],
{
    let mut frames: Vec<Vec<u8>> = Vec::new();
    frames.push(first);
    frames.push(second);
    assert(frames_view(frames@) =~= seq![first@, second@]);
    frames
}

/// What becomes of a session that sends a message.
#[verifier::opaque]
pub open spec fn message_sealed(s: SessionView, message: MessageView) -> (
    Result<Seq<u8>, SyncError>,
    SessionView,
) {
    match app_encoded(message) {
        Err(error) => (Err(error), s),
        Ok(payload) => s.encrypted(payload),
    }
}

/// What becomes of a session that sends a prepared record.
pub open spec fn prepared_sealed(s: SessionView, record: RecordView) -> (
    Result<Seq<u8>, SyncError>,
    SessionView,
) {
    match record_stored(record) {
        Err(error) => (Err(error), s),
        Ok(bytes) => message_sealed(s, MessageView::Prepared(bytes)),
    }
}

/// What becomes of a session that sends a complete record.
pub open spec fn complete_sealed(s: SessionView, record: RecordView) -> (
    Result<Seq<u8>, SyncError>,
    SessionView,
) {
    match record_stored(record) {
        Err(error) => (Err(error), s),
        Ok(bytes) => message_sealed(s, MessageView::Complete(bytes)),
    }
}

/// What becomes of a session that receives a frame with a message.
#[verifier::opaque]
pub open spec fn message_opened(s: SessionView, frame: Seq<u8>) -> (
    Result<Seq<u8>, SyncError>,
    SessionView,
) {
    let (payload, after) = s.decrypted(frame);
    match payload {
        Err(error) => (Err(error), after),
        Ok(bytes) => (app_decoded(bytes), after),
    }
}

/// Whether a session can send a message: it fits, and the nonces are not used
/// up.
pub open spec fn sends(s: SessionView, message: MessageView) -> bool {
    app_encoded(message) is Ok && s.transport.send_nonce < u64::MAX
}

/// Whether a session can send a prepared record.
pub open spec fn sends_prepared(s: SessionView, record: RecordView) -> bool {
    record_stored(record) matches Ok(bytes) && sends(s, MessageView::Prepared(bytes))
}

/// Whether a session can send a complete record.
pub open spec fn sends_complete(s: SessionView, record: RecordView) -> bool {
    record_stored(record) matches Ok(bytes) && sends(s, MessageView::Complete(bytes))
}

/// Sends a message in a session. A session that is about to receive what this
/// one sends opens the frame to the encoded form of the message.
fn seal_message(session: &mut AuthenticatedPairingSession, message: &PairMessage) -> (result:
    Result<Vec<u8>, SyncError>)
    requires
        old(session)@.wf(),
    ensures
        final(session)@.wf(),
        (outcome(result), final(session)@) == message_sealed(old(session)@, message@),
        result is Ok <==> sends(old(session)@, message@),
        result is Ok ==> final(session)@.transport.send_nonce == old(
            session,
        )@.transport.send_nonce + 1,
        result matches Ok(frame) ==> forall|peer: SessionView| #[trigger]
            peer.follows(old(session)@) ==> {
                &&& message_opened(peer, frame@).0 == Ok::<Seq<u8>, SyncError>(
                    message_json(message@),
                )
                &&& message_opened(peer, frame@).1.follows(final(session)@)
            },
{
    proof {
        reveal(message_sealed);
        reveal(message_opened);
    }
    let payload: Vec<u8> = encode_app(message)?;
    proof {
        app_round_trip(message@);
    }
    session.encrypt(payload.as_slice())
}

/// Sends a prepared record in a session.
fn seal_prepared(session: &mut AuthenticatedPairingSession, record: &PairingRecord) -> (result:
    Result<Vec<u8>, SyncError>)
    requires
        old(session)@.wf(),
    ensures
        final(session)@.wf(),
        (outcome(result), final(session)@) == prepared_sealed(old(session)@, record@),
        result is Ok <==> sends_prepared(old(session)@, record@),
{
    let bytes: Vec<u8> = record.to_bytes()?;
    seal_message(session, &PairMessage::Prepared(bytes))
}

/// Sends a complete record in a session.
fn seal_complete(session: &mut AuthenticatedPairingSession, record: &PairingRecord) -> (result:
    Result<Vec<u8>, SyncError>)
    requires
        old(session)@.wf(),
    ensures
        final(session)@.wf(),
        (outcome(result), final(session)@) == complete_sealed(old(session)@, record@),
        result is Ok <==> sends_complete(old(session)@, record@),
        result is Ok ==> final(session)@.transport.send_nonce == old(
            session,
        )@.transport.send_nonce + 1,
{
    let bytes: Vec<u8> = record.to_bytes()?;
    seal_message(session, &PairMessage::Complete(bytes))
}

/// Receives a frame with a message in a session.
fn open_message(session: &mut AuthenticatedPairingSession, frame: &[u8]) -> (result: Result<
    Vec<u8>,
    SyncError,
>)
    requires
        old(session)@.wf(),
    ensures
        final(session)@.wf(),
        (outcome(result), final(session)@) == message_opened(old(session)@, frame@),
{
    proof {
        reveal(message_opened);
    }
    let payload: Vec<u8> = session.decrypt(frame)?;
    decode_app(payload.as_slice())
}

// ---------------------------------------------------------------------------
// How a run begins.
// ---------------------------------------------------------------------------
/// The pins with which an initiator reconnects, or none for first contact: an
/// active pairing comes first, then a pending one.
#[verifier::opaque]
pub open spec fn initiator_plan(
    store: StoreView,
    secret: Seq<u8>,
    local: Seq<char>,
    peer: Seq<char>,
) -> Result<Option<ContextView>, SyncError> {
    match store.active_pair(store.active, local, peer) {
        Err(error) => Err(error),
        Ok(active) => match store.pending_between(local, peer) {
            Err(error) => Err(error),
            Ok(pending) => match active {
                Some(pair_id) => match store.reconnecting(secret, pair_id) {
                    Err(error) => Err(error),
                    Ok(context) => Ok(Some(context)),
                },
                None => if pending is None {
                    Ok(None)
                } else {
                    match store.recovering(secret, peer) {
                        Err(error) => Err(error),
                        Ok(None) => Err(SyncError::RecoveryMissing),
                        Ok(Some(context)) => Ok(Some(context)),
                    }
                },
            },
        },
    }
}

/// What a responder found when a peer began: the active PairID, the pending
/// record, and the pins with which it reconnects. Pending state is used only
/// where the initiator means to reconnect too.
#[verifier::opaque]
pub open spec fn responder_plan(
    store: StoreView,
    secret: Seq<u8>,
    local: Seq<char>,
    peer: Seq<char>,
    reconnect_start: bool,
) -> Result<(Option<Seq<char>>, Option<RecordView>, Option<ContextView>), SyncError> {
    match store.active_pair(store.active, local, peer) {
        Err(error) => Err(error),
        Ok(active) => match store.pending_between(local, peer) {
            Err(error) => Err(error),
            Ok(pending) => match active {
                Some(pair_id) => match store.reconnecting(secret, pair_id) {
                    Err(error) => Err(error),
                    Ok(context) => Ok((active, pending, Some(context))),
                },
                None => if pending is Some && reconnect_start {
                    match store.recovering(secret, peer) {
                        Err(error) => Err(error),
                        Ok(None) => Err(SyncError::RecoveryMissing),
                        Ok(Some(context)) => Ok((active, pending, Some(context))),
                    }
                } else {
                    Ok((active, pending, None))
                },
            },
        },
    }
}

/// The pins with which an initiator reconnects, or none for first contact.
pub fn plan_initiator(
    store: &PairingStore,
    identity: &DeviceIdentity,
    local_device_id: &str,
    peer_device_id: &str,
) -> (result: Result<Option<PairedIdentityContext>, SyncError>)
    ensures
        found(result) == initiator_plan(
            store@,
            identity@,
            local_device_id@,
            peer_device_id@,
        ),
{
    proof {
        reveal(initiator_plan);
    }
    let active = store.active_pair_for_peer(local_device_id, peer_device_id)?;
    let pending = store.pending_for_peer(local_device_id, peer_device_id)?;
    match active {
        Some(pair_id) => Ok(Some(store.reconnect_context(identity, pair_id.as_str())?)),
        None => {
            if pending.is_none() {
                return Ok(None);
            }
            match store.recovery_context(identity, peer_device_id)? {
                None => Err(SyncError::RecoveryMissing),
                Some(context) => Ok(Some(context)),
            }
        },
    }
}

/// What a responder found when a peer began.
pub struct ResponderPlan {
    pub active_pair: Option<String>,
    pub pending: Option<PairingRecord>,
    pub context: Option<PairedIdentityContext>,
}

/// The text of an optional string.
pub open spec fn optional_text(text: Option<String>) -> Option<Seq<char>> {
    match text {
        Some(value) => Some(value@),
        None => None,
    }
}

/// What an optional record says.
pub open spec fn optional_record(record: Option<PairingRecord>) -> Option<RecordView> {
    match record {
        Some(value) => Some(value@),
        None => None,
    }
}

/// The pins of an optional context.
pub open spec fn optional_context(context: Option<PairedIdentityContext>) -> Option<ContextView> {
    match context {
        Some(value) => Some(value@),
        None => None,
    }
}

impl View for ResponderPlan {
    type V = (Option<Seq<char>>, Option<RecordView>, Option<ContextView>);

    open spec fn view(&self) -> (Option<Seq<char>>, Option<RecordView>, Option<ContextView>) {
        (
            optional_text(self.active_pair),
            optional_record(self.pending),
            optional_context(self.context),
        )
    }
}

/// What a responder finds when a peer begins.
pub fn plan_responder(
    store: &PairingStore,
    identity: &DeviceIdentity,
    local_device_id: &str,
    peer_device_id: &str,
    reconnect_start: bool,
) -> (result: Result<ResponderPlan, SyncError>)
    ensures
        outcome(result) == responder_plan(
            store@,
            identity@,
            local_device_id@,
            peer_device_id@,
            reconnect_start,
        ),
{
    proof {
        reveal(responder_plan);
    }
    let active_pair = store.active_pair_for_peer(local_device_id, peer_device_id)?;
    let pending = store.pending_for_peer(local_device_id, peer_device_id)?;
    let context = match &active_pair {
        Some(pair_id) => Some(store.reconnect_context(identity, pair_id.as_str())?),
        None => {
            if pending.is_some() && reconnect_start {
                match store.recovery_context(identity, peer_device_id)? {
                    None => {
                        return Err(SyncError::RecoveryMissing);
                    },
                    Some(context) => Some(context),
                }
            } else {
                None
            }
        },
    };
    Ok(ResponderPlan { active_pair, pending, context })
}

// ---------------------------------------------------------------------------
// The initiating side.
// ---------------------------------------------------------------------------
/// Where an initiating run stands.
pub enum InitiatorStageView {
    /// The responder's handshake message is awaited.
    Handshake(InitiatorView),
    /// The responder's proof is awaited.
    Proof(InitiatorView),
    /// The acknowledgement is awaited.
    Ack(InitiatorView),
    /// The response is awaited.
    Response(SessionView),
    /// The response is being parsed.
    ResponseRead(SessionView),
    /// The final acknowledgement is awaited.
    Finalized(SessionView, RecordView),
    /// The final acknowledgement is being parsed.
    FinalizedRead(SessionView, RecordView),
    /// The run is over.
    Done,
}

/// The state of an initiating run.
pub struct InitiatorRunView {
    pub identity: Seq<u8>,
    pub reconnect: bool,
    pub stage: InitiatorStageView,
}

/// The record that an initiator completes in answer to a prepared one: a
/// complete local copy of the same pairing is sent again, a record that this
/// side has signed already is returned unchanged, and any other is co-signed.
#[verifier::opaque]
pub open spec fn completed(
    s: SessionView,
    secret: Seq<u8>,
    store: StoreView,
    record: RecordView,
) -> (Result<RecordView, SyncError>, StoreView) {
    let id = device_id_of(ed25519_public(secret));
    match store.pending_between(id, s.peer_device_id) {
        Err(error) => (Err(error), store),
        Ok(local) => if local is Some && local->Some_0.complete() {
            if local->Some_0.pair_id != record.pair_id {
                (Err(SyncError::RecoveryPairId), store)
            } else {
                (Ok(local->Some_0), store)
            }
        } else if (record.initiator_signature is Some && id == record.initiator_device_id) || (
        record.responder_signature is Some && id == record.responder_device_id) {
            (Ok(record), store)
        } else {
            store.co_signed(s, secret, record)
        },
    }
}

/// The initiator that a run sets up, with the fresh Noise static key `secret`.
pub open spec fn initiator_ready(
    plan: Option<ContextView>,
    identity: Seq<u8>,
    enrollment: EnrollmentView,
    peer: Seq<char>,
    now: u64,
    pair_id: Seq<char>,
    secret: Seq<u8>,
) -> Result<InitiatorView, SyncError> {
    match plan {
        Some(context) => match context.role_of(identity) {
            None => Err(SyncError::NotParticipant),
            Some(role) => if role != ROLE_INITIATOR {
                Err(SyncError::NotInitiator)
            } else if !is_id(context.pair_id) {
                Err(SyncError::InvalidPairId)
            } else {
                Ok(
                    InitiatorView::fresh(
                        identity,
                        context.pair_id,
                        context.initiator_certificate,
                        context.responder_device_id,
                        ValidationView::Paired(context),
                        secret,
                    ),
                )
            },
        },
        None => match setup_error(identity, enrollment.certificate, peer, enrollment.root, now) {
            Some(error) => Err(error),
            None => Ok(
                InitiatorView::fresh(
                    identity,
                    pair_id,
                    enrollment.certificate,
                    peer,
                    ValidationView::Current { root: enrollment.root, now },
                    secret,
                ),
            ),
        },
    }
}

/// The routing preface of an identity.
pub open spec fn preface_of(identity: Seq<u8>) -> Seq<u8> {
    let signed = route_signed(device_id_of(ed25519_public(identity)));
    signed + ed25519_sign(identity, signed)
}

impl InitiatorRunView {
    /// How a run begins, when its static key is `secret` and Noise draws
    /// `ephemeral`: the routing preface and the start frame go out first.
    pub open spec fn begun(
        store: StoreView,
        identity: Seq<u8>,
        enrollment: EnrollmentView,
        local: Seq<char>,
        peer: Seq<char>,
        now: u64,
        pair_id: Seq<char>,
        secret: Seq<u8>,
        ephemeral: Seq<u8>,
    ) -> Result<(InitiatorRunView, ActionView), SyncError> {
        match initiator_plan(store, identity, local, peer) {
            Err(error) => Err(error),
            Ok(plan) => match initiator_ready(
                plan,
                identity,
                enrollment,
                peer,
                now,
                pair_id,
                secret,
            ) {
                Err(error) => Err(error),
                Ok(initiator) => {
                    let (start, after) = initiator.started(ephemeral);
                    match start {
                        Err(error) => Err(error),
                        Ok(frame) => Ok(
                            (
                                InitiatorRunView {
                                    identity,
                                    reconnect: plan is Some,
                                    stage: InitiatorStageView::Handshake(after),
                                },
                                ActionView::Exchange(seq![preface_of(identity), frame]),
                            ),
                        ),
                    }
                },
            },
        }
    }

    /// Whether a run can begin with a peer: the store says how, and the local
    /// identity may open the pairing that it plans.
    pub open spec fn can_begin(
        store: StoreView,
        identity: Seq<u8>,
        enrollment: EnrollmentView,
        local: Seq<char>,
        peer: Seq<char>,
        now: u64,
    ) -> bool {
        match initiator_plan(store, identity, local, peer) {
            Err(_) => false,
            Ok(Some(context)) => context.role_of(identity) == Some(ROLE_INITIATOR) && is_id(
                context.pair_id,
            ),
            Ok(None) => setup_error(
                identity,
                enrollment.certificate,
                peer,
                enrollment.root,
                now,
            ) is None,
        }
    }

    /// The run in another stage.
    pub open spec fn at(self, stage: InitiatorStageView) -> InitiatorRunView {
        InitiatorRunView { stage, ..self }
    }

    /// The states that the run holds are well-formed.
    pub open spec fn wf(self) -> bool {
        match self.stage {
            InitiatorStageView::Handshake(i) => i.wf(),
            InitiatorStageView::Proof(i) => i.wf(),
            InitiatorStageView::Ack(i) => i.wf(),
            InitiatorStageView::Response(s) => s.wf(),
            InitiatorStageView::ResponseRead(s) => s.wf(),
            InitiatorStageView::Finalized(s, _) => s.wf(),
            InitiatorStageView::FinalizedRead(s, _) => s.wf(),
            InitiatorStageView::Done => true,
        }
    }

    /// The outcome of sending a frame and going on to `stage`.
    pub open spec fn sent(
        self,
        sealed: Result<Seq<u8>, SyncError>,
        stage: InitiatorStageView,
    ) -> Result<(InitiatorRunView, ActionView), SyncError> {
        match sealed {
            Err(error) => Err(error),
            Ok(frame) => Ok((self.at(stage), ActionView::Exchange(seq![frame]))),
        }
    }

    /// The outcome of opening a message and going on to `stage`.
    pub open spec fn received(
        self,
        opened: Result<Seq<u8>, SyncError>,
        stage: InitiatorStageView,
    ) -> Result<(InitiatorRunView, ActionView), SyncError> {
        match opened {
            Err(error) => Err(error),
            Ok(encoded) => Ok((self.at(stage), ActionView::Parse(encoded))),
        }
    }

    /// What a run makes of the responder's answer to its request. A record that
    /// is already complete is taken only where the run reconnects.
    pub open spec fn answered(self, s: SessionView, message: ReceivedView, store: StoreView) -> (
        Result<(InitiatorRunView, ActionView), SyncError>,
        StoreView,
    ) {
        match message {
            ReceivedView::Malformed => (Err(SyncError::AppMessage), store),
            ReceivedView::Complete(record) => if !self.reconnect {
                (Err(SyncError::ResponseUnexpected), store)
            } else {
                match record {
                    Err(error) => (Err(error), store),
                    Ok(complete) => (
                        Ok(
                            (
                                self.at(InitiatorStageView::Finalized(s, complete)),
                                ActionView::Exchange(Seq::empty()),
                            ),
                        ),
                        store,
                    ),
                }
            },
            ReceivedView::Prepared(record) => match record {
                Err(error) => (Err(error), store),
                Ok(prepared) => {
                    let (result, after) = completed(s, self.identity, store, prepared);
                    match result {
                        Err(error) => (Err(error), after),
                        Ok(complete) => {
                            let (sealed, sent) = complete_sealed(s, complete);
                            let stage = InitiatorStageView::Finalized(sent, complete);
                            (self.sent(sealed, stage), after)
                        },
                    }
                },
            },
            _ => (Err(SyncError::ResponseUnexpected), store),
        }
    }

    /// What a run makes of the final acknowledgement: the record becomes active
    /// only now.
    pub open spec fn concluded(
        self,
        s: SessionView,
        record: RecordView,
        message: ReceivedView,
        store: StoreView,
    ) -> (Result<(InitiatorRunView, ActionView), SyncError>, StoreView) {
        match message {
            ReceivedView::Malformed => (Err(SyncError::AppMessage), store),
            ReceivedView::Finalized => {
                let (result, after) = store.accepted(s, self.identity, record, true);
                match result {
                    Err(error) => (Err(error), after),
                    Ok(_) => (
                        Ok(
                            (
                                self.at(InitiatorStageView::Done),
                                ActionView::Finish(Seq::empty()),
                            ),
                        ),
                        after,
                    ),
                }
            },
            _ => (Err(SyncError::FinalizedExpected), store),
        }
    }

    /// Whether a run can take the responder's answer to its request.
    pub open spec fn takes_answer(
        self,
        s: SessionView,
        message: ReceivedView,
        store: StoreView,
    ) -> bool {
        match message {
            ReceivedView::Complete(Ok(_)) => self.reconnect,
            ReceivedView::Prepared(Ok(prepared)) => {
                &&& completed(s, self.identity, store, prepared).0 matches Ok(complete)
                &&& sends_complete(s, complete)
            },
            _ => false,
        }
    }

    /// Whether a run goes on with an event.
    pub open spec fn takes(self, event: EventView, store: StoreView) -> bool {
        match (self.stage, event) {
            (InitiatorStageView::Handshake(i), EventView::Frame(frame)) => i.takes_handshake(frame),
            (InitiatorStageView::Proof(i), EventView::Frame(frame)) => i.takes_proof(frame),
            (InitiatorStageView::Ack(i), EventView::Frame(frame)) => {
                &&& i.after_ack(frame).0 matches Ok(s)
                &&& sends(s, MessageView::Request)
            },
            (InitiatorStageView::Response(s), EventView::Frame(frame)) => message_opened(
                s,
                frame,
            ).0 is Ok,
            (
                InitiatorStageView::ResponseRead(s),
                EventView::Message(message),
            ) => self.takes_answer(s, message, store),
            (InitiatorStageView::Finalized(s, _), EventView::Frame(frame)) => message_opened(
                s,
                frame,
            ).0 is Ok,
            (InitiatorStageView::FinalizedRead(s, record), EventView::Message(message)) => {
                &&& message is Finalized
                &&& store.accepted(s, self.identity, record, true).0 is Ok
            },
            _ => false,
        }
    }

    /// What becomes of a run on an event, when Noise draws `ephemeral`.
    #[verifier::opaque]
    pub open spec fn stepped(self, event: EventView, store: StoreView, ephemeral: Seq<u8>) -> (
        Result<(InitiatorRunView, ActionView), SyncError>,
        StoreView,
    ) {
        match (self.stage, event) {
            (InitiatorStageView::Handshake(i), EventView::Frame(frame)) => {
                let (frames, after) = i.after_handshake(frame, ephemeral);
                (
                    match frames {
                        Err(error) => Err(error),
                        Ok((handshake, hello)) => Ok(
                            (
                                self.at(InitiatorStageView::Proof(after)),
                                ActionView::Exchange(seq![handshake, hello]),
                            ),
                        ),
                    },
                    store,
                )
            },
            (InitiatorStageView::Proof(i), EventView::Frame(frame)) => {
                let (signature, after) = i.after_proof(frame);
                (self.sent(signature, InitiatorStageView::Ack(after)), store)
            },
            (InitiatorStageView::Ack(i), EventView::Frame(frame)) => {
                let (session, _) = i.after_ack(frame);
                (
                    match session {
                        Err(error) => Err(error),
                        Ok(s) => {
                            let (sealed, sent) = message_sealed(s, MessageView::Request);
                            self.sent(sealed, InitiatorStageView::Response(sent))
                        },
                    },
                    store,
                )
            },
            (InitiatorStageView::Response(s), EventView::Frame(frame)) => {
                let (opened, after) = message_opened(s, frame);
                (self.received(opened, InitiatorStageView::ResponseRead(after)), store)
            },
            (InitiatorStageView::ResponseRead(s), EventView::Message(message)) => self.answered(
                s,
                message,
                store,
            ),
            (InitiatorStageView::Finalized(s, record), EventView::Frame(frame)) => {
                let (opened, after) = message_opened(s, frame);
                (
                    self.received(opened, InitiatorStageView::FinalizedRead(after, record)),
                    store,
                )
            },
            (InitiatorStageView::FinalizedRead(s, record), EventView::Message(message)) =>
            self.concluded(s, record, message, store),
            _ => (Err(SyncError::EventUnexpected), store),
        }
    }
}

enum InitiatorStage {
    Handshake(PairingInitiator),
    Proof(PairingInitiator),
    Ack(PairingInitiator),
    Response(AuthenticatedPairingSession),
    ResponseRead(AuthenticatedPairingSession),
    Finalized(AuthenticatedPairingSession, PairingRecord),
    FinalizedRead(AuthenticatedPairingSession, PairingRecord),
    Done,
}

impl InitiatorStage {
    spec fn model(&self) -> InitiatorStageView {
        match self {
            InitiatorStage::Handshake(i) => InitiatorStageView::Handshake(i@),
            InitiatorStage::Proof(i) => InitiatorStageView::Proof(i@),
            InitiatorStage::Ack(i) => InitiatorStageView::Ack(i@),
            InitiatorStage::Response(s) => InitiatorStageView::Response(s@),
            InitiatorStage::ResponseRead(s) => InitiatorStageView::ResponseRead(s@),
            InitiatorStage::Finalized(s, r) => InitiatorStageView::Finalized(s@, r@),
            InitiatorStage::FinalizedRead(s, r) => InitiatorStageView::FinalizedRead(s@, r@),
            InitiatorStage::Done => InitiatorStageView::Done,
        }
    }
}

/// A run of a pairing on the initiating side.
pub struct InitiatorRun {
    identity: DeviceIdentity,
    reconnect: bool,
    stage: InitiatorStage,
}

impl View for InitiatorRun {
    type V = InitiatorRunView;

    closed spec fn view(&self) -> InitiatorRunView {
        InitiatorRunView {
            identity: self.identity@,
            reconnect: self.reconnect,
            stage: self.stage.model(),
        }
    }
}

/// The outcome of a step.
pub open spec fn step_outcome<R: View>(result: Result<(R, Action), SyncError>) -> Result<
    (R::V, ActionView),
    SyncError,
> {
    match result {
        Ok((run, action)) => Ok((run@, action@)),
        Err(error) => Err(error),
    }
}

/// The record that the peer sent, if it is acceptable.
fn accept_record(received: ReceivedRecord) -> (result: Result<PairingRecord, SyncError>)
    ensures
        outcome(result) == received_record(received),
{
    PairingRecord::from_bytes(received.bytes.as_slice(), received.parsed)
}

/// The record that an initiator completes in answer to a prepared one.
fn complete_record(
    session: &AuthenticatedPairingSession,
    identity: &DeviceIdentity,
    store: &mut PairingStore,
    record: PairingRecord,
) -> (result: Result<PairingRecord, SyncError>)
    ensures
        (outcome(result), final(store)@) == completed(
            session@,
            identity@,
            old(store)@,
            record@,
        ),
{
    proof {
        reveal(completed);
    }
    let id = identity.device_id();
    match store.pending_for_peer(id.as_str(), session.peer_device_id())? {
        Some(local) => {
            if local.is_complete() {
                if local.pair_id != record.pair_id {
                    return Err(SyncError::RecoveryPairId);
                }
                return Ok(local);
            }
        },
        None => {},
    }
    if (record.initiator_signature.is_some() && id == record.initiator_device_id) || (
    record.responder_signature.is_some() && id == record.responder_device_id) {
        return Ok(record);
    }
    store.co_sign(session, identity, &record)
}

impl InitiatorRun {
    /// Sets up a run with a discovered peer: an active or a pending pairing
    /// reconnects with its pins, and a stranger is met under a new PairID.
    pub fn begin(
        store: &PairingStore,
        identity: &DeviceIdentity,
        enrollment: &Enrollment,
        local_device_id: &str,
        peer_device_id: &str,
        now: u64,
        pair_entropy: [u8; 16],
    ) -> (result: Result<(Self, Action), SyncError>)
        ensures
            exists|secret: Seq<u8>, ephemeral: Seq<u8>|
                secret.len() == 32 && ephemeral.len() == 32 && step_outcome(result)
                    == #[trigger] InitiatorRunView::begun(
                    store@,
                    identity@,
                    enrollment@,
                    local_device_id@,
                    peer_device_id@,
                    now,
                    hex(pair_entropy@),
                    secret,
                    ephemeral,
                ),
            result is Ok <==> InitiatorRunView::can_begin(
                store@,
                identity@,
                enrollment@,
                local_device_id@,
                peer_device_id@,
                now,
            ),
            result matches Ok((run, _)) ==> run@.wf(),
    {
        let ghost zeros = Seq::new(32, |i: int| 0u8);
        let ghost begun = |secret: Seq<u8>, ephemeral: Seq<u8>|
            InitiatorRunView::begun(
                store@,
                identity@,
                enrollment@,
                local_device_id@,
                peer_device_id@,
                now,
                hex(pair_entropy@),
                secret,
                ephemeral,
            );
        let plan = match plan_initiator(store, identity, local_device_id, peer_device_id) {
            Ok(plan) => plan,
            Err(error) => {
                assert(begun(zeros, zeros) is Err);
                return Err(error);
            },
        };
        let reconnect = plan.is_some();
        let ghost pins = optional_context(plan);
        let ready = Self::set_up(plan, identity, enrollment, peer_device_id, now, pair_entropy);
        let ghost secret = choose|secret: Seq<u8>|
            secret.len() == 32 && outcome(ready) == #[trigger] initiator_ready(
                pins,
                identity@,
                enrollment@,
                peer_device_id@,
                now,
                hex(pair_entropy@),
                secret,
            );
        let mut initiator = match ready {
            Ok(initiator) => initiator,
            Err(error) => {
                assert(begun(secret, zeros) is Err);
                return Err(error);
            },
        };
        let ghost before = initiator@;
        let started = initiator.start();
        let ghost ephemeral = choose|ephemeral: Seq<u8>|
            ephemeral.len() == 32 && (outcome(started), initiator@) == #[trigger] before.started(
                ephemeral,
            );
        let ghost expected = begun(secret, ephemeral);
        let frame: Vec<u8> = started?;
        let route: Vec<u8> = route_preface(identity);
        let run = InitiatorRun {
            identity: identity.clone(),
            reconnect,
            stage: InitiatorStage::Handshake(initiator),
        };
        let action = Action::Exchange(two_frames(route, frame));
        assert(expected == Ok::<(InitiatorRunView, ActionView), SyncError>((run@, action@)));
        Ok((run, action))
    }

    /// The initiator of a run.
    fn set_up(
        plan: Option<PairedIdentityContext>,
        identity: &DeviceIdentity,
        enrollment: &Enrollment,
        peer_device_id: &str,
        now: u64,
        pair_entropy: [u8; 16],
    ) -> (result: Result<PairingInitiator, SyncError>)
        ensures
            exists|secret: Seq<u8>|
                secret.len() == 32 && outcome(result) == #[trigger] initiator_ready(
                    optional_context(plan),
                    identity@,
                    enrollment@,
                    peer_device_id@,
                    now,
                    hex(pair_entropy@),
                    secret,
                ),
            result matches Ok(initiator) ==> initiator@.wf() && initiator@.can_start(),
    {
        let ghost zeros = Seq::new(32, |i: int| 0u8);
        let ghost ready = |secret: Seq<u8>|
            initiator_ready(
                optional_context(plan),
                identity@,
                enrollment@,
                peer_device_id@,
                now,
                hex(pair_entropy@),
                secret,
            );
        assert(ready(zeros) is Err || ready(zeros) is Ok);
        match plan {
            Some(context) => {
                let initiator = PairingInitiator::new_reconnect(identity.clone(), context)?;
                let ghost secret = choose|secret: Seq<u8>|
                    secret.len() == 32 && initiator@ == #[trigger] InitiatorView::fresh(
                        identity@,
                        context@.pair_id,
                        context@.initiator_certificate,
                        context@.responder_device_id,
                        ValidationView::Paired(context@),
                        secret,
                    );
                assert(ready(secret) == Ok::<InitiatorView, SyncError>(initiator@));
                Ok(initiator)
            },
            None => {
                let initiator = PairingInitiator::new(
                    identity.clone(),
                    enrollment.certificate.clone(),
                    peer_device_id.to_string(),
                    enrollment.root.clone(),
                    now,
                    pair_entropy,
                )?;
                let ghost secret = choose|secret: Seq<u8>|
                    secret.len() == 32 && initiator@ == #[trigger] InitiatorView::fresh(
                        identity@,
                        hex(pair_entropy@),
                        enrollment@.certificate,
                        peer_device_id@,
                        ValidationView::Current { root: enrollment@.root, now },
                        secret,
                    );
                assert(ready(secret) == Ok::<InitiatorView, SyncError>(initiator@));
                Ok(initiator)
            },
        }
    }

    /// Takes an event and says what to do next. After an error the run is over;
    /// the changes in the store's journal stand.
    pub fn step(self, event: Event, store: &mut PairingStore) -> (result: Result<
        (Self, Action),
        SyncError,
    >)
        requires
            self@.wf(),
        ensures
            exists|ephemeral: Seq<u8>|
                ephemeral.len() == 32 && (step_outcome(result), final(store)@)
                    == #[trigger] self@.stepped(event@, old(store)@, ephemeral),
            result is Ok <==> self@.takes(event@, old(store)@),
            result matches Ok((run, _)) ==> run@.wf(),
    {
        proof {
            reveal(InitiatorRunView::stepped);
        }
        let ghost start = self@;
        let ghost none = Seq::new(32, |i: int| 0u8);
        let InitiatorRun { identity, reconnect, stage } = self;
        match (stage, event) {
            (InitiatorStage::Handshake(initiator), Event::Frame(frame)) => {
                let mut initiator = initiator;
                let ghost before = initiator@;
                let result = initiator.receive_responder_handshake(frame.as_slice());
                let ghost ephemeral = choose|ephemeral: Seq<u8>|
                    ephemeral.len() == 32 && (frame_pair(result), initiator@)
                        == #[trigger] before.after_handshake(frame@, ephemeral);
                assert(start.stepped(event@, old(store)@, ephemeral).1 == store@);
                let (handshake, hello) = result?;
                let run = InitiatorRun {
                    identity,
                    reconnect,
                    stage: InitiatorStage::Proof(initiator),
                };
                Ok((run, Action::Exchange(two_frames(handshake, hello))))
            },
            (InitiatorStage::Proof(initiator), Event::Frame(frame)) => {
                assert(start.stepped(event@, old(store)@, none).1 == store@);
                let mut initiator = initiator;
                let signature: Vec<u8> = initiator.receive_responder_auth(frame.as_slice())?;
                let run = InitiatorRun {
                    identity,
                    reconnect,
                    stage: InitiatorStage::Ack(initiator),
                };
                Ok((run, Action::Exchange(one_frame(signature))))
            },
            (InitiatorStage::Ack(initiator), Event::Frame(frame)) => {
                assert(start.stepped(event@, old(store)@, none).1 == store@);
                let mut initiator = initiator;
                let mut session = initiator.receive_responder_ack(frame.as_slice())?;
                let frame: Vec<u8> = seal_message(&mut session, &PairMessage::Request)?;
                let run = InitiatorRun {
                    identity,
                    reconnect,
                    stage: InitiatorStage::Response(session),
                };
                Ok((run, Action::Exchange(one_frame(frame))))
            },
            (InitiatorStage::Response(session), Event::Frame(frame)) => {
                assert(start.stepped(event@, old(store)@, none).1 == store@);
                let mut session = session;
                let encoded: Vec<u8> = open_message(&mut session, frame.as_slice())?;
                let run = InitiatorRun {
                    identity,
                    reconnect,
                    stage: InitiatorStage::ResponseRead(session),
                };
                Ok((run, Action::Parse(encoded)))
            },
            (InitiatorStage::ResponseRead(session), Event::Message(message)) => {
                assert(start.stepped(event@, old(store)@, none) == start.answered(
                    session@,
                    message@,
                    old(store)@,
                ));
                Self::answer(identity, reconnect, session, message, store)
            },
            (InitiatorStage::Finalized(session, record), Event::Frame(frame)) => {
                assert(start.stepped(event@, old(store)@, none).1 == store@);
                let mut session = session;
                let encoded: Vec<u8> = open_message(&mut session, frame.as_slice())?;
                let run = InitiatorRun {
                    identity,
                    reconnect,
                    stage: InitiatorStage::FinalizedRead(session, record),
                };
                Ok((run, Action::Parse(encoded)))
            },
            (InitiatorStage::FinalizedRead(session, record), Event::Message(message)) => {
                assert(start.stepped(event@, old(store)@, none) == start.concluded(
                    session@,
                    record@,
                    message@,
                    old(store)@,
                ));
                Self::conclude(identity, reconnect, session, record, message, store)
            },
            _ => {
                assert(start.stepped(event@, old(store)@, none).1 == store@);
                Err(SyncError::EventUnexpected)
            },
        }
    }

    /// Decides on the responder's answer to the request.
    fn answer(
        identity: DeviceIdentity,
        reconnect: bool,
        session: AuthenticatedPairingSession,
        message: ReceivedMessage,
        store: &mut PairingStore,
    ) -> (result: Result<(Self, Action), SyncError>)
        requires
            session@.wf(),
        ensures
            ({
                let run = InitiatorRunView {
                    identity: identity@,
                    reconnect,
                    stage: InitiatorStageView::ResponseRead(session@),
                };
                &&& (step_outcome(result), final(store)@) == run.answered(
                    session@,
                    message@,
                    old(store)@,
                )
                &&& result is Ok <==> run.takes_answer(session@, message@, old(store)@)
            }),
            result matches Ok((run, _)) ==> run@.wf(),
    {
        match message {
            ReceivedMessage::Malformed => Err(SyncError::AppMessage),
            ReceivedMessage::Complete(received) => {
                if !reconnect {
                    return Err(SyncError::ResponseUnexpected);
                }
                let complete = accept_record(received)?;
                let run = InitiatorRun {
                    identity,
                    reconnect,
                    stage: InitiatorStage::Finalized(session, complete),
                };
                Ok((run, Action::Exchange(no_frames())))
            },
            ReceivedMessage::Prepared(received) => {
                let record = accept_record(received)?;
                let complete = complete_record(&session, &identity, store, record)?;
                let mut session = session;
                let frame: Vec<u8> = seal_complete(&mut session, &complete)?;
                let run = InitiatorRun {
                    identity,
                    reconnect,
                    stage: InitiatorStage::Finalized(session, complete),
                };
                Ok((run, Action::Exchange(one_frame(frame))))
            },
            _ => Err(SyncError::ResponseUnexpected),
        }
    }

    /// Decides on the final acknowledgement.
    fn conclude(
        identity: DeviceIdentity,
        reconnect: bool,
        session: AuthenticatedPairingSession,
        record: PairingRecord,
        message: ReceivedMessage,
        store: &mut PairingStore,
    ) -> (result: Result<(Self, Action), SyncError>)
        ensures
            ({
                let run = InitiatorRunView {
                    identity: identity@,
                    reconnect,
                    stage: InitiatorStageView::FinalizedRead(session@, record@),
                };
                (step_outcome(result), final(store)@) == run.concluded(
                    session@,
                    record@,
                    message@,
                    old(store)@,
                )
            }),
            result matches Ok((run, _)) ==> run@.wf(),
    {
        match message {
            ReceivedMessage::Malformed => Err(SyncError::AppMessage),
            ReceivedMessage::Finalized => {
                store.reconcile(&session, &identity, &record)?;
                let run = InitiatorRun { identity, reconnect, stage: InitiatorStage::Done };
                Ok((run, Action::Finish(no_frames())))
            },
            _ => Err(SyncError::FinalizedExpected),
        }
    }
}

// ---------------------------------------------------------------------------
// The responding side.
// ---------------------------------------------------------------------------
/// Where a responding run stands.
pub enum ResponderStageView {
    /// The initiator's last handshake message is awaited.
    Handshake(ResponderView),
    /// The initiator's hello is awaited; the handshake message is held.
    Hello(ResponderView, Seq<u8>),
    /// The initiator's signature is awaited.
    Signature(ResponderView),
    /// The request is awaited.
    Request(SessionView),
    /// The request is being parsed.
    RequestRead(SessionView),
    /// The local user is deciding.
    Decision(SessionView),
    /// The completed record is awaited.
    Complete(SessionView),
    /// The completed record is being parsed.
    CompleteRead(SessionView),
    /// The run is over.
    Done,
}

/// The state of a responding run.
pub struct ResponderRunView {
    pub identity: Seq<u8>,
    pub reconnect_start: bool,
    pub active_pair: Option<Seq<char>>,
    pub pending: Option<RecordView>,
    pub stage: ResponderStageView,
}

/// The responder that a run sets up.
pub open spec fn responder_ready(
    plan: Option<ContextView>,
    identity: Seq<u8>,
    enrollment: EnrollmentView,
    peer: Seq<char>,
    now: u64,
) -> Result<ResponderView, SyncError> {
    match plan {
        Some(context) => match context.role_of(identity) {
            None => Err(SyncError::NotParticipant),
            Some(role) => if role != ROLE_RESPONDER {
                Err(SyncError::NotResponder)
            } else {
                Ok(
                    ResponderView::fresh(
                        identity,
                        Some(context.pair_id),
                        context.responder_certificate,
                        context.initiator_device_id,
                        ValidationView::Paired(context),
                    ),
                )
            },
        },
        None => match setup_error(identity, enrollment.certificate, peer, enrollment.root, now) {
            Some(error) => Err(error),
            None => Ok(
                ResponderView::fresh(
                    identity,
                    None,
                    enrollment.certificate,
                    peer,
                    ValidationView::Current { root: enrollment.root, now },
                ),
            ),
        },
    }
}

impl ResponderRunView {
    /// How a run begins on a start frame, when its static key is `secret` and
    /// Noise draws `ephemeral`.
    pub open spec fn begun(
        store: StoreView,
        identity: Seq<u8>,
        enrollment: EnrollmentView,
        local: Seq<char>,
        peer: Seq<char>,
        now: u64,
        start: Seq<u8>,
        secret: Seq<u8>,
        ephemeral: Seq<u8>,
    ) -> Result<(ResponderRunView, ActionView), SyncError> {
        match start_parsed(start, MAX_HANDSHAKE_FRAME as int) {
            Err(error) => Err(error),
            Ok(opening) => {
                let reconnect_start = opening.mode == MODE_RECONNECT;
                match responder_plan(store, identity, local, peer, reconnect_start) {
                    Err(error) => Err(error),
                    Ok((active_pair, pending, context)) => match responder_ready(
                        context,
                        identity,
                        enrollment,
                        peer,
                        now,
                    ) {
                        Err(error) => Err(error),
                        Ok(responder) => {
                            let (reply, after) = responder.after_start(start, secret, ephemeral);
                            match reply {
                                Err(error) => Err(error),
                                Ok(frame) => Ok(
                                    (
                                        ResponderRunView {
                                            identity,
                                            reconnect_start,
                                            active_pair,
                                            pending,
                                            stage: ResponderStageView::Handshake(after),
                                        },
                                        ActionView::Exchange(seq![frame]),
                                    ),
                                ),
                            }
                        },
                    },
                }
            },
        }
    }

    /// Whether a run can begin on a start frame, when its static key is
    /// `secret`: the store says how, the local identity may answer the pairing
    /// that it plans, and the responder takes the frame.
    pub open spec fn can_begin(
        store: StoreView,
        identity: Seq<u8>,
        enrollment: EnrollmentView,
        local: Seq<char>,
        peer: Seq<char>,
        now: u64,
        start: Seq<u8>,
        secret: Seq<u8>,
    ) -> bool {
        &&& start_parsed(start, MAX_HANDSHAKE_FRAME as int) matches Ok(opening)
        &&& responder_plan(store, identity, local, peer, opening.mode == MODE_RECONNECT) matches Ok(
            (_, _, context),
        )
        &&& responder_ready(context, identity, enrollment, peer, now) matches Ok(responder)
        &&& responder.takes_start(start, secret)
    }

    /// The run in another stage.
    pub open spec fn at(self, stage: ResponderStageView) -> ResponderRunView {
        ResponderRunView { stage, ..self }
    }

    /// The states that the run holds are well-formed.
    pub open spec fn wf(self) -> bool {
        match self.stage {
            ResponderStageView::Handshake(r) => r.wf(),
            ResponderStageView::Hello(r, _) => r.wf(),
            ResponderStageView::Signature(r) => r.wf(),
            ResponderStageView::Request(s) => s.wf(),
            ResponderStageView::RequestRead(s) => s.wf(),
            ResponderStageView::Decision(s) => s.wf(),
            ResponderStageView::Complete(s) => s.wf(),
            ResponderStageView::CompleteRead(s) => s.wf(),
            ResponderStageView::Done => true,
        }
    }

    /// The outcome of preparing a record: it is sent to the initiator.
    pub open spec fn offered(
        self,
        s: SessionView,
        prepared: (Result<RecordView, SyncError>, StoreView),
    ) -> (Result<(ResponderRunView, ActionView), SyncError>, StoreView) {
        (
            match prepared.0 {
                Err(error) => Err(error),
                Ok(record) => {
                    let (sealed, sent) = prepared_sealed(s, record);
                    match sealed {
                        Err(error) => Err(error),
                        Ok(frame) => Ok(
                            (
                                self.at(ResponderStageView::Complete(sent)),
                                ActionView::Exchange(seq![frame]),
                            ),
                        ),
                    }
                },
            },
            prepared.1,
        )
    }

    /// The outcome of confirming an active pairing: its record and the final
    /// acknowledgement are sent, and the run is over.
    pub open spec fn confirmed(self, s: SessionView, record: RecordView) -> Result<
        (ResponderRunView, ActionView),
        SyncError,
    > {
        let (first, sent) = complete_sealed(s, record);
        match first {
            Err(error) => Err(error),
            Ok(record_frame) => match message_sealed(sent, MessageView::Finalized).0 {
                Err(error) => Err(error),
                Ok(frame) => Ok(
                    (
                        self.at(ResponderStageView::Done),
                        ActionView::Finish(seq![record_frame, frame]),
                    ),
                ),
            },
        }
    }

    /// What a run makes of the request: an active pairing is confirmed, a
    /// pending one is resumed without asking again, and a stranger is put to
    /// the local user.
    pub open spec fn requested(self, s: SessionView, message: ReceivedView, store: StoreView) -> (
        Result<(ResponderRunView, ActionView), SyncError>,
        StoreView,
    ) {
        match message {
            ReceivedView::Malformed => (Err(SyncError::AppMessage), store),
            ReceivedView::Request => match self.active_pair {
                Some(pair_id) => (
                    match store.loaded(pair_id) {
                        Err(error) => Err(error),
                        Ok(None) => Err(SyncError::ActiveDisappeared),
                        Ok(Some(record)) => self.confirmed(s, record),
                    },
                    store,
                ),
                None => match self.pending {
                    Some(record) => if self.reconnect_start {
                        self.offered(s, (Ok(record), store))
                    } else {
                        self.offered(s, store.resumed(s, self.identity, record))
                    },
                    None => (
                        match session_identity_error(s, self.identity) {
                            Some(error) => Err(error),
                            None => Ok(
                                (
                                    self.at(ResponderStageView::Decision(s)),
                                    ActionView::Authorize(s.peer_certificate),
                                ),
                            ),
                        },
                        store,
                    ),
                },
            },
            _ => (Err(SyncError::RequestExpected), store),
        }
    }

    /// What a run makes of the completed record: a bilateral one becomes
    /// active, by its own session or by reconciliation, and then the initiator
    /// is told.
    pub open spec fn concluded(self, s: SessionView, message: ReceivedView, store: StoreView) -> (
        Result<(ResponderRunView, ActionView), SyncError>,
        StoreView,
    ) {
        let told = match message_sealed(s, MessageView::Finalized).0 {
            Err(error) => Err(error),
            Ok(frame) => Ok(
                (self.at(ResponderStageView::Done), ActionView::Finish(seq![frame])),
            ),
        };
        match message {
            ReceivedView::Malformed => (Err(SyncError::AppMessage), store),
            ReceivedView::Complete(Err(error)) => (Err(error), store),
            ReceivedView::Complete(Ok(record)) => if !record.complete() {
                (told, store)
            } else {
                let (result, after) = store.accepted(
                    s,
                    self.identity,
                    record,
                    record.session_binding != s.session_binding,
                );
                match result {
                    Err(error) => (Err(error), after),
                    Ok(_) => (told, after),
                }
            },
            _ => (Err(SyncError::CompleteExpected), store),
        }
    }

    /// Whether a run can take the request.
    pub open spec fn takes_request(
        self,
        s: SessionView,
        message: ReceivedView,
        store: StoreView,
    ) -> bool {
        &&& message is Request
        &&& match self.active_pair {
            Some(pair_id) => {
                &&& store.loaded(pair_id) matches Ok(Some(record))
                &&& sends_complete(s, record)
                &&& app_encoded(MessageView::Finalized) is Ok
                &&& s.transport.send_nonce + 1 < u64::MAX
            },
            None => match self.pending {
                Some(record) => if self.reconnect_start {
                    sends_prepared(s, record)
                } else {
                    &&& store.resumed(s, self.identity, record).0 matches Ok(resumed)
                    &&& sends_prepared(s, resumed)
                },
                None => session_identity_error(s, self.identity) is None,
            },
        }
    }

    /// Whether a run can take the completed record.
    pub open spec fn takes_complete(
        self,
        s: SessionView,
        message: ReceivedView,
        store: StoreView,
    ) -> bool {
        &&& message matches ReceivedView::Complete(Ok(record))
        &&& record.complete() ==> store.accepted(
            s,
            self.identity,
            record,
            record.session_binding != s.session_binding,
        ).0 is Ok
        &&& sends(s, MessageView::Finalized)
    }

    /// Whether a run goes on with an event.
    pub open spec fn takes(self, event: EventView, store: StoreView) -> bool {
        match (self.stage, event) {
            (ResponderStageView::Handshake(_), EventView::Frame(_)) => true,
            (ResponderStageView::Hello(r, held), EventView::Frame(frame)) => r.takes_finish(
                held,
                frame,
            ),
            (ResponderStageView::Signature(r), EventView::Frame(frame)) => r.takes_signature(frame),
            (ResponderStageView::Request(s), EventView::Frame(frame)) => message_opened(
                s,
                frame,
            ).0 is Ok,
            (
                ResponderStageView::RequestRead(s),
                EventView::Message(message),
            ) => self.takes_request(s, message, store),
            (ResponderStageView::Decision(s), EventView::Decision(decision)) => {
                &&& store.prepared(s, self.identity, decision).0 matches Ok(record)
                &&& sends_prepared(s, record)
            },
            (ResponderStageView::Complete(s), EventView::Frame(frame)) => message_opened(
                s,
                frame,
            ).0 is Ok,
            (
                ResponderStageView::CompleteRead(s),
                EventView::Message(message),
            ) => self.takes_complete(s, message, store),
            _ => false,
        }
    }

    /// What becomes of a run on an event.
    #[verifier::opaque]
    pub open spec fn stepped(self, event: EventView, store: StoreView) -> (
        Result<(ResponderRunView, ActionView), SyncError>,
        StoreView,
    ) {
        match (self.stage, event) {
            (ResponderStageView::Handshake(r), EventView::Frame(frame)) => (
                Ok(
                    (
                        self.at(ResponderStageView::Hello(r, frame)),
                        ActionView::Exchange(Seq::empty()),
                    ),
                ),
                store,
            ),
            (ResponderStageView::Hello(r, held), EventView::Frame(frame)) => {
                let (proof_frame, after) = r.after_finish(held, frame);
                (
                    match proof_frame {
                        Err(error) => Err(error),
                        Ok(reply) => Ok(
                            (
                                self.at(ResponderStageView::Signature(after)),
                                ActionView::Exchange(seq![reply]),
                            ),
                        ),
                    },
                    store,
                )
            },
            (ResponderStageView::Signature(r), EventView::Frame(frame)) => (
                match r.after_signature(frame).0 {
                    Err(error) => Err(error),
                    Ok((ack, s)) => Ok(
                        (
                            self.at(ResponderStageView::Request(s)),
                            ActionView::Exchange(seq![ack]),
                        ),
                    ),
                },
                store,
            ),
            (ResponderStageView::Request(s), EventView::Frame(frame)) => {
                let (message, after) = message_opened(s, frame);
                (
                    match message {
                        Err(error) => Err(error),
                        Ok(encoded) => Ok(
                            (
                                self.at(ResponderStageView::RequestRead(after)),
                                ActionView::Parse(encoded),
                            ),
                        ),
                    },
                    store,
                )
            },
            (ResponderStageView::RequestRead(s), EventView::Message(message)) => self.requested(
                s,
                message,
                store,
            ),
            (ResponderStageView::Decision(s), EventView::Decision(decision)) => self.offered(
                s,
                store.prepared(s, self.identity, decision),
            ),
            (ResponderStageView::Complete(s), EventView::Frame(frame)) => {
                let (message, after) = message_opened(s, frame);
                (
                    match message {
                        Err(error) => Err(error),
                        Ok(encoded) => Ok(
                            (
                                self.at(ResponderStageView::CompleteRead(after)),
                                ActionView::Parse(encoded),
                            ),
                        ),
                    },
                    store,
                )
            },
            (ResponderStageView::CompleteRead(s), EventView::Message(message)) => self.concluded(
                s,
                message,
                store,
            ),
            _ => (Err(SyncError::EventUnexpected), store),
        }
    }
}

enum ResponderStage {
    Handshake(PairingResponder),
    Hello(PairingResponder, Vec<u8>),
    Signature(PairingResponder),
    Request(AuthenticatedPairingSession),
    RequestRead(AuthenticatedPairingSession),
    Decision(AuthenticatedPairingSession),
    Complete(AuthenticatedPairingSession),
    CompleteRead(AuthenticatedPairingSession),
    Done,
}

impl ResponderStage {
    spec fn model(&self) -> ResponderStageView {
        match self {
            ResponderStage::Handshake(r) => ResponderStageView::Handshake(r@),
            ResponderStage::Hello(r, held) => ResponderStageView::Hello(r@, held@),
            ResponderStage::Signature(r) => ResponderStageView::Signature(r@),
            ResponderStage::Request(s) => ResponderStageView::Request(s@),
            ResponderStage::RequestRead(s) => ResponderStageView::RequestRead(s@),
            ResponderStage::Decision(s) => ResponderStageView::Decision(s@),
            ResponderStage::Complete(s) => ResponderStageView::Complete(s@),
            ResponderStage::CompleteRead(s) => ResponderStageView::CompleteRead(s@),
            ResponderStage::Done => ResponderStageView::Done,
        }
    }
}

/// What a responding run keeps from its beginning.
struct ResponderTerms {
    identity: DeviceIdentity,
    reconnect_start: bool,
    active_pair: Option<String>,
    pending: Option<PairingRecord>,
}

impl ResponderTerms {
    spec fn at(&self, stage: ResponderStageView) -> ResponderRunView {
        ResponderRunView {
            identity: self.identity@,
            reconnect_start: self.reconnect_start,
            active_pair: optional_text(self.active_pair),
            pending: optional_record(self.pending),
            stage,
        }
    }
}

/// A run of a pairing on the responding side.
pub struct ResponderRun {
    terms: ResponderTerms,
    stage: ResponderStage,
}

impl View for ResponderRun {
    type V = ResponderRunView;

    closed spec fn view(&self) -> ResponderRunView {
        self.terms.at(self.stage.model())
    }
}

impl ResponderRun {
    /// Sets up a run on the start frame of a discovered peer.
    pub fn begin(
        store: &PairingStore,
        identity: &DeviceIdentity,
        enrollment: &Enrollment,
        local_device_id: &str,
        peer_device_id: &str,
        now: u64,
        start: &[u8],
    ) -> (result: Result<(Self, Action), SyncError>)
        ensures
            exists|secret: Seq<u8>, ephemeral: Seq<u8>|
                secret.len() == 32 && ephemeral.len() == 32 && step_outcome(result)
                    == #[trigger] ResponderRunView::begun(
                    store@,
                    identity@,
                    enrollment@,
                    local_device_id@,
                    peer_device_id@,
                    now,
                    start@,
                    secret,
                    ephemeral,
                ) && (result is Ok <==> ResponderRunView::can_begin(
                    store@,
                    identity@,
                    enrollment@,
                    local_device_id@,
                    peer_device_id@,
                    now,
                    start@,
                    secret,
                )),
            result matches Ok((run, _)) ==> run@.wf(),
    {
        let ghost zeros = Seq::new(32, |i: int| 0u8);
        let ghost begun = |secret: Seq<u8>, ephemeral: Seq<u8>|
            ResponderRunView::begun(
                store@,
                identity@,
                enrollment@,
                local_device_id@,
                peer_device_id@,
                now,
                start@,
                secret,
                ephemeral,
            );
        let set_up = Self::set_up(
            store,
            identity,
            enrollment,
            local_device_id,
            peer_device_id,
            now,
            start,
        );
        let (terms, mut responder) = match set_up {
            Ok(parts) => parts,
            Err(error) => {
                assert(begun(zeros, zeros) is Err);
                return Err(error);
            },
        };
        let ghost before = responder@;
        let replied = responder.receive_initiator_start(start);
        let ghost (secret, ephemeral) = choose|secret: Seq<u8>, ephemeral: Seq<u8>|
            secret.len() == 32 && ephemeral.len() == 32 && (outcome(replied), responder@)
                == #[trigger] before.after_start(start@, secret, ephemeral) && (replied is Ok
                <==> before.takes_start(start@, secret));
        let ghost expected = begun(secret, ephemeral);
        let frame: Vec<u8> = replied?;
        let run = ResponderRun { terms, stage: ResponderStage::Handshake(responder) };
        let action = Action::Exchange(one_frame(frame));
        assert(expected == Ok::<(ResponderRunView, ActionView), SyncError>((run@, action@)));
        Ok((run, action))
    }

    /// The terms and the responder of a run.
    fn set_up(
        store: &PairingStore,
        identity: &DeviceIdentity,
        enrollment: &Enrollment,
        local_device_id: &str,
        peer_device_id: &str,
        now: u64,
        start: &[u8],
    ) -> (result: Result<(ResponderTerms, PairingResponder), SyncError>)
        ensures
            match start_parsed(start@, MAX_HANDSHAKE_FRAME as int) {
                Err(error) => result == Err::<(ResponderTerms, PairingResponder), SyncError>(error),
                Ok(opening) => match responder_plan(
                    store@,
                    identity@,
                    local_device_id@,
                    peer_device_id@,
                    opening.mode == MODE_RECONNECT,
                ) {
                    Err(error) => result == Err::<(ResponderTerms, PairingResponder), SyncError>(
                        error,
                    ),
                    Ok((active_pair, pending, context)) => match responder_ready(
                        context,
                        identity@,
                        enrollment@,
                        peer_device_id@,
                        now,
                    ) {
                        Err(error) => result == Err::<
                            (ResponderTerms, PairingResponder),
                            SyncError,
                        >(error),
                        Ok(ready) => {
                            &&& result matches Ok((terms, responder))
                            &&& terms.identity@ == identity@
                            &&& terms.reconnect_start == (opening.mode == MODE_RECONNECT)
                            &&& optional_text(terms.active_pair) == active_pair
                            &&& optional_record(terms.pending) == pending
                            &&& responder@ == ready
                            &&& responder@.wf()
                        },
                    },
                },
            },
    {
        let reconnect_start = PairingResponder::start_is_reconnect(start)?;
        let plan = plan_responder(
            store,
            identity,
            local_device_id,
            peer_device_id,
            reconnect_start,
        )?;
        let responder = match plan.context {
            Some(context) => PairingResponder::new_reconnect(identity.clone(), context)?,
            None => PairingResponder::new(
                identity.clone(),
                enrollment.certificate.clone(),
                peer_device_id.to_string(),
                enrollment.root.clone(),
                now,
            )?,
        };
        let terms = ResponderTerms {
            identity: identity.clone(),
            reconnect_start,
            active_pair: plan.active_pair,
            pending: plan.pending,
        };
        Ok((terms, responder))
    }

    /// Takes an event and says what to do next. After an error the run is over;
    /// the changes in the store's journal stand.
    pub fn step(self, event: Event, store: &mut PairingStore) -> (result: Result<
        (Self, Action),
        SyncError,
    >)
        requires
            self@.wf(),
        ensures
            (step_outcome(result), final(store)@) == self@.stepped(event@, old(store)@),
            result is Ok <==> self@.takes(event@, old(store)@),
            result matches Ok((run, _)) ==> run@.wf(),
    {
        proof {
            reveal(ResponderRunView::stepped);
        }
        let ResponderRun { terms, stage } = self;
        match (stage, event) {
            (ResponderStage::Handshake(responder), Event::Frame(frame)) => {
                let run = ResponderRun { terms, stage: ResponderStage::Hello(responder, frame) };
                Ok((run, Action::Exchange(no_frames())))
            },
            (ResponderStage::Hello(responder, held), Event::Frame(frame)) => {
                let mut responder = responder;
                let reply: Vec<u8> = responder.receive_initiator_finish(
                    held.as_slice(),
                    frame.as_slice(),
                )?;
                let run = ResponderRun { terms, stage: ResponderStage::Signature(responder) };
                Ok((run, Action::Exchange(one_frame(reply))))
            },
            (ResponderStage::Signature(responder), Event::Frame(frame)) => {
                let mut responder = responder;
                let (ack, session) = responder.receive_initiator_auth(frame.as_slice())?;
                let run = ResponderRun { terms, stage: ResponderStage::Request(session) };
                Ok((run, Action::Exchange(one_frame(ack))))
            },
            (ResponderStage::Request(session), Event::Frame(frame)) => {
                let mut session = session;
                let encoded: Vec<u8> = open_message(&mut session, frame.as_slice())?;
                let run = ResponderRun { terms, stage: ResponderStage::RequestRead(session) };
                Ok((run, Action::Parse(encoded)))
            },
            (ResponderStage::RequestRead(session), Event::Message(message)) => Self::answer(
                terms,
                session,
                message,
                store,
            ),
            (ResponderStage::Decision(session), Event::Decision(decision)) => {
                let record = store.prepare_decided(&session, &terms.identity, decision)?;
                Self::offer(terms, session, record)
            },
            (ResponderStage::Complete(session), Event::Frame(frame)) => {
                let mut session = session;
                let encoded: Vec<u8> = open_message(&mut session, frame.as_slice())?;
                let run = ResponderRun { terms, stage: ResponderStage::CompleteRead(session) };
                Ok((run, Action::Parse(encoded)))
            },
            (ResponderStage::CompleteRead(session), Event::Message(message)) => Self::conclude(
                terms,
                session,
                message,
                store,
            ),
            _ => Err(SyncError::EventUnexpected),
        }
    }

    /// Offers a prepared record to the initiator.
    fn offer(
        terms: ResponderTerms,
        session: AuthenticatedPairingSession,
        record: PairingRecord,
    ) -> (result: Result<(Self, Action), SyncError>)
        requires
            session@.wf(),
        ensures
            forall|before: ResponderStageView, store: StoreView|
                step_outcome(result) == (#[trigger] terms.at(before).offered(
                    session@,
                    (Ok(record@), store),
                )).0,
            result is Ok <==> sends_prepared(session@, record@),
            result matches Ok((run, _)) ==> run@.wf(),
    {
        let mut session = session;
        let frame: Vec<u8> = seal_prepared(&mut session, &record)?;
        let run = ResponderRun { terms, stage: ResponderStage::Complete(session) };
        Ok((run, Action::Exchange(one_frame(frame))))
    }

    /// Decides on the initiator's request.
    fn answer(
        terms: ResponderTerms,
        session: AuthenticatedPairingSession,
        message: ReceivedMessage,
        store: &mut PairingStore,
    ) -> (result: Result<(Self, Action), SyncError>)
        requires
            session@.wf(),
        ensures
            (step_outcome(result), final(store)@) == terms.at(
                ResponderStageView::RequestRead(session@),
            ).requested(session@, message@, old(store)@),
            result is Ok <==> terms.at(ResponderStageView::RequestRead(session@)).takes_request(
                session@,
                message@,
                old(store)@,
            ),
            result matches Ok((run, _)) ==> run@.wf(),
    {
        match message {
            ReceivedMessage::Malformed => {
                return Err(SyncError::AppMessage);
            },
            ReceivedMessage::Request => {},
            _ => {
                return Err(SyncError::RequestExpected);
            },
        }
        match &terms.active_pair {
            Some(pair_id) => {
                let record = match store.load(pair_id.as_str())? {
                    Some(record) => record,
                    None => {
                        return Err(SyncError::ActiveDisappeared);
                    },
                };
                let mut session = session;
                let first: Vec<u8> = seal_complete(&mut session, &record)?;
                let second: Vec<u8> = seal_message(&mut session, &PairMessage::Finalized)?;
                let run = ResponderRun { terms, stage: ResponderStage::Done };
                return Ok((run, Action::Finish(two_frames(first, second))));
            },
            None => {},
        }
        let prepared = match &terms.pending {
            Some(record) => if terms.reconnect_start {
                record.clone()
            } else {
                store.resume_prepare(&session, &terms.identity, record)?
            },
            None => {
                validate_session_identity(&session, &terms.identity)?;
                let peer = session.peer_certificate().clone();
                let run = ResponderRun { terms, stage: ResponderStage::Decision(session) };
                return Ok((run, Action::Authorize(peer)));
            },
        };
        Self::offer(terms, session, prepared)
    }

    /// Decides on the completed record.
    fn conclude(
        terms: ResponderTerms,
        session: AuthenticatedPairingSession,
        message: ReceivedMessage,
        store: &mut PairingStore,
    ) -> (result: Result<(Self, Action), SyncError>)
        requires
            session@.wf(),
        ensures
            (step_outcome(result), final(store)@) == terms.at(
                ResponderStageView::CompleteRead(session@),
            ).concluded(session@, message@, old(store)@),
            result is Ok <==> terms.at(ResponderStageView::CompleteRead(session@)).takes_complete(
                session@,
                message@,
                old(store)@,
            ),
            result matches Ok((run, _)) ==> run@.wf(),
    {
        let record = match message {
            ReceivedMessage::Malformed => {
                return Err(SyncError::AppMessage);
            },
            ReceivedMessage::Complete(received) => accept_record(received)?,
            _ => {
                return Err(SyncError::CompleteExpected);
            },
        };
        if record.is_complete() {
            let binding: [u8; 32] = session.session_binding();
            if bytes_eq(record.session_binding.as_slice(), binding.as_slice()) {
                store.finalize(&session, &terms.identity, &record)?;
            } else {
                store.reconcile(&session, &terms.identity, &record)?;
            }
        }
        let mut session = session;
        let frame: Vec<u8> = seal_message(&mut session, &PairMessage::Finalized)?;
        let run = ResponderRun { terms, stage: ResponderStage::Done };
        Ok((run, Action::Finish(one_frame(frame))))
    }
}

} // verus!
