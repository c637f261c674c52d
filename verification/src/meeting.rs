//! How two runs meet: from the first frame of an attempt until each end has
//! authenticated the other.
use crate::authentication::transcript_bytes;
use crate::conduct::{frame_of, in_step, run_of};
use crate::crypto::ed25519_public;
use crate::error::SyncError;
use crate::exchange::{
    aead_sound, comes_of, ends_agree, handshake_delivers, honest_exchange_completes, initiator_info,
    matched, noise_sound, set_up, shared_transcript, signs,
};
use crate::frames::{
    start_parsed, start_round_trip, StartView, MAX_HANDSHAKE_FRAME, MODE_RECONNECT, ROLE_INITIATOR,
    ROLE_RESPONDER,
};
use crate::identity::device_id_of;
use crate::noise::{handshake_written, noise_start};
use crate::pairing::{prologue, InitiatorView, ResponderView, SessionView};
use crate::pairing_run::{
    initiator_plan, initiator_ready, responder_plan, responder_ready, ActionView, EventView,
    InitiatorRunView, InitiatorStageView, ResponderRunView, ResponderStageView,
};
use crate::record::RecordView;
use crate::runtime_v3::EnrollmentView;
use crate::text::is_id;
use crate::trust::StoreView;
use vstd::prelude::*;

verus! {

/// One end of an attempt: its identity and enrollment, the DeviceID of the peer
/// that it has discovered, and its store, opened for this attempt.
pub struct EndView {
    pub identity: Seq<u8>,
    pub enrollment: EnrollmentView,
    pub peer: Seq<char>,
    pub store: StoreView,
}

impl EndView {
    /// The key of the end.
    pub open spec fn key(self) -> Seq<u8> {
        ed25519_public(self.identity)
    }

    /// The DeviceID of the end.
    pub open spec fn id(self) -> Seq<char> {
        device_id_of(self.key())
    }
}

/// What an attempt draws at random: the PairID that a stranger is met under,
/// the Noise static key of the initiator and of the responder, and the three
/// ephemeral keys.
pub struct Draws {
    pub pair_id: Seq<char>,
    pub i_secret: Seq<u8>,
    pub r_secret: Seq<u8>,
    pub e1: Seq<u8>,
    pub e2: Seq<u8>,
    pub e3: Seq<u8>,
}

impl Draws {
    /// The keys have thirty-two bytes.
    pub open spec fn wf(self) -> bool {
        &&& self.i_secret.len() == 32
        &&& self.r_secret.len() == 32
        &&& self.e1.len() == 32
        &&& self.e2.len() == 32
        &&& self.e3.len() == 32
    }
}

/// The frames that a step writes.
pub open spec fn frames_of<R>(step: (Result<(R, ActionView), SyncError>, StoreView)) -> Seq<
    Seq<u8>,
> {
    match step.0->Ok_0.1 {
        ActionView::Exchange(frames) => frames,
        ActionView::Finish(frames) => frames,
        _ => Seq::empty(),
    }
}

/// The steps of two runs up to the signature of the initiator, each with what
/// the step before it wrote.
pub struct MeetingView {
    pub began: (Result<(InitiatorRunView, ActionView), SyncError>, StoreView),
    pub replied: (Result<(ResponderRunView, ActionView), SyncError>, StoreView),
    pub greeted: (Result<(InitiatorRunView, ActionView), SyncError>, StoreView),
    pub held: (Result<(ResponderRunView, ActionView), SyncError>, StoreView),
    pub proved: (Result<(ResponderRunView, ActionView), SyncError>, StoreView),
    pub signed: (Result<(InitiatorRunView, ActionView), SyncError>, StoreView),
}

impl MeetingView {
    /// The initiating run, which awaits the acknowledgement.
    pub open spec fn initiator(self) -> InitiatorRunView {
        run_of(self.signed)
    }

    /// The responding run, which awaits the signature.
    pub open spec fn responder(self) -> ResponderRunView {
        run_of(self.proved)
    }

    /// The frame with the signature.
    pub open spec fn signature(self) -> Seq<u8> {
        frame_of(self.signed)
    }

    /// The acknowledgement, and the session of the responder.
    pub open spec fn acknowledged(self) -> (Seq<u8>, SessionView) {
        self.responder().stage->Signature_0.after_signature(self.signature()).0->Ok_0
    }

    /// The session of the responder.
    pub open spec fn responder_session(self) -> SessionView {
        self.acknowledged().1
    }

    /// The session of the initiator.
    pub open spec fn initiator_session(self) -> SessionView {
        self.initiator().stage->Ack_0.after_ack(self.acknowledged().0).0->Ok_0
    }

    /// Whether every step succeeded.
    pub open spec fn succeeded(self) -> bool {
        &&& self.began.0 is Ok
        &&& self.replied.0 is Ok
        &&& self.greeted.0 is Ok
        &&& self.held.0 is Ok
        &&& self.proved.0 is Ok
        &&& self.signed.0 is Ok
    }

    /// Whether every step left the stores as they were.
    pub open spec fn leaves(self, i_store: StoreView, r_store: StoreView) -> bool {
        &&& self.began.1 == i_store
        &&& self.replied.1 == r_store
        &&& self.greeted.1 == i_store
        &&& self.held.1 == r_store
        &&& self.proved.1 == r_store
        &&& self.signed.1 == i_store
    }

    /// Whether each end has authenticated the other, in sessions that agree and
    /// are in step.
    pub open spec fn authenticated(self) -> bool {
        let si = self.initiator_session();
        let sr = self.responder_session();
        &&& self.initiator().stage matches InitiatorStageView::Ack(initiator)
        &&& self.responder().stage matches ResponderStageView::Signature(responder)
        &&& responder.after_signature(self.signature()).0 == Ok::<
            (Seq<u8>, SessionView),
            SyncError,
        >((self.acknowledged().0, sr))
        &&& initiator.after_ack(self.acknowledged().0).0 == Ok::<SessionView, SyncError>(si)
        &&& ends_agree(si, sr)
        &&& in_step(si, sr, 2, 2)
    }
}

/// How the initiating end begins.
#[verifier::opaque]
pub open spec fn begins(i: EndView, d: Draws) -> (
    Result<(InitiatorRunView, ActionView), SyncError>,
    StoreView,
) {
    (
        InitiatorRunView::begun(
            i.store,
            i.identity,
            i.enrollment,
            i.id(),
            i.peer,
            i.store.now,
            d.pair_id,
            d.i_secret,
            d.e1,
        ),
        i.store,
    )
}

/// How the responding end begins on a start frame.
#[verifier::opaque]
pub open spec fn replies(r: EndView, d: Draws, start: Seq<u8>) -> (
    Result<(ResponderRunView, ActionView), SyncError>,
    StoreView,
) {
    (
        ResponderRunView::begun(
            r.store,
            r.identity,
            r.enrollment,
            r.id(),
            r.peer,
            r.store.now,
            start,
            d.r_secret,
            d.e2,
        ),
        r.store,
    )
}

/// How two ends meet: the first begins, and each answers the other.
pub open spec fn meeting(i: EndView, r: EndView, d: Draws) -> MeetingView {
    let began = begins(i, d);
    let replied = replies(r, d, frames_of(began)[1]);
    let greeted = run_of(began).stepped(EventView::Frame(frame_of(replied)), began.1, d.e3);
    let held = run_of(replied).stepped(EventView::Frame(frames_of(greeted)[0]), replied.1);
    let proved = run_of(held).stepped(EventView::Frame(frames_of(greeted)[1]), held.1);
    let signed = run_of(greeted).stepped(EventView::Frame(frame_of(proved)), greeted.1, d.e3);
    MeetingView { began, replied, greeted, held, proved, signed }
}

/// Whether the initiator means to reconnect.
#[verifier::opaque]
pub open spec fn reconnects(i: EndView) -> bool {
    initiator_plan(i.store, i.identity, i.id(), i.peer)->Ok_0 is Some
}

/// The initiator that an end sets up.
#[verifier::opaque]
pub open spec fn initiator_of(i: EndView, d: Draws) -> InitiatorView {
    initiator_ready(
        initiator_plan(i.store, i.identity, i.id(), i.peer)->Ok_0,
        i.identity,
        i.enrollment,
        i.peer,
        i.store.now,
        d.pair_id,
        d.i_secret,
    )->Ok_0
}

/// What the responder finds about its peer: the active PairID and the pending
/// record.
#[verifier::opaque]
pub open spec fn found_by(r: EndView, reconnect: bool) -> (
    Option<Seq<char>>,
    Option<RecordView>,
) {
    let plan = responder_plan(r.store, r.identity, r.id(), r.peer, reconnect)->Ok_0;
    (plan.0, plan.1)
}

/// The responder that an end sets up.
#[verifier::opaque]
pub open spec fn responder_of(r: EndView, reconnect: bool) -> ResponderView {
    responder_ready(
        responder_plan(r.store, r.identity, r.id(), r.peer, reconnect)->Ok_0.2,
        r.identity,
        r.enrollment,
        r.peer,
        r.store.now,
    )->Ok_0
}

/// Whether two ends can be set up, and are then set up for each other.
#[verifier::opaque]
pub open spec fn ready(i: EndView, r: EndView, d: Draws) -> bool {
    let reconnect = reconnects(i);
    let plan = initiator_plan(i.store, i.identity, i.id(), i.peer);
    let found = responder_plan(r.store, r.identity, r.id(), r.peer, reconnect);
    let initiator = initiator_of(i, d);
    let responder = responder_of(r, reconnect);
    &&& plan is Ok
    &&& initiator_ready(
        plan->Ok_0,
        i.identity,
        i.enrollment,
        i.peer,
        i.store.now,
        d.pair_id,
        d.i_secret,
    ) is Ok
    &&& found is Ok
    &&& responder_ready(
        found->Ok_0.2,
        r.identity,
        r.enrollment,
        r.peer,
        r.store.now,
    ) is Ok
    &&& responder.pair_id is None || responder.pair_id == Some(initiator.pair_id)
    &&& set_up(initiator, (ResponderView { pair_id: Some(initiator.pair_id), ..responder }))
}

/// Whether the signatures of both ends over the transcript of their meeting are
/// accepted.
#[verifier::opaque]
pub open spec fn transcript_signed(i: EndView, r: EndView, d: Draws) -> bool {
    let initiator = initiator_of(i, d);
    let responder = responder_of(r, reconnects(i));
    let info = initiator_info(
        prologue(initiator.validation.mode(), initiator.pair_id),
        d.i_secret,
        d.r_secret,
        d.e1,
        d.e2,
        d.e3,
    );
    let transcript = transcript_bytes(shared_transcript(initiator, info, responder));
    &&& signs(i.identity, transcript, ROLE_INITIATOR)
    &&& signs(r.identity, transcript, ROLE_RESPONDER)
}

/// Whether two ends exchange all their frames, and come to sessions that agree.
#[verifier::opaque]
spec fn exchanged(i: InitiatorView, r: ResponderView, d: Draws) -> bool {
    let (start, i1) = i.started(d.e1);
    let (answer, r1) = r.after_start(start->Ok_0, d.r_secret, d.e2);
    let (finish, i2) = i1.after_handshake(answer->Ok_0, d.e3);
    let (proof_frame, r2) = r1.after_finish(finish->Ok_0.0, finish->Ok_0.1);
    let (signature_frame, i3) = i2.after_proof(proof_frame->Ok_0);
    let (acknowledged, _) = r2.after_signature(signature_frame->Ok_0);
    let (completed, _) = i3.after_ack(acknowledged->Ok_0.0);
    &&& start is Ok
    &&& answer is Ok
    &&& finish is Ok
    &&& proof_frame is Ok
    &&& signature_frame is Ok
    &&& acknowledged is Ok
    &&& completed is Ok
    &&& ends_agree(completed->Ok_0, acknowledged->Ok_0.1)
    &&& comes_of(completed->Ok_0, i, r)
    &&& matched(completed->Ok_0.transport, acknowledged->Ok_0.1.transport)
}

/// Ends that are set up have a plan.
proof fn ends_are_planned(i: EndView, r: EndView, d: Draws)
    requires
        ready(i, r, d),
    ensures
        ({
            let plan = initiator_plan(i.store, i.identity, i.id(), i.peer);
            let found = responder_plan(r.store, r.identity, r.id(), r.peer, reconnects(i));
            &&& plan is Ok
            &&& initiator_ready(
                plan->Ok_0,
                i.identity,
                i.enrollment,
                i.peer,
                i.store.now,
                d.pair_id,
                d.i_secret,
            ) is Ok
            &&& found is Ok
            &&& responder_ready(
                found->Ok_0.2,
                r.identity,
                r.enrollment,
                r.peer,
                r.store.now,
            ) is Ok
        }),
{
    reveal(ready);
}

/// Ends that are set up are new.
proof fn set_up_is_fresh(i: EndView, r: EndView, d: Draws)
    requires
        ready(i, r, d),
    ensures
        ({
            let initiator = initiator_of(i, d);
            let responder = responder_of(r, reconnects(i));
            &&& initiator == InitiatorView::fresh(
                i.identity,
                initiator.pair_id,
                initiator.certificate,
                initiator.expected_peer,
                initiator.validation,
                d.i_secret,
            )
            &&& responder == ResponderView::fresh(
                r.identity,
                responder.pair_id,
                responder.certificate,
                responder.expected_peer,
                responder.validation,
            )
            &&& is_id(initiator.pair_id)
            &&& initiator.validation.mode() == MODE_RECONNECT <==> reconnects(i)
        }),
{
    reveal(ready);
    reveal(reconnects);
    reveal(initiator_of);
    reveal(responder_of);
}

/// The initiating run begins with the start.
proof fn initiator_begins(i: EndView, r: EndView, d: Draws)
    requires
        ready(i, r, d),
        initiator_of(i, d).started(d.e1).0 is Ok,
    ensures
        begins(i, d).1 == i.store,
        begins(i, d).0 is Ok,
        run_of(begins(i, d)) == (InitiatorRunView {
            identity: i.identity,
            reconnect: reconnects(i),
            stage: InitiatorStageView::Handshake(initiator_of(i, d).started(d.e1).1),
        }),
        frames_of(begins(i, d))[1] == initiator_of(i, d).started(d.e1).0->Ok_0,
{
    ends_are_planned(i, r, d);
    reveal(reconnects);
    reveal(initiator_of);
    reveal(begins);
}

/// The responding run begins with the answer to a start of its kind.
proof fn responder_replies(i: EndView, r: EndView, d: Draws, start: Seq<u8>)
    requires
        ready(i, r, d),
        start_parsed(start, MAX_HANDSHAKE_FRAME as int) matches Ok(said) && (said.mode
            == MODE_RECONNECT <==> reconnects(i)),
        responder_of(r, reconnects(i)).after_start(start, d.r_secret, d.e2).0 is Ok,
    ensures
        ({
            let (answer, after) = responder_of(r, reconnects(i)).after_start(
                start,
                d.r_secret,
                d.e2,
            );
            let found = found_by(r, reconnects(i));
            let replied = replies(r, d, start);
            &&& replied.1 == r.store
            &&& replied.0 is Ok
            &&& run_of(replied) == (ResponderRunView {
                identity: r.identity,
                reconnect_start: reconnects(i),
                active_pair: found.0,
                pending: found.1,
                stage: ResponderStageView::Handshake(after),
            })
            &&& frame_of(replied) == answer->Ok_0
        }),
{
    ends_are_planned(i, r, d);
    reveal(responder_of);
    reveal(found_by);
    reveal(replies);
}

/// Two ends that are set up for each other exchange all their frames.
proof fn ends_exchange(i: EndView, r: EndView, d: Draws)
    requires
        noise_sound(),
        aead_sound(),
        d.wf(),
        ready(i, r, d),
        transcript_signed(i, r, d),
    ensures
        exchanged(initiator_of(i, d), responder_of(r, reconnects(i)), d),
{
    reveal(exchanged);
    reveal(ready);
    reveal(transcript_signed);
    set_up_is_fresh(i, r, d);
    honest_exchange_completes(
        initiator_of(i, d),
        responder_of(r, reconnects(i)),
        d.i_secret,
        d.r_secret,
        d.e1,
        d.e2,
        d.e3,
    );
}

/// The runs begin with the start and the answer to it.
proof fn runs_begin(i: EndView, r: EndView, d: Draws)
    requires
        noise_sound(),
        d.wf(),
        ready(i, r, d),
        exchanged(initiator_of(i, d), responder_of(r, reconnects(i)), d),
    ensures
        ({
            let m = meeting(i, r, d);
            let (start, i1) = initiator_of(i, d).started(d.e1);
            let (answer, r1) = responder_of(r, reconnects(i)).after_start(
                start->Ok_0,
                d.r_secret,
                d.e2,
            );
            let found = found_by(r, reconnects(i));
            &&& m.began.1 == i.store
            &&& m.began.0 is Ok
            &&& run_of(m.began) == (InitiatorRunView {
                identity: i.identity,
                reconnect: reconnects(i),
                stage: InitiatorStageView::Handshake(i1),
            })
            &&& m.replied.1 == r.store
            &&& m.replied.0 is Ok
            &&& run_of(m.replied) == (ResponderRunView {
                identity: r.identity,
                reconnect_start: reconnects(i),
                active_pair: found.0,
                pending: found.1,
                stage: ResponderStageView::Handshake(r1),
            })
            &&& frame_of(m.replied) == answer->Ok_0
        }),
{
    reveal(exchanged);
    let iv = initiator_of(i, d);
    let of = prologue(iv.validation.mode(), iv.pair_id);
    assert(handshake_delivers(of, d.i_secret, d.r_secret, d.e1, d.e2, d.e3));
    let message = handshake_written(noise_start(true, d.i_secret, of), d.e1)->Some_0.0;
    set_up_is_fresh(i, r, d);
    start_round_trip(
        StartView { mode: iv.validation.mode(), pair_id: iv.pair_id, message },
        MAX_HANDSHAKE_FRAME as int,
    );
    initiator_begins(i, r, d);
    responder_replies(i, r, d, iv.started(d.e1).0->Ok_0);
}

/// What an initiating run makes of the responder's handshake message, and of
/// its proof.
proof fn initiator_is_introduced(
    run: InitiatorRunView,
    v: InitiatorView,
    frame: Seq<u8>,
    store: StoreView,
    ephemeral: Seq<u8>,
)
    ensures
        (run.stage == InitiatorStageView::Handshake(v) && v.after_handshake(
            frame,
            ephemeral,
        ).0 is Ok) ==> run.stepped(EventView::Frame(frame), store, ephemeral) == (
            Ok::<(InitiatorRunView, ActionView), SyncError>(
                (
                    run.at(InitiatorStageView::Proof(v.after_handshake(frame, ephemeral).1)),
                    ActionView::Exchange(
                        seq![
                            v.after_handshake(frame, ephemeral).0->Ok_0.0,
                            v.after_handshake(frame, ephemeral).0->Ok_0.1,
                        ],
                    ),
                ),
            ),
            store,
        ),
        (run.stage == InitiatorStageView::Proof(v) && v.after_proof(frame).0 is Ok)
            ==> run.stepped(EventView::Frame(frame), store, ephemeral) == (
            Ok::<(InitiatorRunView, ActionView), SyncError>(
                (
                    run.at(InitiatorStageView::Ack(v.after_proof(frame).1)),
                    ActionView::Exchange(seq![v.after_proof(frame).0->Ok_0]),
                ),
            ),
            store,
        ),
{
    reveal(InitiatorRunView::stepped);
}

/// What a responding run makes of the initiator's last handshake message and
/// its hello.
proof fn responder_is_introduced(
    run: ResponderRunView,
    v: ResponderView,
    first: Seq<u8>,
    second: Seq<u8>,
    store: StoreView,
)
    requires
        run.stage == ResponderStageView::Handshake(v),
        v.after_finish(first, second).0 is Ok,
    ensures
        ({
            let held = run.at(ResponderStageView::Hello(v, first));
            &&& run.stepped(EventView::Frame(first), store) == (
                Ok::<(ResponderRunView, ActionView), SyncError>(
                    (held, ActionView::Exchange(Seq::empty())),
                ),
                store,
            )
            &&& held.stepped(EventView::Frame(second), store) == (
                Ok::<(ResponderRunView, ActionView), SyncError>(
                    (
                        held.at(
                            ResponderStageView::Signature(v.after_finish(first, second).1),
                        ),
                        ActionView::Exchange(seq![v.after_finish(first, second).0->Ok_0]),
                    ),
                ),
                store,
            )
        }),
{
    reveal(ResponderRunView::stepped);
}

/// Two ends that are set up for each other meet, whatever keys they draw: every
/// frame is taken, and each end has then authenticated the other, in sessions
/// that agree, before either store has changed.
pub proof fn ends_meet(i: EndView, r: EndView, d: Draws)
    requires
        noise_sound(),
        aead_sound(),
        d.wf(),
        ready(i, r, d),
        transcript_signed(i, r, d),
    ensures
        ({
            let m = meeting(i, r, d);
            let found = found_by(r, reconnects(i));
            &&& m.succeeded()
            &&& m.leaves(i.store, r.store)
            &&& m.authenticated()
            &&& comes_of(
                m.initiator_session(),
                initiator_of(i, d),
                responder_of(r, reconnects(i)),
            )
            &&& m.initiator().identity == i.identity
            &&& m.initiator().reconnect == reconnects(i)
            &&& m.responder().identity == r.identity
            &&& m.responder().reconnect_start == reconnects(i)
            &&& m.responder().active_pair == found.0
            &&& m.responder().pending == found.1
        }),
{
    let m = meeting(i, r, d);
    ends_exchange(i, r, d);
    runs_begin(i, r, d);
    let i1 = initiator_of(i, d).started(d.e1).1;
    let (answer, r1) = responder_of(r, reconnects(i)).after_start(
        initiator_of(i, d).started(d.e1).0->Ok_0,
        d.r_secret,
        d.e2,
    );
    let (finish, i2) = i1.after_handshake(answer->Ok_0, d.e3);
    let (proof_frame, _) = r1.after_finish(finish->Ok_0.0, finish->Ok_0.1);
    reveal(exchanged);
    initiator_is_introduced(run_of(m.began), i1, answer->Ok_0, i.store, d.e3);
    responder_is_introduced(
        run_of(m.replied),
        r1,
        finish->Ok_0.0,
        finish->Ok_0.1,
        r.store,
    );
    initiator_is_introduced(run_of(m.greeted), i2, proof_frame->Ok_0, i.store, d.e3);
    assert(in_step(m.initiator_session(), m.responder_session(), 2, 2)) by {
        reveal(in_step);
    }
}

} // verus!
