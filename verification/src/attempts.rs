//! What holds of a store over any number of runs, finished or broken off.
use crate::bilateral::{
    active_under, known_peers_are_found, known_peers_stay_known, knows, pending_under,
};
use crate::conduct::{action_of, only_strangers_are_put_to_the_user, run_of};
use crate::error::SyncError;
use crate::pairing::SessionView;
use crate::pairing_run::{
    completed, responder_plan, EventView, InitiatorRunView, InitiatorStageView, ReceivedView,
    ResponderRunView, ResponderStageView,
};
use crate::runtime_v3::EnrollmentView;
use crate::trust::StoreView;
use vstd::prelude::*;

verus! {

/// What happens to a store: a step of a run, or its being opened anew.
pub enum StoreStep {
    Initiator(InitiatorRunView, EventView, Seq<u8>),
    Responder(ResponderRunView, EventView),
    Opened(u64),
}

/// A store after one thing has happened to it.
pub open spec fn store_after(v: StoreView, step: StoreStep) -> StoreView {
    match step {
        StoreStep::Initiator(run, event, ephemeral) => run.stepped(event, v, ephemeral).1,
        StoreStep::Responder(run, event) => run.stepped(event, v).1,
        StoreStep::Opened(now) => StoreView { now, journal: Seq::empty(), ..v },
    }
}

/// A store after all of a series has happened to it.
pub open spec fn store_after_all(v: StoreView, steps: Seq<StoreStep>) -> StoreView
    decreases steps.len(),
{
    if steps.len() == 0 {
        v
    } else {
        store_after(store_after_all(v, steps.drop_last()), steps.last())
    }
}

/// Whether a run asks the local user anywhere along a series of events, each
/// with the store as it then is.
pub open spec fn asks_along(run: ResponderRunView, trace: Seq<(EventView, StoreView)>) -> bool
    decreases trace.len(),
{
    &&& trace.len() > 0
    &&& run.stepped(trace[0].0, trace[0].1).0 matches Ok((next, action))
    &&& action is Authorize || asks_along(next, trace.drop_first())
}

/// Opening a store anew forgets no peer.
proof fn opening_keeps_known(v: StoreView, now: u64, local: Seq<char>, peer: Seq<char>)
    requires
        knows(v, local, peer),
    ensures
        knows(StoreView { now, journal: Seq::empty(), ..v }, local, peer),
{
    let w = StoreView { now, journal: Seq::empty(), ..v };
    if exists|name: Seq<u8>| pending_under(v, name, local, peer) {
        let name = choose|name: Seq<u8>| pending_under(v, name, local, peer);
        assert(pending_under(w, name, local, peer));
    } else {
        let pair_id = choose|pair_id: Seq<char>| active_under(v, pair_id, local, peer);
        assert(active_under(w, pair_id, local, peer));
    }
}

/// No step of an initiating run forgets a peer.
proof fn initiator_keeps_known(
    v: StoreView,
    run: InitiatorRunView,
    event: EventView,
    ephemeral: Seq<u8>,
    local: Seq<char>,
    peer: Seq<char>,
)
    requires
        knows(v, local, peer),
    ensures
        knows(run.stepped(event, v, ephemeral).1, local, peer),
{
    let denied = Err::<Seq<char>, SyncError>(SyncError::AuthorizationDenied);
    match (run.stage, event) {
        (InitiatorStageView::ResponseRead(s), EventView::Message(message)) => {
            assert(run.stepped(event, v, ephemeral) == run.answered(s, message, v)) by {
                reveal(InitiatorRunView::stepped);
            }
            match message {
                ReceivedView::Prepared(Ok(record)) => {
                    known_peers_stay_known(v, s, run.identity, denied, record, true, local, peer);
                    assert(knows(completed(s, run.identity, v, record).1, local, peer)) by {
                        reveal(completed);
                    }
                },
                _ => {},
            }
        },
        (InitiatorStageView::FinalizedRead(s, record), EventView::Message(message)) => {
            assert(run.stepped(event, v, ephemeral) == run.concluded(s, record, message, v)) by {
                reveal(InitiatorRunView::stepped);
            }
            known_peers_stay_known(v, s, run.identity, denied, record, true, local, peer);
        },
        _ => {
            assert(run.stepped(event, v, ephemeral).1 == v) by {
                reveal(InitiatorRunView::stepped);
            }
        },
    }
}

/// No step of a responding run forgets a peer.
proof fn responder_keeps_known(
    v: StoreView,
    run: ResponderRunView,
    event: EventView,
    local: Seq<char>,
    peer: Seq<char>,
)
    requires
        knows(v, local, peer),
    ensures
        knows(run.stepped(event, v).1, local, peer),
{
    let denied = Err::<Seq<char>, SyncError>(SyncError::AuthorizationDenied);
    match (run.stage, event) {
        (ResponderStageView::RequestRead(s), EventView::Message(message)) => {
            assert(run.stepped(event, v) == run.requested(s, message, v)) by {
                reveal(ResponderRunView::stepped);
            }
            let held = run.pending->Some_0;
            known_peers_stay_known(v, s, run.identity, denied, held, true, local, peer);
        },
        (ResponderStageView::Decision(s), EventView::Decision(decision)) => {
            let prepared = v.prepared(s, run.identity, decision);
            assert(run.stepped(event, v) == run.offered(s, prepared)) by {
                reveal(ResponderRunView::stepped);
            }
            known_peers_stay_known(
                v,
                s,
                run.identity,
                decision,
                arbitrary(),
                true,
                local,
                peer,
            );
        },
        (ResponderStageView::CompleteRead(s), EventView::Message(message)) => {
            assert(run.stepped(event, v) == run.concluded(s, message, v)) by {
                reveal(ResponderRunView::stepped);
            }
            match message {
                ReceivedView::Complete(Ok(record)) => known_peers_stay_known(
                    v,
                    s,
                    run.identity,
                    denied,
                    record,
                    record.session_binding != s.session_binding,
                    local,
                    peer,
                ),
                _ => {},
            }
        },
        _ => {
            assert(run.stepped(event, v).1 == v) by {
                reveal(ResponderRunView::stepped);
            }
        },
    }
}

/// No series of steps forgets a peer.
proof fn steps_keep_known(v: StoreView, steps: Seq<StoreStep>, local: Seq<char>, peer: Seq<char>)
    requires
        knows(v, local, peer),
    ensures
        knows(store_after_all(v, steps), local, peer),
    decreases steps.len(),
{
    if steps.len() > 0 {
        steps_keep_known(v, steps.drop_last(), local, peer);
        let before = store_after_all(v, steps.drop_last());
        match steps.last() {
            StoreStep::Initiator(run, event, ephemeral) => {
                initiator_keeps_known(before, run, event, ephemeral, local, peer);
            },
            StoreStep::Responder(run, event) => {
                responder_keeps_known(before, run, event, local, peer);
            },
            StoreStep::Opened(now) => opening_keeps_known(before, now, local, peer),
        }
    }
}

/// A step of a run does not change what the run found at its start.
proof fn step_keeps_findings(run: ResponderRunView, event: EventView, store: StoreView)
    ensures
        ({
            let step = run.stepped(event, store);
            step.0 is Ok ==> {
                &&& run_of(step).active_pair == run.active_pair
                &&& run_of(step).pending == run.pending
            }
        }),
{
    match (run.stage, event) {
        (ResponderStageView::RequestRead(s), EventView::Message(message)) => {
            assert(run.stepped(event, store) == run.requested(s, message, store)) by {
                reveal(ResponderRunView::stepped);
            }
        },
        (ResponderStageView::CompleteRead(s), EventView::Message(message)) => {
            assert(run.stepped(event, store) == run.concluded(s, message, store)) by {
                reveal(ResponderRunView::stepped);
            }
        },
        (ResponderStageView::Decision(s), EventView::Decision(decision)) => {
            let prepared = store.prepared(s, run.identity, decision);
            assert(run.stepped(event, store) == run.offered(s, prepared)) by {
                reveal(ResponderRunView::stepped);
            }
        },
        _ => {
            reveal(ResponderRunView::stepped);
        },
    }
}

/// A step of a run that found the peer active or pending does not ask, and the
/// run still knows what it found.
proof fn known_is_not_asked(run: ResponderRunView, event: EventView, store: StoreView)
    requires
        run.active_pair is Some || run.pending is Some,
    ensures
        ({
            let step = run.stepped(event, store);
            step.0 is Ok ==> {
                &&& !(action_of(step) is Authorize)
                &&& run_of(step).active_pair is Some || run_of(step).pending is Some
            }
        }),
{
    let step = run.stepped(event, store);
    step_keeps_findings(run, event, store);
    if step.0 is Ok && action_of(step) is Authorize {
        only_strangers_are_put_to_the_user(run, event, store);
    }
}

/// A run that found the peer active or pending never asks.
proof fn known_is_never_asked(run: ResponderRunView, trace: Seq<(EventView, StoreView)>)
    requires
        run.active_pair is Some || run.pending is Some,
    ensures
        !asks_along(run, trace),
    decreases trace.len(),
{
    if trace.len() > 0 {
        let step = run.stepped(trace[0].0, trace[0].1);
        known_is_not_asked(run, trace[0].0, trace[0].1);
        if step.0 is Ok {
            known_is_never_asked(run_of(step), trace.drop_first());
        }
    }
}

/// A run that begins on a store that knows the peer finds it active or pending.
proof fn known_is_found_at_start(
    v: StoreView,
    identity: Seq<u8>,
    enrollment: EnrollmentView,
    local: Seq<char>,
    peer: Seq<char>,
    now: u64,
    start: Seq<u8>,
    secret: Seq<u8>,
    ephemeral: Seq<u8>,
)
    requires
        knows(v, local, peer),
    ensures
        ResponderRunView::begun(
            v,
            identity,
            enrollment,
            local,
            peer,
            now,
            start,
            secret,
            ephemeral,
        ) matches Ok((run, _)) ==> run.active_pair is Some || run.pending is Some,
{
    reveal(responder_plan);
    known_peers_are_found(v, local, peer);
}

/// The local user is asked about a peer once over all attempts. After an
/// approval, whatever steps any runs take, with this peer or others, finished or
/// broken off anywhere, and however often the store is opened anew, a later run
/// with the same peer never asks again.
pub proof fn peers_are_approved_once(
    r: ResponderRunView,
    s: SessionView,
    presence: Seq<char>,
    store: StoreView,
    steps: Seq<StoreStep>,
    identity: Seq<u8>,
    enrollment: EnrollmentView,
    now: u64,
    start: Seq<u8>,
    secret: Seq<u8>,
    ephemeral: Seq<u8>,
    trace: Seq<(EventView, StoreView)>,
)
    requires
        r.stage == ResponderStageView::Decision(s),
        r.stepped(EventView::Decision(Ok(presence)), store).0 is Ok,
    ensures
        ({
            let approved = r.stepped(EventView::Decision(Ok(presence)), store).1;
            let later = ResponderRunView::begun(
                store_after_all(approved, steps),
                identity,
                enrollment,
                s.local_certificate.device_id,
                s.peer_certificate.device_id,
                now,
                start,
                secret,
                ephemeral,
            );
            later matches Ok((run, _)) ==> !asks_along(run, trace)
        }),
{
    let local = s.local_certificate.device_id;
    let peer = s.peer_certificate.device_id;
    let prepared = store.prepared(s, r.identity, Ok(presence));
    let approved = r.stepped(EventView::Decision(Ok(presence)), store).1;
    assert(prepared.0 is Ok && approved == prepared.1) by {
        reveal(ResponderRunView::stepped);
    }
    assert(prepared.0->Ok_0.binds(local, peer)) by {
        reveal(StoreView::prepared);
    }
    known_peers_stay_known(
        store,
        s,
        r.identity,
        Ok(presence),
        prepared.0->Ok_0,
        true,
        local,
        peer,
    );
    let last = store_after_all(approved, steps);
    steps_keep_known(approved, steps, local, peer);
    known_is_found_at_start(
        last,
        identity,
        enrollment,
        local,
        peer,
        now,
        start,
        secret,
        ephemeral,
    );
    let later = ResponderRunView::begun(
        last,
        identity,
        enrollment,
        local,
        peer,
        now,
        start,
        secret,
        ephemeral,
    );
    if later is Ok {
        known_is_never_asked(later->Ok_0.0, trace);
    }
}

} // verus!
