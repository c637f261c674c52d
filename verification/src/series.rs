//! What holds of two devices over any series of attempts to pair, each of them
//! broken off anywhere.
use crate::bilateral::{
    accepted_leaves_nothing_pending, active_is_found, active_under, complete_records_reconcile,
    resumed_pairing_completes, sessions_match,
};
use crate::conduct::{
    active_pairing_is_confirmed, frame_of, in_step, interrupted_completion_recovers,
    interrupted_pairing_resumes, run_of, store_after_confirmation, stores_after_offer,
};
use crate::error::SyncError;
use crate::exchange::{aead_sound, noise_sound};
use crate::frames::{ROLE_INITIATOR, ROLE_RESPONDER};
use crate::meeting::{ends_meet, meeting, transcript_signed, Draws, EndView};
use crate::pairing::SessionView;
use crate::pairing_run::{EventView, ReceivedView};
use crate::protocol_v3::{RootView, PROTOCOL_VERSION};
use crate::record::{
    pending_error, record_certificates, record_certified, record_identities_match,
    record_shape_error, record_signatures_error, session_record, storable, stored_error, RecordView,
    DOMAIN,
};
use crate::recovery::{
    accepted_is_had, active_search_reads_active, broken_attempts_stand, comes_again, has_active,
    has_pending, knows_nothing, new_half, new_record, open_to, pairable, partners,
    reconnected_can_reconcile, record_is_pinned, record_of, responder_can_reconcile, resumed_record,
    retriable, settled_record, settles, signature_is_acknowledged, sound, stand,
    standing_ends_are_set_up, standing_ends_settle, stores_left, strangers_are_acquainted,
    swept_is_not_found, taking_out_adds_nothing, unchanged_knows_nothing, written_is_had, Reached,
};
use crate::text::is_id;
use crate::trust::{
    first_pending, lookup, record_name, swept, without, written, ContentView, EntryView, StoreView,
};
use vstd::prelude::*;

verus! {

/// The record that a responder offers where an approval is pending: the approval
/// rebound to the session.
pub open spec fn resumed_half(i: EndView, r: EndView, d: Draws, held: RecordView) -> RecordView {
    r.store.resumed(meeting(i, r, d).responder_session(), r.identity, held).0->Ok_0
}

/// The stores, the initiator's first, that an attempt leaves when it is broken
/// off after it got to a point: before the responder has answered the request,
/// after its answer, after the initiator has completed the record, after the
/// responder has taken it, or after both have.
#[verifier::opaque]
pub open spec fn stores_left_from(
    from: Reached,
    point: Reached,
    i: EndView,
    r: EndView,
    d: Draws,
    presence: Seq<char>,
    half: RecordView,
    full: RecordView,
) -> (StoreView, StoreView) {
    let m = meeting(i, r, d);
    let r1 = m.responder().stepped(EventView::Frame(m.signature()), m.proved.1);
    let i1 = m.initiator().stepped(EventView::Frame(frame_of(r1)), m.signed.1, Seq::empty());
    let r2 = run_of(r1).stepped(EventView::Frame(frame_of(i1)), r1.1);
    let r3 = run_of(r2).stepped(EventView::Message(ReceivedView::Request), r2.1);
    let record = settled_record(from, i, r, d, presence, half, full);
    match from {
        Reached::Nothing => stores_left(point, i, r, d, presence),
        Reached::Approved | Reached::CoSigned => {
            let offered = if from is Approved {
                resumed_half(i, r, d, half)
            } else {
                half
            };
            let (signed, finalized, done) = stores_after_offer(
                run_of(i1),
                r3,
                i1.1,
                offered,
                record,
            );
            match point {
                Reached::Nothing => (i1.1, r2.1),
                Reached::Approved => (i1.1, r3.1),
                Reached::CoSigned => (signed, r3.1),
                Reached::Finalized => (signed, finalized),
                Reached::Done => (done, finalized),
            }
        },
        Reached::Finalized | Reached::Done => if point is Done {
            (store_after_confirmation(run_of(i1), r3, i1.1, record), r3.1)
        } else {
            (i1.1, r3.1)
        },
    }
}

/// Where two ends stand after an attempt that got to a point.
pub open spec fn next(from: Reached, point: Reached) -> Reached {
    match (from, point) {
        (Reached::Nothing, _) => point,
        (_, Reached::Done) => Reached::Done,
        (Reached::Done, _) => Reached::Done,
        (_, Reached::Finalized) => Reached::Finalized,
        (Reached::Finalized, _) => Reached::Finalized,
        _ => from,
    }
}

/// The prepared and the co-signed record of two ends after an attempt that got
/// to a point.
pub open spec fn next_records(
    from: Reached,
    point: Reached,
    i: EndView,
    r: EndView,
    d: Draws,
    presence: Seq<char>,
    half: RecordView,
    full: RecordView,
) -> (RecordView, RecordView) {
    match from {
        Reached::Nothing => (new_half(i, r, d, presence), new_record(i, r, d, presence)),
        Reached::Approved => if point is Finalized || point is Done {
            (resumed_half(i, r, d, half), resumed_record(i, r, d, half))
        } else {
            (half, full)
        },
        _ => (half, full),
    }
}

// ---------------------------------------------------------------------------
// Searches.
// ---------------------------------------------------------------------------
/// Removing a name from entries, seen from the front.
proof fn without_from_the_front(entries: Seq<EntryView>, name: Seq<u8>)
    requires
        entries.len() > 0,
    ensures
        without(entries, name) == (if entries[0].name == name {
            without(entries.drop_first(), name)
        } else {
            seq![entries[0]] + without(entries.drop_first(), name)
        }),
    decreases entries.len(),
{
    let rest = entries.drop_first();
    if entries.len() == 1 {
        assert(entries.drop_last() =~= Seq::empty());
        assert(rest =~= Seq::empty());
        assert(without(entries.drop_last(), name) =~= Seq::empty());
        assert(without(rest, name) =~= Seq::empty());
        assert(without(entries, name) =~= (if entries[0].name == name {
            Seq::empty()
        } else {
            seq![entries[0]]
        }));
    } else {
        let front = entries.drop_last();
        without_from_the_front(front, name);
        assert(front.drop_first() =~= rest.drop_last());
        assert(front[0] == entries[0]);
        assert(rest.last() == entries.last());
        assert(without(entries, name) =~= (if entries[0].name == name {
            without(rest, name)
        } else {
            seq![entries[0]] + without(rest, name)
        }));
    }
}

/// Removing a name under which nothing is found does not change what a search
/// among sound entries finds.
proof fn search_passes_over_absent(
    entries: Seq<EntryView>,
    root: RootView,
    local: Seq<char>,
    peer: Seq<char>,
    name: Seq<u8>,
)
    requires
        lookup(entries, name) is None,
    ensures
        first_pending(without(entries, name), root, local, peer) == first_pending(
            entries,
            root,
            local,
            peer,
        ),
    decreases entries.len(),
{
    if entries.len() > 0 {
        let rest = entries.drop_first();
        without_from_the_front(entries, name);
        search_passes_over_absent(rest, root, local, peer, name);
        if entries[0].name != name {
            let kept = without(entries, name);
            assert(kept[0] == entries[0]);
            assert(kept.drop_first() =~= without(rest, name));
        }
    }
}

/// What a search has found stays what it finds when an entry is added at the
/// end.
proof fn search_stops_at_the_first(
    entries: Seq<EntryView>,
    root: RootView,
    local: Seq<char>,
    peer: Seq<char>,
    entry: EntryView,
    held: RecordView,
)
    requires
        first_pending(entries, root, local, peer) == Ok::<Option<RecordView>, SyncError>(
            Some(held),
        ),
    ensures
        first_pending(entries.push(entry), root, local, peer) == Ok::<
            Option<RecordView>,
            SyncError,
        >(Some(held)),
    decreases entries.len(),
{
    let all = entries.push(entry);
    let rest = entries.drop_first();
    assert(all.drop_first() =~= rest.push(entry));
    assert(all[0] == entries[0]);
    if first_pending(rest, root, local, peer) == Ok::<Option<RecordView>, SyncError>(Some(held)) {
        search_stops_at_the_first(rest, root, local, peer, entry, held);
    }
}

/// An end that has a record of its peer pending, and comes again after another
/// record was written as pending, still has the first one.
proof fn first_is_still_had(
    e: EndView,
    left: StoreView,
    e2: EndView,
    held: RecordView,
    record: RecordView,
)
    requires
        has_pending(e, held),
        pending_error(record, e.store.root) is None,
        lookup(e.store.pending, record_name(record.pair_id)) is None,
        left.active == e.store.active,
        left.root == e.store.root,
        left.pending == written(e.store.pending, record_name(record.pair_id), record),
        comes_again(e, left, e2),
    ensures
        has_pending(e2, held),
        sound(left.pending, left.root),
        left.active_pair(left.active, e.id(), e.peer) == Ok::<Option<Seq<char>>, SyncError>(None),
{
    let name = record_name(record.pair_id);
    let entries = e.store.pending;
    let kept = without(entries, name);
    let entry = EntryView { name, content: ContentView::Record(record) };
    search_passes_over_absent(entries, e.store.root, e.id(), e.peer, name);
    search_stops_at_the_first(kept, e.store.root, e.id(), e.peer, entry, held);
    taking_out_adds_nothing(entries, name, record);
    assert forall|k: int| 0 <= k < left.pending.len() implies match (
    #[trigger] left.pending[k]).content {
        ContentView::Absent => true,
        ContentView::Unreadable(_) => false,
        ContentView::Record(p) => pending_error(p, e.store.root) is None,
    } by {
        if k < kept.len() {
            assert(left.pending[k] == kept[k]);
            let j = choose|j: int| 0 <= j < entries.len() && entries[j] == kept[k];
            assert(entries[j].content !is Unreadable);
        }
    }
    active_search_reads_active(e.store, e2.store, e.store.active, e.id(), e.peer);
    active_search_reads_active(e.store, left, e.store.active, e.id(), e.peer);
}

/// An end that comes again without a change has what it had.
proof fn unchanged_has(e: EndView, e2: EndView, record: RecordView)
    requires
        comes_again(e, e.store, e2),
    ensures
        has_pending(e, record) ==> has_pending(e2, record),
        has_active(e, record) ==> has_active(e2, record),
        open_to(e, record) ==> open_to(e2, record),
{
    active_search_reads_active(e.store, e2.store, e.store.active, e.id(), e.peer);
}

/// A record that an end is open to, and that it does not find active, is not
/// among its active ones.
proof fn not_yet_active(e: EndView, record: RecordView)
    requires
        open_to(e, record),
        is_id(record.pair_id),
        record.binds(e.id(), e.peer),
        e.store.active_pair(e.store.active, e.id(), e.peer) == Ok::<
            Option<Seq<char>>,
            SyncError,
        >(None),
    ensures
        lookup(e.store.active, record_name(record.pair_id)) is None,
{
    if lookup(e.store.active, record_name(record.pair_id)) is Some {
        assert(active_under(e.store, record.pair_id, e.id(), e.peer));
        active_is_found(e.store, e.store.active, record.pair_id, e.id(), e.peer);
    }
}

/// An end that has a record active has it active after taking it once more.
proof fn accepted_again_is_had(e: EndView, s: SessionView, e2: EndView, full: RecordView)
    requires
        has_active(e, full),
        e.store.accepted(s, e.identity, full, true).0 is Ok,
        full.binds(e.id(), e.peer),
        is_id(e.id()),
        is_id(e.peer),
        comes_again(e, e.store.accepted(s, e.identity, full, true).1, e2),
    ensures
        has_active(e2, full),
        e2.store.root == e.store.root,
        e2.store.revoked == e.store.revoked,
{
    let after = e.store.accepted(s, e.identity, full, true).1;
    accepted_leaves_nothing_pending(e.store, s, e.identity, full, true);
    assert(after.active == e.store.active && after.root == e.store.root && after.revoked
        == e.store.revoked && after.pending == swept(e.store.pending, full).1) by {
        reveal(StoreView::accepted);
    }
    swept_is_not_found(e.store.pending, e.store.root, e.id(), e.peer, full);
    active_search_reads_active(e.store, e2.store, e.store.active, e.id(), e.peer);
}

// ---------------------------------------------------------------------------
// One more attempt.
// ---------------------------------------------------------------------------
/// The stores that an attempt with a pending approval leaves, by what was done
/// to them.
proof fn approved_leave(
    i: EndView,
    r: EndView,
    d: Draws,
    presence: Seq<char>,
    held: RecordView,
    full: RecordView,
    point: Reached,
)
    requires
        noise_sound(),
        aead_sound(),
        d.wf(),
        partners(i, r),
        knows_nothing(i),
        has_pending(r, held),
        record_of(held, i, r),
        pairable(i, r, d, held.user_presence, held.authorized_at),
        transcript_signed(i, r, d),
    ensures
        ({
            let m = meeting(i, r, d);
            let si = m.initiator_session();
            let sr = m.responder_session();
            let resumed = r.store.resumed(sr, r.identity, held);
            let half2 = resumed_half(i, r, d, held);
            let full2 = resumed_record(i, r, d, held);
            let signed = i.store.co_signed(si, i.identity, half2);
            let finalized = resumed.1.accepted(sr, r.identity, full2, false);
            let done = signed.1.accepted(si, i.identity, full2, true);
            &&& resumed.0 is Ok
            &&& signed.0 is Ok
            &&& finalized.0 is Ok
            &&& done.0 is Ok
            &&& full2.pair_id == d.pair_id
            &&& finalized.1.loaded(d.pair_id) == Ok::<Option<RecordView>, SyncError>(Some(full2))
            &&& stores_left_from(Reached::Approved, point, i, r, d, presence, held, full) == (
            match point {
                Reached::Nothing => (i.store, r.store),
                Reached::Approved => (i.store, resumed.1),
                Reached::CoSigned => (signed.1, resumed.1),
                Reached::Finalized => (signed.1, finalized.1),
                Reached::Done => (done.1, finalized.1),
            })
            &&& si.pair_id == d.pair_id
            &&& si.local_certificate == i.enrollment.certificate
            &&& si.peer_certificate == r.enrollment.certificate
            &&& si.local_role == ROLE_INITIATOR
            &&& sr.local_role == ROLE_RESPONDER
            &&& sessions_match(sr, si)
        }),
{
    strangers_are_acquainted(i, r, d, held.user_presence, held.authorized_at);
    let m = meeting(i, r, d);
    interrupted_pairing_resumes(
        m.initiator(),
        m.responder(),
        m.signature(),
        i.store,
        r.store,
        held,
    );
    resumed_pairing_completes(
        r.store,
        i.store,
        m.responder_session(),
        m.initiator_session(),
        r.identity,
        i.identity,
        held,
        false,
        true,
    );
    reveal(stores_left_from);
}

/// What resuming leaves: the rebound record is pending, beside what was.
proof fn resumed_is_pending(v: StoreView, s: SessionView, secret: Seq<u8>, held: RecordView)
    requires
        v.resumed(s, secret, held).0 is Ok,
        lookup(v.pending, record_name(s.pair_id)) is None,
    ensures
        ({
            let (result, after) = v.resumed(s, secret, held);
            let half = result->Ok_0;
            let blank = session_record(
                s,
                s.pair_id,
                held.user_presence,
                secret,
                held.authorized_at,
            );
            &&& half == blank.with_signature(
                if s.local_role == ROLE_INITIATOR {
                    ROLE_INITIATOR
                } else {
                    ROLE_RESPONDER
                },
                half.signature(s.local_role)->Some_0,
            )
            &&& record_signatures_error(half) is None
            &&& record_identified(half)
            &&& after == (StoreView {
                pending: written(v.pending, record_name(s.pair_id), half),
                journal: after.journal,
                ..v
            })
        }),
{
    reveal(StoreView::resumed);
}

/// Whether a record is of valid form and names the holders of its certificates.
spec fn record_identified(record: RecordView) -> bool {
    &&& record_shape_error(record) is None
    &&& record_certificates(record) matches Ok((initiator, responder))
        && record_identities_match(record, initiator, responder)
    &&& record.initiator_device_id != record.responder_device_id
    &&& record.protocol_version == PROTOCOL_VERSION
    &&& record.domain == DOMAIN@
}

/// What a co-signature in answer to a rebound record leaves.
proof fn rebound_is_co_signed(v: StoreView, s: SessionView, secret: Seq<u8>, half: RecordView)
    requires
        v.co_signed(s, secret, half).0 is Ok,
        lookup(v.pending, record_name(half.pair_id)) is None,
    ensures
        ({
            let (result, after) = v.co_signed(s, secret, half);
            let full = result->Ok_0;
            &&& full.unsigned() == half.unsigned()
            &&& full.complete()
            &&& storable(full)
            &&& after == (StoreView {
                pending: written(v.pending, record_name(half.pair_id), full),
                journal: after.journal,
                ..v
            })
        }),
{
    reveal(StoreView::co_signed);
}

/// The records of an attempt with a pending approval are of the two ends.
proof fn resumed_records_are_of_both(
    i: EndView,
    r: EndView,
    d: Draws,
    presence: Seq<char>,
    held: RecordView,
    full: RecordView,
)
    requires
        noise_sound(),
        aead_sound(),
        d.wf(),
        partners(i, r),
        knows_nothing(i),
        has_pending(r, held),
        record_of(held, i, r),
        pairable(i, r, d, held.user_presence, held.authorized_at),
        transcript_signed(i, r, d),
    ensures
        ({
            let half2 = resumed_half(i, r, d, held);
            let full2 = resumed_record(i, r, d, held);
            let left = stores_left_from(
                Reached::Approved,
                Reached::CoSigned,
                i,
                r,
                d,
                presence,
                held,
                full,
            );
            &&& pending_error(half2, i.store.root) is None
            &&& record_of(full2, i, r)
            &&& full2.complete()
            &&& half2.pair_id == d.pair_id
            &&& full2.pair_id == d.pair_id
            &&& left.1 == (StoreView {
                pending: written(r.store.pending, record_name(d.pair_id), half2),
                journal: left.1.journal,
                ..r.store
            })
            &&& left.0 == (StoreView {
                pending: written(i.store.pending, record_name(d.pair_id), full2),
                journal: left.0.journal,
                ..i.store
            })
        }),
{
    approved_leave(i, r, d, presence, held, full, Reached::CoSigned);
    let m = meeting(i, r, d);
    let si = m.initiator_session();
    let sr = m.responder_session();
    let half2 = resumed_half(i, r, d, held);
    let full2 = resumed_record(i, r, d, held);
    resumed_is_pending(r.store, sr, r.identity, held);
    rebound_is_co_signed(i.store, si, i.identity, half2);
    assert(full2 == half2.with_signature(ROLE_INITIATOR, full2.initiator_signature->Some_0)) by {
        reveal(StoreView::co_signed);
    }
    let finalized = r.store.resumed(sr, r.identity, held).1.accepted(
        sr,
        r.identity,
        full2,
        false,
    ).1;
    assert(finalized.root == r.store.root) by {
        reveal(StoreView::accepted);
    }
    assert(stored_error(full2, r.store.root) is None);
    assert(pending_error(full2, r.store.root) is None);
    assert(record_certified(half2, r.store.root, half2.authorized_at) == record_certified(
        full2,
        r.store.root,
        full2.authorized_at,
    ));
    assert(pending_error(half2, r.store.root) is None);
}

/// An attempt with a pending approval that is broken off anywhere but right
/// after the co-signature leaves the two ends standing.
proof fn broken_resumptions_stand(
    i: EndView,
    r: EndView,
    d: Draws,
    presence: Seq<char>,
    held: RecordView,
    full: RecordView,
    point: Reached,
    i2: EndView,
    r2: EndView,
)
    requires
        noise_sound(),
        aead_sound(),
        partners(i, r),
        stand(Reached::Approved, i, r, held, full),
        retriable(Reached::Approved, i, r, d, presence, held, full),
        !(point is CoSigned),
        comes_again(
            i,
            stores_left_from(Reached::Approved, point, i, r, d, presence, held, full).0,
            i2,
        ),
        comes_again(
            r,
            stores_left_from(Reached::Approved, point, i, r, d, presence, held, full).1,
            r2,
        ),
    ensures
        partners(i2, r2),
        ({
            let records = next_records(
                Reached::Approved,
                point,
                i,
                r,
                d,
                presence,
                held,
                full,
            );
            stand(next(Reached::Approved, point), i2, r2, records.0, records.1)
        }),
{
    reveal(stand);
    let m = meeting(i, r, d);
    let si = m.initiator_session();
    let sr = m.responder_session();
    let half2 = resumed_half(i, r, d, held);
    let full2 = resumed_record(i, r, d, held);
    let (signed, resumed) = stores_left_from(
        Reached::Approved,
        Reached::CoSigned,
        i,
        r,
        d,
        presence,
        held,
        full,
    );
    approved_leave(i, r, d, presence, held, full, point);
    approved_leave(i, r, d, presence, held, full, Reached::CoSigned);
    resumed_records_are_of_both(i, r, d, presence, held, full);
    let r_now = EndView { store: resumed, ..r };
    let i_now = EndView { store: signed, ..i };
    first_is_still_had(r, resumed, r_now, held, half2);
    written_is_had(i, signed, i_now, full2);
    match point {
        Reached::Nothing => {
            unchanged_knows_nothing(i, i2);
            unchanged_has(r, r2, held);
        },
        Reached::Approved => {
            unchanged_knows_nothing(i, i2);
            first_is_still_had(r, resumed, r2, held, half2);
        },
        Reached::CoSigned => {},
        Reached::Finalized => {
            written_is_had(i, signed, i2, full2);
            accepted_is_had(r, resumed, sr, r2, full2, false);
        },
        Reached::Done => {
            accepted_is_had(i, signed, si, i2, full2, true);
            accepted_is_had(r, resumed, sr, r2, full2, false);
        },
    }
}

/// The stores that an attempt after a co-signature leaves, by what was done to
/// them.
proof fn co_signed_leave(
    i: EndView,
    r: EndView,
    d: Draws,
    presence: Seq<char>,
    half: RecordView,
    full: RecordView,
    point: Reached,
)
    requires
        noise_sound(),
        aead_sound(),
        partners(i, r),
        stand(Reached::CoSigned, i, r, half, full),
        retriable(Reached::CoSigned, i, r, d, presence, half, full),
    ensures
        ({
            let m = meeting(i, r, d);
            let finalized = r.store.accepted(m.responder_session(), r.identity, full, true);
            let done = i.store.accepted(m.initiator_session(), i.identity, full, true);
            &&& finalized.0 is Ok
            &&& done.0 is Ok
            &&& stores_left_from(Reached::CoSigned, point, i, r, d, presence, half, full) == (
            match point {
                Reached::Finalized => (i.store, finalized.1),
                Reached::Done => (done.1, finalized.1),
                _ => (i.store, r.store),
            })
        }),
{
    standing_ends_are_set_up(Reached::CoSigned, i, r, d, half, full);
    ends_meet(i, r, d);
    reveal(stand);
    let m = meeting(i, r, d);
    let si = m.initiator_session();
    let sr = m.responder_session();
    record_is_pinned(full, i, r);
    reconnected_can_reconcile(i, r, full, si);
    responder_can_reconcile(i, r, full, sr);
    assert(full.unsigned().pair_id == half.unsigned().pair_id);
    interrupted_completion_recovers(
        m.initiator(),
        m.responder(),
        m.acknowledged().0,
        m.signature(),
        si,
        sr,
        i.store,
        r.store,
        half,
        full,
    );
    complete_records_reconcile(i.store, si, i.identity, full);
    complete_records_reconcile(r.store, sr, r.identity, full);
    reveal(stores_left_from);
}

/// The stores that an attempt after the responder has taken the record leaves.
proof fn finalized_leave(
    from: Reached,
    i: EndView,
    r: EndView,
    d: Draws,
    presence: Seq<char>,
    half: RecordView,
    full: RecordView,
    point: Reached,
)
    requires
        noise_sound(),
        aead_sound(),
        partners(i, r),
        from is Finalized || from is Done,
        stand(from, i, r, half, full),
        retriable(from, i, r, d, presence, half, full),
    ensures
        ({
            let done = i.store.accepted(
                meeting(i, r, d).initiator_session(),
                i.identity,
                full,
                true,
            );
            &&& done.0 is Ok
            &&& stores_left_from(from, point, i, r, d, presence, half, full) == (
            if point is Done {
                (done.1, r.store)
            } else {
                (i.store, r.store)
            })
        }),
{
    standing_ends_are_set_up(from, i, r, d, half, full);
    ends_meet(i, r, d);
    reveal(stand);
    let m = meeting(i, r, d);
    let si = m.initiator_session();
    let sr = m.responder_session();
    let ack = m.acknowledged().0;
    record_is_pinned(full, i, r);
    reconnected_can_reconcile(i, r, full, si);
    signature_is_acknowledged(
        m.responder(),
        m.responder().stage->Signature_0,
        m.signature(),
        ack,
        sr,
        r.store,
    );
    let r1 = m.responder().stepped(EventView::Frame(m.signature()), r.store);
    assert(frame_of(r1) == ack);
    assert(in_step(si, sr, 1, 2)) by {
        reveal(in_step);
    }
    active_pairing_is_confirmed(
        m.initiator(),
        run_of(r1),
        ack,
        i.store,
        r.store,
        full.pair_id,
        full,
    );
    complete_records_reconcile(i.store, si, i.identity, full);
    reveal(stores_left_from);
}

/// An attempt after a co-signature that is broken off anywhere leaves the two
/// ends standing.
proof fn broken_recoveries_stand(
    from: Reached,
    i: EndView,
    r: EndView,
    d: Draws,
    presence: Seq<char>,
    half: RecordView,
    full: RecordView,
    point: Reached,
    i2: EndView,
    r2: EndView,
)
    requires
        noise_sound(),
        aead_sound(),
        partners(i, r),
        from is CoSigned || from is Finalized || from is Done,
        stand(from, i, r, half, full),
        retriable(from, i, r, d, presence, half, full),
        comes_again(i, stores_left_from(from, point, i, r, d, presence, half, full).0, i2),
        comes_again(r, stores_left_from(from, point, i, r, d, presence, half, full).1, r2),
    ensures
        partners(i2, r2),
        stand(next(from, point), i2, r2, half, full),
{
    if from is CoSigned {
        co_signed_leave(i, r, d, presence, half, full, point);
    } else {
        finalized_leave(from, i, r, d, presence, half, full, point);
    }
    reveal(stand);
    let si = meeting(i, r, d).initiator_session();
    let sr = meeting(i, r, d).responder_session();
    // The initiator.
    if point is Done {
        if from is Done {
            accepted_again_is_had(i, si, i2, full);
        } else {
            not_yet_active(i, full);
            accepted_is_had(i, i.store, si, i2, full, true);
        }
    } else {
        unchanged_has(i, i2, full);
    }
    // The responder.
    if from is CoSigned && (point is Finalized || point is Done) {
        not_yet_active(r, full);
        accepted_is_had(r, r.store, sr, r2, full, true);
    } else {
        unchanged_has(r, r2, full);
        unchanged_has(r, r2, half);
    }
}

/// Wherever two ends stand, an attempt that is broken off anywhere leaves them
/// standing when they come again, never further back than before. The one
/// exception is an attempt that rebinds a pending approval and is broken off
/// right after the initiator has co-signed: the responder then has two pendings
/// of the pair.
pub proof fn broken_attempts_leave_ends_standing(
    from: Reached,
    i: EndView,
    r: EndView,
    d: Draws,
    presence: Seq<char>,
    half: RecordView,
    full: RecordView,
    point: Reached,
    i2: EndView,
    r2: EndView,
)
    requires
        noise_sound(),
        aead_sound(),
        partners(i, r),
        stand(from, i, r, half, full),
        retriable(from, i, r, d, presence, half, full),
        !(from is Approved && point is CoSigned),
        comes_again(i, stores_left_from(from, point, i, r, d, presence, half, full).0, i2),
        comes_again(r, stores_left_from(from, point, i, r, d, presence, half, full).1, r2),
    ensures
        partners(i2, r2),
        ({
            let records = next_records(from, point, i, r, d, presence, half, full);
            stand(next(from, point), i2, r2, records.0, records.1)
        }),
{
    match from {
        Reached::Nothing => {
            reveal(stand);
            reveal(stores_left_from);
            broken_attempts_stand(i, r, d, presence, point, i2, r2);
        },
        Reached::Approved => {
            broken_resumptions_stand(i, r, d, presence, half, full, point, i2, r2);
        },
        _ => {
            broken_recoveries_stand(from, i, r, d, presence, half, full, point, i2, r2);
        },
    }
}

// ---------------------------------------------------------------------------
// Any number of attempts.
// ---------------------------------------------------------------------------
/// One attempt of two ends: what they are, what is drawn, by what presence the
/// local user approves if it is asked, and how far the attempt gets.
pub struct AttemptView {
    pub i: EndView,
    pub r: EndView,
    pub draws: Draws,
    pub presence: Seq<char>,
    pub point: Reached,
}

/// Where two strangers stand after a series of attempts, with the prepared and
/// the co-signed record.
pub open spec fn standing_after(attempts: Seq<AttemptView>) -> (Reached, RecordView, RecordView)
    decreases attempts.len(),
{
    if attempts.len() == 0 {
        (Reached::Nothing, arbitrary(), arbitrary())
    } else {
        let (from, half, full) = standing_after(attempts.drop_last());
        let a = attempts.last();
        let records = next_records(from, a.point, a.i, a.r, a.draws, a.presence, half, full);
        (next(from, a.point), records.0, records.1)
    }
}

/// Whether two ends are those that meet after a series of attempts: two
/// strangers that know nothing of each other, or the ends of the last attempt
/// with their stores opened anew on what it left.
pub open spec fn come_after(attempts: Seq<AttemptView>, i: EndView, r: EndView) -> bool {
    if attempts.len() == 0 {
        partners(i, r) && knows_nothing(i) && knows_nothing(r)
    } else {
        let (from, half, full) = standing_after(attempts.drop_last());
        let a = attempts.last();
        let left = stores_left_from(
            from,
            a.point,
            a.i,
            a.r,
            a.draws,
            a.presence,
            half,
            full,
        );
        comes_again(a.i, left.0, i) && comes_again(a.r, left.1, r)
    }
}

/// Whether attempts follow one another: each is of the ends that come after
/// those before it, can be made from where they stand, and is not broken off
/// right after the co-signature of a rebound approval.
pub open spec fn series(attempts: Seq<AttemptView>) -> bool
    decreases attempts.len(),
{
    attempts.len() == 0 || {
        let before = attempts.drop_last();
        let (from, half, full) = standing_after(before);
        let a = attempts.last();
        &&& series(before)
        &&& come_after(before, a.i, a.r)
        &&& retriable(from, a.i, a.r, a.draws, a.presence, half, full)
        &&& !(from is Approved && a.point is CoSigned)
    }
}

/// How often the local user has approved over a series of attempts: it is asked
/// where nothing was approved before.
pub open spec fn approvals(attempts: Seq<AttemptView>) -> nat
    decreases attempts.len(),
{
    if attempts.len() == 0 {
        0
    } else {
        let before = attempts.drop_last();
        let asked = standing_after(before).0 is Nothing && !(attempts.last().point is Nothing);
        approvals(before) + (if asked {
            1nat
        } else {
            0nat
        })
    }
}

/// The ends that come after a series of attempts stand where the series says.
proof fn series_stands(attempts: Seq<AttemptView>, i: EndView, r: EndView)
    requires
        noise_sound(),
        aead_sound(),
        series(attempts),
        come_after(attempts, i, r),
    ensures
        partners(i, r),
        ({
            let (reached, half, full) = standing_after(attempts);
            stand(reached, i, r, half, full)
        }),
        approvals(attempts) == (if standing_after(attempts).0 is Nothing {
            0nat
        } else {
            1nat
        }),
    decreases attempts.len(),
{
    if attempts.len() == 0 {
        reveal(stand);
    } else {
        let before = attempts.drop_last();
        let a = attempts.last();
        let (from, half, full) = standing_after(before);
        series_stands(before, a.i, a.r);
        broken_attempts_leave_ends_standing(
            from,
            a.i,
            a.r,
            a.draws,
            a.presence,
            half,
            full,
            a.point,
            i,
            r,
        );
    }
}

/// However many attempts of two strangers were broken off, and wherever, one
/// that runs to its end settles their pairing: from its first frame on it leads
/// to the same active record on both sides, with nothing left pending. Over the
/// whole series the local user approves exactly once: it is asked now if it has
/// not approved before, and is not asked again if it has.
pub proof fn series_settle_with_one_approval(
    attempts: Seq<AttemptView>,
    i: EndView,
    r: EndView,
    d: Draws,
    presence: Seq<char>,
)
    requires
        noise_sound(),
        aead_sound(),
        series(attempts),
        come_after(attempts, i, r),
        ({
            let (reached, half, full) = standing_after(attempts);
            retriable(reached, i, r, d, presence, half, full)
        }),
    ensures
        ({
            let (reached, half, full) = standing_after(attempts);
            let record = settled_record(reached, i, r, d, presence, half, full);
            settles(i, r, d, approvals(attempts) == 0, presence, record)
        }),
        approvals(attempts) <= 1,
{
    series_stands(attempts, i, r);
    let (reached, half, full) = standing_after(attempts);
    standing_ends_settle(reached, i, r, d, presence, half, full);
}

} // verus!
