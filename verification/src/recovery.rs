//! What holds of two devices over several attempts to pair, the first of them
//! broken off anywhere.
use crate::authentication::ContextView;
use crate::bilateral::{
    accepted_leaves_nothing_pending, accepted_records_load, bilateral_pairing_completes, can_pair,
    can_reconcile, certified_at, lookup_written, nothing_pending, readable, ready_for,
    sessions_match, signable, stem_of_record_name,
};
use crate::conduct::{
    acquainted, action_of, active_pairing_is_confirmed, confirmation_leads_to, frame_of, in_step,
    interrupted_completion_recovers, interrupted_pairing_resumes, offer_leads_to, run_of,
    stores_after_offer, strangers_are_paired,
};
use crate::codec::{split_tail, utf8, utf8_injective};
use crate::crypto::ed25519_key_valid;
use crate::error::SyncError;
use crate::exchange::{aead_sound, noise_sound, presentable, set_up};
use crate::frames::{ROLE_INITIATOR, ROLE_RESPONDER};
use crate::meeting::{
    ends_meet, found_by, initiator_of, meeting, ready, reconnects, responder_of, transcript_signed,
    Draws, EndView,
};
use crate::pairing::{InitiatorView, ResponderView, SessionView, ValidationView};
use crate::pairing_run::{
    initiator_plan, responder_plan, ActionView, EventView, InitiatorRunView, ReceivedView,
    ResponderRunView, ResponderStageView,
};
use crate::protocol_v3::{certificate_parsed, CertificateView, RootView};
use crate::record::{
    is_marker, pending_error, record_certificates, session_identity_error, session_record, storable,
    stored_error, RecordView,
};
use crate::runtime_v3::{message_json, MessageView};
use crate::text::is_id;
use crate::trust::{
    file_stem, first_pending, lookup, participant_context, record_name, swept, without, written,
    ContentView, EntryView, StoreView,
};
use vstd::prelude::*;
use vstd::utf8::*;

verus! {

// ---------------------------------------------------------------------------
// What two ends know of each other.
// ---------------------------------------------------------------------------
/// Whether two ends have discovered each other, under one root.
pub open spec fn partners(i: EndView, r: EndView) -> bool {
    &&& i.peer == r.id()
    &&& r.peer == i.id()
    &&& i.id() != r.id()
    &&& is_id(i.id())
    &&& is_id(r.id())
    &&& i.store.root == r.store.root
    &&& ed25519_key_valid(i.key())
    &&& ed25519_key_valid(r.key())
}

/// Whether both ends are enrolled, with certificates that both accept now.
pub open spec fn enrolled(i: EndView, r: EndView) -> bool {
    &&& i.enrollment.root == i.store.root
    &&& r.enrollment.root == r.store.root
    &&& i.enrollment.certificate.public_key == i.key()
    &&& r.enrollment.certificate.public_key == r.key()
    &&& certified_at(i.enrollment.certificate, i.store.root, i.store.now)
    &&& certified_at(i.enrollment.certificate, i.store.root, r.store.now)
    &&& certified_at(r.enrollment.certificate, i.store.root, i.store.now)
    &&& certified_at(r.enrollment.certificate, i.store.root, r.store.now)
}

/// Whether every pending entry that exists is a record in order.
pub open spec fn sound(entries: Seq<EntryView>, root: RootView) -> bool {
    forall|k: int|
        0 <= k < entries.len() ==> match (#[trigger] entries[k]).content {
            ContentView::Absent => true,
            ContentView::Unreadable(_) => false,
            ContentView::Record(record) => pending_error(record, root) is None,
        }
}

/// Whether no entry is a record of two devices.
pub open spec fn without_any(entries: Seq<EntryView>, local: Seq<char>, peer: Seq<char>) -> bool {
    forall|k: int|
        0 <= k < entries.len() ==> ((#[trigger] entries[k]).content matches ContentView::Record(p)
            ==> !p.binds(local, peer))
}

/// Whether an end knows nothing of its peer.
pub open spec fn knows_nothing(e: EndView) -> bool {
    &&& sound(e.store.pending, e.store.root)
    &&& e.store.active_pair(e.store.active, e.id(), e.peer) == Ok::<
        Option<Seq<char>>,
        SyncError,
    >(None)
    &&& e.store.pending_between(e.id(), e.peer) == Ok::<Option<RecordView>, SyncError>(None)
}

/// Whether an end has a record of its peer pending.
pub open spec fn has_pending(e: EndView, record: RecordView) -> bool {
    &&& sound(e.store.pending, e.store.root)
    &&& e.store.active_pair(e.store.active, e.id(), e.peer) == Ok::<
        Option<Seq<char>>,
        SyncError,
    >(None)
    &&& e.store.pending_between(e.id(), e.peer) == Ok::<Option<RecordView>, SyncError>(
        Some(record),
    )
}

/// Whether an end has a record of its peer active, and nothing pending.
pub open spec fn has_active(e: EndView, record: RecordView) -> bool {
    &&& sound(e.store.pending, e.store.root)
    &&& e.store.active_pair(e.store.active, e.id(), e.peer) == Ok::<
        Option<Seq<char>>,
        SyncError,
    >(Some(record.pair_id))
    &&& e.store.loaded(record.pair_id) == Ok::<Option<RecordView>, SyncError>(Some(record))
    &&& e.store.pending_between(e.id(), e.peer) == Ok::<Option<RecordView>, SyncError>(None)
}

/// Whether nothing keeps an end from making a record active.
pub open spec fn open_to(e: EndView, record: RecordView) -> bool {
    &&& !e.store.revoked.contains(record_name(record.pair_id))
    &&& lookup(e.store.active, record_name(record.pair_id)) matches Some(existing) ==> existing
        == Ok::<RecordView, SyncError>(record)
}

/// Whether a record in order is of two ends, the responder having approved.
pub open spec fn record_of(record: RecordView, i: EndView, r: EndView) -> bool {
    &&& pending_error(record, i.store.root) is None
    &&& record.initiator_device_id == i.id()
    &&& record.responder_device_id == r.id()
    &&& record.initiator_public_key == i.key()
    &&& record.responder_public_key == r.key()
    &&& record.authorizing_device_id == r.id()
    &&& storable(record)
}

/// The pins that a record gives.
pub open spec fn pins_of(record: RecordView) -> ContextView {
    let (initiator, responder) = record_certificates(record)->Ok_0;
    ContextView {
        pair_id: record.pair_id,
        initiator_device_id: record.initiator_device_id,
        responder_device_id: record.responder_device_id,
        initiator_public_key: record.initiator_public_key,
        responder_public_key: record.responder_public_key,
        initiator_certificate: initiator,
        responder_certificate: responder,
    }
}

/// How far an attempt between two strangers got: nothing was approved yet; the
/// responder has prepared a record; the initiator has co-signed it; the
/// responder has made it active; both have.
pub enum Reached {
    Nothing,
    Approved,
    CoSigned,
    Finalized,
    Done,
}

/// Whether two ends stand where an attempt that got so far leaves them, `half`
/// being the prepared record and `full` the co-signed one.
#[verifier::opaque]
pub open spec fn stand(
    reached: Reached,
    i: EndView,
    r: EndView,
    half: RecordView,
    full: RecordView,
) -> bool {
    match reached {
        Reached::Nothing => knows_nothing(i) && knows_nothing(r),
        Reached::Approved => knows_nothing(i) && has_pending(r, half) && record_of(half, i, r),
        Reached::CoSigned => {
            &&& has_pending(i, full)
            &&& has_pending(r, half)
            &&& record_of(half, i, r)
            &&& record_of(full, i, r)
            &&& half.unsigned() == full.unsigned()
            &&& full.complete()
            &&& open_to(i, full)
            &&& open_to(r, full)
        },
        Reached::Finalized => {
            &&& has_pending(i, full)
            &&& has_active(r, full)
            &&& record_of(full, i, r)
            &&& full.complete()
            &&& open_to(i, full)
        },
        Reached::Done => {
            &&& has_active(i, full)
            &&& has_active(r, full)
            &&& record_of(full, i, r)
            &&& full.complete()
            &&& open_to(i, full)
        },
    }
}

// ---------------------------------------------------------------------------
// What the operations of an attempt leave in a store.
// ---------------------------------------------------------------------------
/// A search that finds nothing pending has met records of other devices only,
/// all of them in order.
proof fn nothing_is_found(
    entries: Seq<EntryView>,
    root: RootView,
    local: Seq<char>,
    peer: Seq<char>,
)
    requires
        first_pending(entries, root, local, peer) == Ok::<Option<RecordView>, SyncError>(None),
    ensures
        sound(entries, root),
        without_any(entries, local, peer),
    decreases entries.len(),
{
    if entries.len() > 0 {
        let rest = entries.drop_first();
        nothing_is_found(rest, root, local, peer);
        assert forall|k: int| 0 <= k < entries.len() implies match (
        #[trigger] entries[k]).content {
            ContentView::Absent => true,
            ContentView::Unreadable(_) => false,
            ContentView::Record(record) => pending_error(record, root) is None && !record.binds(
                local,
                peer,
            ),
        } by {
            if k > 0 {
                assert(entries[k] == rest[k - 1]);
            }
        }
    }
}

/// A search among records of other devices only, all of them in order, finds
/// nothing; and it finds a record of the devices that is added at the end.
proof fn only_the_last_is_found(
    entries: Seq<EntryView>,
    root: RootView,
    local: Seq<char>,
    peer: Seq<char>,
    entry: EntryView,
)
    requires
        sound(entries, root),
        without_any(entries, local, peer),
    ensures
        first_pending(entries, root, local, peer) == Ok::<Option<RecordView>, SyncError>(None),
        (entry.content matches ContentView::Record(record) && pending_error(record, root) is None
            && record.binds(local, peer)) ==> first_pending(entries.push(entry), root, local, peer)
            == Ok::<Option<RecordView>, SyncError>(Some(entry.content->Record_0)),
    decreases entries.len(),
{
    let all = entries.push(entry);
    if entries.len() > 0 {
        let rest = entries.drop_first();
        assert(forall|k: int| 0 <= k < rest.len() ==> (#[trigger] rest[k]) == entries[k + 1]);
        only_the_last_is_found(rest, root, local, peer, entry);
        assert(all.drop_first() =~= rest.push(entry));
        assert(all[0] == entries[0]);
        assert(entries[0].content !is Unreadable);
    } else {
        assert(all[0] == entry);
    }
}

/// Removing a name, and sweeping, only take entries out.
pub(crate) proof fn taking_out_adds_nothing(
    entries: Seq<EntryView>,
    name: Seq<u8>,
    record: RecordView,
)
    ensures
        forall|k: int|
            0 <= k < without(entries, name).len() ==> entries.contains(
                #[trigger] without(entries, name)[k],
            ),
        forall|k: int|
            0 <= k < swept(entries, record).1.len() ==> entries.contains(
                #[trigger] swept(entries, record).1[k],
            ),
    decreases entries.len(),
{
    if entries.len() > 0 {
        let rest = entries.drop_last();
        taking_out_adds_nothing(rest, name, record);
        assert forall|e: EntryView| rest.contains(e) implies entries.contains(e) by {
            let j = choose|j: int| 0 <= j < rest.len() && rest[j] == e;
            assert(entries[j] == e);
        }
        assert(entries[entries.len() - 1] == entries.last());
        assert(entries.contains(entries.last()));
        let kept = without(rest, name);
        assert forall|k: int| 0 <= k < without(entries, name).len() implies entries.contains(
            #[trigger] without(entries, name)[k],
        ) by {
            if k < kept.len() {
                assert(without(entries, name)[k] == kept[k]);
            }
        }
        let left = swept(rest, record).1;
        assert forall|k: int| 0 <= k < swept(entries, record).1.len() implies entries.contains(
            #[trigger] swept(entries, record).1[k],
        ) by {
            if k < left.len() {
                assert(swept(entries, record).1[k] == left[k]);
            }
        }
    }
}

/// A record of two devices that is written as pending is found, where nothing
/// of them was pending.
proof fn written_is_found(
    entries: Seq<EntryView>,
    root: RootView,
    local: Seq<char>,
    peer: Seq<char>,
    name: Seq<u8>,
    record: RecordView,
)
    requires
        first_pending(entries, root, local, peer) == Ok::<Option<RecordView>, SyncError>(None),
        pending_error(record, root) is None,
        record.binds(local, peer),
    ensures
        sound(written(entries, name, record), root),
        first_pending(written(entries, name, record), root, local, peer) == Ok::<
            Option<RecordView>,
            SyncError,
        >(Some(record)),
{
    nothing_is_found(entries, root, local, peer);
    taking_out_adds_nothing(entries, name, record);
    let kept = without(entries, name);
    assert forall|k: int| 0 <= k < kept.len() implies match (#[trigger] kept[k]).content {
        ContentView::Absent => true,
        ContentView::Unreadable(_) => false,
        ContentView::Record(p) => pending_error(p, root) is None && !p.binds(local, peer),
    } by {
        let j = choose|j: int| 0 <= j < entries.len() && entries[j] == kept[k];
        assert(entries[j].content !is Unreadable);
    }
    let entry = EntryView { name, content: ContentView::Record(record) };
    only_the_last_is_found(kept, root, local, peer, entry);
}

/// Sweeping out the records of two devices leaves nothing of them to find.
pub(crate) proof fn swept_is_not_found(
    entries: Seq<EntryView>,
    root: RootView,
    local: Seq<char>,
    peer: Seq<char>,
    record: RecordView,
)
    requires
        sound(entries, root),
        record.binds(local, peer),
        nothing_pending(swept(entries, record).1, record),
    ensures
        sound(swept(entries, record).1, root),
        first_pending(swept(entries, record).1, root, local, peer) == Ok::<
            Option<RecordView>,
            SyncError,
        >(None),
{
    taking_out_adds_nothing(entries, Seq::empty(), record);
    let kept = swept(entries, record).1;
    assert forall|k: int| 0 <= k < kept.len() implies match (#[trigger] kept[k]).content {
        ContentView::Absent => true,
        ContentView::Unreadable(_) => false,
        ContentView::Record(p) => pending_error(p, root) is None && !p.binds(local, peer),
    } by {
        let j = choose|j: int| 0 <= j < entries.len() && entries[j] == kept[k];
        assert(entries[j].content !is Unreadable);
    }
    only_the_last_is_found(
        kept,
        root,
        local,
        peer,
        EntryView { name: Seq::empty(), content: ContentView::Absent },
    );
}

/// The search for an active pairing depends on the active records and the root
/// alone.
pub(crate) proof fn active_search_reads_active(
    v: StoreView,
    w: StoreView,
    names: Seq<EntryView>,
    local: Seq<char>,
    peer: Seq<char>,
)
    requires
        v.active == w.active,
        v.root == w.root,
    ensures
        v.active_pair(names, local, peer) == w.active_pair(names, local, peer),
    decreases names.len(),
{
    if names.len() > 0 {
        active_search_reads_active(v, w, names.drop_first(), local, peer);
    }
}

/// Whether none of the names leads to an active record of two devices, or to a
/// fault.
spec fn quiet(v: StoreView, names: Seq<EntryView>, local: Seq<char>, peer: Seq<char>) -> bool {
    forall|k: int|
        0 <= k < names.len() ==> passed_over(v, #[trigger] names[k], local, peer)
}

/// Whether a search passes over a name.
spec fn passed_over(v: StoreView, entry: EntryView, local: Seq<char>, peer: Seq<char>) -> bool {
    valid_utf8(file_stem(entry.name)) ==> (v.loaded(decode_utf8(file_stem(entry.name))) matches Ok(
        found,
    ) && (found matches Some(record) ==> !record.binds(local, peer)))
}

/// A search that finds nothing active has passed over every name.
proof fn nothing_active_is_found(
    v: StoreView,
    names: Seq<EntryView>,
    local: Seq<char>,
    peer: Seq<char>,
)
    requires
        v.active_pair(names, local, peer) == Ok::<Option<Seq<char>>, SyncError>(None),
    ensures
        quiet(v, names, local, peer),
    decreases names.len(),
{
    if names.len() > 0 {
        let rest = names.drop_first();
        nothing_active_is_found(v, rest, local, peer);
        assert forall|k: int| 0 <= k < names.len() implies passed_over(
            v,
            #[trigger] names[k],
            local,
            peer,
        ) by {
            if k > 0 {
                assert(names[k] == rest[k - 1]);
            }
        }
    }
}

/// Different PairIDs have different names.
pub(crate) proof fn record_names_differ(a: Seq<char>, b: Seq<char>)
    requires
        a != b,
    ensures
        record_name(a) != record_name(b),
{
    if record_name(a) == record_name(b) {
        let tail = utf8(".json"@);
        split_tail(utf8(a), tail, utf8(b), tail);
        utf8_injective(a, b);
    }
}

/// A record of two devices that is written as active is found, where nothing of
/// them was active.
proof fn activated_is_found(
    v: StoreView,
    w: StoreView,
    names: Seq<EntryView>,
    record: RecordView,
    local: Seq<char>,
    peer: Seq<char>,
)
    requires
        quiet(v, names, local, peer),
        w.root == v.root,
        w.active == written(v.active, record_name(record.pair_id), record),
        w.loaded(record.pair_id) == Ok::<Option<RecordView>, SyncError>(Some(record)),
        record.binds(local, peer),
    ensures
        w.active_pair(
            names.push(
                EntryView {
                    name: record_name(record.pair_id),
                    content: ContentView::Record(record),
                },
            ),
            local,
            peer,
        ) == Ok::<Option<Seq<char>>, SyncError>(Some(record.pair_id)),
    decreases names.len(),
{
    let entry = EntryView {
        name: record_name(record.pair_id),
        content: ContentView::Record(record),
    };
    let all = names.push(entry);
    if names.len() == 0 {
        assert(all[0] == entry);
        stem_of_record_name(record.pair_id);
    } else {
        let rest = names.drop_first();
        assert forall|k: int| 0 <= k < rest.len() implies passed_over(
            v,
            #[trigger] rest[k],
            local,
            peer,
        ) by {
            assert(rest[k] == names[k + 1]);
        }
        activated_is_found(v, w, rest, record, local, peer);
        assert(all.drop_first() =~= rest.push(entry));
        assert(all[0] == names[0]);
        assert(passed_over(v, names[0], local, peer));
        let id = decode_utf8(file_stem(names[0].name));
        if id != record.pair_id {
            record_names_differ(id, record.pair_id);
            lookup_written(
                v.active,
                record_name(record.pair_id),
                record,
                record_name(id),
            );
            assert(w.loaded(id) == v.loaded(id));
        }
    }
}

/// What a preparation leaves: the record is in order, pending, and found.
proof fn prepared_is_pending(v: StoreView, s: SessionView, secret: Seq<u8>, presence: Seq<char>)
    requires
        v.prepared(s, secret, Ok(presence)).0 is Ok,
        lookup(v.pending, record_name(s.pair_id)) is None,
    ensures
        ({
            let (result, after) = v.prepared(s, secret, Ok(presence));
            let half = result->Ok_0;
            &&& half.unsigned() == session_record(s, s.pair_id, presence, secret, v.now).unsigned()
            &&& pending_error(half, v.root) is None
            &&& storable(half)
            &&& after == (StoreView {
                pending: written(v.pending, record_name(s.pair_id), half),
                journal: after.journal,
                ..v
            })
        }),
{
    reveal(StoreView::prepared);
}

/// What a co-signature leaves: the record is complete, in order and pending.
proof fn co_signed_is_pending(v: StoreView, s: SessionView, secret: Seq<u8>, half: RecordView)
    requires
        v.co_signed(s, secret, half).0 is Ok,
        pending_error(half, v.root) is None,
        lookup(v.pending, record_name(half.pair_id)) is None,
    ensures
        ({
            let (result, after) = v.co_signed(s, secret, half);
            let full = result->Ok_0;
            &&& full.unsigned() == half.unsigned()
            &&& full.complete()
            &&& pending_error(full, v.root) is None
            &&& storable(full)
            &&& after == (StoreView {
                pending: written(v.pending, record_name(half.pair_id), full),
                journal: after.journal,
                ..v
            })
        }),
{
    reveal(StoreView::co_signed);
}

/// What taking a record leaves: it is active and found, and nothing is pending.
proof fn accepted_is_active(
    v: StoreView,
    s: SessionView,
    secret: Seq<u8>,
    full: RecordView,
    reconciling: bool,
    local: Seq<char>,
    peer: Seq<char>,
)
    requires
        v.accepted(s, secret, full, reconciling).0 is Ok,
        pending_error(full, v.root) is None,
        full.binds(local, peer),
        lookup(v.active, record_name(full.pair_id)) is None,
        sound(v.pending, v.root),
        v.active_pair(v.active, local, peer) == Ok::<Option<Seq<char>>, SyncError>(None),
    ensures
        ({
            let after = v.accepted(s, secret, full, reconciling).1;
            &&& sound(after.pending, after.root)
            &&& first_pending(after.pending, after.root, local, peer) == Ok::<
                Option<RecordView>,
                SyncError,
            >(None)
            &&& after.active_pair(after.active, local, peer) == Ok::<
                Option<Seq<char>>,
                SyncError,
            >(Some(full.pair_id))
            &&& after.loaded(full.pair_id) == Ok::<Option<RecordView>, SyncError>(Some(full))
            &&& after.revoked == v.revoked
            &&& after.root == v.root
        }),
{
    let after = v.accepted(s, secret, full, reconciling).1;
    let name = record_name(full.pair_id);
    accepted_leaves_nothing_pending(v, s, secret, full, reconciling);
    accepted_records_load(v, s, secret, full, reconciling);
    assert(after.active == written(v.active, name, full) && after.pending == swept(
        v.pending,
        full,
    ).1 && after.revoked == v.revoked && after.root == v.root) by {
        reveal(StoreView::accepted);
    }
    swept_is_not_found(v.pending, v.root, local, peer, full);
    nothing_active_is_found(v, v.active, local, peer);
    let kept = without(v.active, name);
    taking_out_adds_nothing(v.active, name, full);
    assert forall|k: int| 0 <= k < kept.len() implies passed_over(
        v,
        #[trigger] kept[k],
        local,
        peer,
    ) by {
        let j = choose|j: int| 0 <= j < v.active.len() && v.active[j] == kept[k];
        assert(passed_over(v, v.active[j], local, peer));
    }
    activated_is_found(v, after, kept, full, local, peer);
}

// ---------------------------------------------------------------------------
// Setting up.
// ---------------------------------------------------------------------------
/// What is planned where nothing is active: an initiator with nothing pending
/// meets a stranger, and so does any responder that is met as one.
proof fn strangers_are_planned(e: EndView)
    requires
        e.store.active_pair(e.store.active, e.id(), e.peer) == Ok::<
            Option<Seq<char>>,
            SyncError,
        >(None),
        e.store.pending_between(e.id(), e.peer) is Ok,
    ensures
        e.store.pending_between(e.id(), e.peer)->Ok_0 is None ==> initiator_plan(
            e.store,
            e.identity,
            e.id(),
            e.peer,
        ) == Ok::<Option<ContextView>, SyncError>(None),
        responder_plan(e.store, e.identity, e.id(), e.peer, false) == Ok::<
            (Option<Seq<char>>, Option<RecordView>, Option<ContextView>),
            SyncError,
        >((None, e.store.pending_between(e.id(), e.peer)->Ok_0, None)),
{
    reveal(initiator_plan);
    reveal(responder_plan);
}

/// Two ends are set up for first contact where the initiator knows nothing of
/// the responder, and the responder has nothing active.
proof fn first_contact_is_set_up(i: EndView, r: EndView, d: Draws)
    requires
        partners(i, r),
        enrolled(i, r),
        knows_nothing(i),
        r.store.active_pair(r.store.active, r.id(), r.peer) == Ok::<
            Option<Seq<char>>,
            SyncError,
        >(None),
        r.store.pending_between(r.id(), r.peer) is Ok,
        is_id(d.pair_id),
    ensures
        ready(i, r, d),
        !reconnects(i),
        initiator_of(i, d).pair_id == d.pair_id,
        initiator_of(i, d).certificate == i.enrollment.certificate,
        responder_of(r, false).certificate == r.enrollment.certificate,
        found_by(r, false) == (
            None::<Seq<char>>,
            r.store.pending_between(r.id(), r.peer)->Ok_0,
        ),
{
    strangers_are_planned(i);
    strangers_are_planned(r);
    let found = r.store.pending_between(r.id(), r.peer)->Ok_0;
    let validation = ValidationView::Current { root: i.store.root, now: i.store.now };
    let initiator = InitiatorView::fresh(
        i.identity,
        d.pair_id,
        i.enrollment.certificate,
        i.peer,
        validation,
        d.i_secret,
    );
    let responder = ResponderView::fresh(
        r.identity,
        None,
        r.enrollment.certificate,
        r.peer,
        ValidationView::Current { root: r.store.root, now: r.store.now },
    );
    assert(reconnects(i) == false) by {
        reveal(reconnects);
    }
    assert(initiator_of(i, d) == initiator) by {
        reveal(initiator_of);
    }
    assert(responder_of(r, false) == responder) by {
        reveal(responder_of);
    }
    assert(found_by(r, false) == (None::<Seq<char>>, found)) by {
        reveal(found_by);
    }
    assert(set_up(initiator, (ResponderView { pair_id: Some(d.pair_id), ..responder })));
    assert(ready(i, r, d)) by {
        reveal(ready);
    }
}

/// The pins of a record of two ends are those of both of them.
pub(crate) proof fn record_is_pinned(record: RecordView, i: EndView, r: EndView)
    requires
        partners(i, r),
        record_of(record, i, r),
    ensures
        ({
            let pins = pins_of(record);
            &&& is_id(pins.pair_id)
            &&& pins.initiator_device_id == i.id()
            &&& pins.responder_device_id == r.id()
            &&& pins.initiator_public_key == i.key()
            &&& pins.responder_public_key == r.key()
            &&& pins.consistent()
            &&& presentable(pins.initiator_certificate)
            &&& presentable(pins.responder_certificate)
            &&& pins.role_of(i.identity) == Some(ROLE_INITIATOR)
            &&& pins.role_of(r.identity) == Some(ROLE_RESPONDER)
            &&& record_certificates(record) == Ok::<
                (CertificateView, CertificateView),
                SyncError,
            >((pins.initiator_certificate, pins.responder_certificate))
            &&& participant_context(record, i.store.root, i.identity) == Ok::<
                ContextView,
                SyncError,
            >(pins)
            &&& participant_context(record, i.store.root, r.identity) == Ok::<
                ContextView,
                SyncError,
            >(pins)
        }),
{
    let pins = pins_of(record);
    parsed_is_presentable(record.initiator_certificate);
    parsed_is_presentable(record.responder_certificate);
}

/// A certificate that was parsed is complete.
proof fn parsed_is_presentable(bytes: Seq<u8>)
    ensures
        certificate_parsed(bytes) matches Ok(c) ==> presentable(c),
{
}

/// What is planned with an end that has a record of its peer pending: to
/// reconnect with its pins.
proof fn pending_is_planned(e: EndView, record: RecordView, pins: ContextView)
    requires
        has_pending(e, record),
        participant_context(record, e.store.root, e.identity) == Ok::<ContextView, SyncError>(pins),
    ensures
        initiator_plan(e.store, e.identity, e.id(), e.peer) == Ok::<
            Option<ContextView>,
            SyncError,
        >(Some(pins)),
        responder_plan(e.store, e.identity, e.id(), e.peer, true) == Ok::<
            (Option<Seq<char>>, Option<RecordView>, Option<ContextView>),
            SyncError,
        >((None, Some(record), Some(pins))),
{
    reveal(initiator_plan);
    reveal(responder_plan);
}

/// What is planned with an end that has a record of its peer active: to
/// reconnect with its pins.
proof fn active_is_planned(e: EndView, record: RecordView, pins: ContextView)
    requires
        has_active(e, record),
        e.store.reconnecting(e.identity, record.pair_id) == Ok::<ContextView, SyncError>(pins),
    ensures
        initiator_plan(e.store, e.identity, e.id(), e.peer) == Ok::<
            Option<ContextView>,
            SyncError,
        >(Some(pins)),
        responder_plan(e.store, e.identity, e.id(), e.peer, true) == Ok::<
            (Option<Seq<char>>, Option<RecordView>, Option<ContextView>),
            SyncError,
        >((Some(record.pair_id), None, Some(pins))),
{
    reveal(initiator_plan);
    reveal(responder_plan);
}

/// Two ends are set up to reconnect where both plan it with the pins of one
/// record.
proof fn reconnection_is_set_up(
    i: EndView,
    r: EndView,
    d: Draws,
    record: RecordView,
    active: Option<Seq<char>>,
    pending: Option<RecordView>,
)
    requires
        partners(i, r),
        record_of(record, i, r),
        initiator_plan(i.store, i.identity, i.id(), i.peer) == Ok::<
            Option<ContextView>,
            SyncError,
        >(Some(pins_of(record))),
        responder_plan(r.store, r.identity, r.id(), r.peer, true) == Ok::<
            (Option<Seq<char>>, Option<RecordView>, Option<ContextView>),
            SyncError,
        >((active, pending, Some(pins_of(record)))),
    ensures
        ready(i, r, d),
        reconnects(i),
        initiator_of(i, d).pair_id == record.pair_id,
        initiator_of(i, d).certificate == pins_of(record).initiator_certificate,
        responder_of(r, true).certificate == pins_of(record).responder_certificate,
        found_by(r, true) == (active, pending),
{
    record_is_pinned(record, i, r);
    let pins = pins_of(record);
    let initiator = InitiatorView::fresh(
        i.identity,
        pins.pair_id,
        pins.initiator_certificate,
        pins.responder_device_id,
        ValidationView::Paired(pins),
        d.i_secret,
    );
    let responder = ResponderView::fresh(
        r.identity,
        Some(pins.pair_id),
        pins.responder_certificate,
        pins.initiator_device_id,
        ValidationView::Paired(pins),
    );
    assert(reconnects(i)) by {
        reveal(reconnects);
    }
    assert(initiator_of(i, d) == initiator) by {
        reveal(initiator_of);
    }
    assert(responder_of(r, true) == responder) by {
        reveal(responder_of);
    }
    assert(found_by(r, true) == (active, pending)) by {
        reveal(found_by);
    }
    assert((ResponderView { pair_id: Some(pins.pair_id), ..responder }) == responder);
    assert(set_up(initiator, responder));
    assert(ready(i, r, d)) by {
        reveal(ready);
    }
}

/// Two ends that stand where an attempt left a signed record are set up to
/// reconnect with its pins.
pub(crate) proof fn standing_ends_are_set_up(
    reached: Reached,
    i: EndView,
    r: EndView,
    d: Draws,
    half: RecordView,
    full: RecordView,
)
    requires
        partners(i, r),
        stand(reached, i, r, half, full),
        reached is CoSigned || reached is Finalized || reached is Done,
    ensures
        ready(i, r, d),
        reconnects(i),
        initiator_of(i, d).pair_id == full.pair_id,
        initiator_of(i, d).certificate == pins_of(full).initiator_certificate,
        responder_of(r, true).certificate == pins_of(full).responder_certificate,
        found_by(r, true) == (if reached is CoSigned {
            (None::<Seq<char>>, Some(half))
        } else {
            (Some(full.pair_id), None::<RecordView>)
        }),
{
    reveal(stand);
    let pins = pins_of(full);
    record_is_pinned(full, i, r);
    if reached is Done {
        assert(i.store.reconnecting(i.identity, full.pair_id) == Ok::<ContextView, SyncError>(
            pins,
        ));
        active_is_planned(i, full, pins);
    } else {
        pending_is_planned(i, full, pins);
    }
    if reached is CoSigned {
        record_is_pinned(half, i, r);
        assert(pins_of(half) == pins);
        pending_is_planned(r, half, pins);
        reconnection_is_set_up(i, r, d, full, None, Some(half));
    } else {
        assert(r.store.reconnecting(r.identity, full.pair_id) == Ok::<ContextView, SyncError>(
            pins,
        ));
        active_is_planned(r, full, pins);
        reconnection_is_set_up(i, r, d, full, Some(full.pair_id), None);
    }
}

// ---------------------------------------------------------------------------
// Settling.
// ---------------------------------------------------------------------------
/// Whether an attempt of two ends, from its first frame on, is settled: both
/// runs finish, both ends have the same record active, and nothing is left
/// pending between them. `asks` says whether the responder puts the initiator to
/// its user, who then approves by `presence`.
pub open spec fn settles(
    i: EndView,
    r: EndView,
    d: Draws,
    asks: bool,
    presence: Seq<char>,
    record: RecordView,
) -> bool {
    let m = meeting(i, r, d);
    let r1 = m.responder().stepped(EventView::Frame(m.signature()), m.proved.1);
    let i1 = m.initiator().stepped(EventView::Frame(frame_of(r1)), m.signed.1, Seq::empty());
    let r2 = run_of(r1).stepped(EventView::Frame(frame_of(i1)), r1.1);
    let r3 = run_of(r2).stepped(EventView::Message(ReceivedView::Request), r2.1);
    let approved = run_of(r3).stepped(EventView::Decision(Ok(presence)), r3.1);
    &&& m.succeeded()
    &&& r1.0 is Ok
    &&& i1.0 is Ok
    &&& r2.0 is Ok
    &&& action_of(r2) == ActionView::Parse(message_json(MessageView::Request))
    &&& r3.0 is Ok
    &&& action_of(r3) is Authorize <==> asks
    &&& record.complete()
    &&& if asks {
        &&& action_of(r3) == ActionView::Authorize(m.initiator_session().local_certificate)
        &&& offered(run_of(i1), approved, i1.1, record)
    } else {
        ||| offered(run_of(i1), r3, i1.1, record)
        ||| confirmation_leads_to(run_of(i1), r3, i1.1, record) && nothing_pending(
            r3.1.pending,
            record,
        )
    }
}

/// Whether the offer of some prepared record leads to a record.
pub open spec fn offered(
    i: InitiatorRunView,
    offer: (Result<(ResponderRunView, ActionView), SyncError>, StoreView),
    i_store: StoreView,
    record: RecordView,
) -> bool {
    exists|half: RecordView| offer_leads_to(i, offer, i_store, half, record)
}

/// Whether two strangers can be paired by an approval of time `at`: the PairID
/// that they meet under is new to both, their certificates were accepted then,
/// and both sign the record of their sessions.
pub open spec fn pairable(
    i: EndView,
    r: EndView,
    d: Draws,
    presence: Seq<char>,
    at: u64,
) -> bool {
    let m = meeting(i, r, d);
    &&& enrolled(i, r)
    &&& at != 0
    &&& certified_at(i.enrollment.certificate, i.store.root, at)
    &&& certified_at(r.enrollment.certificate, i.store.root, at)
    &&& is_marker(presence)
    &&& is_id(d.pair_id)
    &&& ready_for(i.store, d.pair_id)
    &&& ready_for(r.store, d.pair_id)
    &&& signable(
        m.responder_session(),
        m.initiator_session(),
        r.identity,
        i.identity,
        presence,
        at,
    )
}

/// Two strangers that meet, and can be paired, are acquainted.
pub(crate) proof fn strangers_are_acquainted(
    i: EndView,
    r: EndView,
    d: Draws,
    presence: Seq<char>,
    at: u64,
)
    requires
        noise_sound(),
        aead_sound(),
        d.wf(),
        partners(i, r),
        knows_nothing(i),
        r.store.active_pair(r.store.active, r.id(), r.peer) == Ok::<
            Option<Seq<char>>,
            SyncError,
        >(None),
        r.store.pending_between(r.id(), r.peer) is Ok,
        pairable(i, r, d, presence, at),
        transcript_signed(i, r, d),
    ensures
        ({
            let m = meeting(i, r, d);
            &&& m.succeeded()
            &&& m.leaves(i.store, r.store)
            &&& acquainted(
                m.initiator(),
                m.responder(),
                m.signature(),
                i.store,
                r.store,
                presence,
                at,
            )
            &&& m.initiator().identity == i.identity
            &&& m.responder().identity == r.identity
            &&& !m.responder().reconnect_start
            &&& m.responder().active_pair is None
            &&& m.responder().pending == r.store.pending_between(r.id(), r.peer)->Ok_0
            &&& m.initiator_session().pair_id == d.pair_id
            &&& m.initiator_session().local_certificate == i.enrollment.certificate
            &&& m.initiator_session().peer_certificate == r.enrollment.certificate
            &&& m.initiator_session().local_role == ROLE_INITIATOR
            &&& m.responder_session().local_role == ROLE_RESPONDER
            &&& sessions_match(m.responder_session(), m.initiator_session())
        }),
{
    first_contact_is_set_up(i, r, d);
    ends_meet(i, r, d);
    let m = meeting(i, r, d);
    let si = m.initiator_session();
    let sr = m.responder_session();
    assert(sessions_match(sr, si));
    assert(session_identity_error(si, i.identity) is None);
    assert(session_identity_error(sr, r.identity) is None);
    assert(can_pair(r.store, i.store, sr, si, r.identity, i.identity, presence, at)) by {
        reveal(can_pair);
    }
}

/// The record that two strangers come to.
pub open spec fn new_record(
    i: EndView,
    r: EndView,
    d: Draws,
    presence: Seq<char>,
) -> RecordView {
    let m = meeting(i, r, d);
    let half = r.store.prepared(m.responder_session(), r.identity, Ok(presence)).0->Ok_0;
    i.store.co_signed(m.initiator_session(), i.identity, half).0->Ok_0
}

/// The record that two ends come to where the responder has an approval pending.
pub open spec fn resumed_record(
    i: EndView,
    r: EndView,
    d: Draws,
    held: RecordView,
) -> RecordView {
    let m = meeting(i, r, d);
    let half = r.store.resumed(m.responder_session(), r.identity, held).0->Ok_0;
    i.store.co_signed(m.initiator_session(), i.identity, half).0->Ok_0
}

/// An attempt between two strangers is settled with one approval.
proof fn strangers_settle(i: EndView, r: EndView, d: Draws, presence: Seq<char>)
    requires
        noise_sound(),
        aead_sound(),
        d.wf(),
        partners(i, r),
        knows_nothing(i),
        knows_nothing(r),
        pairable(i, r, d, presence, r.store.now),
        transcript_signed(i, r, d),
    ensures
        settles(i, r, d, true, presence, new_record(i, r, d, presence)),
        new_record(i, r, d, presence).user_presence == presence,
{
    strangers_are_acquainted(i, r, d, presence, r.store.now);
    let m = meeting(i, r, d);
    strangers_are_paired(
        m.initiator(),
        m.responder(),
        m.signature(),
        i.store,
        r.store,
        presence,
    );
    reveal(offer_leads_to);
}

/// An attempt with a responder that has an approval pending is settled without
/// another one.
proof fn approved_settle(i: EndView, r: EndView, d: Draws, held: RecordView)
    requires
        noise_sound(),
        aead_sound(),
        d.wf(),
        partners(i, r),
        knows_nothing(i),
        has_pending(r, held),
        record_of(held, i, r),
        pairable(i, r, d, held.user_presence, held.authorized_at),
        transcript_signed(i, r, d),
    ensures
        settles(i, r, d, false, held.user_presence, resumed_record(i, r, d, held)),
        resumed_record(i, r, d, held).user_presence == held.user_presence,
{
    strangers_are_acquainted(i, r, d, held.user_presence, held.authorized_at);
    let m = meeting(i, r, d);
    interrupted_pairing_resumes(
        m.initiator(),
        m.responder(),
        m.signature(),
        i.store,
        r.store,
        held,
    );
    reveal(offer_leads_to);
}

/// An initiator that reconnects with the pins of a complete record can take it.
pub(crate) proof fn reconnected_can_reconcile(
    i: EndView,
    r: EndView,
    full: RecordView,
    si: SessionView,
)
    requires
        partners(i, r),
        record_of(full, i, r),
        full.complete(),
        si.local_role == ROLE_INITIATOR,
        si.local_certificate == pins_of(full).initiator_certificate,
        si.peer_certificate == pins_of(full).responder_certificate,
        si.local_device_id == si.local_certificate.device_id,
        sound(i.store.pending, i.store.root),
        open_to(i, full),
    ensures
        can_reconcile(i.store, si, i.identity, full),
{
    record_is_pinned(full, i, r);
    complete_is_in_order(full, i.store.root);
    assert(readable(i.store.pending));
    reveal(can_reconcile);
}

/// A responder that reconnects with the pins of a complete record can take it.
pub(crate) proof fn responder_can_reconcile(
    i: EndView,
    r: EndView,
    full: RecordView,
    sr: SessionView,
)
    requires
        partners(i, r),
        record_of(full, i, r),
        full.complete(),
        sr.local_role == ROLE_RESPONDER,
        sr.peer_certificate == pins_of(full).initiator_certificate,
        sr.local_certificate == pins_of(full).responder_certificate,
        sr.local_device_id == sr.local_certificate.device_id,
        sound(r.store.pending, r.store.root),
        open_to(r, full),
    ensures
        can_reconcile(r.store, sr, r.identity, full),
{
    record_is_pinned(full, i, r);
    complete_is_in_order(full, r.store.root);
    assert(readable(r.store.pending));
    reveal(can_reconcile);
}

/// A complete record that is in order as a pending one is in order as an active
/// one.
proof fn complete_is_in_order(record: RecordView, root: RootView)
    requires
        pending_error(record, root) is None,
        record.complete(),
    ensures
        stored_error(record, root) is None,
{
}

/// An attempt after the initiator has co-signed is settled with what it signed.
proof fn co_signed_settle(
    i: EndView,
    r: EndView,
    d: Draws,
    half: RecordView,
    full: RecordView,
)
    requires
        noise_sound(),
        aead_sound(),
        d.wf(),
        partners(i, r),
        stand(Reached::CoSigned, i, r, half, full),
        transcript_signed(i, r, d),
        full.session_binding != meeting(i, r, d).responder_session().session_binding,
    ensures
        settles(i, r, d, false, full.user_presence, full),
{
    standing_ends_are_set_up(Reached::CoSigned, i, r, d, half, full);
    ends_meet(i, r, d);
    reveal(stand);
    let m = meeting(i, r, d);
    let si = m.initiator_session();
    let sr = m.responder_session();
    record_is_pinned(full, i, r);
    reconnected_can_reconcile(i, r, full, si);
    responder_can_reconcile(i, r, full, sr);
    assert(full.pair_id == half.pair_id) by {
        assert(full.unsigned().pair_id == half.unsigned().pair_id);
    }
    interrupted_completion_recovers(
        m.initiator(),
        m.responder(),
        m.acknowledged().0,
        m.signature(),
        si,
        sr,
        i.store,
        r.store,
        half,
        full,
    );
    reveal(offer_leads_to);
}

/// The signature is answered with the acknowledgement.
pub(crate) proof fn signature_is_acknowledged(
    r: ResponderRunView,
    v: ResponderView,
    signature: Seq<u8>,
    ack: Seq<u8>,
    s: SessionView,
    store: StoreView,
)
    requires
        r.stage == ResponderStageView::Signature(v),
        v.after_signature(signature).0 == Ok::<(Seq<u8>, SessionView), SyncError>((ack, s)),
    ensures
        r.stepped(EventView::Frame(signature), store) == (
            Ok::<(ResponderRunView, ActionView), SyncError>(
                (r.at(ResponderStageView::Request(s)), ActionView::Exchange(seq![ack])),
            ),
            store,
        ),
{
    reveal(ResponderRunView::stepped);
}

/// An attempt after the responder has made the record active is settled with
/// that record.
proof fn finalized_settle(
    reached: Reached,
    i: EndView,
    r: EndView,
    d: Draws,
    half: RecordView,
    full: RecordView,
)
    requires
        noise_sound(),
        aead_sound(),
        d.wf(),
        partners(i, r),
        reached is Finalized || reached is Done,
        stand(reached, i, r, half, full),
        transcript_signed(i, r, d),
    ensures
        settles(i, r, d, false, full.user_presence, full),
{
    standing_ends_are_set_up(reached, i, r, d, half, full);
    ends_meet(i, r, d);
    reveal(stand);
    let m = meeting(i, r, d);
    let si = m.initiator_session();
    let sr = m.responder_session();
    let ack = m.acknowledged().0;
    record_is_pinned(full, i, r);
    reconnected_can_reconcile(i, r, full, si);
    signature_is_acknowledged(
        m.responder(),
        m.responder().stage->Signature_0,
        m.signature(),
        ack,
        sr,
        r.store,
    );
    let r1 = m.responder().stepped(EventView::Frame(m.signature()), r.store);
    assert(frame_of(r1) == ack);
    assert(in_step(si, sr, 1, 2)) by {
        reveal(in_step);
    }
    active_pairing_is_confirmed(
        m.initiator(),
        run_of(r1),
        ack,
        i.store,
        r.store,
        full.pair_id,
        full,
    );
    nothing_is_found(r.store.pending, r.store.root, r.id(), r.peer);
    assert(nothing_pending(r.store.pending, full));
    reveal(confirmation_leads_to);
}

// ---------------------------------------------------------------------------
// Breaking off.
// ---------------------------------------------------------------------------
/// The record that a responder prepares for a stranger.
pub open spec fn new_half(i: EndView, r: EndView, d: Draws, presence: Seq<char>) -> RecordView {
    r.store.prepared(
        meeting(i, r, d).responder_session(),
        r.identity,
        Ok(presence),
    ).0->Ok_0
}

/// The stores, the initiator's first, that an attempt between two strangers
/// leaves when it is broken off after it got so far.
#[verifier::opaque]
pub open spec fn stores_left(
    reached: Reached,
    i: EndView,
    r: EndView,
    d: Draws,
    presence: Seq<char>,
) -> (StoreView, StoreView) {
    let m = meeting(i, r, d);
    let r1 = m.responder().stepped(EventView::Frame(m.signature()), m.proved.1);
    let i1 = m.initiator().stepped(EventView::Frame(frame_of(r1)), m.signed.1, Seq::empty());
    let r2 = run_of(r1).stepped(EventView::Frame(frame_of(i1)), r1.1);
    let r3 = run_of(r2).stepped(EventView::Message(ReceivedView::Request), r2.1);
    let offer = run_of(r3).stepped(EventView::Decision(Ok(presence)), r3.1);
    let (signed, finalized, done) = stores_after_offer(
        run_of(i1),
        offer,
        i1.1,
        new_half(i, r, d, presence),
        new_record(i, r, d, presence),
    );
    match reached {
        Reached::Nothing => (i1.1, r3.1),
        Reached::Approved => (i1.1, offer.1),
        Reached::CoSigned => (signed, offer.1),
        Reached::Finalized => (signed, finalized),
        Reached::Done => (done, finalized),
    }
}

/// Whether an end comes again, with its store opened anew on what an attempt has
/// left.
pub open spec fn comes_again(before: EndView, left: StoreView, after: EndView) -> bool {
    &&& after.identity == before.identity
    &&& after.peer == before.peer
    &&& after.store.active == left.active
    &&& after.store.pending == left.pending
    &&& after.store.revoked == left.revoked
    &&& after.store.root == left.root
}

/// The stores that an attempt between two strangers leaves, by what was done to
/// them.
proof fn strangers_leave(i: EndView, r: EndView, d: Draws, presence: Seq<char>, reached: Reached)
    requires
        noise_sound(),
        aead_sound(),
        d.wf(),
        partners(i, r),
        knows_nothing(i),
        knows_nothing(r),
        pairable(i, r, d, presence, r.store.now),
        transcript_signed(i, r, d),
    ensures
        ({
            let m = meeting(i, r, d);
            let si = m.initiator_session();
            let sr = m.responder_session();
            let prepared = r.store.prepared(sr, r.identity, Ok(presence));
            let half = new_half(i, r, d, presence);
            let full = new_record(i, r, d, presence);
            let signed = i.store.co_signed(si, i.identity, half);
            let finalized = prepared.1.accepted(sr, r.identity, full, false);
            let done = signed.1.accepted(si, i.identity, full, true);
            &&& prepared.0 is Ok
            &&& signed.0 is Ok
            &&& finalized.0 is Ok
            &&& done.0 is Ok
            &&& stores_left(reached, i, r, d, presence) == (match reached {
                Reached::Nothing => (i.store, r.store),
                Reached::Approved => (i.store, prepared.1),
                Reached::CoSigned => (signed.1, prepared.1),
                Reached::Finalized => (signed.1, finalized.1),
                Reached::Done => (done.1, finalized.1),
            })
            &&& si.pair_id == d.pair_id
            &&& si.local_certificate == i.enrollment.certificate
            &&& si.peer_certificate == r.enrollment.certificate
            &&& si.local_role == ROLE_INITIATOR
            &&& sr.local_role == ROLE_RESPONDER
            &&& sessions_match(sr, si)
        }),
{
    strangers_are_acquainted(i, r, d, presence, r.store.now);
    let m = meeting(i, r, d);
    strangers_are_paired(
        m.initiator(),
        m.responder(),
        m.signature(),
        i.store,
        r.store,
        presence,
    );
    bilateral_pairing_completes(
        r.store,
        i.store,
        m.responder_session(),
        m.initiator_session(),
        r.identity,
        i.identity,
        presence,
        false,
        true,
    );
    reveal(stores_left);
}

/// The record that a responder prepares for a stranger is of the two ends, and
/// so is the co-signed one.
proof fn new_records_are_of_both(i: EndView, r: EndView, d: Draws, presence: Seq<char>)
    requires
        noise_sound(),
        aead_sound(),
        d.wf(),
        partners(i, r),
        knows_nothing(i),
        knows_nothing(r),
        pairable(i, r, d, presence, r.store.now),
        transcript_signed(i, r, d),
    ensures
        ({
            let half = new_half(i, r, d, presence);
            let full = new_record(i, r, d, presence);
            let prepared = stores_left(Reached::Approved, i, r, d, presence).1;
            let signed = stores_left(Reached::CoSigned, i, r, d, presence).0;
            &&& record_of(half, i, r)
            &&& record_of(full, i, r)
            &&& half.unsigned() == full.unsigned()
            &&& half.user_presence == presence
            &&& half.authorized_at == r.store.now
            &&& full.user_presence == presence
            &&& full.complete()
            &&& half.pair_id == d.pair_id
            &&& full.pair_id == d.pair_id
            &&& prepared == (StoreView {
                pending: written(r.store.pending, record_name(d.pair_id), half),
                journal: prepared.journal,
                ..r.store
            })
            &&& signed == (StoreView {
                pending: written(i.store.pending, record_name(d.pair_id), full),
                journal: signed.journal,
                ..i.store
            })
        }),
{
    strangers_leave(i, r, d, presence, Reached::Approved);
    strangers_leave(i, r, d, presence, Reached::CoSigned);
    let m = meeting(i, r, d);
    let si = m.initiator_session();
    let sr = m.responder_session();
    let half = new_half(i, r, d, presence);
    let full = new_record(i, r, d, presence);
    prepared_is_pending(r.store, sr, r.identity, presence);
    let blank = session_record(sr, sr.pair_id, presence, r.identity, r.store.now);
    assert(half.pair_id == half.unsigned().pair_id && blank.pair_id == blank.unsigned().pair_id);
    assert(half.user_presence == blank.user_presence && half.authorized_at == blank.authorized_at
        && half.initiator_device_id == blank.initiator_device_id && half.responder_device_id
        == blank.responder_device_id && half.initiator_public_key == blank.initiator_public_key
        && half.responder_public_key == blank.responder_public_key && half.authorizing_device_id
        == blank.authorizing_device_id) by {
        assert(half.unsigned().user_presence == blank.unsigned().user_presence);
        assert(half.unsigned().authorized_at == blank.unsigned().authorized_at);
        assert(half.unsigned().initiator_device_id == blank.unsigned().initiator_device_id);
    }
    assert(record_of(half, i, r));
    co_signed_is_pending(i.store, si, i.identity, half);
    assert(full.pair_id == full.unsigned().pair_id && full.user_presence
        == full.unsigned().user_presence);
    assert(record_of(full, i, r));
}

/// An end that knew nothing of its peer, and comes again without a change, knows
/// nothing of it.
pub(crate) proof fn unchanged_knows_nothing(e: EndView, e2: EndView)
    requires
        knows_nothing(e),
        comes_again(e, e.store, e2),
    ensures
        knows_nothing(e2),
{
    active_search_reads_active(e.store, e2.store, e.store.active, e.id(), e.peer);
}

/// An end that knew nothing of its peer, and comes again after a record of the
/// two was written as pending, has it pending.
pub(crate) proof fn written_is_had(e: EndView, left: StoreView, e2: EndView, record: RecordView)
    requires
        knows_nothing(e),
        pending_error(record, e.store.root) is None,
        record.binds(e.id(), e.peer),
        left.active == e.store.active,
        left.root == e.store.root,
        left.pending == written(e.store.pending, record_name(record.pair_id), record),
        comes_again(e, left, e2),
    ensures
        has_pending(e2, record),
        left.active_pair(left.active, e.id(), e.peer) == Ok::<Option<Seq<char>>, SyncError>(None),
{
    written_is_found(
        e.store.pending,
        e.store.root,
        e.id(),
        e.peer,
        record_name(record.pair_id),
        record,
    );
    active_search_reads_active(e.store, e2.store, e.store.active, e.id(), e.peer);
    active_search_reads_active(e.store, left, e.store.active, e.id(), e.peer);
}

/// An end that comes again after it has taken a record has it active.
pub(crate) proof fn accepted_is_had(
    e: EndView,
    v: StoreView,
    s: SessionView,
    e2: EndView,
    full: RecordView,
    reconciling: bool,
)
    requires
        v.accepted(s, e.identity, full, reconciling).0 is Ok,
        pending_error(full, v.root) is None,
        full.binds(e.id(), e.peer),
        lookup(v.active, record_name(full.pair_id)) is None,
        sound(v.pending, v.root),
        v.active_pair(v.active, e.id(), e.peer) == Ok::<Option<Seq<char>>, SyncError>(None),
        is_id(e.id()),
        is_id(e.peer),
        comes_again(e, v.accepted(s, e.identity, full, reconciling).1, e2),
    ensures
        has_active(e2, full),
        e2.store.root == v.root,
        e2.store.revoked == v.revoked,
{
    accepted_is_active(v, s, e.identity, full, reconciling, e.id(), e.peer);
    let after = v.accepted(s, e.identity, full, reconciling).1;
    active_search_reads_active(after, e2.store, after.active, e.id(), e.peer);
}

/// An attempt between two strangers that is broken off anywhere leaves the two
/// ends, when they come again, at the point that it got to.
pub(crate) proof fn broken_attempts_stand(
    i: EndView,
    r: EndView,
    d: Draws,
    presence: Seq<char>,
    reached: Reached,
    i2: EndView,
    r2: EndView,
)
    requires
        noise_sound(),
        aead_sound(),
        d.wf(),
        partners(i, r),
        knows_nothing(i),
        knows_nothing(r),
        pairable(i, r, d, presence, r.store.now),
        transcript_signed(i, r, d),
        comes_again(i, stores_left(reached, i, r, d, presence).0, i2),
        comes_again(r, stores_left(reached, i, r, d, presence).1, r2),
    ensures
        partners(i2, r2),
        stand(
            reached,
            i2,
            r2,
            new_half(i, r, d, presence),
            new_record(i, r, d, presence),
        ),
{
    let half = new_half(i, r, d, presence);
    let full = new_record(i, r, d, presence);
    let si = meeting(i, r, d).initiator_session();
    let sr = meeting(i, r, d).responder_session();
    let (signed, prepared) = stores_left(Reached::CoSigned, i, r, d, presence);
    strangers_leave(i, r, d, presence, reached);
    strangers_leave(i, r, d, presence, Reached::CoSigned);
    strangers_leave(i, r, d, presence, Reached::Approved);
    new_records_are_of_both(i, r, d, presence);
    let i_now = EndView { store: signed, ..i };
    let r_now = EndView { store: prepared, ..r };
    written_is_had(i, signed, i_now, full);
    written_is_had(r, prepared, r_now, half);
    match reached {
        Reached::Nothing => {
            unchanged_knows_nothing(i, i2);
            unchanged_knows_nothing(r, r2);
        },
        Reached::Approved => {
            unchanged_knows_nothing(i, i2);
            written_is_had(r, prepared, r2, half);
        },
        Reached::CoSigned => {
            written_is_had(i, signed, i2, full);
            written_is_had(r, prepared, r2, half);
        },
        Reached::Finalized => {
            written_is_had(i, signed, i2, full);
            accepted_is_had(r, prepared, sr, r2, full, false);
        },
        Reached::Done => {
            accepted_is_had(i, signed, si, i2, full, true);
            accepted_is_had(r, prepared, sr, r2, full, false);
        },
    }
    reveal(stand);
}

/// Whether two ends that stand somewhere can attempt again: both sign the
/// transcript of their meeting; where they meet as strangers they can be paired,
/// by a new approval or by the one that is pending; and where a co-signed record
/// is offered, the new session has a binding of its own.
pub open spec fn retriable(
    reached: Reached,
    i: EndView,
    r: EndView,
    d: Draws,
    presence: Seq<char>,
    half: RecordView,
    full: RecordView,
) -> bool {
    &&& d.wf()
    &&& transcript_signed(i, r, d)
    &&& match reached {
        Reached::Nothing => pairable(i, r, d, presence, r.store.now),
        Reached::Approved => pairable(i, r, d, half.user_presence, half.authorized_at),
        Reached::CoSigned => full.session_binding != meeting(
            i,
            r,
            d,
        ).responder_session().session_binding,
        Reached::Finalized => true,
        Reached::Done => true,
    }
}

/// The record that two ends come to from where they stand.
pub open spec fn settled_record(
    reached: Reached,
    i: EndView,
    r: EndView,
    d: Draws,
    presence: Seq<char>,
    half: RecordView,
    full: RecordView,
) -> RecordView {
    match reached {
        Reached::Nothing => new_record(i, r, d, presence),
        Reached::Approved => resumed_record(i, r, d, half),
        Reached::CoSigned => full,
        Reached::Finalized => full,
        Reached::Done => full,
    }
}

/// Wherever an earlier attempt has left two ends, a complete one settles their
/// pairing, from the first frame to the same active record on both sides. The
/// local user is asked only where nothing was approved before; any earlier
/// approval serves, and nobody is asked again.
pub proof fn standing_ends_settle(
    reached: Reached,
    i: EndView,
    r: EndView,
    d: Draws,
    presence: Seq<char>,
    half: RecordView,
    full: RecordView,
)
    requires
        noise_sound(),
        aead_sound(),
        partners(i, r),
        stand(reached, i, r, half, full),
        retriable(reached, i, r, d, presence, half, full),
    ensures
        ({
            let record = settled_record(reached, i, r, d, presence, half, full);
            &&& settles(i, r, d, reached is Nothing, presence, record)
            &&& record.user_presence == (match reached {
                Reached::Nothing => presence,
                Reached::Approved => half.user_presence,
                _ => full.user_presence,
            })
        }),
{
    match reached {
        Reached::Nothing => {
            reveal(stand);
            strangers_settle(i, r, d, presence);
        },
        Reached::Approved => {
            reveal(stand);
            approved_settle(i, r, d, half);
        },
        Reached::CoSigned => co_signed_settle(i, r, d, half, full),
        Reached::Finalized => finalized_settle(reached, i, r, d, half, full),
        Reached::Done => finalized_settle(reached, i, r, d, half, full),
    }
}

/// An interruption is made up for. Two strangers attempt to pair, and the
/// attempt is broken off anywhere; both come again, at any time, with their
/// stores opened anew on what is left, and this attempt runs to its end. Both
/// then have the same record active and nothing pending, and over both attempts
/// the local user has approved once, by the presence that the record shows.
pub proof fn interruptions_are_made_up_for(
    i: EndView,
    r: EndView,
    d: Draws,
    presence: Seq<char>,
    reached: Reached,
    i2: EndView,
    r2: EndView,
    d2: Draws,
    presence2: Seq<char>,
)
    requires
        noise_sound(),
        aead_sound(),
        d.wf(),
        partners(i, r),
        knows_nothing(i),
        knows_nothing(r),
        pairable(i, r, d, presence, r.store.now),
        transcript_signed(i, r, d),
        comes_again(i, stores_left(reached, i, r, d, presence).0, i2),
        comes_again(r, stores_left(reached, i, r, d, presence).1, r2),
        retriable(
            reached,
            i2,
            r2,
            d2,
            presence2,
            new_half(i, r, d, presence),
            new_record(i, r, d, presence),
        ),
    ensures
        ({
            let record = settled_record(
                reached,
                i2,
                r2,
                d2,
                presence2,
                new_half(i, r, d, presence),
                new_record(i, r, d, presence),
            );
            &&& settles(i2, r2, d2, reached is Nothing, presence2, record)
            &&& record.user_presence == (if reached is Nothing {
                presence2
            } else {
                presence
            })
        }),
{
    let half = new_half(i, r, d, presence);
    let full = new_record(i, r, d, presence);
    broken_attempts_stand(i, r, d, presence, reached, i2, r2);
    new_records_are_of_both(i, r, d, presence);
    standing_ends_settle(reached, i2, r2, d2, presence2, half, full);
}

} // verus!
