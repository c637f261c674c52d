//! What holds of a pairing store over time, and of two stores together.
use crate::codec::utf8;
use crate::crypto::{ed25519_key_valid, ed25519_public, ed25519_sign, ed25519_verifies};
use crate::error::SyncError;
use crate::frames::{is_role, ROLE_INITIATOR, ROLE_RESPONDER};
use crate::identity::device_id_of;
use crate::pairing::SessionView;
use crate::protocol_v3::{
    certificate_error, certificate_length, certificate_round_trip, CertificateView, RootView,
};
use crate::record::{
    binding_error, is_marker, pending_error, record_certified, record_keys_session,
    record_magic_length, record_message, record_names_session, record_shape_error,
    record_sign_error, record_signatures_error, session_encode_error, session_identity_error,
    session_record, session_record_error, storable, stored_error, Demands, RecordView,
};
use crate::text::is_id;
use crate::trust::{
    any_active, file_stem, first_pending, last_dot, lookup, record_name, swept, without, written,
    ContentView, EntryView, StoreView,
};
use vstd::prelude::*;
use vstd::utf8::*;

verus! {

// ---------------------------------------------------------------------------
// Directories.
// ---------------------------------------------------------------------------
/// What is found under a name once an entry is added at the end.
proof fn lookup_push(entries: Seq<EntryView>, entry: EntryView, name: Seq<u8>)
    ensures
        lookup(entries.push(entry), name) == (if lookup(entries, name) is Some {
            lookup(entries, name)
        } else if entry.name == name {
            match entry.content {
                ContentView::Absent => None,
                ContentView::Unreadable(error) => Some(Err(error)),
                ContentView::Record(record) => Some(Ok(record)),
            }
        } else {
            None
        }),
    decreases entries.len(),
{
    let all = entries.push(entry);
    if entries.len() == 0 {
        assert(all.drop_first() =~= Seq::empty());
        assert(lookup(all.drop_first(), name) is None);
    } else {
        assert(all.drop_first() =~= entries.drop_first().push(entry));
        assert(all[0] == entries[0]);
        lookup_push(entries.drop_first(), entry, name);
    }
}

/// Removing a name leaves nothing under it, and everything else as it was.
pub(crate) proof fn lookup_without(entries: Seq<EntryView>, name: Seq<u8>, other: Seq<u8>)
    ensures
        lookup(without(entries, name), other) == (if other == name {
            None
        } else {
            lookup(entries, other)
        }),
    decreases entries.len(),
{
    if entries.len() > 0 {
        let rest = entries.drop_last();
        lookup_without(rest, name, other);
        assert(entries =~= rest.push(entries.last()));
        lookup_push(rest, entries.last(), other);
        lookup_push(without(rest, name), entries.last(), other);
    }
}

/// Writing a record puts it under its name, and leaves everything else as it
/// was.
pub(crate) proof fn lookup_written(
    entries: Seq<EntryView>,
    name: Seq<u8>,
    record: RecordView,
    other: Seq<u8>,
)
    ensures
        lookup(written(entries, name, record), other) == (if other == name {
            Some(Ok(record))
        } else {
            lookup(entries, other)
        }),
{
    lookup_without(entries, name, other);
    lookup_push(
        without(entries, name),
        EntryView { name, content: ContentView::Record(record) },
        other,
    );
}

/// Whether no pending record binds the two devices of a record.
pub open spec fn nothing_pending(entries: Seq<EntryView>, record: RecordView) -> bool {
    forall|i: int|
        0 <= i < entries.len() ==> ((#[trigger] entries[i]).content matches ContentView::Record(p)
            ==> !p.binds(record.initiator_device_id, record.responder_device_id))
}

/// A sweep that ends without fault leaves no pending record of the two devices,
/// and another sweep finds nothing to do.
proof fn sweep_is_thorough(entries: Seq<EntryView>, record: RecordView)
    requires
        swept(entries, record).0 is None,
    ensures
        nothing_pending(swept(entries, record).1, record),
        swept(swept(entries, record).1, record) == (
            None::<SyncError>,
            swept(entries, record).1,
            Seq::<crate::trust::ChangeView>::empty(),
        ),
    decreases entries.len(),
{
    if entries.len() > 0 {
        let rest = entries.drop_last();
        sweep_is_thorough(rest, record);
        let kept = swept(rest, record).1;
        let all = swept(entries, record).1;
        if all.len() > kept.len() {
            assert(all.drop_last() =~= kept);
            assert(all.last() == entries.last());
        } else {
            assert(all == kept);
        }
    }
}

// ---------------------------------------------------------------------------
// One store.
// ---------------------------------------------------------------------------
/// Preparing, resuming and co-signing write pending state at most: they neither
/// activate nor revoke anything.
pub proof fn preparing_never_activates(
    v: StoreView,
    s: SessionView,
    secret: Seq<u8>,
    decision: Result<Seq<char>, SyncError>,
    pending: RecordView,
)
    ensures
        v.prepared(s, secret, decision).1.active == v.active,
        v.prepared(s, secret, decision).1.revoked == v.revoked,
        v.resumed(s, secret, pending).1.active == v.active,
        v.resumed(s, secret, pending).1.revoked == v.revoked,
        v.co_signed(s, secret, pending).1.active == v.active,
        v.co_signed(s, secret, pending).1.revoked == v.revoked,
        decision is Err ==> v.prepared(s, secret, decision).1 == v,
{
    reveal(StoreView::prepared);
    reveal(StoreView::resumed);
    reveal(StoreView::co_signed);
}

/// Only a record that both identities have signed becomes active, and only one
/// whose participants are the two certified ends of the session.
pub proof fn only_bilateral_records_activate(
    v: StoreView,
    s: SessionView,
    secret: Seq<u8>,
    record: RecordView,
    reconciling: bool,
)
    requires
        v.accepted(s, secret, record, reconciling).0 is Ok || v.accepted(
            s,
            secret,
            record,
            reconciling,
        ).1.active != v.active,
    ensures
        record.complete(),
        ed25519_verifies(
            record.initiator_public_key,
            record_message(record, ROLE_INITIATOR),
            record.initiator_signature->Some_0,
        ),
        ed25519_verifies(
            record.responder_public_key,
            record_message(record, ROLE_RESPONDER),
            record.responder_signature->Some_0,
        ),
        record_names_session(record, s),
        !reconciling ==> record.session_binding == s.session_binding,
{
    reveal(StoreView::accepted);
}

/// Whether an entry is a complete and valid record that binds two devices.
pub open spec fn binds_actively(
    entry: EntryView,
    root: RootView,
    local: Seq<char>,
    peer: Seq<char>,
) -> bool {
    &&& entry.content matches ContentView::Record(r)
    &&& r.binds(local, peer)
    &&& r.complete()
    &&& stored_error(r, root) is None
}

/// Where two devices count as actively paired, the store holds a record that
/// binds them, that both identities have signed, and whose certificates were
/// accepted when it was authorized.
pub proof fn active_means_bilateral(v: StoreView, local: Seq<char>, peer: Seq<char>)
    requires
        v.active_between(local, peer) == Ok::<bool, SyncError>(true),
    ensures
        exists|i: int|
            0 <= i < v.active.len() && binds_actively(#[trigger] v.active[i], v.root, local, peer),
{
    active_is_held(v.active, v.root, local, peer);
}

/// What [`active_means_bilateral`] says, of the entries alone.
proof fn active_is_held(
    entries: Seq<EntryView>,
    root: RootView,
    local: Seq<char>,
    peer: Seq<char>,
)
    requires
        any_active(entries, root, local, peer) == Ok::<bool, SyncError>(true),
    ensures
        exists|i: int|
            0 <= i < entries.len() && binds_actively(#[trigger] entries[i], root, local, peer),
    decreases entries.len(),
{
    if !binds_actively(entries[0], root, local, peer) {
        let rest = entries.drop_first();
        active_is_held(rest, root, local, peer);
        let i = choose|i: int|
            0 <= i < rest.len() && binds_actively(#[trigger] rest[i], root, local, peer);
        assert(entries[i + 1] == rest[i]);
    }
}

/// A record that is not accepted changes nothing that is active or revoked.
pub proof fn refused_records_change_nothing(
    v: StoreView,
    s: SessionView,
    secret: Seq<u8>,
    record: RecordView,
    reconciling: bool,
)
    requires
        session_identity_error(s, secret) is Some || !record.complete() || session_record_error(
            record,
            s,
            secret,
            v.root,
            v.now,
            (Demands { complete: true, bound: !reconciling, at_authorization: reconciling }),
        ) is Some,
    ensures
        v.accepted(s, secret, record, reconciling).0 is Err,
        v.accepted(s, secret, record, reconciling).1 == v,
{
    reveal(StoreView::accepted);
}

/// A record that was reconciled loads as exactly that record, and so does one
/// that was finalized, provided its certificates were valid when it was
/// authorized.
pub proof fn accepted_records_load(
    v: StoreView,
    s: SessionView,
    secret: Seq<u8>,
    record: RecordView,
    reconciling: bool,
)
    requires
        v.accepted(s, secret, record, reconciling).0 is Ok,
        reconciling || record_certified(record, v.root, record.authorized_at) is Ok,
    ensures
        v.accepted(s, secret, record, reconciling).1.loaded(record.pair_id) == Ok::<
            Option<RecordView>,
            SyncError,
        >(Some(record)),
{
    reveal(StoreView::accepted);
    lookup_written(
        v.active,
        record_name(record.pair_id),
        record,
        record_name(record.pair_id),
    );
    accepted_is_storable(v, s, secret, record, reconciling);
}

/// A record that is accepted in a session passes the checks on stored records
/// too, if its certificates were valid when it was authorized.
proof fn accepted_is_storable(
    v: StoreView,
    s: SessionView,
    secret: Seq<u8>,
    record: RecordView,
    reconciling: bool,
)
    requires
        session_record_error(
            record,
            s,
            secret,
            v.root,
            v.now,
            (Demands { complete: true, bound: !reconciling, at_authorization: reconciling }),
        ) is None,
        reconciling || record_certified(record, v.root, record.authorized_at) is Ok,
    ensures
        stored_error(record, v.root) is None,
        record_shape_error(record) is None,
{
}

/// Once a record is active, no pending record of the same two devices is left,
/// and activating it again changes nothing.
pub proof fn activation_is_idempotent(v: StoreView, record: RecordView)
    requires
        v.activated(record).0 is Ok,
    ensures
        nothing_pending(v.activated(record).1.pending, record),
        v.activated(record).1.activated(record) == (
            Ok::<(), SyncError>(()),
            v.activated(record).1,
        ),
{
    let name = record_name(record.pair_id);
    lookup_written(v.active, name, record, name);
    sweep_is_thorough(v.pending, record);
    let after = v.activated(record).1;
    assert(after.journal + Seq::empty() =~= after.journal);
}

/// Whatever is active under a PairID stays: activating any record never
/// replaces it.
pub proof fn active_records_are_never_replaced(
    v: StoreView,
    record: RecordView,
    pair_id: Seq<char>,
)
    requires
        lookup(v.active, record_name(pair_id)) is Some,
    ensures
        lookup(v.activated(record).1.active, record_name(pair_id)) == lookup(
            v.active,
            record_name(pair_id),
        ),
{
    lookup_written(v.active, record_name(record.pair_id), record, record_name(pair_id));
}

/// Whatever is pending under a PairID stays: writing any record as pending
/// never replaces it, and a different record under its PairID is refused.
pub proof fn pending_records_are_never_replaced(
    v: StoreView,
    record: RecordView,
    pair_id: Seq<char>,
)
    requires
        lookup(v.pending, record_name(pair_id)) is Some,
    ensures
        lookup(v.pending_written(record).1.pending, record_name(pair_id)) == lookup(
            v.pending,
            record_name(pair_id),
        ),
        (lookup(v.pending, record_name(pair_id)) matches Some(Ok(existing)) && record.pair_id
            == pair_id && existing.session_binding != record.session_binding)
            ==> v.pending_written(record).0 is Err,
{
    lookup_written(v.pending, record_name(record.pair_id), record, record_name(pair_id));
}

/// Whether a record is pending, or a complete record of the same pairing is.
pub open spec fn kept_pending(v: StoreView, record: RecordView) -> bool {
    &&& v.loaded_pending(record.pair_id) matches Ok(Some(kept))
    &&& kept == record || (kept.complete() && binding_error(kept, record) is None)
}

/// A record that was prepared, resumed or co-signed is pending then, unless a
/// complete record of the same pairing was pending before.
pub proof fn signed_records_are_pending(
    v: StoreView,
    s: SessionView,
    secret: Seq<u8>,
    decision: Result<Seq<char>, SyncError>,
    pending: RecordView,
)
    ensures
        v.prepared(s, secret, decision).0 matches Ok(record) ==> kept_pending(
            v.prepared(s, secret, decision).1,
            record,
        ),
        v.resumed(s, secret, pending).0 matches Ok(record) ==> kept_pending(
            v.resumed(s, secret, pending).1,
            record,
        ),
        v.co_signed(s, secret, pending).0 matches Ok(record) ==> kept_pending(
            v.co_signed(s, secret, pending).1,
            record,
        ),
{
    reveal(StoreView::prepared);
    reveal(StoreView::resumed);
    reveal(StoreView::co_signed);
    assert forall|record: RecordView, complete: bool|
        (#[trigger] v.signed_and_written(record, s, secret, complete)).0 matches Ok(
            signed,
        ) ==> kept_pending(v.signed_and_written(record, s, secret, complete).1, signed) by {
        let (result, after) = v.signed_and_written(record, s, secret, complete);
        if result is Ok {
            let signed = result->Ok_0;
            let name = record_name(signed.pair_id);
            lookup_written(v.pending, name, signed, name);
        }
    }
}

/// Whether a PairID has been revoked and has no active record.
pub open spec fn is_revoked(v: StoreView, pair_id: Seq<char>) -> bool {
    v.revoked.contains(record_name(pair_id)) && lookup(v.active, record_name(pair_id)) is None
}

/// Revoking takes a pairing out of the active ones.
pub proof fn revoking_revokes(v: StoreView, pair_id: Seq<char>)
    requires
        v.revoking(pair_id).0 is Ok,
    ensures
        is_revoked(v.revoking(pair_id).1, pair_id),
{
    let name = record_name(pair_id);
    lookup_without(v.active, name, name);
    let after = v.revoking(pair_id).1;
    assert(after.revoked[v.revoked.len() as int] == name);
}

/// A revoked pairing cannot be loaded, reconnected or activated again.
pub proof fn revoked_pairings_are_refused(
    v: StoreView,
    pair_id: Seq<char>,
    secret: Seq<u8>,
    s: SessionView,
    record: RecordView,
    reconciling: bool,
)
    requires
        is_revoked(v, pair_id),
        record.pair_id == pair_id,
    ensures
        v.loaded(pair_id) == (if is_id(pair_id) {
            Ok::<Option<RecordView>, SyncError>(None)
        } else {
            Err(SyncError::InvalidPairingId)
        }),
        v.reconnecting(secret, pair_id) is Err,
        v.activated(record) == (
            Err::<(), SyncError>(
                if is_id(pair_id) {
                    SyncError::PairIdRevoked
                } else {
                    SyncError::InvalidPairingId
                },
            ),
            v,
        ),
        v.accepted(s, secret, record, reconciling).0 is Err,
{
    reveal(StoreView::accepted);
}

/// A revoked pairing stays revoked through every operation of the store.
pub proof fn revocation_is_final(
    v: StoreView,
    pair_id: Seq<char>,
    s: SessionView,
    secret: Seq<u8>,
    decision: Result<Seq<char>, SyncError>,
    record: RecordView,
    reconciling: bool,
    other: Seq<char>,
)
    requires
        is_revoked(v, pair_id),
        is_id(pair_id),
    ensures
        is_revoked(v.prepared(s, secret, decision).1, pair_id),
        is_revoked(v.resumed(s, secret, record).1, pair_id),
        is_revoked(v.co_signed(s, secret, record).1, pair_id),
        is_revoked(v.pending_written(record).1, pair_id),
        is_revoked(v.activated(record).1, pair_id),
        is_revoked(v.accepted(s, secret, record, reconciling).1, pair_id),
        is_revoked(v.revoking(other).1, pair_id),
{
    reveal(StoreView::prepared);
    reveal(StoreView::resumed);
    reveal(StoreView::co_signed);
    reveal(StoreView::accepted);
    let name = record_name(pair_id);
    preparing_never_activates(v, s, secret, decision, record);
    activation_keeps_revoked(v, pair_id, record);
    lookup_without(v.active, record_name(other), name);
    let after = v.revoking(other).1;
    let i = choose|i: int| 0 <= i < v.revoked.len() && v.revoked[i] == name;
    if v.revoking(other).0 is Ok {
        assert(after.revoked[i] == name);
    }
}

/// Activating a record leaves a revoked pairing revoked.
proof fn activation_keeps_revoked(v: StoreView, pair_id: Seq<char>, record: RecordView)
    requires
        is_revoked(v, pair_id),
        is_id(pair_id),
    ensures
        is_revoked(v.activated(record).1, pair_id),
{
    let name = record_name(pair_id);
    lookup_written(v.active, record_name(record.pair_id), record, name);
}

/// What a store answers about existing pairings does not depend on the time:
/// expiry of an enrollment certificate does not end a pairing.
pub proof fn expiry_does_not_end_pairings(
    v: StoreView,
    later: u64,
    pair_id: Seq<char>,
    secret: Seq<u8>,
    local: Seq<char>,
    peer: Seq<char>,
)
    ensures
        ({
            let w = StoreView { now: later, ..v };
            &&& w.loaded(pair_id) == v.loaded(pair_id)
            &&& w.reconnecting(secret, pair_id) == v.reconnecting(secret, pair_id)
            &&& w.active_between(local, peer) == v.active_between(local, peer)
            &&& w.pending_between(local, peer) == v.pending_between(local, peer)
            &&& w.recovering(secret, peer) == v.recovering(secret, peer)
        }),
{
    active_context_is_timeless(v, later, v.active, secret, peer);
}

/// The search through active entries does not depend on the time.
proof fn active_context_is_timeless(
    v: StoreView,
    later: u64,
    names: Seq<EntryView>,
    secret: Seq<u8>,
    peer: Seq<char>,
)
    ensures
        (StoreView { now: later, ..v }).active_context(names, secret, peer) == v.active_context(
            names,
            secret,
            peer,
        ),
    decreases names.len(),
{
    if names.len() > 0 {
        active_context_is_timeless(v, later, names.drop_first(), secret, peer);
    }
}

/// A record that was accepted leaves no pending record of its two devices.
pub proof fn accepted_leaves_nothing_pending(
    v: StoreView,
    s: SessionView,
    secret: Seq<u8>,
    record: RecordView,
    reconciling: bool,
)
    requires
        v.accepted(s, secret, record, reconciling).0 is Ok,
    ensures
        nothing_pending(v.accepted(s, secret, record, reconciling).1.pending, record),
{
    reveal(StoreView::accepted);
    sweep_is_thorough(v.pending, record);
}

// ---------------------------------------------------------------------------
// Peers that a store knows.
// ---------------------------------------------------------------------------
/// Whether a pending record under a name binds two devices.
pub open spec fn pending_under(
    v: StoreView,
    name: Seq<u8>,
    local: Seq<char>,
    peer: Seq<char>,
) -> bool {
    lookup(v.pending, name) matches Some(Ok(record)) && record.binds(local, peer)
}

/// Whether the active record of a PairID binds two devices.
pub open spec fn active_under(
    v: StoreView,
    pair_id: Seq<char>,
    local: Seq<char>,
    peer: Seq<char>,
) -> bool {
    is_id(pair_id) && (lookup(v.active, record_name(pair_id)) matches Some(Ok(record))
        && record.pair_id == pair_id && record.binds(local, peer))
}

/// Whether a store knows a peer: a record of the two devices is pending or
/// active.
pub open spec fn knows(v: StoreView, local: Seq<char>, peer: Seq<char>) -> bool {
    ||| exists|name: Seq<u8>| pending_under(v, name, local, peer)
    ||| exists|pair_id: Seq<char>| active_under(v, pair_id, local, peer)
}

/// Nothing is found under a name in what a sweep leaves, if nothing was found
/// before; and a record of other devices is found as before.
proof fn lookup_swept(entries: Seq<EntryView>, record: RecordView, name: Seq<u8>)
    ensures
        lookup(entries, name) is None ==> lookup(swept(entries, record).1, name) is None,
        (lookup(entries, name) matches Some(Ok(found)) && !found.binds(
            record.initiator_device_id,
            record.responder_device_id,
        )) ==> lookup(swept(entries, record).1, name) == lookup(entries, name),
    decreases entries.len(),
{
    if entries.len() > 0 {
        let rest = entries.drop_last();
        let last = entries.last();
        lookup_swept(rest, record, name);
        assert(entries =~= rest.push(last));
        lookup_push(rest, last, name);
        lookup_push(swept(rest, record).1, last, name);
    }
}

/// Writing a pending record keeps every peer that is known, and makes the
/// record's devices known to each other.
proof fn pending_written_keeps_known(
    v: StoreView,
    record: RecordView,
    local: Seq<char>,
    peer: Seq<char>,
)
    ensures
        knows(v, local, peer) ==> knows(v.pending_written(record).1, local, peer),
        v.pending_written(record).0 is Ok && record.binds(local, peer) ==> knows(
            v.pending_written(record).1,
            local,
            peer,
        ),
{
    let after = v.pending_written(record).1;
    let name = record_name(record.pair_id);
    if exists|other: Seq<u8>| pending_under(v, other, local, peer) {
        let other = choose|other: Seq<u8>| pending_under(v, other, local, peer);
        lookup_written(v.pending, name, record, other);
        assert(pending_under(after, other, local, peer));
    }
    if exists|pair_id: Seq<char>| active_under(v, pair_id, local, peer) {
        let pair_id = choose|pair_id: Seq<char>| active_under(v, pair_id, local, peer);
        assert(active_under(after, pair_id, local, peer));
    }
    if v.pending_written(record).0 is Ok && record.binds(local, peer) {
        lookup_written(v.pending, name, record, name);
        assert(pending_under(after, name, local, peer));
    }
}

/// Activating a record keeps every peer that is known.
proof fn activation_keeps_known(
    v: StoreView,
    record: RecordView,
    local: Seq<char>,
    peer: Seq<char>,
)
    requires
        knows(v, local, peer),
    ensures
        knows(v.activated(record).1, local, peer),
{
    let after = v.activated(record).1;
    let name = record_name(record.pair_id);
    if exists|pair_id: Seq<char>| active_under(v, pair_id, local, peer) {
        let pair_id = choose|pair_id: Seq<char>| active_under(v, pair_id, local, peer);
        active_records_are_never_replaced(v, record, pair_id);
        assert(active_under(after, pair_id, local, peer));
    } else {
        let other = choose|other: Seq<u8>| pending_under(v, other, local, peer);
        lookup_swept(v.pending, record, other);
        if pending_under(after, other, local, peer) {
        } else {
            lookup_written(v.active, name, record, name);
            assert(active_under(after, record.pair_id, local, peer));
        }
    }
}

/// No operation that a pairing makes on a store forgets a peer; only a
/// revocation does. A record that is prepared makes its two devices known to
/// each other.
pub proof fn known_peers_stay_known(
    v: StoreView,
    s: SessionView,
    secret: Seq<u8>,
    decision: Result<Seq<char>, SyncError>,
    record: RecordView,
    reconciling: bool,
    local: Seq<char>,
    peer: Seq<char>,
)
    ensures
        knows(v, local, peer) ==> {
            &&& knows(v.prepared(s, secret, decision).1, local, peer)
            &&& knows(v.resumed(s, secret, record).1, local, peer)
            &&& knows(v.co_signed(s, secret, record).1, local, peer)
            &&& knows(v.accepted(s, secret, record, reconciling).1, local, peer)
        },
        v.prepared(s, secret, decision).0 matches Ok(half) && half.binds(local, peer) ==> knows(
            v.prepared(s, secret, decision).1,
            local,
            peer,
        ),
{
    reveal(StoreView::prepared);
    reveal(StoreView::resumed);
    reveal(StoreView::co_signed);
    reveal(StoreView::accepted);
    assert forall|r: RecordView|
        knows(v, local, peer) implies knows((#[trigger] v.pending_written(r)).1, local, peer) by {
        pending_written_keeps_known(v, r, local, peer);
    }
    assert forall|r: RecordView|
        (#[trigger] v.pending_written(r)).0 is Ok && r.binds(local, peer) implies knows(
        v.pending_written(r).1,
        local,
        peer,
    ) by {
        pending_written_keeps_known(v, r, local, peer);
    }
    if knows(v, local, peer) {
        activation_keeps_known(v, record, local, peer);
    }
}

/// A pending record that is found under a name is found by a search for its
/// devices, unless something before it is at fault.
proof fn pending_is_found(
    entries: Seq<EntryView>,
    root: RootView,
    name: Seq<u8>,
    local: Seq<char>,
    peer: Seq<char>,
)
    requires
        lookup(entries, name) matches Some(Ok(record)) && record.binds(local, peer),
    ensures
        first_pending(entries, root, local, peer) != Ok::<Option<RecordView>, SyncError>(None),
    decreases entries.len(),
{
    if entries[0].name == name && entries[0].content !is Absent {
    } else {
        pending_is_found(entries.drop_first(), root, name, local, peer);
    }
}

/// The file name of a PairID without its extension is the PairID.
pub(crate) proof fn stem_of_record_name(pair_id: Seq<char>)
    requires
        is_id(pair_id),
    ensures
        valid_utf8(file_stem(record_name(pair_id))),
        decode_utf8(file_stem(record_name(pair_id))) == pair_id,
{
    let name = record_name(pair_id);
    reveal_strlit(".json");
    is_ascii_chars_encode_utf8(".json"@);
    let id = utf8(pair_id);
    assert(name.len() == id.len() + 5);
    assert(last_dot(name) == id.len()) by {
        reveal_with_fuel(last_dot, 6);
        let n1 = name.drop_last();
        let n2 = n1.drop_last();
        let n3 = n2.drop_last();
        let n4 = n3.drop_last();
        assert(n1.last() == name[name.len() - 2]);
        assert(n2.last() == name[name.len() - 3]);
        assert(n3.last() == name[name.len() - 4]);
        assert(n4.last() == name[name.len() - 5]);
    }
    assert(name.take(id.len() as int) =~= id);
    encode_utf8_valid_utf8(pair_id);
    encode_utf8_decode_utf8(pair_id);
}

/// An active record that is found under the name of its PairID is found by a
/// search for its devices, unless something before it is at fault.
pub(crate) proof fn active_is_found(
    v: StoreView,
    names: Seq<EntryView>,
    pair_id: Seq<char>,
    local: Seq<char>,
    peer: Seq<char>,
)
    requires
        active_under(v, pair_id, local, peer),
        lookup(names, record_name(pair_id)) is Some,
    ensures
        v.active_pair(names, local, peer) != Ok::<Option<Seq<char>>, SyncError>(None),
    decreases names.len(),
{
    if names[0].name == record_name(pair_id) && names[0].content !is Absent {
        stem_of_record_name(pair_id);
    } else {
        active_is_found(v, names.drop_first(), pair_id, local, peer);
    }
}

/// A peer that a store knows is found among its active or its pending records,
/// or the search ends with a fault.
pub proof fn known_peers_are_found(v: StoreView, local: Seq<char>, peer: Seq<char>)
    requires
        knows(v, local, peer),
    ensures
        v.active_pair(v.active, local, peer) != Ok::<Option<Seq<char>>, SyncError>(None)
            || v.pending_between(local, peer) != Ok::<Option<RecordView>, SyncError>(None),
{
    if exists|pair_id: Seq<char>| active_under(v, pair_id, local, peer) {
        let pair_id = choose|pair_id: Seq<char>| active_under(v, pair_id, local, peer);
        active_is_found(v, v.active, pair_id, local, peer);
    } else {
        let name = choose|name: Seq<u8>| pending_under(v, name, local, peer);
        pending_is_found(v.pending, v.root, name, local, peer);
    }
}

// ---------------------------------------------------------------------------
// Two stores.
// ---------------------------------------------------------------------------
/// Whether two sessions are the two ends of one bilateral authentication.
pub open spec fn sessions_match(a: SessionView, b: SessionView) -> bool {
    &&& is_role(a.local_role)
    &&& is_role(b.local_role)
    &&& a.local_role != b.local_role
    &&& is_id(a.pair_id)
    &&& a.pair_id == b.pair_id
    &&& a.session_binding == b.session_binding
    &&& a.local_certificate == b.peer_certificate
    &&& a.peer_certificate == b.local_certificate
    &&& a.local_device_id == a.local_certificate.device_id
    &&& b.local_device_id == b.local_certificate.device_id
    &&& a.local_device_id != b.local_device_id
}

/// Whether a certificate is complete and accepted under a root at a time.
pub open spec fn certified_at(c: CertificateView, root: RootView, time: u64) -> bool {
    &&& c.public_key.len() == 32
    &&& c.signature.len() == 64
    &&& certificate_error(c, root, time) is None
}

/// Whether an identity's signature over a message is accepted.
pub open spec fn signs_message(secret: Seq<u8>, message: Seq<u8>) -> bool {
    let signature = ed25519_sign(secret, message);
    &&& signature.len() == 64
    &&& ed25519_key_valid(ed25519_public(secret))
    &&& ed25519_verifies(ed25519_public(secret), message, signature)
}

/// Whether a store has nothing yet under a PairID and nothing unreadable.
pub open spec fn ready_for(v: StoreView, pair_id: Seq<char>) -> bool {
    &&& lookup(v.active, record_name(pair_id)) is None
    &&& lookup(v.pending, record_name(pair_id)) is None
    &&& !v.revoked.contains(record_name(pair_id))
    &&& readable(v.pending)
}

/// Whether every entry either is a record or does not exist.
pub open spec fn readable(entries: Seq<EntryView>) -> bool {
    forall|i: int| 0 <= i < entries.len() ==> (#[trigger] entries[i]).content !is Unreadable
}

/// Removing a name leaves readable entries readable.
proof fn without_keeps_readable(entries: Seq<EntryView>, name: Seq<u8>)
    requires
        readable(entries),
    ensures
        readable(without(entries, name)),
    decreases entries.len(),
{
    if entries.len() > 0 {
        assert(entries[entries.len() - 1].content !is Unreadable);
        assert(readable(entries.drop_last())) by {
            assert forall|i: int| 0 <= i < entries.drop_last().len() implies (
            #[trigger] entries.drop_last()[i]).content !is Unreadable by {
                assert(entries[i].content !is Unreadable);
            }
        }
        without_keeps_readable(entries.drop_last(), name);
    }
}

/// Sweeping readable entries meets no fault.
proof fn sweep_of_readable(entries: Seq<EntryView>, record: RecordView)
    requires
        readable(entries),
    ensures
        swept(entries, record).0 is None,
    decreases entries.len(),
{
    if entries.len() > 0 {
        assert(entries[entries.len() - 1].content !is Unreadable);
        assert(readable(entries.drop_last())) by {
            assert forall|i: int| 0 <= i < entries.drop_last().len() implies (
            #[trigger] entries.drop_last()[i]).content !is Unreadable by {
                assert(entries[i].content !is Unreadable);
            }
        }
        sweep_of_readable(entries.drop_last(), record);
    }
}

/// The record that two matching sessions give rise to has valid form.
proof fn matched_record(
    a: SessionView,
    b: SessionView,
    root: RootView,
    time: u64,
    presence: Seq<char>,
    secret: Seq<u8>,
    at: u64,
)
    requires
        sessions_match(a, b),
        certified_at(a.local_certificate, root, time),
        certified_at(a.peer_certificate, root, time),
        is_marker(presence),
        at != 0,
        session_identity_error(a, secret) is None,
    ensures
        ({
            let r = session_record(a, a.pair_id, presence, secret, at);
            let certificates = if a.local_role == ROLE_INITIATOR {
                (a.local_certificate, a.peer_certificate)
            } else {
                (a.peer_certificate, a.local_certificate)
            };
            &&& record_sign_error(r) is None
            &&& record_certified(r, root, time) == Ok::<
                (CertificateView, CertificateView),
                SyncError,
            >(certificates)
            &&& r.protocol_version == crate::protocol_v3::PROTOCOL_VERSION
        }),
{
    certificate_length(a.local_certificate);
    certificate_length(a.peer_certificate);
    certificate_round_trip(a.local_certificate);
    certificate_round_trip(a.peer_certificate);
    record_magic_length();
}

/// Whether both identities sign the record that the first of two sessions gives
/// rise to with an approval of time `at`, and the record with one and with both
/// signatures is within the bounds of what is stored.
pub open spec fn signable(
    s: SessionView,
    t: SessionView,
    a_secret: Seq<u8>,
    b_secret: Seq<u8>,
    presence: Seq<char>,
    at: u64,
) -> bool {
    let record = session_record(s, s.pair_id, presence, a_secret, at);
    let half = record.with_signature(
        s.local_role,
        ed25519_sign(a_secret, record_message(record, s.local_role)),
    );
    let full = half.with_signature(
        t.local_role,
        ed25519_sign(b_secret, record_message(record, t.local_role)),
    );
    &&& signs_message(a_secret, record_message(record, s.local_role))
    &&& signs_message(b_secret, record_message(record, t.local_role))
    &&& storable(half)
    &&& storable(full)
}

/// Whether two stores and two identities can pair over two sessions, the first
/// of them with a local user's approval of time `at`: the sessions match, both
/// certificates were accepted then and are accepted by both stores now, nothing
/// is in the way, and the record can be signed.
#[verifier::opaque]
pub open spec fn can_pair(
    a: StoreView,
    b: StoreView,
    s: SessionView,
    t: SessionView,
    a_secret: Seq<u8>,
    b_secret: Seq<u8>,
    presence: Seq<char>,
    at: u64,
) -> bool {
    &&& sessions_match(s, t)
    &&& a.root == b.root
    &&& at != 0
    &&& certified_at(s.local_certificate, a.root, at)
    &&& certified_at(s.local_certificate, a.root, a.now)
    &&& certified_at(s.local_certificate, a.root, b.now)
    &&& certified_at(s.peer_certificate, a.root, at)
    &&& certified_at(s.peer_certificate, a.root, a.now)
    &&& certified_at(s.peer_certificate, a.root, b.now)
    &&& is_marker(presence)
    &&& session_identity_error(s, a_secret) is None
    &&& session_identity_error(t, b_secret) is None
    &&& ready_for(a, s.pair_id)
    &&& ready_for(b, s.pair_id)
    &&& signable(s, t, a_secret, b_secret, presence, at)
}

/// Whether a prepared record leads to one record that both sides have signed:
/// the other side co-signs it, each side finalizes or reconciles it, and it
/// loads on both sides as the same record.
pub open spec fn completes(
    prepared: (Result<RecordView, SyncError>, StoreView),
    b: StoreView,
    s: SessionView,
    t: SessionView,
    a_secret: Seq<u8>,
    b_secret: Seq<u8>,
    a_reconciles: bool,
    b_reconciles: bool,
) -> bool {
    let (partial, a1) = prepared;
    let (complete, b1) = b.co_signed(t, b_secret, partial->Ok_0);
    let (first, a2) = a1.accepted(s, a_secret, complete->Ok_0, a_reconciles);
    let (second, b2) = b1.accepted(t, b_secret, complete->Ok_0, b_reconciles);
    &&& partial is Ok
    &&& !partial->Ok_0.complete()
    &&& partial->Ok_0.signature(t.local_role) is None
    &&& record_names_session(partial->Ok_0, t)
    &&& storable(partial->Ok_0)
    &&& complete is Ok
    &&& complete->Ok_0.complete()
    &&& storable(complete->Ok_0)
    &&& complete->Ok_0.pair_id == s.pair_id
    &&& complete->Ok_0.session_binding == s.session_binding
    &&& complete->Ok_0.user_presence == partial->Ok_0.user_presence
    &&& first is Ok
    &&& second is Ok
    &&& a2.loaded(s.pair_id) == Ok::<Option<RecordView>, SyncError>(Some(complete->Ok_0))
    &&& b2.loaded(s.pair_id) == Ok::<Option<RecordView>, SyncError>(Some(complete->Ok_0))
}

/// Between the two ends of one authenticated session, an approval on one side,
/// whichever role it is in, leads to one record that both sides have signed: it
/// is prepared there and co-signed by the other side, each side finalizes or
/// reconciles it, and it loads on both sides as the same record.
pub proof fn bilateral_pairing_completes(
    a: StoreView,
    b: StoreView,
    s: SessionView,
    t: SessionView,
    a_secret: Seq<u8>,
    b_secret: Seq<u8>,
    presence: Seq<char>,
    a_reconciles: bool,
    b_reconciles: bool,
)
    requires
        can_pair(a, b, s, t, a_secret, b_secret, presence, a.now),
    ensures
        completes(
            a.prepared(s, a_secret, Ok(presence)),
            b,
            s,
            t,
            a_secret,
            b_secret,
            a_reconciles,
            b_reconciles,
        ),
        a.prepared(s, a_secret, Ok(presence)).0->Ok_0.user_presence == presence,
{
    signed_record_completes(
        a,
        b,
        s,
        t,
        a_secret,
        b_secret,
        presence,
        a.now,
        a_reconciles,
        b_reconciles,
    );
    pairing_sessions_encode(a, b, s, t, a_secret, b_secret, presence, a.now);
    reveal(StoreView::prepared);
}

/// An approval that is pending on one side serves a fresh session with the same
/// peer: it is rebound to that session without asking again, and leads to one
/// record that both sides have signed.
pub proof fn resumed_pairing_completes(
    a: StoreView,
    b: StoreView,
    s: SessionView,
    t: SessionView,
    a_secret: Seq<u8>,
    b_secret: Seq<u8>,
    held: RecordView,
    a_reconciles: bool,
    b_reconciles: bool,
)
    requires
        can_pair(a, b, s, t, a_secret, b_secret, held.user_presence, held.authorized_at),
        pending_error(held, a.root) is None,
        held.authorizing_device_id == device_id_of(ed25519_public(a_secret)),
    ensures
        completes(
            a.resumed(s, a_secret, held),
            b,
            s,
            t,
            a_secret,
            b_secret,
            a_reconciles,
            b_reconciles,
        ),
        a.resumed(s, a_secret, held).0->Ok_0.user_presence == held.user_presence,
        a.resumed(s, a_secret, held).0->Ok_0.authorized_at == held.authorized_at,
{
    signed_record_completes(
        a,
        b,
        s,
        t,
        a_secret,
        b_secret,
        held.user_presence,
        held.authorized_at,
        a_reconciles,
        b_reconciles,
    );
    pairing_sessions_encode(
        a,
        b,
        s,
        t,
        a_secret,
        b_secret,
        held.user_presence,
        held.authorized_at,
    );
    reveal(StoreView::resumed);
}

/// The first session of two that can pair is in order.
proof fn pairing_sessions_encode(
    a: StoreView,
    b: StoreView,
    s: SessionView,
    t: SessionView,
    a_secret: Seq<u8>,
    b_secret: Seq<u8>,
    presence: Seq<char>,
    at: u64,
)
    requires
        can_pair(a, b, s, t, a_secret, b_secret, presence, at),
    ensures
        session_identity_error(s, a_secret) is None,
        session_encode_error(s) is None,
        is_marker(presence),
{
    reveal(can_pair);
    certificate_length(s.local_certificate);
    certificate_length(s.peer_certificate);
}

/// The record that two matching sessions give rise to, once it is signed on one
/// side, leads to one that both sides have signed.
proof fn signed_record_completes(
    a: StoreView,
    b: StoreView,
    s: SessionView,
    t: SessionView,
    a_secret: Seq<u8>,
    b_secret: Seq<u8>,
    presence: Seq<char>,
    at: u64,
    a_reconciles: bool,
    b_reconciles: bool,
)
    requires
        can_pair(a, b, s, t, a_secret, b_secret, presence, at),
    ensures
        ({
            let unsigned = session_record(s, s.pair_id, presence, a_secret, at);
            let signed = a.signed_and_written(unsigned, s, a_secret, false);
            &&& completes(signed, b, s, t, a_secret, b_secret, a_reconciles, b_reconciles)
            &&& signed.0->Ok_0.user_presence == presence
            &&& signed.0->Ok_0.authorized_at == at
        }),
{
    reveal(can_pair);
    reveal(StoreView::co_signed);
    reveal(StoreView::accepted);
    let name = record_name(s.pair_id);
    let role = s.local_role;
    let other = t.local_role;
    let unsigned = session_record(s, s.pair_id, presence, a_secret, at);
    let half = unsigned.with_signature(
        role,
        ed25519_sign(a_secret, record_message(unsigned, role)),
    );
    let full = half.with_signature(
        other,
        ed25519_sign(b_secret, record_message(unsigned, other)),
    );
    matched_record(s, t, a.root, at, presence, a_secret, at);
    matched_record(s, t, a.root, a.now, presence, a_secret, at);
    matched_record(s, t, a.root, b.now, presence, a_secret, at);
    assert(record_message(half, role) == record_message(unsigned, role));
    assert(record_message(half, other) == record_message(unsigned, other));
    assert(record_message(full, role) == record_message(unsigned, role));
    assert(record_message(full, other) == record_message(unsigned, other));
    assert(record_signatures_error(half) is None);
    assert(record_signatures_error(full) is None);
    let partial_demands = Demands { complete: false, bound: true, at_authorization: false };
    assert(session_record_error(half, s, a_secret, a.root, a.now, partial_demands) is None);
    assert(session_record_error(half, t, b_secret, b.root, b.now, partial_demands) is None);
    let co_demands = Demands { complete: true, bound: true, at_authorization: false };
    let a_demands = Demands {
        complete: true,
        bound: !a_reconciles,
        at_authorization: a_reconciles,
    };
    let b_demands = Demands {
        complete: true,
        bound: !b_reconciles,
        at_authorization: b_reconciles,
    };
    assert(session_record_error(full, t, b_secret, b.root, b.now, co_demands) is None);
    assert(session_record_error(full, s, a_secret, a.root, a.now, a_demands) is None);
    assert(session_record_error(full, t, b_secret, b.root, b.now, b_demands) is None);
    let (partial, a1) = a.signed_and_written(unsigned, s, a_secret, false);
    assert(partial == Ok::<RecordView, SyncError>(half));
    let b1 = b.co_signed(t, b_secret, half).1;
    assert(b.co_signed(t, b_secret, half).0 == Ok::<RecordView, SyncError>(full));
    written_is_readable(a.pending, name, half);
    written_is_readable(b.pending, name, full);
    sweep_of_readable(a1.pending, full);
    sweep_of_readable(b1.pending, full);
    assert(a1.accepted(s, a_secret, full, a_reconciles).0 is Ok);
    assert(b1.accepted(t, b_secret, full, b_reconciles).0 is Ok);
    accepted_records_load(a1, s, a_secret, full, a_reconciles);
    accepted_records_load(b1, t, b_secret, full, b_reconciles);
}

/// Whether a store can take a complete record in a session with its two
/// devices: the record is in order at the time of its authorization, it names
/// the session's ends and keys, and nothing is in the way.
#[verifier::opaque]
pub open spec fn can_reconcile(
    v: StoreView,
    s: SessionView,
    secret: Seq<u8>,
    record: RecordView,
) -> bool {
    &&& session_identity_error(s, secret) is None
    &&& s.local_device_id == s.local_certificate.device_id
    &&& stored_error(record, v.root) is None
    &&& storable(record)
    &&& record_names_session(record, s)
    &&& record_keys_session(record, s)
    &&& record.authorizing_device_id == record.initiator_device_id
        || record.authorizing_device_id == record.responder_device_id
    &&& !v.revoked.contains(record_name(record.pair_id))
    &&& lookup(v.active, record_name(record.pair_id)) matches Some(existing) ==> existing == Ok::<
        RecordView,
        SyncError,
    >(record)
    &&& readable(v.pending)
}

/// A record that both devices have signed is taken in any later session between
/// them, whether or not a copy is active already, and loads as that record.
pub proof fn complete_records_reconcile(
    v: StoreView,
    s: SessionView,
    secret: Seq<u8>,
    record: RecordView,
)
    requires
        can_reconcile(v, s, secret, record),
    ensures
        v.accepted(s, secret, record, true).0 is Ok,
        v.accepted(s, secret, record, true).1.loaded(record.pair_id) == Ok::<
            Option<RecordView>,
            SyncError,
        >(Some(record)),
{
    reveal(can_reconcile);
    reveal(StoreView::accepted);
    sweep_of_readable(v.pending, record);
    accepted_records_load(v, s, secret, record, true);
}

/// Writing a record leaves readable entries readable.
proof fn written_is_readable(entries: Seq<EntryView>, name: Seq<u8>, record: RecordView)
    requires
        readable(entries),
    ensures
        readable(written(entries, name, record)),
{
    without_keeps_readable(entries, name);
}

} // verus!
