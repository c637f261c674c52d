//! What a store has of two devices: who is found, who is not, and what stays.
use crate::authentication::ContextView;
use crate::bilateral::{lookup_without, lookup_written, stem_of_record_name};
use crate::codec::utf8;
use crate::crypto::ed25519_public;
use crate::encounters::{comes_before, last_or_before, lower_devices_begin};
use crate::error::SyncError;
use crate::identity::device_id_of;
use crate::pairing_run::{initiator_plan, responder_plan};
use crate::protocol_v3::{certificate_parsed, CertificateView, RootView};
use crate::record::{binding_error, pending_error, record_json, stored_error, RecordView};
use crate::recovery::record_names_differ;
use crate::runtime_v3::initiates_with;
use crate::terms::{active_records_are_signed_by_both, pending_records_are_signed_by_one};
use crate::text::is_id;
use crate::trust::{
    any_active, file_stem, first_pending, last_dot, lookup, record_name, swept, ChangeView,
    ContentView, EntryView, StoreView,
};
use vstd::prelude::*;
use vstd::utf8::*;

verus! {

// ---------------------------------------------------------------------------
// Directories.
// ---------------------------------------------------------------------------
/// Whether the two devices of a record are these two, in one order or the other.
pub open spec fn is_between(r: RecordView, a: Seq<char>, b: Seq<char>) -> bool {
    ||| (r.initiator_device_id, r.responder_device_id) == (a, b)
    ||| (r.initiator_device_id, r.responder_device_id) == (b, a)
}

/// Whether a name is that of a PairID's record.
pub open spec fn names_pair(name: Seq<u8>, pair_id: Seq<char>) -> bool {
    name == utf8(pair_id) + utf8(".json"@)
}

/// Whether an entry of the active directory is in order: it holds a record that
/// is accepted as active trust, under the name of its PairID; or it went
/// away, or its name is not text.
pub open spec fn active_in_order(entry: EntryView, root: RootView) -> bool {
    match entry.content {
        ContentView::Record(r) => names_pair(entry.name, r.pair_id) && stored_error(r, root)
            is None,
        ContentView::Absent => !valid_utf8(file_stem(entry.name)) || exists|id: Seq<char>|
            is_id(id) && #[trigger] names_pair(entry.name, id),
        ContentView::Unreadable(_) => false,
    }
}

/// Whether all entries of the active directory are in order.
pub open spec fn all_active_in_order(v: StoreView) -> bool {
    forall|k: int| 0 <= k < v.active.len() ==> active_in_order(#[trigger] v.active[k], v.root)
}

/// Whether a directory holds a record.
pub open spec fn holds(entries: Seq<EntryView>, r: RecordView) -> bool {
    exists|k: int|
        0 <= k < entries.len() && (#[trigger] entries[k]).content == ContentView::Record(r)
}

/// Whether a directory holds no record of two devices.
pub open spec fn holds_nothing_of(entries: Seq<EntryView>, a: Seq<char>, b: Seq<char>) -> bool {
    forall|r: RecordView| #[trigger] holds(entries, r) ==> !is_between(r, a, b)
}

/// Whether no two entries of a directory have one name.
pub open spec fn names_distinct(entries: Seq<EntryView>) -> bool {
    forall|i: int, j: int|
        0 <= i < j < entries.len() ==> (#[trigger] entries[i]).name != (#[trigger] entries[j]).name
}

/// The part of a file name before its extension ends at the last dot, whatever
/// dots come before; a name without a dot, or with only a leading one, has no
/// extension.
pub proof fn stems_end_at_the_last_dot(stem: Seq<u8>, extension: Seq<u8>)
    requires
        forall|k: int| 0 <= k < extension.len() ==> #[trigger] extension[k] != 0x2e,
    ensures
        stem.len() > 0 ==> file_stem(stem + seq![0x2eu8] + extension) == stem,
        file_stem(seq![0x2eu8] + extension) == seq![0x2eu8] + extension,
        file_stem(extension) == extension,
{
    let name = stem + seq![0x2eu8] + extension;
    let hidden = seq![0x2eu8] + extension;
    dots_are_found(stem, extension);
    dots_are_found(Seq::empty(), extension);
    assert(Seq::<u8>::empty() + hidden =~= hidden);
    assert(stem + hidden =~= name);
    assert(name.take(stem.len() as int) =~= stem);
    no_dots_are_found(extension);
}

/// The last dot is the one that no other follows.
proof fn dots_are_found(stem: Seq<u8>, extension: Seq<u8>)
    requires
        forall|k: int| 0 <= k < extension.len() ==> #[trigger] extension[k] != 0x2e,
    ensures
        last_dot(stem + (seq![0x2eu8] + extension)) == stem.len(),
    decreases extension.len(),
{
    let name = stem + (seq![0x2eu8] + extension);
    if extension.len() > 0 {
        let shorter = extension.drop_last();
        assert(forall|k: int| 0 <= k < shorter.len() ==> #[trigger] shorter[k] == extension[k]);
        dots_are_found(stem, shorter);
        assert(name.last() == extension[extension.len() - 1]);
        assert(name.drop_last() =~= stem + (seq![0x2eu8] + shorter));
    } else {
        assert(name.last() == 0x2e);
    }
}

/// Where there is no dot none is found.
proof fn no_dots_are_found(name: Seq<u8>)
    requires
        forall|k: int| 0 <= k < name.len() ==> #[trigger] name[k] != 0x2e,
    ensures
        last_dot(name) == -1,
    decreases name.len(),
{
    if name.len() > 0 {
        let shorter = name.drop_last();
        assert(forall|k: int| 0 <= k < shorter.len() ==> #[trigger] shorter[k] == name[k]);
        no_dots_are_found(shorter);
        assert(name.last() == name[name.len() - 1]);
    }
}

/// What is found under a name is what the first entry of that name holds that
/// did not go away; nothing is found where there is none.
pub proof fn lookups_find_entries(entries: Seq<EntryView>, name: Seq<u8>)
    ensures
        lookup(entries, name) is None <==> forall|k: int|
            0 <= k < entries.len() && (#[trigger] entries[k]).name == name ==> entries[k].content
                is Absent,
        lookup(entries, name) matches Some(found) ==> exists|k: int|
            0 <= k < entries.len() && (#[trigger] entries[k]).name == name && (match found {
                Ok(r) => entries[k].content == ContentView::Record(r),
                Err(e) => entries[k].content == ContentView::Unreadable(e),
            }) && forall|j: int|
                0 <= j < k && (#[trigger] entries[j]).name == name ==> entries[j].content is Absent,
    decreases entries.len(),
{
    if entries.len() > 0 && !(entries[0].name == name && entries[0].content !is Absent) {
        let rest = entries.drop_first();
        lookups_find_entries(rest, name);
        assert(forall|k: int| 0 <= k < rest.len() ==> #[trigger] rest[k] == entries[k + 1]);
        assert(forall|k: int| 0 < k < entries.len() ==> #[trigger] entries[k] == rest[k - 1]);
        if lookup(rest, name) is Some {
            let found = lookup(rest, name)->Some_0;
            let k = choose|k: int|
                0 <= k < rest.len() && (#[trigger] rest[k]).name == name && (match found {
                    Ok(r) => rest[k].content == ContentView::Record(r),
                    Err(e) => rest[k].content == ContentView::Unreadable(e),
                }) && forall|j: int|
                    0 <= j < k && (#[trigger] rest[j]).name == name ==> rest[j].content is Absent;
            assert(entries[k + 1] == rest[k]);
            assert forall|j: int| 0 <= j < k + 1 && (
            #[trigger] entries[j]).name == name implies entries[j].content is Absent by {
                if j > 0 {
                    assert(entries[j] == rest[j - 1]);
                }
            }
        } else {
            assert forall|k: int| 0 <= k < entries.len() && (
            #[trigger] entries[k]).name == name implies entries[k].content is Absent by {
                if k > 0 {
                    assert(entries[k] == rest[k - 1]);
                }
            }
        }
    } else if entries.len() > 0 {
        assert(entries[0].name == name);
    }
}

/// Where the active directory is in order, loading fails for no PairID; it finds
/// nothing exactly where no record of that PairID is there, and what it finds is
/// such a record: the only one, where no two entries have one name.
pub proof fn records_load_by_pair_id(v: StoreView, pair_id: Seq<char>, r: RecordView)
    requires
        all_active_in_order(v),
        is_id(pair_id),
    ensures
        v.loaded(pair_id) is Ok,
        v.loaded(pair_id)->Ok_0 is None <==> forall|q: RecordView| #[trigger]
            holds(v.active, q) ==> q.pair_id != pair_id,
        v.loaded(pair_id)->Ok_0 == Some(r) ==> holds(v.active, r) && r.pair_id == pair_id,
        names_distinct(v.active) && holds(v.active, r) && r.pair_id == pair_id
            ==> v.loaded(pair_id)->Ok_0 == Some(r),
{
    let name = record_name(pair_id);
    lookups_find_entries(v.active, name);
    match lookup(v.active, name) {
        Some(found) => {
            let k = choose|k: int|
                0 <= k < v.active.len() && (#[trigger] v.active[k]).name == name && (match found {
                    Ok(r) => v.active[k].content == ContentView::Record(r),
                    Err(e) => v.active[k].content == ContentView::Unreadable(e),
                });
            assert(active_in_order(v.active[k], v.root));
            let q = found->Ok_0;
            if q.pair_id != pair_id {
                record_names_differ(q.pair_id, pair_id);
            }
            assert(holds(v.active, q));
            if names_distinct(v.active) && holds(v.active, r) && r.pair_id == pair_id {
                let j = choose|j: int|
                    0 <= j < v.active.len() && (#[trigger] v.active[j]).content
                        == ContentView::Record(r);
                assert(active_in_order(v.active[j], v.root));
                assert(v.active[j].name == name);
            }
        },
        None => {
            assert forall|q: RecordView| #[trigger] holds(v.active, q) implies q.pair_id
                != pair_id by {
                let j = choose|j: int|
                    0 <= j < v.active.len() && (#[trigger] v.active[j]).content
                        == ContentView::Record(q);
                assert(active_in_order(v.active[j], v.root));
                if q.pair_id == pair_id {
                    assert(v.active[j].name == name);
                }
            }
        },
    }
}

// ---------------------------------------------------------------------------
// Searches.
// ---------------------------------------------------------------------------
/// Whether a search for two devices passes over a name: it is not text, or
/// loading what it names gives no fault and no record of the two.
pub open spec fn leads_nowhere(
    v: StoreView,
    name: Seq<u8>,
    local: Seq<char>,
    peer: Seq<char>,
) -> bool {
    valid_utf8(file_stem(name)) ==> match v.loaded(decode_utf8(file_stem(name))) {
        Ok(Some(r)) => !is_between(r, local, peer),
        Ok(None) => true,
        Err(_) => false,
    }
}

/// Where every name loads without a fault and no record loaded is of the two
/// devices, the search for their active pairing finds nothing and reports no
/// fault, however many records of other devices there are.
pub proof fn searches_pass_over_others(
    v: StoreView,
    names: Seq<EntryView>,
    local: Seq<char>,
    peer: Seq<char>,
)
    requires
        forall|k: int|
            0 <= k < names.len() ==> leads_nowhere(v, (#[trigger] names[k]).name, local, peer),
    ensures
        v.active_pair(names, local, peer) == Ok::<Option<Seq<char>>, SyncError>(None),
    decreases names.len(),
{
    if names.len() > 0 {
        let rest = names.drop_first();
        assert forall|k: int| 0 <= k < rest.len() implies leads_nowhere(
            v,
            (#[trigger] rest[k]).name,
            local,
            peer,
        ) by {
            assert(rest[k] == names[k + 1]);
        }
        searches_pass_over_others(v, rest, local, peer);
        assert(leads_nowhere(v, names[0].name, local, peer));
    }
}

/// In an orderly directory, each name leads nowhere, or to a record of its
/// PairID.
proof fn names_lead_to_records(v: StoreView, k: int)
    requires
        all_active_in_order(v),
        0 <= k < v.active.len(),
    ensures
        valid_utf8(file_stem(v.active[k].name)) ==> (v.loaded(
            decode_utf8(file_stem(v.active[k].name)),
        ) matches Ok(found) && (found matches Some(r) ==> holds(v.active, r))),
        v.active[k].content matches ContentView::Record(r) ==> {
            &&& valid_utf8(file_stem(v.active[k].name))
            &&& is_id(r.pair_id)
            &&& decode_utf8(file_stem(v.active[k].name)) == r.pair_id
        },
{
    let entry = v.active[k];
    assert(active_in_order(entry, v.root));
    if valid_utf8(file_stem(entry.name)) {
        let id = match entry.content {
            ContentView::Record(r) => r.pair_id,
            _ => choose|id: Seq<char>| is_id(id) && #[trigger] names_pair(entry.name, id),
        };
        assert(is_id(id) && names_pair(entry.name, id));
        assert(entry.name == record_name(id));
        stem_of_record_name(id);
        let r: RecordView = match v.loaded(id) {
            Ok(Some(r)) => r,
            _ => arbitrary(),
        };
        records_load_by_pair_id(v, id, r);
    } else {
        match entry.content {
            ContentView::Record(r) => {
                stem_of_record_name(r.pair_id);
            },
            _ => {},
        }
    }
}

/// Where the active directory is in order and holds no record of two devices,
/// no active pairing of theirs is found, and no fault, however many records of
/// other devices it holds.
pub proof fn strangers_have_nothing_active(v: StoreView, local: Seq<char>, peer: Seq<char>)
    requires
        all_active_in_order(v),
        holds_nothing_of(v.active, local, peer),
    ensures
        v.active_pair(v.active, local, peer) == Ok::<Option<Seq<char>>, SyncError>(None),
        is_id(local) && is_id(peer) ==> v.active_between(local, peer) == Ok::<bool, SyncError>(
            false,
        ),
{
    assert forall|k: int| 0 <= k < v.active.len() implies leads_nowhere(
        v,
        (#[trigger] v.active[k]).name,
        local,
        peer,
    ) by {
        names_lead_to_records(v, k);
    }
    searches_pass_over_others(v, v.active, local, peer);
    assert forall|k: int| 0 <= k < v.active.len() implies match (#[trigger] v.active[k]).content {
        ContentView::Record(r) => stored_error(r, v.root) is None && !is_between(r, local, peer),
        ContentView::Absent => true,
        ContentView::Unreadable(_) => false,
    } by {
        assert(active_in_order(v.active[k], v.root));
        if v.active[k].content is Record {
            assert(holds(v.active, v.active[k].content->Record_0));
        }
    }
    none_is_active(v.active, v.root, local, peer);
}

/// Records of other devices are passed over.
proof fn none_is_active(
    entries: Seq<EntryView>,
    root: RootView,
    local: Seq<char>,
    peer: Seq<char>,
)
    requires
        forall|k: int|
            0 <= k < entries.len() ==> match (#[trigger] entries[k]).content {
                ContentView::Record(r) => stored_error(r, root) is None && !is_between(
                    r,
                    local,
                    peer,
                ),
                ContentView::Absent => true,
                ContentView::Unreadable(_) => false,
            },
    ensures
        any_active(entries, root, local, peer) == Ok::<bool, SyncError>(false),
    decreases entries.len(),
{
    if entries.len() > 0 {
        let rest = entries.drop_first();
        assert(forall|k: int| 0 <= k < rest.len() ==> #[trigger] rest[k] == entries[k + 1]);
        none_is_active(rest, root, local, peer);
        assert(entries[0].content !is Unreadable);
    }
}

/// A search that reports no fault finds nothing where each name leads nowhere,
/// and else what one of them leads to.
proof fn searches_find_what_is_led_to(
    v: StoreView,
    names: Seq<EntryView>,
    local: Seq<char>,
    peer: Seq<char>,
    k: int,
)
    requires
        0 <= k < names.len(),
        forall|j: int|
            0 <= j < names.len() && valid_utf8(file_stem((#[trigger] names[j]).name)) ==> v.loaded(
                decode_utf8(file_stem(names[j].name)),
            ) is Ok,
        !leads_nowhere(v, names[k].name, local, peer),
    ensures
        v.active_pair(names, local, peer) matches Ok(Some(id)) && exists|j: int|
            0 <= j < names.len() && valid_utf8(file_stem((#[trigger] names[j]).name)) && (v.loaded(
                decode_utf8(file_stem(names[j].name)),
            ) matches Ok(Some(r)) && is_between(r, local, peer) && r.pair_id == id),
    decreases names.len(),
{
    let rest = names.drop_first();
    assert(forall|j: int| 0 <= j < rest.len() ==> #[trigger] rest[j] == names[j + 1]);
    if leads_nowhere(v, names[0].name, local, peer) {
        assert(rest[k - 1] == names[k]);
        searches_find_what_is_led_to(v, rest, local, peer, k - 1);
        let id = v.active_pair(rest, local, peer)->Ok_0->Some_0;
        let j = choose|j: int|
            0 <= j < rest.len() && valid_utf8(file_stem((#[trigger] rest[j]).name)) && (v.loaded(
                decode_utf8(file_stem(rest[j].name)),
            ) matches Ok(Some(r)) && is_between(r, local, peer) && r.pair_id == id);
        assert(names[j + 1] == rest[j]);
    } else {
        assert(valid_utf8(file_stem(names[0].name)));
    }
}

/// Where the active directory is in order, no two entries of it have one name,
/// and it holds a record of two devices, an active pairing of theirs is found:
/// the PairID of such a record, whichever of the two is asked and in whichever
/// role it was.
pub proof fn partners_are_found_active(
    v: StoreView,
    r: RecordView,
    local: Seq<char>,
    peer: Seq<char>,
)
    requires
        all_active_in_order(v),
        names_distinct(v.active),
        holds(v.active, r),
        is_between(r, local, peer),
    ensures
        v.active_pair(v.active, local, peer) matches Ok(Some(id)) && exists|q: RecordView|
            #[trigger] holds(v.active, q) && is_between(q, local, peer) && q.pair_id == id,
        is_id(local) && is_id(peer) ==> v.active_between(local, peer) == Ok::<bool, SyncError>(
            true,
        ),
{
    let k = choose|k: int|
        0 <= k < v.active.len() && (#[trigger] v.active[k]).content == ContentView::Record(r);
    names_lead_to_records(v, k);
    records_load_by_pair_id(v, r.pair_id, r);
    assert(!leads_nowhere(v, v.active[k].name, local, peer));
    assert forall|j: int|
        0 <= j < v.active.len() && valid_utf8(
            file_stem((#[trigger] v.active[j]).name),
        ) implies v.loaded(decode_utf8(file_stem(v.active[j].name))) is Ok by {
        names_lead_to_records(v, j);
    }
    searches_find_what_is_led_to(v, v.active, local, peer, k);
    let id = v.active_pair(v.active, local, peer)->Ok_0->Some_0;
    let j = choose|j: int|
        0 <= j < v.active.len() && valid_utf8(file_stem((#[trigger] v.active[j]).name)) && (
        v.loaded(decode_utf8(file_stem(v.active[j].name))) matches Ok(Some(r)) && is_between(
            r,
            local,
            peer,
        ) && r.pair_id == id);
    names_lead_to_records(v, j);
    let q = v.loaded(decode_utf8(file_stem(v.active[j].name)))->Ok_0->Some_0;
    assert(holds(v.active, q));
    assert forall|j: int| 0 <= j < v.active.len() implies match (#[trigger] v.active[j]).content {
        ContentView::Record(q) => stored_error(q, v.root) is None,
        ContentView::Absent => true,
        ContentView::Unreadable(_) => false,
    } by {
        assert(active_in_order(v.active[j], v.root));
    }
    one_is_active(v.active, v.root, local, peer, k);
}

/// A record of the two devices among records in order is found.
proof fn one_is_active(
    entries: Seq<EntryView>,
    root: RootView,
    local: Seq<char>,
    peer: Seq<char>,
    at: int,
)
    requires
        0 <= at < entries.len(),
        entries[at].content matches ContentView::Record(r) && is_between(r, local, peer),
        forall|k: int|
            0 <= k < entries.len() ==> match (#[trigger] entries[k]).content {
                ContentView::Record(r) => stored_error(r, root) is None,
                ContentView::Absent => true,
                ContentView::Unreadable(_) => false,
            },
    ensures
        any_active(entries, root, local, peer) == Ok::<bool, SyncError>(true),
    decreases entries.len(),
{
    let rest = entries.drop_first();
    assert(forall|k: int| 0 <= k < rest.len() ==> #[trigger] rest[k] == entries[k + 1]);
    assert(entries[0].content !is Unreadable);
    if at > 0 {
        assert(rest[at - 1] == entries[at]);
        one_is_active(rest, root, local, peer, at - 1);
    }
}

// ---------------------------------------------------------------------------
// Pending records.
// ---------------------------------------------------------------------------
/// Whether all entries of the pending directory are in order: each holds a
/// record that is accepted as pending state, or went away.
pub open spec fn all_pending_in_order(v: StoreView) -> bool {
    forall|k: int|
        0 <= k < v.pending.len() ==> match (#[trigger] v.pending[k]).content {
            ContentView::Record(r) => pending_error(r, v.root) is None,
            ContentView::Absent => true,
            ContentView::Unreadable(_) => false,
        }
}

/// Where the pending directory is in order, the search for the pending record of
/// two devices reports no fault; it finds nothing exactly where none of theirs
/// is there, and else a record of theirs that is there. It finds the same
/// whichever of the two is asked.
pub proof fn pending_records_are_found(v: StoreView, local: Seq<char>, peer: Seq<char>)
    requires
        all_pending_in_order(v),
        is_id(local),
        is_id(peer),
    ensures
        v.pending_between(local, peer) is Ok,
        v.pending_between(local, peer)->Ok_0 is None <==> holds_nothing_of(v.pending, local, peer),
        v.pending_between(local, peer)->Ok_0 matches Some(r) ==> holds(v.pending, r) && is_between(
            r,
            local,
            peer,
        ),
        v.pending_between(peer, local) == v.pending_between(local, peer),
{
    first_of_both_is_found(v.pending, v.root, local, peer);
}

/// Among records in order the first one of the two devices is found.
proof fn first_of_both_is_found(
    entries: Seq<EntryView>,
    root: RootView,
    local: Seq<char>,
    peer: Seq<char>,
)
    requires
        forall|k: int|
            0 <= k < entries.len() ==> match (#[trigger] entries[k]).content {
                ContentView::Record(r) => pending_error(r, root) is None,
                ContentView::Absent => true,
                ContentView::Unreadable(_) => false,
            },
    ensures
        first_pending(entries, root, local, peer) is Ok,
        first_pending(entries, root, local, peer)->Ok_0 is None <==> holds_nothing_of(
            entries,
            local,
            peer,
        ),
        first_pending(entries, root, local, peer)->Ok_0 matches Some(r) ==> holds(entries, r)
            && is_between(r, local, peer),
        first_pending(entries, root, peer, local) == first_pending(entries, root, local, peer),
    decreases entries.len(),
{
    if entries.len() > 0 {
        let rest = entries.drop_first();
        assert(forall|k: int| 0 <= k < rest.len() ==> #[trigger] rest[k] == entries[k + 1]);
        assert(entries[0].content !is Unreadable);
        first_of_both_is_found(rest, root, local, peer);
        assert forall|r: RecordView| #[trigger] holds(entries, r) <==> entries[0].content
            == ContentView::Record(r) || holds(rest, r) by {
            if holds(entries, r) {
                let k = choose|k: int|
                    0 <= k < entries.len() && (#[trigger] entries[k]).content
                        == ContentView::Record(r);
                if k > 0 {
                    assert(rest[k - 1] == entries[k]);
                }
            }
            if holds(rest, r) {
                let k = choose|k: int|
                    0 <= k < rest.len() && (#[trigger] rest[k]).content == ContentView::Record(r);
                assert(entries[k + 1] == rest[k]);
            }
        }
        if entries[0].content is Record {
            let r = entries[0].content->Record_0;
            assert(holds(entries, r));
        }
        assert(forall|r: RecordView| #[trigger] holds(rest, r) ==> holds(entries, r));
    }
}

// ---------------------------------------------------------------------------
// Plans.
// ---------------------------------------------------------------------------
/// A stranger to a store whose directories are in order is planned as a first
/// contact, on either side, however many records of other devices there are.
pub proof fn strangers_are_first_contacts(
    v: StoreView,
    secret: Seq<u8>,
    local: Seq<char>,
    peer: Seq<char>,
    reconnect_start: bool,
)
    requires
        all_active_in_order(v),
        all_pending_in_order(v),
        is_id(local),
        is_id(peer),
        holds_nothing_of(v.active, local, peer),
        holds_nothing_of(v.pending, local, peer),
    ensures
        initiator_plan(v, secret, local, peer) == Ok::<Option<ContextView>, SyncError>(None),
        responder_plan(v, secret, local, peer, reconnect_start) == Ok::<
            (Option<Seq<char>>, Option<RecordView>, Option<ContextView>),
            SyncError,
        >((None, None, None)),
{
    reveal(initiator_plan);
    reveal(responder_plan);
    strangers_have_nothing_active(v, local, peer);
    pending_records_are_found(v, local, peer);
}

/// Whether pins are those of a record: its PairID, its two devices with their
/// keys, and what its two certificates say.
pub open spec fn pins_record(pins: ContextView, r: RecordView) -> bool {
    &&& pins.pair_id == r.pair_id
    &&& pins.initiator_device_id == r.initiator_device_id
    &&& pins.responder_device_id == r.responder_device_id
    &&& pins.initiator_public_key == r.initiator_public_key
    &&& pins.responder_public_key == r.responder_public_key
    &&& certificate_parsed(r.initiator_certificate) == Ok::<CertificateView, SyncError>(
        pins.initiator_certificate,
    )
    &&& certificate_parsed(r.responder_certificate) == Ok::<CertificateView, SyncError>(
        pins.responder_certificate,
    )
}

/// Whether an identity is one of the two devices of a record.
pub open spec fn takes_part(secret: Seq<u8>, r: RecordView) -> bool {
    let key = ed25519_public(secret);
    let id = device_id_of(key);
    ||| (id, key) == (r.initiator_device_id, r.initiator_public_key)
    ||| (id, key) == (r.responder_device_id, r.responder_public_key)
}

/// Either participant of an active pairing is given its pins, whatever the time;
/// nobody else is.
pub proof fn participants_reconnect(v: StoreView, secret: Seq<u8>, r: RecordView)
    requires
        v.loaded(r.pair_id) == Ok::<Option<RecordView>, SyncError>(Some(r)),
    ensures
        takes_part(secret, r) ==> (v.reconnecting(secret, r.pair_id) matches Ok(pins)
            && pins_record(pins, r)),
        !takes_part(secret, r) ==> v.reconnecting(secret, r.pair_id) == Err::<
            ContextView,
            SyncError,
        >(SyncError::NotActiveParticipant),
{
    active_records_are_signed_by_both(r, v.root);
}

/// What a device recovers with a peer: the pins of the pending record of the
/// two, if there is one; else those of an active one; else nothing.
pub proof fn participants_recover(v: StoreView, secret: Seq<u8>, peer: Seq<char>, r: RecordView)
    requires
        is_id(peer),
        is_id(device_id_of(ed25519_public(secret))),
    ensures
        ({
            let local = device_id_of(ed25519_public(secret));
            let pending = v.pending_between(local, peer);
            &&& (pending == Ok::<Option<RecordView>, SyncError>(Some(r)) && is_between(
                r,
                local,
                peer,
            ) && pending_error(r, v.root) is None) ==> (v.recovering(secret, peer) matches Ok(
                Some(pins),
            ) && pins_record(pins, r))
            &&& (all_active_in_order(v) && all_pending_in_order(v) && holds_nothing_of(
                v.pending,
                local,
                peer,
            ) && holds_nothing_of(v.active, local, peer)) ==> v.recovering(secret, peer) == Ok::<
                Option<ContextView>,
                SyncError,
            >(None)
        }),
{
    let local = device_id_of(ed25519_public(secret));
    pending_records_are_signed_by_one(r, v.root);
    if all_active_in_order(v) && all_pending_in_order(v) && holds_nothing_of(
        v.pending,
        local,
        peer,
    ) && holds_nothing_of(v.active, local, peer) {
        pending_records_are_found(v, local, peer);
        assert forall|k: int| 0 <= k < v.active.len() implies leads_nowhere(
            v,
            (#[trigger] v.active[k]).name,
            local,
            peer,
        ) by {
            names_lead_to_records(v, k);
        }
        contexts_pass_over_others(v, v.active, secret, peer);
    }
}

/// Where no name leads to a record of the two, no pins are found.
proof fn contexts_pass_over_others(
    v: StoreView,
    names: Seq<EntryView>,
    secret: Seq<u8>,
    peer: Seq<char>,
)
    requires
        forall|k: int|
            0 <= k < names.len() ==> leads_nowhere(
                v,
                (#[trigger] names[k]).name,
                device_id_of(ed25519_public(secret)),
                peer,
            ),
    ensures
        v.active_context(names, secret, peer) == Ok::<Option<ContextView>, SyncError>(None),
    decreases names.len(),
{
    if names.len() > 0 {
        let rest = names.drop_first();
        assert forall|k: int| 0 <= k < rest.len() implies leads_nowhere(
            v,
            (#[trigger] rest[k]).name,
            device_id_of(ed25519_public(secret)),
            peer,
        ) by {
            assert(rest[k] == names[k + 1]);
        }
        contexts_pass_over_others(v, rest, secret, peer);
        assert(leads_nowhere(v, names[0].name, device_id_of(ed25519_public(secret)), peer));
    }
}

/// Whether a record is the only one of two devices that a directory holds.
pub open spec fn holds_only(
    entries: Seq<EntryView>,
    r: RecordView,
    a: Seq<char>,
    b: Seq<char>,
) -> bool {
    &&& holds(entries, r)
    &&& is_between(r, a, b)
    &&& forall|q: RecordView| #[trigger] holds(entries, q) && is_between(q, a, b) ==> q == r
}

/// A device that has an active pairing with a peer plans to reconnect with its
/// pins, on either side, whatever else is active or pending.
pub proof fn partners_are_reconnected(
    v: StoreView,
    secret: Seq<u8>,
    local: Seq<char>,
    peer: Seq<char>,
    r: RecordView,
    reconnect_start: bool,
)
    requires
        all_active_in_order(v),
        all_pending_in_order(v),
        names_distinct(v.active),
        is_id(local),
        is_id(peer),
        holds_only(v.active, r, local, peer),
        takes_part(secret, r),
    ensures
        v.active_pair(v.active, local, peer) == Ok::<Option<Seq<char>>, SyncError>(
            Some(r.pair_id),
        ),
        initiator_plan(v, secret, local, peer) matches Ok(Some(pins)) && pins_record(pins, r),
        responder_plan(v, secret, local, peer, reconnect_start) matches Ok(plan) && plan.0 == Some(
            r.pair_id,
        ) && plan.1 == v.pending_between(local, peer)->Ok_0 && (plan.2 matches Some(pins)
            && pins_record(pins, r)),
{
    reveal(initiator_plan);
    reveal(responder_plan);
    partners_are_found_active(v, r, local, peer);
    pending_records_are_found(v, local, peer);
    let id = v.active_pair(v.active, local, peer)->Ok_0->Some_0;
    let q = choose|q: RecordView| #[trigger]
        holds(v.active, q) && is_between(q, local, peer) && q.pair_id == id;
    assert(q == r);
    let k = choose|k: int|
        0 <= k < v.active.len() && (#[trigger] v.active[k]).content == ContentView::Record(r);
    names_lead_to_records(v, k);
    records_load_by_pair_id(v, r.pair_id, r);
    participants_reconnect(v, secret, r);
}

/// A device that has a pending record of a peer, and nothing active, plans to
/// reconnect with the pins of that record where it begins, or the peer means to
/// reconnect too; a peer that comes as a stranger is met as one, and the pending
/// record is kept in mind.
pub proof fn pending_partners_are_reconnected(
    v: StoreView,
    secret: Seq<u8>,
    local: Seq<char>,
    peer: Seq<char>,
    r: RecordView,
)
    requires
        all_active_in_order(v),
        all_pending_in_order(v),
        is_id(local),
        is_id(peer),
        local == device_id_of(ed25519_public(secret)),
        holds_nothing_of(v.active, local, peer),
        holds_only(v.pending, r, local, peer),
    ensures
        initiator_plan(v, secret, local, peer) matches Ok(Some(pins)) && pins_record(pins, r),
        responder_plan(v, secret, local, peer, true) matches Ok(plan) && plan.0 is None && plan.1
            == Some(r) && (plan.2 matches Some(pins) && pins_record(pins, r)),
        responder_plan(v, secret, local, peer, false) == Ok::<
            (Option<Seq<char>>, Option<RecordView>, Option<ContextView>),
            SyncError,
        >((None, Some(r), None)),
{
    reveal(initiator_plan);
    reveal(responder_plan);
    strangers_have_nothing_active(v, local, peer);
    pending_records_are_found(v, local, peer);
    let found = v.pending_between(local, peer)->Ok_0;
    assert(!holds_nothing_of(v.pending, local, peer)) by {
        assert(holds(v.pending, r));
    }
    assert(found == Some(r));
    let k = choose|k: int|
        0 <= k < v.pending.len() && (#[trigger] v.pending[k]).content == ContentView::Record(r);
    assert(pending_error(r, v.root) is None);
    participants_recover(v, secret, peer, r);
}

/// A device that has a record of a peer pending begins with it, where its
/// DeviceID is the lower one, whatever is active; and where nothing is pending it
/// begins exactly if nothing is active, with the lower DeviceID.
pub proof fn stores_give_reasons_to_begin(
    v: StoreView,
    own: Seq<char>,
    peer: Seq<char>,
    r: RecordView,
)
    requires
        all_active_in_order(v),
        all_pending_in_order(v),
        names_distinct(v.active),
        is_id(own),
        is_id(peer),
    ensures
        ({
            let lower = comes_before(utf8(own), utf8(peer));
            &&& holds(v.pending, r) && is_between(r, own, peer) ==> (initiates_with(v, own, peer)
                <==> lower)
            &&& holds_nothing_of(v.active, own, peer) ==> (initiates_with(v, own, peer) <==> lower)
            &&& (holds(v.active, r) && is_between(r, own, peer) && holds_nothing_of(
                v.pending,
                own,
                peer,
            )) ==> !initiates_with(v, own, peer)
        }),
{
    lower_devices_begin(v, own, peer);
    pending_records_are_found(v, own, peer);
    if holds(v.active, r) && is_between(r, own, peer) {
        partners_are_found_active(v, r, own, peer);
    }
    if holds_nothing_of(v.active, own, peer) {
        strangers_have_nothing_active(v, own, peer);
    }
}

// ---------------------------------------------------------------------------
// Revocation, and what operations leave alone.
// ---------------------------------------------------------------------------
/// An active pairing can be revoked exactly once. That takes it, and nothing
/// else, out of the active ones: every other pairing loads as before, and
/// whatever is pending stays.
pub proof fn active_pairings_are_revoked(
    v: StoreView,
    r: RecordView,
    other: Seq<char>,
)
    requires
        v.loaded(r.pair_id) == Ok::<Option<RecordView>, SyncError>(Some(r)),
    ensures
        ({
            let name = utf8(r.pair_id) + utf8(".json"@);
            let (result, after) = v.revoking(r.pair_id);
            &&& result is Ok <==> !v.revoked.contains(name)
            &&& result is Err ==> result == Err::<(), SyncError>(SyncError::AlreadyRevoked) && after
                == v
            &&& result is Ok ==> {
                &&& after.loaded(r.pair_id) == Ok::<Option<RecordView>, SyncError>(None)
                &&& other != r.pair_id ==> after.loaded(other) == v.loaded(other)
                &&& after.revoked == v.revoked.push(name)
                &&& after.journal == v.journal.push(ChangeView::Revoke(name))
                &&& after.pending == v.pending
                &&& after.root == v.root
                &&& after.now == v.now
            }
        }),
{
    let name = record_name(r.pair_id);
    lookup_without(v.active, name, name);
    lookup_without(v.active, name, record_name(other));
    if other != r.pair_id {
        record_names_differ(other, r.pair_id);
    }
}

/// What is not active cannot be revoked.
pub proof fn only_active_pairings_are_revoked(v: StoreView, pair_id: Seq<char>)
    requires
        is_id(pair_id),
        v.loaded(pair_id) == Ok::<Option<RecordView>, SyncError>(None),
    ensures
        v.revoking(pair_id) == (Err::<(), SyncError>(SyncError::ActiveMissing), v),
{
}

/// A sweep that reports no fault keeps exactly the entries that are not records
/// of the two devices, in their order, and says of each other one that it goes.
pub proof fn sweeps_take_the_two_devices(entries: Seq<EntryView>, r: RecordView, entry: EntryView)
    requires
        swept(entries, r).0 is None,
    ensures
        ({
            let (_, kept, removed) = swept(entries, r);
            let goes = entry.content matches ContentView::Record(p) && is_between(
                p,
                r.initiator_device_id,
                r.responder_device_id,
            );
            &&& kept.contains(entry) <==> entries.contains(entry) && !goes
            &&& entries.contains(entry) && goes ==> removed.contains(
                ChangeView::RemovePending(entry.name),
            )
            &&& kept.len() + removed.len() == entries.len()
        }),
    decreases entries.len(),
{
    if entries.len() > 0 {
        let rest = entries.drop_last();
        sweeps_take_the_two_devices(rest, r, entry);
        let last = entries.last();
        last_or_before(entries, entry);
        let (_, kept, removed) = swept(entries, r);
        let (_, kept_before, removed_before) = swept(rest, r);
        if kept.len() > kept_before.len() {
            assert(kept.drop_last() =~= kept_before);
            last_or_before(kept, entry);
        } else {
            assert(removed.drop_last() =~= removed_before);
            last_or_before(removed, ChangeView::RemovePending(entry.name));
        }
    }
}

/// Whatever a sweep says that goes is a pending record of the two devices.
pub proof fn sweeps_take_nothing_else(entries: Seq<EntryView>, r: RecordView, k: int)
    requires
        0 <= k < swept(entries, r).2.len(),
    ensures
        exists|j: int|
            0 <= j < entries.len() && swept(entries, r).2[k] == ChangeView::RemovePending(
                (#[trigger] entries[j]).name,
            ) && (entries[j].content matches ContentView::Record(p) && is_between(
                p,
                r.initiator_device_id,
                r.responder_device_id,
            )),
    decreases entries.len(),
{
    let rest = entries.drop_last();
    let before = swept(rest, r).2;
    assert(forall|j: int| 0 <= j < rest.len() ==> #[trigger] rest[j] == entries[j]);
    if k < before.len() {
        sweeps_take_nothing_else(rest, r, k);
        let j = choose|j: int|
            0 <= j < rest.len() && before[k] == ChangeView::RemovePending(
                (#[trigger] rest[j]).name,
            ) && (rest[j].content matches ContentView::Record(p) && is_between(
                p,
                r.initiator_device_id,
                r.responder_device_id,
            ));
        assert(entries[j] == rest[j]);
        assert(swept(entries, r).2[k] == before[k]);
    } else {
        let j = entries.len() - 1;
        assert(entries[j] == entries.last());
    }
}

/// A sweep reports no fault exactly where every entry can be read.
pub proof fn sweeps_read_everything(entries: Seq<EntryView>, r: RecordView)
    ensures
        swept(entries, r).0 is None <==> forall|k: int|
            0 <= k < entries.len() ==> (#[trigger] entries[k]).content !is Unreadable,
    decreases entries.len(),
{
    if entries.len() > 0 {
        let rest = entries.drop_last();
        sweeps_read_everything(rest, r);
        assert(forall|k: int| 0 <= k < rest.len() ==> #[trigger] rest[k] == entries[k]);
        assert(entries.last() == entries[entries.len() - 1]);
        if swept(entries, r).0 is None {
            assert forall|k: int| 0 <= k < entries.len() implies (
            #[trigger] entries[k]).content !is Unreadable by {
                if k < rest.len() {
                    assert(rest[k].content !is Unreadable);
                }
            }
        } else if swept(rest, r).0 is Some {
            let k = choose|k: int|
                0 <= k < rest.len() && (#[trigger] rest[k]).content is Unreadable;
            assert(entries[k].content is Unreadable);
        }
    }
}

/// A record becomes active exactly where its PairID was not revoked, no other
/// record is active under it, its stored form fits, and everything pending can
/// be read. It is then found under its PairID, and written there if it was not;
/// every other pairing loads as before; and nothing of the two devices is left
/// pending.
pub proof fn records_become_active(v: StoreView, r: RecordView, other: Seq<char>)
    requires
        is_id(r.pair_id),
    ensures
        ({
            let name = utf8(r.pair_id) + utf8(".json"@);
            let (result, after) = v.activated(r);
            let there = lookup(v.active, name);
            &&& result is Ok <==> {
                &&& !v.revoked.contains(name)
                &&& there is None ==> record_json(r).len() <= 4096
                &&& there matches Some(found) ==> found == Ok::<RecordView, SyncError>(r)
                &&& forall|k: int|
                    0 <= k < v.pending.len() ==> (#[trigger] v.pending[k]).content !is Unreadable
            }
            &&& result is Ok ==> {
                &&& lookup(after.active, name) == Some(Ok::<RecordView, SyncError>(r))
                &&& holds_nothing_of(after.pending, r.initiator_device_id, r.responder_device_id)
            }
            &&& result is Ok ==> after.journal == v.journal + (if there is None {
                seq![ChangeView::WriteActive(name, record_json(r))]
            } else {
                Seq::empty()
            }) + swept(v.pending, r).2
            &&& other != r.pair_id ==> after.loaded(other) == v.loaded(other)
            &&& v.revoked.contains(name) ==> result == Err::<(), SyncError>(
                SyncError::PairIdRevoked,
            )
            &&& after.revoked == v.revoked
            &&& after.root == v.root
            &&& after.now == v.now
        }),
{
    let name = record_name(r.pair_id);
    lookup_written(v.active, name, r, name);
    lookup_written(v.active, name, r, record_name(other));
    if other != r.pair_id {
        record_names_differ(other, r.pair_id);
    }
    sweeps_read_everything(v.pending, r);
    let (result, after) = v.activated(r);
    if result is Ok {
        assert(after.pending == swept(v.pending, r).1);
        assert(after.journal =~= v.journal + (if lookup(v.active, name) is None {
            seq![ChangeView::WriteActive(name, record_json(r))]
        } else {
            Seq::empty()
        }) + swept(v.pending, r).2);
        assert forall|p: RecordView| #[trigger] holds(after.pending, p) implies !is_between(
            p,
            r.initiator_device_id,
            r.responder_device_id,
        ) by {
            let k = choose|k: int|
                0 <= k < after.pending.len() && (#[trigger] after.pending[k]).content
                    == ContentView::Record(p);
            sweeps_take_the_two_devices(v.pending, r, after.pending[k]);
        }
    }
}

/// A record is written as pending exactly where nothing is pending under its
/// PairID and its stored form fits; where a complete record of the same pairing
/// is, that one is kept. Whatever is pending under other PairIDs stays, and what
/// is active and revoked too.
pub proof fn records_become_pending(v: StoreView, r: RecordView, other: Seq<char>)
    requires
        is_id(r.pair_id),
    ensures
        ({
            let name = utf8(r.pair_id) + utf8(".json"@);
            let (result, after) = v.pending_written(r);
            let there = lookup(v.pending, name);
            &&& there is None ==> (result is Ok <==> record_json(r).len() <= 4096)
            &&& there is None && result is Ok ==> {
                &&& after.loaded_pending(r.pair_id) == Ok::<Option<RecordView>, SyncError>(Some(r))
                &&& after.journal == v.journal.push(ChangeView::WritePending(name, record_json(r)))
            }
            &&& there matches Some(found) ==> {
                &&& result is Ok <==> (found matches Ok(p) && binding_error(p, r) is None
                    && p.initiator_signature is Some && p.responder_signature is Some)
                &&& after == v
            }
            &&& result is Err ==> after == v
            &&& other != r.pair_id ==> after.loaded_pending(other) == v.loaded_pending(other)
            &&& after == (StoreView { pending: after.pending, journal: after.journal, ..v })
        }),
{
    let name = record_name(r.pair_id);
    lookup_written(v.pending, name, r, name);
    lookup_written(v.pending, name, r, record_name(other));
    if other != r.pair_id {
        record_names_differ(other, r.pair_id);
    }
}

} // verus!
