//! What a grant takes, and what it leaves.
use crate::capability::{
    ascending, grant_lookup, grants_json, is_capability, is_grant_id, CapabilitySet, GrantsView,
};
use crate::certified::ascii_bytes_are_characters;
use crate::codec::utf8;
use crate::encounters::{comes_before, order_goes_by_the_first_difference};
use crate::error::SyncError;
use crate::text::{is_alphanumeric, is_hex};
use vstd::prelude::*;
use vstd::utf8::*;

verus! {

/// Whether a text is one to sixty-four letters, digits, dots, hyphens and
/// underscores.
pub open spec fn names_a_capability(text: Seq<char>) -> bool {
    &&& 1 <= text.len() <= 64
    &&& forall|k: int|
        0 <= k < text.len() ==> {
            ||| '0' <= #[trigger] text[k] <= '9'
            ||| 'A' <= text[k] <= 'Z'
            ||| 'a' <= text[k] <= 'z'
            ||| text[k] == '.'
            ||| text[k] == '-'
            ||| text[k] == '_'
        }
}

/// A text has the form of a capability exactly if it is one to sixty-four
/// letters, digits, dots, hyphens and underscores.
pub proof fn capabilities_are_names(text: Seq<char>)
    ensures
        is_capability(text) <==> names_a_capability(text),
{
    if names_a_capability(text) {
        assert(is_ascii_chars(text));
        is_ascii_chars_encode_utf8(text);
        assert forall|k: int| 0 <= k < utf8(text).len() implies (is_alphanumeric(
            #[trigger] utf8(text)[k],
        ) || utf8(text)[k] == 0x2e || utf8(text)[k] == 0x2d || utf8(text)[k] == 0x5f) by {
            assert(utf8(text)[k] == text[k] as u8);
        }
    }
    if is_capability(text) {
        ascii_bytes_are_characters(utf8(text));
        encode_utf8_decode_utf8(text);
        assert forall|k: int| 0 <= k < text.len() implies {
            ||| '0' <= #[trigger] text[k] <= '9'
            ||| 'A' <= text[k] <= 'Z'
            ||| 'a' <= text[k] <= 'z'
            ||| text[k] == '.'
            ||| text[k] == '-'
            ||| text[k] == '_'
        } by {
            let b = utf8(text)[k];
            assert(is_alphanumeric(b) || b == 0x2e || b == 0x2d || b == 0x5f);
        }
    }
}

/// Whether a text is thirty-two hexadecimal digits in either case.
pub open spec fn names_a_device(text: Seq<char>) -> bool {
    &&& text.len() == 32
    &&& forall|k: int|
        0 <= k < text.len() ==> ('0' <= #[trigger] text[k] <= '9') || ('a' <= text[k] <= 'f') || (
        'A' <= text[k] <= 'F')
}

/// Grants are kept for a text exactly if it is thirty-two hexadecimal digits in
/// either case.
pub proof fn grants_are_kept_for_devices(text: Seq<char>)
    ensures
        is_grant_id(text) <==> names_a_device(text),
{
    if names_a_device(text) {
        assert(is_ascii_chars(text));
        is_ascii_chars_encode_utf8(text);
        assert forall|k: int| 0 <= k < 32 implies is_hex(#[trigger] utf8(text)[k]) by {
            assert(utf8(text)[k] == text[k] as u8);
        }
    }
    if is_grant_id(text) {
        ascii_bytes_are_characters(utf8(text));
        encode_utf8_decode_utf8(text);
        assert forall|k: int| 0 <= k < text.len() implies ('0' <= #[trigger] text[k] <= '9') || (
        'a' <= text[k] <= 'f') || ('A' <= text[k] <= 'F') by {
            assert(is_hex(utf8(text)[k]));
        }
    }
}

/// Whether an entry is the first of its name.
pub open spec fn first_of_name(v: GrantsView, k: int, name: Seq<u8>) -> bool {
    &&& 0 <= k < v.entries.len()
    &&& v.entries[k].0 == name
    &&& forall|j: int| 0 <= j < k ==> (#[trigger] v.entries[j]).0 != name
}

/// What is kept under a name is the first entry of that name, if there is one.
proof fn first_entries_are_found(
    entries: Seq<(Seq<u8>, Result<(Seq<char>, Seq<Seq<char>>), SyncError>)>,
    name: Seq<u8>,
)
    ensures
        grant_lookup(entries, name) is None <==> forall|k: int|
            0 <= k < entries.len() ==> (#[trigger] entries[k]).0 != name,
        grant_lookup(entries, name) matches Some(content) ==> exists|k: int|
            0 <= k < entries.len() && (#[trigger] entries[k]).0 == name && entries[k].1 == content
                && forall|j: int| 0 <= j < k ==> (#[trigger] entries[j]).0 != name,
    decreases entries.len(),
{
    if entries.len() > 0 {
        if entries[0].0 != name {
            let rest = entries.drop_first();
            first_entries_are_found(rest, name);
            assert(forall|k: int| 0 <= k < rest.len() ==> #[trigger] rest[k] == entries[k + 1]);
            assert(forall|k: int| 0 < k < entries.len() ==> #[trigger] entries[k] == rest[k - 1]);
            if grant_lookup(rest, name) is Some {
                let content = grant_lookup(rest, name)->Some_0;
                let k = choose|k: int|
                    0 <= k < rest.len() && (#[trigger] rest[k]).0 == name && rest[k].1 == content
                        && forall|j: int| 0 <= j < k ==> (#[trigger] rest[j]).0 != name;
                assert(entries[k + 1] == rest[k]);
                assert forall|j: int| 0 <= j < k + 1 implies (#[trigger] entries[j]).0 != name by {
                    if j > 0 {
                        assert(entries[j] == rest[j - 1]);
                    }
                }
            }
        } else {
            assert(entries[0].0 == name);
        }
    }
}

/// The capabilities of a device are those that the first file of its name gives
/// to it. Where there is no file it has none, and where the file is of another
/// device, or cannot be read, that is reported.
pub proof fn grants_load_by_device(v: GrantsView, device_id: Seq<char>, k: int)
    requires
        names_a_device(device_id),
    ensures
        (forall|j: int|
            0 <= j < v.entries.len() ==> (#[trigger] v.entries[j]).0 != utf8(device_id) + utf8(
                ".json"@,
            )) ==> v.loaded(device_id) == Ok::<Option<Seq<Seq<char>>>, SyncError>(None),
        first_of_name(v, k, utf8(device_id) + utf8(".json"@)) ==> v.loaded(device_id) == (
        match v.entries[k].1 {
            Ok((id, capabilities)) => if id == device_id {
                Ok::<Option<Seq<Seq<char>>>, SyncError>(Some(capabilities))
            } else {
                Err(SyncError::CapabilityMismatch)
            },
            Err(error) => Err(error),
        }),
{
    let name = utf8(device_id) + utf8(".json"@);
    grants_are_kept_for_devices(device_id);
    first_entries_are_found(v.entries, name);
    if first_of_name(v, k, name) {
        assert(v.entries[k].0 == name);
        let content = grant_lookup(v.entries, name)->Some_0;
        let j = choose|j: int|
            0 <= j < v.entries.len() && (#[trigger] v.entries[j]).0 == name && v.entries[j].1
                == content && forall|i: int| 0 <= i < j ==> (#[trigger] v.entries[i]).0 != name;
        assert(j == k);
    }
}

/// A capability is granted exactly where the pairing layer says that there is an
/// active relationship, it has the form of a capability, and the peer's grants
/// load. The peer then has what it had and that capability, each once and in
/// order; everybody else has what they had; and the peer's file is written with
/// just that. Else nothing changes.
pub proof fn grants_add_what_is_granted(
    v: GrantsView,
    pairing: Result<bool, SyncError>,
    peer: Seq<char>,
    capability: Seq<char>,
    result: Result<CapabilitySet, SyncError>,
    after: GrantsView,
    other: Seq<char>,
    text: Seq<char>,
)
    requires
        v.granting(pairing, peer, capability, result, after),
    ensures
        result is Ok <==> pairing == Ok::<bool, SyncError>(true) && names_a_capability(capability)
            && v.loaded(peer) is Ok,
        result is Err ==> after == v,
        result matches Ok(set) ==> {
            let before = match v.loaded(peer)->Ok_0 {
                Some(capabilities) => capabilities,
                None => Seq::empty(),
            };
            &&& set@.contains(text) <==> before.contains(text) || text == capability
            &&& forall|i: int, j: int|
                0 <= i < j < set@.len() ==> comes_before(
                    utf8(#[trigger] set@[i]),
                    utf8(#[trigger] set@[j]),
                )
            &&& after.loaded(peer) == Ok::<Option<Seq<Seq<char>>>, SyncError>(Some(set@))
            &&& other != peer ==> after.loaded(other) == v.loaded(other)
            &&& after.journal == v.journal.push(
                (utf8(peer) + utf8(".json"@), grants_json(peer, set@)),
            )
        },
{
    capabilities_are_names(capability);
    if result is Ok {
        let set = result->Ok_0;
        assert(ascending(set@));
        assert forall|i: int, j: int| 0 <= i < j < set@.len() implies comes_before(
            utf8(#[trigger] set@[i]),
            utf8(#[trigger] set@[j]),
        ) by {
            order_goes_by_the_first_difference(utf8(set@[i]), utf8(set@[j]));
        }
    }
}

} // verus!
