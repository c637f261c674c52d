//! Persistent capability grants.
//!
//! Grants are intentionally separate from bilateral pairing records: pairing
//! never creates a capability record or implicitly grants access.
use crate::codec::{append, utf8, utf8_injective};
use crate::error::{outcome, SyncError};
use crate::json::{json_text, put_text};
use crate::text::{
    bytes_eq, bytes_less, bytes_less_total, bytes_less_transitive, is_alphanumeric, is_hex, str_eq,
    str_less,
};
use vstd::prelude::*;

verus! {

/// Capability authorization consults the bilateral trust layer through this
/// question alone.
pub trait ActivePairingLookup {
    fn has_active_pairing(&self, local_device_id: &str, peer_device_id: &str) -> Result<
        bool,
        SyncError,
    >;
}

// ---------------------------------------------------------------------------
// Sets of capabilities.
// ---------------------------------------------------------------------------
/// Whether texts stand in strictly ascending order, so that none occurs twice.
pub open spec fn ascending(texts: Seq<Seq<char>>) -> bool {
    forall|i: int, j: int|
        0 <= i < j < texts.len() ==> bytes_less(utf8(#[trigger] texts[i]), utf8(#[trigger] texts[j]))
}

/// The texts of strings.
pub open spec fn texts_view(items: Seq<String>) -> Seq<Seq<char>> {
    items.map_values(|item: String| item@)
}

/// A set of capabilities, in ascending order.
#[derive(Debug, PartialEq, Eq)]
pub struct CapabilitySet {
    items: Vec<String>,
}

impl View for CapabilitySet {
    type V = Seq<Seq<char>>;

    closed spec fn view(&self) -> Seq<Seq<char>> {
        texts_view(self.items@)
    }
}

impl Clone for CapabilitySet {
    fn clone(&self) -> (result: Self)
        ensures
            result@ == self@,
    {
        let mut items: Vec<String> = Vec::new();
        let mut i: usize = 0;
        while i < self.items.len()
            invariant
                i <= self.items@.len(),
                texts_view(items@) == texts_view(self.items@).take(i as int),
            decreases self.items@.len() - i,
        {
            let ghost before = items@;
            items.push(self.items[i].clone());
            proof {
                let all = texts_view(self.items@);
                assert(texts_view(items@) =~= texts_view(before).push(all[i as int]));
                assert(all.take(i as int).push(all[i as int]) =~= all.take(i + 1));
            }
            i = i + 1;
        }
        assert(texts_view(self.items@).take(i as int) =~= texts_view(self.items@));
        proof {
            use_type_invariant(self);
        }
        CapabilitySet { items }
    }
}

impl CapabilitySet {
    /// Every set is in order.
    #[verifier::type_invariant]
    spec fn in_order(&self) -> bool {
        ascending(texts_view(self.items@))
    }

    /// The empty set.
    pub fn new() -> (result: Self)
        ensures
            result@ == Seq::<Seq<char>>::empty(),
    {
        let set = CapabilitySet { items: Vec::new() };
        assert(set@ =~= Seq::empty());
        set
    }

    /// The set of the given texts.
    pub fn from_items(items: Vec<String>) -> (result: Self)
        ensures
            ascending(result@),
            forall|text: Seq<char>|
                result@.contains(text) <==> texts_view(items@).contains(text),
    {
        let mut set = CapabilitySet::new();
        let mut i: usize = 0;
        while i < items.len()
            invariant
                i <= items@.len(),
                forall|text: Seq<char>|
                    set@.contains(text) <==> texts_view(items@).take(i as int).contains(text),
            decreases items@.len() - i,
        {
            let ghost before = set@;
            let ghost all = texts_view(items@);
            set.insert(items[i].clone());
            proof {
                assert forall|text: Seq<char>| set@.contains(text) <==> all.take(
                    i + 1,
                ).contains(text) by {
                    let shorter = all.take(i as int);
                    let longer = all.take(i + 1);
                    assert(longer =~= shorter.push(all[i as int]));
                    if shorter.contains(text) {
                        let k = choose|k: int| 0 <= k < shorter.len() && shorter[k] == text;
                        assert(longer[k] == text);
                    }
                    if text == all[i as int] {
                        assert(longer[i as int] == text);
                    }
                    if longer.contains(text) {
                        let k = choose|k: int| 0 <= k < longer.len() && longer[k] == text;
                        if k < i {
                            assert(shorter[k] == text);
                        }
                    }
                }
            }
            i = i + 1;
        }
        assert(texts_view(items@).take(i as int) =~= texts_view(items@));
        proof {
            use_type_invariant(&set);
        }
        set
    }

    /// Adds a capability.
    pub fn insert(&mut self, capability: String)
        ensures
            ascending(final(self)@),
            forall|text: Seq<char>|
                final(self)@.contains(text) <==> old(self)@.contains(text) || text == capability@,
    {
        proof {
            use_type_invariant(&*self);
        }
        let ghost before = self@;
        let mut i: usize = 0;
        while i < self.items.len() && str_less(self.items[i].as_str(), capability.as_str())
            invariant
                i <= self.items@.len(),
                before == texts_view(self.items@),
                *self == *old(self),
                forall|j: int|
                    0 <= j < i ==> bytes_less(utf8(#[trigger] before[j]), utf8(capability@)),
            decreases self.items@.len() - i,
        {
            assert(before[i as int] == self.items@[i as int]@);
            i = i + 1;
        }
        if i < self.items.len() && str_eq(self.items[i].as_str(), capability.as_str()) {
            assert(before[i as int] == capability@);
            return;
        }
        let mut items: Vec<String> = Vec::new();
        std::mem::swap(&mut items, &mut self.items);
        proof {
            if i < before.len() {
                assert(before[i as int] == items@[i as int]@);
            }
            inserted_ascending(before, i as int, capability@);
        }
        let ghost added = capability@;
        items.insert(i, capability);
        assert(texts_view(items@) =~= before.insert(i as int, added));
        self.items = items;
        proof {
            assert(before == old(self)@);
            assert(forall|text: Seq<char>| self@.contains(text) <==> old(self)@.contains(text)
                || text == added);
        }
    }

    /// Whether a capability is in the set.
    pub fn contains(&self, capability: &str) -> (result: bool)
        ensures
            result == self@.contains(capability@),
    {
        let mut i: usize = 0;
        while i < self.items.len()
            invariant
                i <= self.items@.len(),
                forall|j: int| 0 <= j < i ==> (#[trigger] self@[j]) != capability@,
            decreases self.items@.len() - i,
        {
            assert(self@[i as int] == self.items@[i as int]@);
            if str_eq(self.items[i].as_str(), capability) {
                return true;
            }
            i = i + 1;
        }
        false
    }

    /// How many capabilities there are.
    pub fn len(&self) -> (result: usize)
        ensures
            result == self@.len(),
    {
        self.items.len()
    }

    /// The capability at an index.
    pub fn get(&self, index: usize) -> (result: &str)
        requires
            index < self@.len(),
        ensures
            result@ == self@[index as int],
    {
        self.items[index].as_str()
    }
}

/// Inserting a text behind all smaller ones, where it does not occur yet, keeps
/// the order and adds exactly that text.
proof fn inserted_ascending(texts: Seq<Seq<char>>, i: int, text: Seq<char>)
    requires
        ascending(texts),
        0 <= i <= texts.len(),
        forall|j: int| 0 <= j < i ==> bytes_less(utf8(#[trigger] texts[j]), utf8(text)),
        i < texts.len() ==> !bytes_less(utf8(texts[i]), utf8(text)) && texts[i] != text,
    ensures
        ascending(texts.insert(i, text)),
        forall|other: Seq<char>|
            texts.insert(i, text).contains(other) <==> texts.contains(other) || other == text,
{
    let all = texts.insert(i, text);
    assert forall|a: int, b: int| 0 <= a < b < all.len() implies bytes_less(
        utf8(#[trigger] all[a]),
        utf8(#[trigger] all[b]),
    ) by {
        if a == i {
            // What follows is not smaller than the first that is not smaller.
            bytes_less_total(utf8(texts[i]), utf8(text));
            if utf8(texts[i]) == utf8(text) {
                utf8_injective(texts[i], text);
            }
            if b > i + 1 {
                assert(all[b] == texts[b - 1]);
                bytes_less_transitive(utf8(text), utf8(texts[i]), utf8(texts[b - 1]));
            } else {
                assert(all[b] == texts[i]);
            }
        } else if b == i {
            assert(all[a] == texts[a]);
        } else {
            let x = if a < i {
                a
            } else {
                a - 1
            };
            let y = if b < i {
                b
            } else {
                b - 1
            };
            assert(all[a] == texts[x] && all[b] == texts[y]);
        }
    }
    assert forall|other: Seq<char>| all.contains(other) <==> texts.contains(other) || other
        == text by {
        if texts.contains(other) {
            let k = choose|k: int| 0 <= k < texts.len() && texts[k] == other;
            let at = if k < i {
                k
            } else {
                k + 1
            };
            assert(all[at] == other);
        }
        assert(all[i] == text);
        if all.contains(other) && other != text {
            let k = choose|k: int| 0 <= k < all.len() && all[k] == other;
            let at = if k < i {
                k
            } else {
                k - 1
            };
            assert(texts[at] == other);
        }
    }
}

// ---------------------------------------------------------------------------
// The store.
// ---------------------------------------------------------------------------
/// The form of a capability: up to sixty-four letters, digits, dots, hyphens
/// and underscores.
pub open spec fn is_capability(text: Seq<char>) -> bool {
    let bytes = utf8(text);
    0 < bytes.len() <= 64 && forall|i: int|
        0 <= i < bytes.len() ==> (is_alphanumeric(#[trigger] bytes[i]) || bytes[i] == 0x2e
            || bytes[i] == 0x2d || bytes[i] == 0x5f)
}

/// The form of a DeviceID that a grant is kept for: thirty-two hexadecimal
/// digits in either case.
pub open spec fn is_grant_id(text: Seq<char>) -> bool {
    let bytes = utf8(text);
    bytes.len() == 32 && forall|i: int| 0 <= i < 32 ==> is_hex(#[trigger] bytes[i])
}

/// The name under which the grants of a device are kept.
pub open spec fn grant_name(device_id: Seq<char>) -> Seq<u8> {
    utf8(device_id) + utf8(".json"@)
}

/// The grants of one device.
#[derive(Debug, PartialEq, Eq)]
pub struct CapabilityRecord {
    pub device_id: String,
    pub capabilities: CapabilitySet,
}

/// The stored form of capabilities: each text on a line of its own.
pub open spec fn capability_lines(capabilities: Seq<Seq<char>>) -> Seq<u8>
    decreases capabilities.len(),
{
    if capabilities.len() == 0 {
        Seq::empty()
    } else if capabilities.len() == 1 {
        utf8("\n    "@) + json_text(capabilities[0])
    } else {
        capability_lines(capabilities.drop_last()) + utf8(",\n    "@) + json_text(
            capabilities.last(),
        )
    }
}

/// The stored form of the grants of one device: one JSON object, indented by two
/// spaces.
pub open spec fn grants_json(device_id: Seq<char>, capabilities: Seq<Seq<char>>) -> Seq<u8> {
    utf8("{\n  \"device_id\": "@) + json_text(device_id) + utf8(",\n  \"capabilities\": ["@)
        + capability_lines(capabilities) + (if capabilities.len() == 0 {
        utf8("]\n}"@)
    } else {
        utf8("\n  ]\n}"@)
    })
}

impl CapabilityRecord {
    /// The stored form of these grants.
    pub fn to_bytes(&self) -> (result: Vec<u8>)
        ensures
            result@ == grants_json(self.device_id@, self.capabilities@),
    {
        let mut out: Vec<u8> = Vec::new();
        put_text(&mut out, "{\n  \"device_id\": ", self.device_id.as_str());
        append(&mut out, ",\n  \"capabilities\": [".as_bytes());
        let ghost head = out@;
        let ghost all = self.capabilities@;
        let mut i: usize = 0;
        assert(head == utf8("{\n  \"device_id\": "@) + json_text(self.device_id@) + utf8(
            ",\n  \"capabilities\": ["@,
        ));
        assert(all.take(0) =~= Seq::empty());
        assert(head + capability_lines(all.take(0)) =~= head);
        while i < self.capabilities.len()
            invariant
                i <= all.len(),
                all == self.capabilities@,
                out@ == head + capability_lines(all.take(i as int)),
            decreases all.len() - i,
        {
            let capability: &str = self.capabilities.get(i);
            proof {
                let longer = all.take(i + 1);
                assert(longer.drop_last() =~= all.take(i as int));
                assert(longer.last() == capability@);
            }
            let ghost before = out@;
            if i == 0 {
                put_text(&mut out, "\n    ", capability);
                assert(out@ =~= head + capability_lines(all.take(1)));
            } else {
                put_text(&mut out, ",\n    ", capability);
                assert(out@ =~= head + capability_lines(all.take(i + 1)));
            }
            i = i + 1;
        }
        assert(all.take(i as int) =~= all);
        if i == 0 {
            append(&mut out, "]\n}".as_bytes());
        } else {
            append(&mut out, "\n  ]\n}".as_bytes());
        }
        out
    }
}

/// What was found under a name.
pub enum GrantContent {
    NotRegular,
    Malformed,
    Record(CapabilityRecord),
}

/// One name in the directory, and what was found under it.
pub struct GrantEntry {
    pub name: Vec<u8>,
    pub content: GrantContent,
}

/// The outcome of reading what was found: the DeviceID and its grants.
pub open spec fn grant_view(content: GrantContent) -> Result<
    (Seq<char>, Seq<Seq<char>>),
    SyncError,
> {
    match content {
        GrantContent::NotRegular => Err(SyncError::CapabilityNotRegular),
        GrantContent::Malformed => Err(SyncError::CapabilityMalformed),
        GrantContent::Record(record) => Ok((record.device_id@, record.capabilities@)),
    }
}

/// What is kept under each name.
pub open spec fn grants_view(entries: Seq<GrantEntry>) -> Seq<
    (Seq<u8>, Result<(Seq<char>, Seq<Seq<char>>), SyncError>),
> {
    entries.map_values(|entry: GrantEntry| (entry.name@, grant_view(entry.content)))
}

/// What is kept under a name: the first entry of that name.
pub open spec fn grant_lookup(
    entries: Seq<(Seq<u8>, Result<(Seq<char>, Seq<Seq<char>>), SyncError>)>,
    name: Seq<u8>,
) -> Option<Result<(Seq<char>, Seq<Seq<char>>), SyncError>>
    decreases entries.len(),
{
    if entries.len() == 0 {
        None
    } else if entries[0].0 == name {
        Some(entries[0].1)
    } else {
        grant_lookup(entries.drop_first(), name)
    }
}

/// A file to write in the directory of the grants: its name and its contents.
pub struct GrantWrite {
    pub name: Vec<u8>,
    pub bytes: Vec<u8>,
}

/// The names and contents of files to write.
pub open spec fn writes_view(writes: Seq<GrantWrite>) -> Seq<(Seq<u8>, Seq<u8>)> {
    writes.map_values(|write: GrantWrite| (write.name@, write.bytes@))
}

/// The grants that a store holds, as its directory keeps them, and the files
/// that are still to be written there.
pub struct GrantsView {
    pub entries: Seq<(Seq<u8>, Result<(Seq<char>, Seq<Seq<char>>), SyncError>)>,
    pub journal: Seq<(Seq<u8>, Seq<u8>)>,
}

impl GrantsView {
    /// The capabilities of a device.
    pub open spec fn loaded(self, device_id: Seq<char>) -> Result<
        Option<Seq<Seq<char>>>,
        SyncError,
    > {
        if !is_grant_id(device_id) {
            Err(SyncError::InvalidDeviceId)
        } else {
            match grant_lookup(self.entries, grant_name(device_id)) {
                None => Ok(None),
                Some(Err(error)) => Err(error),
                Some(Ok((id, capabilities))) => if id != device_id {
                    Err(SyncError::CapabilityMismatch)
                } else {
                    Ok(Some(capabilities))
                },
            }
        }
    }

    /// Why a capability is not granted to a peer.
    pub open spec fn grant_error(
        self,
        pairing: Result<bool, SyncError>,
        peer: Seq<char>,
        capability: Seq<char>,
    ) -> Option<SyncError> {
        match pairing {
            Err(error) => Some(error),
            Ok(active) => if !active {
                Some(SyncError::CapabilityWithoutPairing)
            } else if !is_capability(capability) {
                Some(SyncError::InvalidCapability)
            } else {
                match self.loaded(peer) {
                    Err(error) => Some(error),
                    Ok(_) => None,
                }
            },
        }
    }

    /// The capabilities of a peer before a grant.
    pub open spec fn before_grant(self, peer: Seq<char>) -> Seq<Seq<char>> {
        match self.loaded(peer) {
            Ok(Some(capabilities)) => capabilities,
            _ => Seq::empty(),
        }
    }

    /// Whether granting a capability may give `result` and leave `after`, once
    /// the pairing layer has given its answer. The grant adds to what the peer
    /// has, touches nobody else, and has the peer's file written anew.
    pub open spec fn granting(
        self,
        pairing: Result<bool, SyncError>,
        peer: Seq<char>,
        capability: Seq<char>,
        result: Result<CapabilitySet, SyncError>,
        after: GrantsView,
    ) -> bool {
        match self.grant_error(pairing, peer, capability) {
            Some(error) => result == Err::<CapabilitySet, SyncError>(error) && after == self,
            None => {
                &&& result matches Ok(set)
                &&& ascending(set@)
                &&& forall|text: Seq<char>|
                    set@.contains(text) <==> self.before_grant(peer).contains(text) || text
                        == capability
                &&& after.loaded(peer) == Ok::<Option<Seq<Seq<char>>>, SyncError>(Some(set@))
                &&& forall|other: Seq<char>|
                    other != peer ==> #[trigger] after.loaded(other) == self.loaded(other)
                &&& after.journal == self.journal.push(
                    (grant_name(peer), grants_json(peer, set@)),
                )
            },
        }
    }
}

/// Persistent capability grants, as found in their directory.
pub struct CapabilityStore {
    entries: Vec<GrantEntry>,
    journal: Vec<GrantWrite>,
}

impl View for CapabilityStore {
    type V = GrantsView;

    closed spec fn view(&self) -> GrantsView {
        GrantsView { entries: grants_view(self.entries@), journal: writes_view(self.journal@) }
    }
}

/// The outcome of an operation that may find no capabilities.
pub open spec fn found_set(result: Result<Option<CapabilitySet>, SyncError>) -> Result<
    Option<Seq<Seq<char>>>,
    SyncError,
> {
    match result {
        Ok(Some(set)) => Ok(Some(set@)),
        Ok(None) => Ok(None),
        Err(error) => Err(error),
    }
}

/// Refuses a text that does not have the form of a capability.
pub fn validate_capability(capability: &str) -> (result: Result<(), SyncError>)
    ensures
        result == (if is_capability(capability@) {
            Ok::<(), SyncError>(())
        } else {
            Err(SyncError::InvalidCapability)
        }),
{
    let bytes = capability.as_bytes();
    if bytes.len() == 0 || bytes.len() > 64 {
        return Err(SyncError::InvalidCapability);
    }
    let mut i: usize = 0;
    while i < bytes.len()
        invariant
            i <= bytes@.len(),
            bytes@ == utf8(capability@),
            forall|j: int|
                0 <= j < i ==> (is_alphanumeric(#[trigger] bytes@[j]) || bytes@[j] == 0x2e
                    || bytes@[j] == 0x2d || bytes@[j] == 0x5f),
        decreases bytes@.len() - i,
    {
        let b: u8 = bytes[i];
        if !((0x30 <= b && b <= 0x39) || (0x41 <= b && b <= 0x5a) || (0x61 <= b && b <= 0x7a) || b
            == 0x2e || b == 0x2d || b == 0x5f) {
            assert(!is_capability(capability@));
            return Err(SyncError::InvalidCapability);
        }
        i = i + 1;
    }
    Ok(())
}

impl CapabilityStore {
    /// Opens a store on what was found in its directory.
    pub fn open(entries: Vec<GrantEntry>) -> (result: Self)
        ensures
            result@ == (GrantsView { entries: grants_view(entries@), journal: Seq::empty() }),
    {
        let store = CapabilityStore { entries, journal: Vec::new() };
        assert(store@.journal =~= Seq::empty());
        store
    }

    /// Hands out the files to write, in order, and starts a new journal.
    pub fn take_writes(&mut self) -> (result: Vec<GrantWrite>)
        ensures
            writes_view(result@) == old(self)@.journal,
            final(self)@ == (GrantsView { journal: Seq::empty(), ..old(self)@ }),
    {
        let mut writes: Vec<GrantWrite> = Vec::new();
        std::mem::swap(&mut writes, &mut self.journal);
        assert(self@.journal =~= Seq::empty());
        writes
    }

    /// The name of the file that keeps the grants of a device.
    pub fn path_for(device_id: &str) -> (result: Result<Vec<u8>, SyncError>)
        ensures
            outcome(result) == (if is_grant_id(device_id@) {
                Ok::<Seq<u8>, SyncError>(grant_name(device_id@))
            } else {
                Err(SyncError::InvalidDeviceId)
            }),
    {
        let bytes = device_id.as_bytes();
        if bytes.len() != 32 {
            return Err(SyncError::InvalidDeviceId);
        }
        let mut i: usize = 0;
        while i < 32
            invariant
                i <= 32,
                bytes@.len() == 32,
                bytes@ == utf8(device_id@),
                forall|j: int| 0 <= j < i ==> is_hex(#[trigger] bytes@[j]),
            decreases 32 - i,
        {
            let b: u8 = bytes[i];
            if !((0x30 <= b && b <= 0x39) || (0x61 <= b && b <= 0x66) || (0x41 <= b && b <= 0x46)) {
                assert(!is_grant_id(device_id@));
                return Err(SyncError::InvalidDeviceId);
            }
            i = i + 1;
        }
        let mut name: Vec<u8> = Vec::new();
        append(&mut name, bytes);
        append(&mut name, ".json".as_bytes());
        assert(name@ =~= grant_name(device_id@));
        Ok(name)
    }

    /// The index of the first entry of a name, or the number of entries.
    fn position(&self, name: &[u8]) -> (result: usize)
        ensures
            result <= self.entries@.len(),
            forall|i: int| 0 <= i < result ==> (#[trigger] self@.entries[i]).0 != name@,
            result == self.entries@.len() ==> grant_lookup(self@.entries, name@) is None,
            result < self.entries@.len() ==> {
                &&& self.entries@[result as int].name@ == name@
                &&& grant_lookup(self@.entries, name@) == Some(
                    grant_view(self.entries@[result as int].content),
                )
            },
    {
        let ghost all = self@.entries;
        let mut i: usize = 0;
        assert(all.skip(0) =~= all);
        while i < self.entries.len()
            invariant
                i <= self.entries@.len(),
                all == grants_view(self.entries@),
                forall|j: int| 0 <= j < i ==> (#[trigger] all[j]).0 != name@,
                grant_lookup(all, name@) == grant_lookup(all.skip(i as int), name@),
            decreases self.entries@.len() - i,
        {
            proof {
                let entry = self.entries@[i as int];
                assert(all.skip(i as int)[0] == (entry.name@, grant_view(entry.content)));
                assert(all.skip(i as int).drop_first() =~= all.skip(i + 1));
            }
            if bytes_eq(self.entries[i].name.as_slice(), name) {
                return i;
            }
            i = i + 1;
        }
        i
    }

    /// The capabilities of a device.
    pub fn load(&self, device_id: &str) -> (result: Result<Option<CapabilitySet>, SyncError>)
        ensures
            found_set(result) == self@.loaded(device_id@),
    {
        let name: Vec<u8> = Self::path_for(device_id)?;
        let at: usize = self.position(name.as_slice());
        if at == self.entries.len() {
            return Ok(None);
        }
        match &self.entries[at].content {
            GrantContent::NotRegular => Err(SyncError::CapabilityNotRegular),
            GrantContent::Malformed => Err(SyncError::CapabilityMalformed),
            GrantContent::Record(record) => {
                if !str_eq(record.device_id.as_str(), device_id) {
                    return Err(SyncError::CapabilityMismatch);
                }
                Ok(Some(record.capabilities.clone()))
            },
        }
    }

    /// Grants a capability only to an active bilateral relationship, and
    /// returns all that the peer has then. Pairing itself never does this. The
    /// journal has the new record of the peer written where the old one was.
    pub fn grant_capability<L: ActivePairingLookup>(
        &mut self,
        pairings: &L,
        local_device_id: &str,
        peer_device_id: &str,
        capability: &str,
    ) -> (result: Result<CapabilitySet, SyncError>)
        ensures
            exists|pairing: Result<bool, SyncError>|
                call_ensures(
                    L::has_active_pairing,
                    (pairings, local_device_id, peer_device_id),
                    pairing,
                ) && #[trigger] old(self)@.granting(
                    pairing,
                    peer_device_id@,
                    capability@,
                    result,
                    final(self)@,
                ),
    {
        let pairing = pairings.has_active_pairing(local_device_id, peer_device_id);
        self.grant_decided(pairing, peer_device_id, capability)
    }

    /// Grants a capability once the pairing layer has said whether there is an
    /// active bilateral relationship.
    pub fn grant_decided(
        &mut self,
        pairing: Result<bool, SyncError>,
        peer_device_id: &str,
        capability: &str,
    ) -> (result: Result<CapabilitySet, SyncError>)
        ensures
            old(self)@.granting(pairing, peer_device_id@, capability@, result, final(self)@),
    {
        let active: bool = pairing?;
        if !active {
            return Err(SyncError::CapabilityWithoutPairing);
        }
        validate_capability(capability)?;
        let loaded = self.load(peer_device_id)?;
        let name: Vec<u8> = Self::path_for(peer_device_id)?;
        let mut capabilities = match loaded {
            Some(set) => set,
            None => CapabilitySet::new(),
        };
        assert(capabilities@ == old(self)@.before_grant(peer_device_id@));
        capabilities.insert(capability.to_string());
        let record = CapabilityRecord {
            device_id: peer_device_id.to_string(),
            capabilities: capabilities.clone(),
        };
        let write = GrantWrite { name: name.clone(), bytes: record.to_bytes() };
        let at: usize = self.position(name.as_slice());
        let ghost before = self@.entries;
        let entry = GrantEntry { name, content: GrantContent::Record(record) };
        let ghost added = (entry.name@, grant_view(entry.content));
        if at == self.entries.len() {
            self.entries.push(entry);
            assert(self@.entries =~= before.push(added));
        } else {
            self.entries.set(at, entry);
            assert(self@.entries =~= before.update(at as int, added));
        }
        self.journal.push(write);
        assert(self@.journal =~= old(self)@.journal.push((write.name@, write.bytes@)));
        proof {
            let after = self@;
            assert forall|other: Seq<char>| other != peer_device_id@ implies after.loaded(other)
                == old(self)@.loaded(other) by {
                if is_grant_id(other) {
                    grant_names_differ(other, peer_device_id@);
                    other_names_unchanged(
                        before,
                        after.entries,
                        at as int,
                        added,
                        grant_name(other),
                    );
                }
            }
            own_name_found(before, after.entries, at as int, added);
        }
        Ok(capabilities)
    }
}

/// Different devices keep their grants under different names.
proof fn grant_names_differ(a: Seq<char>, b: Seq<char>)
    requires
        a != b,
    ensures
        grant_name(a) != grant_name(b),
{
    if grant_name(a) == grant_name(b) {
        let tail = utf8(".json"@);
        crate::codec::split_tail(utf8(a), tail, utf8(b), tail);
        utf8_injective(a, b);
    }
}

/// Entries of another name are not affected by one that is put at the first
/// place of its own name, or at the end.
proof fn other_names_unchanged(
    before: Seq<(Seq<u8>, Result<(Seq<char>, Seq<Seq<char>>), SyncError>)>,
    after: Seq<(Seq<u8>, Result<(Seq<char>, Seq<Seq<char>>), SyncError>)>,
    at: int,
    entry: (Seq<u8>, Result<(Seq<char>, Seq<Seq<char>>), SyncError>),
    other: Seq<u8>,
)
    requires
        0 <= at <= before.len(),
        at == before.len() ==> after == before.push(entry),
        at < before.len() ==> after == before.update(at, entry) && before[at].0 == entry.0,
        other != entry.0,
    ensures
        grant_lookup(after, other) == grant_lookup(before, other),
    decreases before.len(),
{
    if before.len() == 0 {
        assert(after.drop_first() =~= Seq::empty());
        assert(grant_lookup(after.drop_first(), other) is None);
    } else {
        let rest = before.drop_first();
        if at == 0 {
            assert(after.drop_first() =~= rest);
        } else {
            assert(after[0] == before[0]);
            if at == before.len() {
                assert(after.drop_first() =~= rest.push(entry));
            } else {
                assert(after.drop_first() =~= rest.update(at - 1, entry));
            }
            other_names_unchanged(rest, after.drop_first(), at - 1, entry, other);
        }
    }
}

/// An entry that is put at the first place of its name, or at the end where
/// there is none, is what is found under its name.
proof fn own_name_found(
    before: Seq<(Seq<u8>, Result<(Seq<char>, Seq<Seq<char>>), SyncError>)>,
    after: Seq<(Seq<u8>, Result<(Seq<char>, Seq<Seq<char>>), SyncError>)>,
    at: int,
    entry: (Seq<u8>, Result<(Seq<char>, Seq<Seq<char>>), SyncError>),
)
    requires
        0 <= at <= before.len(),
        at == before.len() ==> after == before.push(entry),
        at < before.len() ==> after == before.update(at, entry),
        forall|i: int| 0 <= i < at ==> (#[trigger] before[i]).0 != entry.0,
    ensures
        grant_lookup(after, entry.0) == Some(entry.1),
    decreases at,
{
    if at > 0 {
        let rest = before.drop_first();
        assert(after[0] == before[0]);
        assert(before[0].0 != entry.0);
        if at == before.len() {
            assert(after.drop_first() =~= rest.push(entry));
        } else {
            assert(after.drop_first() =~= rest.update(at - 1, entry));
        }
        assert forall|i: int| 0 <= i < at - 1 implies (#[trigger] rest[i]).0 != entry.0 by {
            assert(rest[i] == before[i + 1]);
        }
        own_name_found(rest, after.drop_first(), at - 1, entry);
    }
}

/// Nothing is granted to a peer unless the pairing layer answers that there is
/// an active bilateral relationship with it.
pub proof fn only_paired_peers_are_granted(
    v: GrantsView,
    pairing: Result<bool, SyncError>,
    peer: Seq<char>,
    capability: Seq<char>,
    result: Result<CapabilitySet, SyncError>,
    after: GrantsView,
)
    requires
        v.granting(pairing, peer, capability, result, after),
        pairing != Ok::<bool, SyncError>(true),
    ensures
        result is Err,
        after == v,
{
}

/// A grant takes nothing away: what a device had, it still has.
pub proof fn grants_only_add(
    v: GrantsView,
    pairing: Result<bool, SyncError>,
    peer: Seq<char>,
    capability: Seq<char>,
    result: Result<CapabilitySet, SyncError>,
    after: GrantsView,
    device: Seq<char>,
    text: Seq<char>,
)
    requires
        v.granting(pairing, peer, capability, result, after),
        v.loaded(device) matches Ok(Some(set)) && set.contains(text),
    ensures
        after.loaded(device) matches Ok(Some(set)) && set.contains(text),
{
    if device == peer && v.grant_error(pairing, peer, capability) is None {
        assert(v.before_grant(peer).contains(text));
    }
}

} // verus!
