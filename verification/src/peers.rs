//! Peers known from discovery, and how often a pairing with them is tried.
//!
//! Times are nanoseconds of a monotonic clock.
use crate::discovery::{DiscoveredView, VerifiedDiscovery};
use crate::text::str_eq;
use vstd::prelude::*;

verus! {

/// How long a peer is remembered after it was last discovered: 90 seconds.
pub const PEER_MAX_AGE: u64 = 90_000_000_000;

/// How many peers are remembered at most.
pub const PEER_CACHE_LIMIT: usize = 128;

/// How long a peer is left alone after a failed attempt: 30 seconds.
pub const PAIR_COOLDOWN: u64 = 30_000_000_000;

// ---------------------------------------------------------------------------
// The peer cache.
// ---------------------------------------------------------------------------
/// A discovered peer, the address it announced itself from, and when.
pub struct PeerView {
    pub discovery: DiscoveredView,
    pub ip: Seq<u8>,
    pub seen: u64,
}

/// A discovered peer, the address it announced itself from, and when.
pub struct CachedPeer {
    pub discovery: VerifiedDiscovery,
    pub ip: Vec<u8>,
    pub seen: u64,
}

impl View for CachedPeer {
    type V = PeerView;

    open spec fn view(&self) -> PeerView {
        PeerView { discovery: self.discovery@, ip: self.ip@, seen: self.seen }
    }
}

impl Clone for CachedPeer {
    fn clone(&self) -> (result: Self)
        ensures
            result@ == self@,
    {
        let mut ip: Vec<u8> = Vec::new();
        crate::codec::append(&mut ip, self.ip.as_slice());
        assert(ip@ =~= self.ip@);
        CachedPeer { discovery: self.discovery.clone(), ip, seen: self.seen }
    }
}

/// Whether a peer was seen recently enough.
pub open spec fn peer_fresh(peer: PeerView, now: u64) -> bool {
    now < peer.seen || now - peer.seen <= PEER_MAX_AGE
}

/// The peers that were seen recently enough.
pub open spec fn fresh_peers(peers: Seq<PeerView>, now: u64) -> Seq<PeerView>
    decreases peers.len(),
{
    if peers.len() == 0 {
        Seq::empty()
    } else {
        let rest = fresh_peers(peers.drop_last(), now);
        if peer_fresh(peers.last(), now) {
            rest.push(peers.last())
        } else {
            rest
        }
    }
}

/// The first peer of a DeviceID.
pub open spec fn peer_with_id(peers: Seq<PeerView>, id: Seq<char>) -> Option<PeerView>
    decreases peers.len(),
{
    if peers.len() == 0 {
        None
    } else {
        match peer_with_id(peers.drop_last(), id) {
            Some(peer) => Some(peer),
            None => if peers.last().discovery.device_id == id {
                Some(peers.last())
            } else {
                None
            },
        }
    }
}

/// The peers without those of a DeviceID.
pub open spec fn peers_without(peers: Seq<PeerView>, id: Seq<char>) -> Seq<PeerView>
    decreases peers.len(),
{
    if peers.len() == 0 {
        Seq::empty()
    } else {
        let rest = peers_without(peers.drop_last(), id);
        if peers.last().discovery.device_id == id {
            rest
        } else {
            rest.push(peers.last())
        }
    }
}

/// The index of a peer that was seen longest ago, the first of several.
pub open spec fn oldest_peer(peers: Seq<PeerView>) -> int
    decreases peers.len(),
{
    if peers.len() <= 1 {
        0
    } else {
        let before = oldest_peer(peers.drop_last());
        if peers.last().seen < peers[before].seen {
            peers.len() - 1
        } else {
            before
        }
    }
}

/// The peers after one was discovered: those that are no longer fresh are gone,
/// an earlier entry of the same device is replaced, and where there would be
/// too many the one seen longest ago makes room.
pub open spec fn peers_after_put(peers: Seq<PeerView>, peer: PeerView) -> Seq<PeerView> {
    let fresh = fresh_peers(peers, peer.seen);
    let id = peer.discovery.device_id;
    if fresh.len() >= PEER_CACHE_LIMIT && peer_with_id(fresh, id) is None {
        fresh.remove(oldest_peer(fresh)).push(peer)
    } else {
        peers_without(fresh, id).push(peer)
    }
}

/// Whether no device is remembered twice.
pub open spec fn peers_distinct(peers: Seq<PeerView>) -> bool {
    forall|i: int, j: int|
        0 <= i < j < peers.len() ==> (#[trigger] peers[i]).discovery.device_id != (
        #[trigger] peers[j]).discovery.device_id
}

/// The peers of a cache.
pub open spec fn peers_view(peers: Seq<CachedPeer>) -> Seq<PeerView> {
    peers.map_values(|peer: CachedPeer| peer@)
}

/// Peers by DeviceID.
pub struct PeerCache {
    entries: Vec<CachedPeer>,
}

impl View for PeerCache {
    type V = Seq<PeerView>;

    closed spec fn view(&self) -> Seq<PeerView> {
        peers_view(self.entries@)
    }
}

/// Whether a peer was seen recently enough.
fn is_fresh(seen: u64, now: u64) -> (result: bool)
    ensures
        result == (now < seen || now - seen <= PEER_MAX_AGE),
{
    now < seen || now - seen <= PEER_MAX_AGE
}

impl PeerCache {
    /// No device is remembered twice, and no more than the limit.
    #[verifier::type_invariant]
    spec fn bounded(&self) -> bool {
        &&& self.entries@.len() <= PEER_CACHE_LIMIT
        &&& peers_distinct(peers_view(self.entries@))
    }

    pub fn new() -> (result: Self)
        ensures
            result@ == Seq::<PeerView>::empty(),
    {
        let cache = PeerCache { entries: Vec::new() };
        assert(cache@ =~= Seq::empty());
        cache
    }

    /// The peers that were seen recently enough.
    fn retained(&self, now: u64) -> (result: Vec<CachedPeer>)
        ensures
            peers_view(result@) == fresh_peers(self@, now),
    {
        let ghost all = self@;
        let mut kept: Vec<CachedPeer> = Vec::new();
        let mut i: usize = 0;
        assert(peers_view(kept@) =~= fresh_peers(all.take(0), now));
        while i < self.entries.len()
            invariant
                i <= self.entries@.len(),
                all == peers_view(self.entries@),
                peers_view(kept@) == fresh_peers(all.take(i as int), now),
            decreases self.entries@.len() - i,
        {
            let peer = &self.entries[i];
            proof {
                assert(all.take(i + 1).drop_last() =~= all.take(i as int));
                assert(all.take(i + 1).last() == peer@);
            }
            if is_fresh(peer.seen, now) {
                let ghost before = kept@;
                kept.push(peer.clone());
                assert(peers_view(kept@) =~= peers_view(before).push(peer@));
            }
            i = i + 1;
        }
        assert(all.take(all.len() as int) =~= all);
        kept
    }

    /// Remembers a peer that was discovered now.
    pub fn put(&mut self, discovery: VerifiedDiscovery, ip: Vec<u8>, now: u64)
        ensures
            final(self)@ == peers_after_put(
                old(self)@,
                PeerView { discovery: discovery@, ip: ip@, seen: now },
            ),
            final(self)@.len() <= PEER_CACHE_LIMIT,
            peers_distinct(final(self)@),
    {
        proof {
            use_type_invariant(&*self);
            fresh_keeps_distinct(self@, now);
        }
        let peer = CachedPeer { discovery, ip, seen: now };
        let mut entries: Vec<CachedPeer> = self.retained(now);
        let ghost fresh = peers_view(entries@);
        let ghost id = peer@.discovery.device_id;
        if entries.len() >= PEER_CACHE_LIMIT && find_peer(
            &entries,
            peer.discovery.device_id.as_str(),
        ).is_none() {
            proof {
                assert(fresh.len() == PEER_CACHE_LIMIT);
            }
            let oldest: usize = find_oldest(&entries);
            let ghost before = entries@;
            entries.remove(oldest);
            proof {
                assert(peers_view(entries@) =~= fresh.remove(oldest as int));
                absent_id(fresh, id);
                removal_keeps_distinct(fresh, oldest as int);
                assert forall|k: int| 0 <= k < fresh.remove(oldest as int).len() implies (
                #[trigger] fresh.remove(oldest as int)[k]).discovery.device_id != id by {
                    let at = if k < oldest {
                        k
                    } else {
                        k + 1
                    };
                    assert(fresh.remove(oldest as int)[k] == fresh[at]);
                }
            }
        } else {
            let ghost before = entries@;
            entries = without_id(&entries, peer.discovery.device_id.as_str());
            proof {
                without_keeps_distinct(fresh, id);
            }
        }
        let ghost rest = peers_view(entries@);
        entries.push(peer);
        assert(peers_view(entries@) =~= rest.push(peer@));
        self.entries = entries;
    }

    /// A remembered peer, if it was seen recently enough.
    pub fn by_id(&mut self, id: &str, now: u64) -> (result: Option<CachedPeer>)
        ensures
            final(self)@ == fresh_peers(old(self)@, now),
            (match result {
                Some(peer) => Some(peer@),
                None => None,
            }) == peer_with_id(fresh_peers(old(self)@, now), id@),
    {
        proof {
            use_type_invariant(&*self);
            fresh_keeps_distinct(self@, now);
        }
        let entries: Vec<CachedPeer> = self.retained(now);
        let result = find_peer(&entries, id);
        self.entries = entries;
        result
    }
}

/// The first peer of a DeviceID.
fn find_peer(entries: &Vec<CachedPeer>, id: &str) -> (result: Option<CachedPeer>)
    ensures
        (match result {
            Some(peer) => Some(peer@),
            None => None,
        }) == peer_with_id(peers_view(entries@), id@),
{
    let ghost all = peers_view(entries@);
    let mut i: usize = 0;
    while i < entries.len()
        invariant
            i <= entries@.len(),
            all == peers_view(entries@),
            peer_with_id(all.take(i as int), id@) is None,
        decreases entries@.len() - i,
    {
        proof {
            assert(all.take(i + 1).drop_last() =~= all.take(i as int));
            assert(all.take(i + 1).last() == entries@[i as int]@);
        }
        if str_eq(entries[i].discovery.device_id.as_str(), id) {
            proof {
                first_match_is_found(all, i + 1, id@);
            }
            return Some(entries[i].clone());
        }
        i = i + 1;
    }
    assert(all.take(all.len() as int) =~= all);
    None
}

/// A peer found among the first entries is the one found among all.
proof fn first_match_is_found(peers: Seq<PeerView>, n: int, id: Seq<char>)
    requires
        0 <= n <= peers.len(),
        peer_with_id(peers.take(n), id) is Some,
    ensures
        peer_with_id(peers, id) == peer_with_id(peers.take(n), id),
    decreases peers.len() - n,
{
    if n == peers.len() {
        assert(peers.take(n) =~= peers);
    } else {
        assert(peers.take(n + 1).drop_last() =~= peers.take(n));
        first_match_is_found(peers, n + 1, id);
    }
}

/// The index of a peer that was seen longest ago.
fn find_oldest(entries: &Vec<CachedPeer>) -> (result: usize)
    requires
        entries@.len() > 0,
    ensures
        result < entries@.len(),
        result == oldest_peer(peers_view(entries@)),
{
    let ghost all = peers_view(entries@);
    let mut best: usize = 0;
    let mut i: usize = 1;
    while i < entries.len()
        invariant
            1 <= i <= entries@.len(),
            best < i,
            all == peers_view(entries@),
            best == oldest_peer(all.take(i as int)),
        decreases entries@.len() - i,
    {
        proof {
            assert(all.take(i + 1).drop_last() =~= all.take(i as int));
            assert(all.take(i + 1).last() == entries@[i as int]@);
            assert(all.take(i + 1)[best as int] == entries@[best as int]@);
        }
        if entries[i].seen < entries[best].seen {
            best = i;
        }
        i = i + 1;
    }
    assert(all.take(all.len() as int) =~= all);
    best
}

/// The peers without those of a DeviceID.
fn without_id(entries: &Vec<CachedPeer>, id: &str) -> (result: Vec<CachedPeer>)
    ensures
        peers_view(result@) == peers_without(peers_view(entries@), id@),
{
    let ghost all = peers_view(entries@);
    let mut kept: Vec<CachedPeer> = Vec::new();
    let mut i: usize = 0;
    assert(peers_view(kept@) =~= peers_without(all.take(0), id@));
    while i < entries.len()
        invariant
            i <= entries@.len(),
            all == peers_view(entries@),
            peers_view(kept@) == peers_without(all.take(i as int), id@),
        decreases entries@.len() - i,
    {
        let peer = &entries[i];
        proof {
            assert(all.take(i + 1).drop_last() =~= all.take(i as int));
            assert(all.take(i + 1).last() == peer@);
        }
        if !str_eq(peer.discovery.device_id.as_str(), id) {
            let ghost before = kept@;
            kept.push(peer.clone());
            assert(peers_view(kept@) =~= peers_view(before).push(peer@));
        }
        i = i + 1;
    }
    assert(all.take(all.len() as int) =~= all);
    kept
}

/// Forgetting stale peers keeps only peers that were there.
pub(crate) proof fn fresh_keeps_distinct(peers: Seq<PeerView>, now: u64)
    requires
        peers_distinct(peers),
    ensures
        peers_distinct(fresh_peers(peers, now)),
        fresh_peers(peers, now).len() <= peers.len(),
        forall|k: int|
            0 <= k < fresh_peers(peers, now).len() ==> peers.contains(
                #[trigger] fresh_peers(peers, now)[k],
            ),
    decreases peers.len(),
{
    if peers.len() > 0 {
        let rest = peers.drop_last();
        distinct_prefix(peers);
        fresh_keeps_distinct(rest, now);
        let kept = fresh_peers(rest, now);
        let all = fresh_peers(peers, now);
        assert forall|k: int| 0 <= k < all.len() implies peers.contains(#[trigger] all[k]) by {
            if k < kept.len() {
                assert(rest.contains(kept[k]));
                let m = choose|m: int| 0 <= m < rest.len() && rest[m] == kept[k];
                assert(peers[m] == all[k]);
            } else {
                assert(peers[peers.len() - 1] == all[k]);
            }
        }
        pushed_distinct(peers, kept);
    }
}

/// All but the last of distinct peers are distinct.
proof fn distinct_prefix(peers: Seq<PeerView>)
    requires
        peers_distinct(peers),
        peers.len() > 0,
    ensures
        peers_distinct(peers.drop_last()),
{
    let rest = peers.drop_last();
    assert forall|i: int, j: int| 0 <= i < j < rest.len() implies (
    #[trigger] rest[i]).discovery.device_id != (#[trigger] rest[j]).discovery.device_id by {
        assert(rest[i] == peers[i] && rest[j] == peers[j]);
    }
}

/// The last of distinct peers differs from any chosen among those before it.
proof fn pushed_distinct(peers: Seq<PeerView>, kept: Seq<PeerView>)
    requires
        peers_distinct(peers),
        peers.len() > 0,
        peers_distinct(kept),
        forall|k: int| 0 <= k < kept.len() ==> peers.drop_last().contains(#[trigger] kept[k]),
    ensures
        peers_distinct(kept.push(peers.last())),
{
    let all = kept.push(peers.last());
    assert forall|i: int, j: int| 0 <= i < j < all.len() implies (
    #[trigger] all[i]).discovery.device_id != (#[trigger] all[j]).discovery.device_id by {
        if j == kept.len() {
            assert(peers.drop_last().contains(kept[i]));
            let m = choose|m: int|
                0 <= m < peers.drop_last().len() && peers.drop_last()[m] == kept[i];
            assert(peers[m] == all[i] && peers[peers.len() - 1] == all[j]);
        } else {
            assert(all[i] == kept[i] && all[j] == kept[j]);
        }
    }
}

/// Removing one DeviceID keeps only peers that were there, of other ids.
proof fn without_keeps_distinct(peers: Seq<PeerView>, id: Seq<char>)
    requires
        peers_distinct(peers),
    ensures
        peers_distinct(peers_without(peers, id)),
        peers_without(peers, id).len() <= peers.len(),
        peer_with_id(peers, id) is Some ==> peers_without(peers, id).len() < peers.len(),
        forall|k: int|
            0 <= k < peers_without(peers, id).len() ==> peers.contains(
                #[trigger] peers_without(peers, id)[k],
            ) && peers_without(peers, id)[k].discovery.device_id != id,
    decreases peers.len(),
{
    if peers.len() > 0 {
        let rest = peers.drop_last();
        distinct_prefix(peers);
        without_keeps_distinct(rest, id);
        let kept = peers_without(rest, id);
        let all = peers_without(peers, id);
        assert forall|k: int| 0 <= k < all.len() implies peers.contains(#[trigger] all[k])
            && all[k].discovery.device_id != id by {
            if k < kept.len() {
                assert(rest.contains(kept[k]));
                let m = choose|m: int| 0 <= m < rest.len() && rest[m] == kept[k];
                assert(peers[m] == all[k]);
            } else {
                assert(peers[peers.len() - 1] == all[k]);
            }
        }
        pushed_distinct(peers, kept);
    }
}

/// Where no peer of an id is found, none has that id.
proof fn absent_id(peers: Seq<PeerView>, id: Seq<char>)
    requires
        peer_with_id(peers, id) is None,
    ensures
        forall|k: int| 0 <= k < peers.len() ==> (#[trigger] peers[k]).discovery.device_id != id,
    decreases peers.len(),
{
    if peers.len() > 0 {
        absent_id(peers.drop_last(), id);
        assert forall|k: int| 0 <= k < peers.len() implies (#[trigger] peers[k]).discovery.device_id
            != id by {
            if k < peers.len() - 1 {
                assert(peers.drop_last()[k] == peers[k]);
            }
        }
    }
}

/// Removing one of distinct peers leaves distinct peers.
proof fn removal_keeps_distinct(peers: Seq<PeerView>, at: int)
    requires
        peers_distinct(peers),
        0 <= at < peers.len(),
    ensures
        peers_distinct(peers.remove(at)),
{
    let rest = peers.remove(at);
    assert forall|i: int, j: int| 0 <= i < j < rest.len() implies (
    #[trigger] rest[i]).discovery.device_id != (#[trigger] rest[j]).discovery.device_id by {
        let x = if i < at {
            i
        } else {
            i + 1
        };
        let y = if j < at {
            j
        } else {
            j + 1
        };
        assert(rest[i] == peers[x] && rest[j] == peers[y]);
    }
}

/// Among peers none of which has an id, none is found.
proof fn none_with_id(peers: Seq<PeerView>, id: Seq<char>)
    requires
        forall|k: int| 0 <= k < peers.len() ==> (#[trigger] peers[k]).discovery.device_id != id,
    ensures
        peer_with_id(peers, id) is None,
    decreases peers.len(),
{
    if peers.len() > 0 {
        let rest = peers.drop_last();
        assert forall|k: int| 0 <= k < rest.len() implies (#[trigger] rest[k]).discovery.device_id
            != id by {
            assert(rest[k] == peers[k]);
        }
        none_with_id(rest, id);
        assert(peers[peers.len() - 1].discovery.device_id != id);
    }
}

/// Forgetting stale peers adds none.
proof fn fresh_are_among(peers: Seq<PeerView>, now: u64)
    ensures
        forall|k: int|
            0 <= k < fresh_peers(peers, now).len() ==> peers.contains(
                #[trigger] fresh_peers(peers, now)[k],
            ),
    decreases peers.len(),
{
    if peers.len() > 0 {
        let rest = peers.drop_last();
        fresh_are_among(rest, now);
        let kept = fresh_peers(rest, now);
        let all = fresh_peers(peers, now);
        assert forall|k: int| 0 <= k < all.len() implies peers.contains(#[trigger] all[k]) by {
            if k < kept.len() {
                assert(rest.contains(kept[k]));
                let m = choose|m: int| 0 <= m < rest.len() && rest[m] == kept[k];
                assert(peers[m] == all[k]);
            } else {
                assert(peers[peers.len() - 1] == all[k]);
            }
        }
    }
}

/// A peer that was discovered is found by its DeviceID for as long as it is
/// fresh, exactly as it was discovered, whatever the cache held.
pub proof fn discovered_peer_is_found(peers: Seq<PeerView>, peer: PeerView, now: u64)
    requires
        peers_distinct(peers),
        peer_fresh(peer, now),
    ensures
        peer_with_id(
            fresh_peers(peers_after_put(peers, peer), now),
            peer.discovery.device_id,
        ) == Some(peer),
{
    let id = peer.discovery.device_id;
    let fresh = fresh_peers(peers, peer.seen);
    let after = peers_after_put(peers, peer);
    let rest = after.drop_last();
    fresh_keeps_distinct(peers, peer.seen);
    assert forall|k: int| 0 <= k < rest.len() implies (#[trigger] rest[k]).discovery.device_id
        != id by {
        if fresh.len() >= PEER_CACHE_LIMIT && peer_with_id(fresh, id) is None {
            absent_id(fresh, id);
            oldest_in_range(fresh);
            let oldest = oldest_peer(fresh);
            let at = if k < oldest {
                k
            } else {
                k + 1
            };
            assert(rest[k] == fresh[at]);
        } else {
            without_keeps_distinct(fresh, id);
            assert(rest[k] == peers_without(fresh, id)[k]);
        }
    }
    fresh_are_among(rest, now);
    let kept = fresh_peers(rest, now);
    assert forall|k: int| 0 <= k < kept.len() implies (#[trigger] kept[k]).discovery.device_id
        != id by {
        assert(rest.contains(kept[k]));
    }
    none_with_id(kept, id);
    assert(after.last() == peer);
    assert(fresh_peers(after, now) == kept.push(peer));
    assert(kept.push(peer).drop_last() =~= kept);
}

/// The peer seen longest ago is one of the peers.
pub(crate) proof fn oldest_in_range(peers: Seq<PeerView>)
    requires
        peers.len() > 0,
    ensures
        0 <= oldest_peer(peers) < peers.len(),
    decreases peers.len(),
{
    if peers.len() > 1 {
        oldest_in_range(peers.drop_last());
    }
}

/// A peer that is no longer fresh is not found, whoever it was.
pub proof fn stale_peer_is_not_found(peers: Seq<PeerView>, id: Seq<char>, now: u64)
    ensures
        peer_with_id(fresh_peers(peers, now), id) matches Some(peer) ==> peer_fresh(peer, now)
            && peer.discovery.device_id == id && peers.contains(peer),
    decreases peers.len(),
{
    if peers.len() > 0 {
        let rest = peers.drop_last();
        stale_peer_is_not_found(rest, id, now);
        let kept = fresh_peers(rest, now);
        if peer_with_id(kept, id) is Some {
            let peer = peer_with_id(kept, id)->Some_0;
            let m = choose|m: int| 0 <= m < rest.len() && rest[m] == peer;
            assert(peers[m] == peer);
        }
        if peer_fresh(peers.last(), now) {
            assert(kept.push(peers.last()).drop_last() =~= kept);
            assert(peers[peers.len() - 1] == peers.last());
        }
    }
}

// ---------------------------------------------------------------------------
// The coordinator.
// ---------------------------------------------------------------------------
/// Whether a pairing is in progress, and which peers are left alone until when.
pub struct CoordinatorView {
    pub active: bool,
    pub cooldown: Seq<(Seq<char>, u64)>,
}

/// The peers that are still left alone.
pub open spec fn cooling(cooldown: Seq<(Seq<char>, u64)>, now: u64) -> Seq<(Seq<char>, u64)>
    decreases cooldown.len(),
{
    if cooldown.len() == 0 {
        Seq::empty()
    } else {
        let rest = cooling(cooldown.drop_last(), now);
        if cooldown.last().1 > now {
            rest.push(cooldown.last())
        } else {
            rest
        }
    }
}

/// Whether a peer is among those left alone.
pub open spec fn left_alone(cooldown: Seq<(Seq<char>, u64)>, id: Seq<char>) -> bool {
    exists|i: int| 0 <= i < cooldown.len() && (#[trigger] cooldown[i]).0 == id
}

/// The peers left alone, without one.
pub open spec fn cooldown_without(cooldown: Seq<(Seq<char>, u64)>, id: Seq<char>) -> Seq<
    (Seq<char>, u64),
>
    decreases cooldown.len(),
{
    if cooldown.len() == 0 {
        Seq::empty()
    } else {
        let rest = cooldown_without(cooldown.drop_last(), id);
        if cooldown.last().0 == id {
            rest
        } else {
            rest.push(cooldown.last())
        }
    }
}

impl CoordinatorView {
    /// Tries to begin an attempt with a peer.
    pub open spec fn entered(self, id: Seq<char>, now: u64) -> (bool, CoordinatorView) {
        let kept = cooling(self.cooldown, now);
        if self.active || left_alone(kept, id) {
            (false, CoordinatorView { cooldown: kept, ..self })
        } else {
            (true, CoordinatorView { active: true, cooldown: kept })
        }
    }

    /// Ends the attempt with a peer.
    pub open spec fn left(self, id: Seq<char>, retry_later: bool, now: u64) -> CoordinatorView {
        CoordinatorView {
            active: false,
            cooldown: if retry_later {
                cooldown_without(self.cooldown, id).push((id, (now + PAIR_COOLDOWN) as u64))
            } else {
                self.cooldown
            },
        }
    }
}

/// When a peer may be tried again.
pub struct Cooldown {
    pub device_id: String,
    pub until: u64,
}

/// The peers left alone.
pub open spec fn cooldown_view(cooldown: Seq<Cooldown>) -> Seq<(Seq<char>, u64)> {
    cooldown.map_values(|entry: Cooldown| (entry.device_id@, entry.until))
}

/// Single-flight pairing plus a short denial/error cooldown. Discovery can
/// arrive repeatedly, but it can never create a thread or prompt storm.
pub struct PairCoordinator {
    active: bool,
    cooldown: Vec<Cooldown>,
}

impl View for PairCoordinator {
    type V = CoordinatorView;

    closed spec fn view(&self) -> CoordinatorView {
        CoordinatorView { active: self.active, cooldown: cooldown_view(self.cooldown@) }
    }
}

impl PairCoordinator {
    pub fn new() -> (result: Self)
        ensures
            result@ == (CoordinatorView { active: false, cooldown: Seq::empty() }),
    {
        let coordinator = PairCoordinator { active: false, cooldown: Vec::new() };
        assert(coordinator@.cooldown =~= Seq::empty());
        coordinator
    }

    /// Begins an attempt with a peer, unless one is in progress or the peer is
    /// to be left alone.
    pub fn enter(&mut self, id: &str, now: u64) -> (result: bool)
        ensures
            (result, final(self)@) == old(self)@.entered(id@, now),
    {
        let ghost all = self@.cooldown;
        let mut kept: Vec<Cooldown> = Vec::new();
        let mut found: bool = false;
        let mut i: usize = 0;
        assert(cooldown_view(kept@) =~= cooling(all.take(0), now));
        while i < self.cooldown.len()
            invariant
                i <= self.cooldown@.len(),
                *self == *old(self),
                all == cooldown_view(self.cooldown@),
                cooldown_view(kept@) == cooling(all.take(i as int), now),
                found == left_alone(cooldown_view(kept@), id@),
            decreases self.cooldown@.len() - i,
        {
            let entry = &self.cooldown[i];
            let ghost item = (entry.device_id@, entry.until);
            proof {
                assert(all.take(i + 1).drop_last() =~= all.take(i as int));
                assert(all.take(i + 1).last() == item);
            }
            if entry.until > now {
                let ghost before = cooldown_view(kept@);
                kept.push(
                    Cooldown { device_id: entry.device_id.clone(), until: entry.until },
                );
                assert(cooldown_view(kept@) =~= before.push(item));
                let same: bool = str_eq(entry.device_id.as_str(), id);
                proof {
                    let after = before.push(item);
                    if left_alone(before, id@) {
                        let k = choose|k: int|
                            0 <= k < before.len() && (#[trigger] before[k]).0 == id@;
                        assert(after[k].0 == id@);
                    }
                    assert(after[before.len() as int] == item);
                    if left_alone(after, id@) && !same {
                        let k = choose|k: int|
                            0 <= k < after.len() && (#[trigger] after[k]).0 == id@;
                        assert(before[k].0 == id@);
                    }
                }
                found = found || same;
            }
            i = i + 1;
        }
        assert(all.take(all.len() as int) =~= all);
        self.cooldown = kept;
        if self.active || found {
            return false;
        }
        self.active = true;
        true
    }

    /// Ends the attempt with a peer; after a failure the peer is left alone for
    /// a while.
    pub fn leave(&mut self, id: &str, retry_later: bool, now: u64)
        requires
            now <= u64::MAX - PAIR_COOLDOWN,
        ensures
            final(self)@ == old(self)@.left(id@, retry_later, now),
    {
        self.active = false;
        if !retry_later {
            return;
        }
        let ghost all = old(self)@.cooldown;
        let mut kept: Vec<Cooldown> = Vec::new();
        let mut i: usize = 0;
        assert(cooldown_view(kept@) =~= cooldown_without(all.take(0), id@));
        while i < self.cooldown.len()
            invariant
                i <= self.cooldown@.len(),
                !self.active,
                all == cooldown_view(self.cooldown@),
                cooldown_view(kept@) == cooldown_without(all.take(i as int), id@),
            decreases self.cooldown@.len() - i,
        {
            let entry = &self.cooldown[i];
            let ghost item = (entry.device_id@, entry.until);
            proof {
                assert(all.take(i + 1).drop_last() =~= all.take(i as int));
                assert(all.take(i + 1).last() == item);
            }
            if !str_eq(entry.device_id.as_str(), id) {
                let ghost before = cooldown_view(kept@);
                kept.push(
                    Cooldown { device_id: entry.device_id.clone(), until: entry.until },
                );
                assert(cooldown_view(kept@) =~= before.push(item));
            }
            i = i + 1;
        }
        assert(all.take(all.len() as int) =~= all);
        let ghost before = cooldown_view(kept@);
        kept.push(Cooldown { device_id: id.to_string(), until: now + PAIR_COOLDOWN });
        assert(cooldown_view(kept@) =~= before.push((id@, (now + PAIR_COOLDOWN) as u64)));
        self.cooldown = kept;
    }
}

/// At most one attempt is in progress: none begins while another has not ended,
/// whichever peer it is with.
pub proof fn one_attempt_at_a_time(v: CoordinatorView, id: Seq<char>, now: u64)
    requires
        v.active,
    ensures
        !v.entered(id, now).0,
        v.entered(id, now).1.active,
{
}

/// After a failed attempt the peer is left alone for the whole cooldown, and
/// may be tried again once it is over.
pub proof fn failures_cool_down(v: CoordinatorView, id: Seq<char>, now: u64, later: u64)
    requires
        now <= u64::MAX - PAIR_COOLDOWN,
    ensures
        v.left(id, true, now).entered(id, later).0 == (later >= now + PAIR_COOLDOWN),
{
    let until = (now + PAIR_COOLDOWN) as u64;
    let rest = cooldown_without(v.cooldown, id);
    let all = rest.push((id, until));
    assert(all.drop_last() =~= rest);
    assert(all.last() == (id, until));
    without_leaves_none(v.cooldown, id);
    cooling_among(rest, later);
    let kept = cooling(all, later);
    let kept_rest = cooling(rest, later);
    if left_alone(kept_rest, id) {
        let k = choose|k: int| 0 <= k < kept_rest.len() && (#[trigger] kept_rest[k]).0 == id;
        assert(rest.contains(kept_rest[k]));
        let m = choose|m: int| 0 <= m < rest.len() && rest[m] == kept_rest[k];
        assert(rest[m].0 == id);
    }
    if until > later {
        assert(kept[kept_rest.len() as int].0 == id);
    }
}

/// A peer that did not fail is not left alone on another's account.
pub proof fn cooldown_is_per_peer(v: CoordinatorView, id: Seq<char>, other: Seq<char>, now: u64)
    requires
        now <= u64::MAX - PAIR_COOLDOWN,
        !left_alone(v.cooldown, other),
        id != other,
    ensures
        v.left(id, true, now).entered(other, now).0,
{
    let rest = cooldown_without(v.cooldown, id);
    let all = rest.push((id, (now + PAIR_COOLDOWN) as u64));
    without_among(v.cooldown, id);
    cooling_among(all, now);
    let kept = cooling(all, now);
    if left_alone(kept, other) {
        let k = choose|k: int| 0 <= k < kept.len() && (#[trigger] kept[k]).0 == other;
        assert(all.contains(kept[k]));
        let m = choose|m: int| 0 <= m < all.len() && all[m] == kept[k];
        assert(all[m] == rest[m]);
        assert(v.cooldown.contains(rest[m]));
        let n = choose|n: int| 0 <= n < v.cooldown.len() && v.cooldown[n] == rest[m];
        assert(v.cooldown[n].0 == other);
    }
}

/// Waiting adds nobody to those left alone.
proof fn cooling_among(cooldown: Seq<(Seq<char>, u64)>, now: u64)
    ensures
        forall|k: int|
            0 <= k < cooling(cooldown, now).len() ==> cooldown.contains(
                #[trigger] cooling(cooldown, now)[k],
            ),
    decreases cooldown.len(),
{
    if cooldown.len() > 0 {
        let rest = cooldown.drop_last();
        cooling_among(rest, now);
        let kept = cooling(rest, now);
        let all = cooling(cooldown, now);
        assert forall|k: int| 0 <= k < all.len() implies cooldown.contains(#[trigger] all[k]) by {
            if k < kept.len() {
                assert(rest.contains(kept[k]));
                let m = choose|m: int| 0 <= m < rest.len() && rest[m] == kept[k];
                assert(cooldown[m] == all[k]);
            } else {
                assert(cooldown[cooldown.len() - 1] == all[k]);
            }
        }
    }
}

/// Removing a peer adds nobody to those left alone.
proof fn without_among(cooldown: Seq<(Seq<char>, u64)>, id: Seq<char>)
    ensures
        forall|k: int|
            0 <= k < cooldown_without(cooldown, id).len() ==> cooldown.contains(
                #[trigger] cooldown_without(cooldown, id)[k],
            ),
    decreases cooldown.len(),
{
    if cooldown.len() > 0 {
        let rest = cooldown.drop_last();
        without_among(rest, id);
        let kept = cooldown_without(rest, id);
        let all = cooldown_without(cooldown, id);
        assert forall|k: int| 0 <= k < all.len() implies cooldown.contains(#[trigger] all[k]) by {
            if k < kept.len() {
                assert(rest.contains(kept[k]));
                let m = choose|m: int| 0 <= m < rest.len() && rest[m] == kept[k];
                assert(cooldown[m] == all[k]);
            } else {
                assert(cooldown[cooldown.len() - 1] == all[k]);
            }
        }
    }
}

/// Removing a peer leaves no entry of it.
proof fn without_leaves_none(cooldown: Seq<(Seq<char>, u64)>, id: Seq<char>)
    ensures
        forall|k: int|
            0 <= k < cooldown_without(cooldown, id).len() ==> (#[trigger] cooldown_without(
                cooldown,
                id,
            )[k]).0 != id,
    decreases cooldown.len(),
{
    if cooldown.len() > 0 {
        without_leaves_none(cooldown.drop_last(), id);
        let kept = cooldown_without(cooldown.drop_last(), id);
        let all = cooldown_without(cooldown, id);
        assert forall|k: int| 0 <= k < all.len() implies (#[trigger] all[k]).0 != id by {
            if k < kept.len() {
                assert(kept[k].0 != id);
            }
        }
    }
}

} // verus!
