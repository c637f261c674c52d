//! When peers are remembered, admitted, tried and left alone.
use crate::codec::utf8;
use crate::crypto::{ed25519_key_valid, ed25519_verifies};
use crate::peers::{
    cooldown_without, cooling, discovered_peer_is_found, fresh_keeps_distinct, fresh_peers,
    left_alone, oldest_in_range, oldest_peer, peer_fresh, peer_with_id, peers_after_put,
    peers_distinct, peers_without, CoordinatorView, PeerView,
};
use crate::runtime_v3::{
    initiates_with, responds_later, route_claim, runtime_magic_lengths, AdmissionView, RuntimeView,
};
use crate::text::bytes_less;
use crate::trust::StoreView;
use vstd::prelude::*;
use vstd::utf8::*;

verus! {

// ---------------------------------------------------------------------------
// Order.
// ---------------------------------------------------------------------------
/// Whether two byte strings agree up to a place at which the first ends, or has
/// the lower byte.
pub open spec fn lower_at(a: Seq<u8>, b: Seq<u8>, place: int) -> bool {
    &&& 0 <= place <= a.len()
    &&& place < b.len()
    &&& forall|k: int| 0 <= k < place ==> #[trigger] a[k] == b[k]
    &&& place < a.len() ==> a[place] < b[place]
}

/// Whether one byte string comes before another.
pub open spec fn comes_before(a: Seq<u8>, b: Seq<u8>) -> bool {
    exists|place: int| lower_at(a, b, place)
}

/// One byte string comes before another exactly if they differ first at a place
/// where the first is lower, or has ended.
pub proof fn order_goes_by_the_first_difference(a: Seq<u8>, b: Seq<u8>)
    ensures
        bytes_less(a, b) <==> comes_before(a, b),
    decreases a.len(),
{
    if a.len() > 0 && b.len() > 0 && a[0] == b[0] {
        let x = a.drop_first();
        let y = b.drop_first();
        order_goes_by_the_first_difference(x, y);
        if comes_before(x, y) {
            let place = choose|place: int| lower_at(x, y, place);
            assert forall|k: int| 0 <= k < place + 1 implies #[trigger] a[k] == b[k] by {
                if k > 0 {
                    assert(x[k - 1] == y[k - 1]);
                }
            }
            assert(lower_at(a, b, place + 1));
        }
        if comes_before(a, b) {
            let place = choose|place: int| lower_at(a, b, place);
            assert(place > 0);
            assert forall|k: int| 0 <= k < place - 1 implies #[trigger] x[k] == y[k] by {
                assert(a[k + 1] == b[k + 1]);
            }
            assert(lower_at(x, y, place - 1));
        }
    } else {
        if bytes_less(a, b) {
            assert(lower_at(a, b, 0));
        }
        if comes_before(a, b) {
            let place = choose|place: int| lower_at(a, b, place);
            if place > 0 {
                assert(a[0] == b[0]);
            }
        }
    }
}

// ---------------------------------------------------------------------------
// Who begins.
// ---------------------------------------------------------------------------
/// On discovering a peer, the device with the lower DeviceID has a reason to
/// begin wherever there is something left to do: always where a record of the
/// two is pending, and where none is active. It has none exactly where one is
/// active and none pending. The other device never has.
pub proof fn lower_devices_begin(store: StoreView, own: Seq<char>, peer: Seq<char>)
    ensures
        ({
            let lower = comes_before(utf8(own), utf8(peer));
            let active = store.active_pair(store.active, own, peer) matches Ok(Some(_));
            let pending = store.pending_between(own, peer) matches Ok(Some(_));
            &&& !lower ==> !initiates_with(store, own, peer)
            &&& lower && pending ==> initiates_with(store, own, peer)
            &&& lower && !active ==> initiates_with(store, own, peer)
            &&& active && !pending ==> !initiates_with(store, own, peer)
        }),
{
    order_goes_by_the_first_difference(utf8(own), utf8(peer));
}

/// A peer is left alone after a failed response only where the store could not
/// be opened, or knows of nothing between the two.
pub proof fn known_peers_are_answered_again(store: StoreView, own: Seq<char>, peer: Seq<char>)
    ensures
        responds_later(None, own, peer),
        ({
            let active = store.active_pair(store.active, own, peer) matches Ok(Some(_));
            let pending = store.pending_between(own, peer) matches Ok(Some(_));
            &&& active ==> !responds_later(Some(store), own, peer)
            &&& pending ==> !responds_later(Some(store), own, peer)
            &&& !active && !pending ==> responds_later(Some(store), own, peer)
        }),
{
}

// ---------------------------------------------------------------------------
// One attempt at a time.
// ---------------------------------------------------------------------------
/// Whether a peer is to be left alone beyond a time.
pub open spec fn waits(v: CoordinatorView, id: Seq<char>, now: u64) -> bool {
    exists|k: int| 0 <= k < v.cooldown.len() && (#[trigger] v.cooldown[k]).0 == id
        && v.cooldown[k].1 > now
}

/// Those still left alone at a time are those whose time has not come.
proof fn cooling_is_until_then(cooldown: Seq<(Seq<char>, u64)>, now: u64, entry: (Seq<char>, u64))
    ensures
        cooling(cooldown, now).contains(entry) <==> cooldown.contains(entry) && entry.1 > now,
    decreases cooldown.len(),
{
    if cooldown.len() > 0 {
        let rest = cooldown.drop_last();
        let last = cooldown.last();
        cooling_is_until_then(rest, now, entry);
        last_or_before(cooldown, entry);
        if last.1 > now {
            assert(cooling(cooldown, now).drop_last() =~= cooling(rest, now));
            last_or_before(cooling(cooldown, now), entry);
        }
    }
}

/// What is among some is the last of them or among those before it.
pub(crate) proof fn last_or_before<T>(all: Seq<T>, item: T)
    requires
        all.len() > 0,
    ensures
        all.contains(item) <==> all.last() == item || all.drop_last().contains(item),
{
    let rest = all.drop_last();
    if all.contains(item) {
        let k = choose|k: int| 0 <= k < all.len() && all[k] == item;
        if k < rest.len() {
            assert(rest[k] == item);
        }
    }
    if rest.contains(item) {
        let k = choose|k: int| 0 <= k < rest.len() && rest[k] == item;
        assert(all[k] == item);
    }
    assert(all[all.len() - 1] == all.last());
}

/// An attempt begins exactly where none is in progress and the peer is not to be
/// left alone any longer, whoever else is; it is in progress then.
pub proof fn attempts_begin_when_free(v: CoordinatorView, id: Seq<char>, now: u64)
    ensures
        v.entered(id, now).0 <==> !v.active && !waits(v, id, now),
        v.entered(id, now).1.active <==> v.active || v.entered(id, now).0,
{
    let kept = cooling(v.cooldown, now);
    if left_alone(kept, id) {
        let k = choose|k: int| 0 <= k < kept.len() && (#[trigger] kept[k]).0 == id;
        cooling_is_until_then(v.cooldown, now, kept[k]);
        assert(kept.contains(kept[k]));
        let j = choose|j: int| 0 <= j < v.cooldown.len() && v.cooldown[j] == kept[k];
        assert(v.cooldown[j].0 == id);
    }
    if waits(v, id, now) {
        let k = choose|k: int|
            0 <= k < v.cooldown.len() && (#[trigger] v.cooldown[k]).0 == id && v.cooldown[k].1
                > now;
        cooling_is_until_then(v.cooldown, now, v.cooldown[k]);
        assert(v.cooldown.contains(v.cooldown[k]));
        let j = choose|j: int| 0 <= j < kept.len() && kept[j] == v.cooldown[k];
        assert(kept[j].0 == id);
    }
}

/// Trying to begin makes nobody wait longer or shorter.
pub proof fn trying_changes_no_wait(
    v: CoordinatorView,
    id: Seq<char>,
    now: u64,
    other: Seq<char>,
    later: u64,
)
    requires
        now <= later,
    ensures
        waits(v.entered(id, now).1, other, later) <==> waits(v, other, later),
{
    let w = v.entered(id, now).1;
    if waits(w, other, later) {
        let k = choose|k: int|
            0 <= k < w.cooldown.len() && (#[trigger] w.cooldown[k]).0 == other && w.cooldown[k].1
                > later;
        cooling_is_until_then(v.cooldown, now, w.cooldown[k]);
        assert(w.cooldown.contains(w.cooldown[k]));
        let j = choose|j: int| 0 <= j < v.cooldown.len() && v.cooldown[j] == w.cooldown[k];
        assert(v.cooldown[j].0 == other);
    }
    if waits(v, other, later) {
        let k = choose|k: int|
            0 <= k < v.cooldown.len() && (#[trigger] v.cooldown[k]).0 == other && v.cooldown[k].1
                > later;
        cooling_is_until_then(v.cooldown, now, v.cooldown[k]);
        assert(v.cooldown.contains(v.cooldown[k]));
        let j = choose|j: int| 0 <= j < w.cooldown.len() && w.cooldown[j] == v.cooldown[k];
        assert(w.cooldown[j].0 == other);
    }
}

/// Leaving out a peer keeps the waits of all others.
proof fn others_keep_waiting(
    cooldown: Seq<(Seq<char>, u64)>,
    id: Seq<char>,
    entry: (Seq<char>, u64),
)
    ensures
        cooldown_without(cooldown, id).contains(entry) <==> cooldown.contains(entry) && entry.0
            != id,
    decreases cooldown.len(),
{
    if cooldown.len() > 0 {
        let rest = cooldown.drop_last();
        others_keep_waiting(rest, id, entry);
        last_or_before(cooldown, entry);
        if cooldown.last().0 != id {
            assert(cooldown_without(cooldown, id).drop_last() =~= cooldown_without(rest, id));
            last_or_before(cooldown_without(cooldown, id), entry);
        }
    }
}

/// Once an attempt has ended none is in progress. If it failed, its peer waits
/// for thirty seconds from then, neither more nor less; if not, it waits as
/// before. Every other peer waits as before.
pub proof fn ended_attempts_leave_waits(
    v: CoordinatorView,
    id: Seq<char>,
    failed: bool,
    now: u64,
    other: Seq<char>,
    later: u64,
)
    requires
        now <= u64::MAX - 30_000_000_000,
    ensures
        ({
            let w = v.left(id, failed, now);
            &&& !w.active
            &&& failed && other == id ==> (waits(w, other, later) <==> later < now
                + 30_000_000_000)
            &&& !failed || other != id ==> (waits(w, other, later) <==> waits(v, other, later))
        }),
{
    let w = v.left(id, failed, now);
    if failed {
        let until = (now + 30_000_000_000) as u64;
        let mine = (id, until);
        let rest = cooldown_without(v.cooldown, id);
        assert(w.cooldown =~= rest.push(mine));
        assert(w.cooldown[rest.len() as int] == mine);
        if waits(w, other, later) {
            let k = choose|k: int|
                0 <= k < w.cooldown.len() && (#[trigger] w.cooldown[k]).0 == other
                    && w.cooldown[k].1 > later;
            if k < rest.len() {
                assert(rest[k] == w.cooldown[k]);
                assert(rest.contains(rest[k]));
                others_keep_waiting(v.cooldown, id, rest[k]);
                let j = choose|j: int| 0 <= j < v.cooldown.len() && v.cooldown[j] == rest[k];
                assert(v.cooldown[j].0 == other);
            }
        }
        if other != id && waits(v, other, later) {
            let k = choose|k: int|
                0 <= k < v.cooldown.len() && (#[trigger] v.cooldown[k]).0 == other
                    && v.cooldown[k].1 > later;
            others_keep_waiting(v.cooldown, id, v.cooldown[k]);
            assert(v.cooldown.contains(v.cooldown[k]));
            let j = choose|j: int| 0 <= j < rest.len() && rest[j] == v.cooldown[k];
            assert(w.cooldown[j] == rest[j]);
            assert(w.cooldown[j].0 == other);
        }
        assert(other == id ==> (waits(w, other, later) <==> later < until));
        assert(other != id ==> (waits(w, other, later) <==> waits(v, other, later)));
    } else {
        assert(w.cooldown == v.cooldown);
        assert(waits(w, other, later) <==> waits(v, other, later));
    }
}

// ---------------------------------------------------------------------------
// Peers.
// ---------------------------------------------------------------------------
/// A peer is among the fresh ones exactly if it is among all and was seen within
/// the last ninety seconds.
pub proof fn peers_are_fresh_for_ninety_seconds(peers: Seq<PeerView>, now: u64, peer: PeerView)
    ensures
        fresh_peers(peers, now).contains(peer) <==> peers.contains(peer) && now <= peer.seen
            + 90_000_000_000,
    decreases peers.len(),
{
    if peers.len() > 0 {
        let rest = peers.drop_last();
        peers_are_fresh_for_ninety_seconds(rest, now, peer);
        last_or_before(peers, peer);
        if peer_fresh(peers.last(), now) {
            assert(fresh_peers(peers, now).drop_last() =~= fresh_peers(rest, now));
            last_or_before(fresh_peers(peers, now), peer);
        }
    }
}

/// Where no device is there twice, a search finds exactly the peer that has the
/// DeviceID.
pub proof fn peers_are_found_by_id(peers: Seq<PeerView>, id: Seq<char>, peer: PeerView)
    requires
        peers_distinct(peers),
    ensures
        peer_with_id(peers, id) == Some(peer) <==> peers.contains(peer) && peer.discovery.device_id
            == id,
        peer_with_id(peers, id) is None <==> forall|k: int|
            0 <= k < peers.len() ==> (#[trigger] peers[k]).discovery.device_id != id,
    decreases peers.len(),
{
    if peers.len() > 0 {
        let rest = peers.drop_last();
        let last = peers.last();
        assert(peers_distinct(rest)) by {
            assert forall|i: int, j: int| 0 <= i < j < rest.len() implies (
            #[trigger] rest[i]).discovery.device_id != (#[trigger] rest[j]).discovery.device_id by {
                assert(rest[i] == peers[i] && rest[j] == peers[j]);
            }
        }
        peers_are_found_by_id(rest, id, peer);
        last_or_before(peers, peer);
        assert(peers[peers.len() - 1] == last);
        if rest.contains(peer) {
            let k = choose|k: int| 0 <= k < rest.len() && rest[k] == peer;
            assert(peers[k] == peer);
        }
        if peer_with_id(rest, id) is Some {
            let found = peer_with_id(rest, id)->Some_0;
            peers_are_found_by_id(rest, id, found);
            let k = choose|k: int| 0 <= k < rest.len() && rest[k] == found;
            assert(peers[k] == found);
            assert(peers[k].discovery.device_id == id);
        } else {
            assert forall|k: int| 0 <= k < peers.len() - 1 implies (
            #[trigger] peers[k]).discovery.device_id != id by {
                assert(rest[k] == peers[k]);
            }
        }
    }
}

/// Whether a route preface is one that a peer made.
pub open spec fn made_by(route: Seq<u8>, peer: PeerView) -> bool {
    &&& route.len() == 112
    &&& route.subrange(0, 16) == utf8("OMARCHY-ROUTE-V3"@)
    &&& route.subrange(16, 48) == utf8(peer.discovery.device_id)
    &&& ed25519_key_valid(peer.discovery.public_key)
    &&& ed25519_verifies(
        peer.discovery.public_key,
        route.subrange(0, 48),
        route.subrange(48, 112),
    )
}

/// A connection is admitted as a peer's exactly where the peer was discovered
/// within the last ninety seconds, comes from the address that it announced
/// itself from, opens with a preface that it made, and is not this device.
pub proof fn discovered_peers_are_admitted(
    v: RuntimeView,
    peer: PeerView,
    route: Seq<u8>,
    source_ip: Seq<u8>,
    now: u64,
)
    requires
        peers_distinct(v.peers),
    ensures
        v.admitted(route, source_ip, now).0 == AdmissionView::Peer(peer) <==> {
            &&& v.peers.contains(peer)
            &&& now <= peer.seen + 90_000_000_000
            &&& peer.ip == source_ip
            &&& made_by(route, peer)
            &&& peer.discovery.device_id != v.identity
        },
{
    let fresh = fresh_peers(v.peers, now);
    runtime_magic_lengths();
    fresh_keeps_distinct(v.peers, now);
    peers_are_fresh_for_ninety_seconds(v.peers, now, peer);
    encode_utf8_valid_utf8(peer.discovery.device_id);
    encode_utf8_decode_utf8(peer.discovery.device_id);
    peers_are_found_by_id(fresh, peer.discovery.device_id, peer);
    match route_claim(route) {
        Some(id) => {
            decode_utf8_encode_utf8(route.subrange(16, 48));
            peers_are_found_by_id(fresh, id, peer);
        },
        None => {},
    }
}

/// A connection that opens with no preface is told so; one that claims a device
/// that was not discovered within the last ninety seconds is told that; and
/// nothing is forgotten of the peers that are still fresh.
pub proof fn unknown_connections_are_told(
    v: RuntimeView,
    route: Seq<u8>,
    source_ip: Seq<u8>,
    now: u64,
    peer: PeerView,
)
    requires
        peers_distinct(v.peers),
    ensures
        ({
            let (answer, after) = v.admitted(route, source_ip, now);
            let preface = route.len() == 112 && route.subrange(0, 16) == utf8("OMARCHY-ROUTE-V3"@)
                && valid_utf8(route.subrange(16, 48));
            let known = exists|k: int|
                0 <= k < v.peers.len() && utf8((#[trigger] v.peers[k]).discovery.device_id)
                    == route.subrange(16, 48) && now <= v.peers[k].seen + 90_000_000_000;
            &&& answer is InvalidPreface <==> !preface
            &&& answer is NotDiscovered <==> preface && !known
            &&& v.peers.contains(peer) && now <= peer.seen + 90_000_000_000
                ==> after.peers.contains(peer)
            &&& after == (RuntimeView { peers: after.peers, ..v })
        }),
{
    let fresh = fresh_peers(v.peers, now);
    fresh_keeps_distinct(v.peers, now);
    peers_are_fresh_for_ninety_seconds(v.peers, now, peer);
    runtime_magic_lengths();
    if route_claim(route) is Some {
        let id = route_claim(route)->Some_0;
        decode_utf8_encode_utf8(route.subrange(16, 48));
        peers_are_found_by_id(fresh, id, peer);
        let known = exists|k: int|
            0 <= k < v.peers.len() && utf8((#[trigger] v.peers[k]).discovery.device_id)
                == route.subrange(16, 48) && now <= v.peers[k].seen + 90_000_000_000;
        if known {
            let k = choose|k: int|
                0 <= k < v.peers.len() && utf8((#[trigger] v.peers[k]).discovery.device_id)
                    == route.subrange(16, 48) && now <= v.peers[k].seen + 90_000_000_000;
            let p = v.peers[k];
            crate::codec::utf8_injective(p.discovery.device_id, id);
            peers_are_fresh_for_ninety_seconds(v.peers, now, p);
            assert(v.peers.contains(p));
            peers_are_found_by_id(fresh, id, p);
        } else if peer_with_id(fresh, id) is Some {
            let p = peer_with_id(fresh, id)->Some_0;
            peers_are_found_by_id(fresh, id, p);
            peers_are_fresh_for_ninety_seconds(v.peers, now, p);
            let k = choose|k: int| 0 <= k < v.peers.len() && v.peers[k] == p;
            assert(utf8(v.peers[k].discovery.device_id) == route.subrange(16, 48));
        }
    }
}

/// Whoever is discovered is admitted for the next ninety seconds, from the
/// address it was discovered at, with its own preface, whatever else is
/// remembered.
pub proof fn discovery_leads_to_admission(
    v: RuntimeView,
    peer: PeerView,
    route: Seq<u8>,
    now: u64,
)
    requires
        peers_distinct(v.peers),
        now <= peer.seen + 90_000_000_000,
        made_by(route, peer),
        peer.discovery.device_id != v.identity,
    ensures
        (RuntimeView { peers: peers_after_put(v.peers, peer), ..v }).admitted(
            route,
            peer.ip,
            now,
        ).0 == AdmissionView::Peer(peer),
{
    runtime_magic_lengths();
    encode_utf8_valid_utf8(peer.discovery.device_id);
    encode_utf8_decode_utf8(peer.discovery.device_id);
    discovered_peer_is_found(v.peers, peer, now);
}

/// Leaving out a device keeps all others.
proof fn others_are_kept(peers: Seq<PeerView>, id: Seq<char>, peer: PeerView)
    ensures
        peers_without(peers, id).contains(peer) <==> peers.contains(peer)
            && peer.discovery.device_id != id,
    decreases peers.len(),
{
    if peers.len() > 0 {
        let rest = peers.drop_last();
        others_are_kept(rest, id, peer);
        last_or_before(peers, peer);
        if peers.last().discovery.device_id != id {
            assert(peers_without(peers, id).drop_last() =~= peers_without(rest, id));
            last_or_before(peers_without(peers, id), peer);
        }
    }
}

/// The oldest peer was seen no later than any other.
proof fn oldest_was_seen_first(peers: Seq<PeerView>, k: int)
    requires
        0 <= k < peers.len(),
    ensures
        peers[oldest_peer(peers)].seen <= peers[k].seen,
    decreases peers.len(),
{
    if peers.len() > 1 {
        let rest = peers.drop_last();
        oldest_in_range(rest);
        if k < rest.len() {
            oldest_was_seen_first(rest, k);
            assert(rest[k] == peers[k]);
        }
        assert(rest[oldest_peer(rest)] == peers[oldest_peer(rest)]);
        if k == rest.len() {
            assert(peers.last() == peers[k]);
        }
    }
}

/// After a discovery, the peers are the one that was discovered and, of the
/// others, all that are still fresh; only where there are 128 of those, and the
/// new one is not among them, does one leave, and that is one that was seen no
/// later than any other.
pub proof fn discovery_keeps_fresh_peers(peers: Seq<PeerView>, peer: PeerView, other: PeerView)
    requires
        peers_distinct(peers),
        other.discovery.device_id != peer.discovery.device_id,
    ensures
        ({
            let after = peers_after_put(peers, peer);
            let fresh = fresh_peers(peers, peer.seen);
            let full = fresh.len() >= 128 && forall|k: int|
                0 <= k < fresh.len() ==> (#[trigger] fresh[k]).discovery.device_id
                    != peer.discovery.device_id;
            &&& after.contains(peer)
            &&& after.contains(other) ==> peers.contains(other) && peer.seen <= other.seen
                + 90_000_000_000
            &&& (peers.contains(other) && peer.seen <= other.seen + 90_000_000_000 && !full)
                ==> after.contains(other)
            &&& full ==> exists|gone: PeerView| #[trigger]
                fresh.contains(gone) && (forall|k: int|
                    0 <= k < fresh.len() ==> gone.seen <= (#[trigger] fresh[k]).seen) && (
                peers.contains(other) && peer.seen <= other.seen + 90_000_000_000 && other != gone
                    ==> after.contains(other))
        }),
{
    let after = peers_after_put(peers, peer);
    let id = peer.discovery.device_id;
    let fresh = fresh_peers(peers, peer.seen);
    fresh_keeps_distinct(peers, peer.seen);
    peers_are_fresh_for_ninety_seconds(peers, peer.seen, other);
    peers_are_found_by_id(fresh, id, peer);
    others_are_kept(fresh, id, other);
    assert(after.last() == peer);
    assert(after[after.len() - 1] == peer);
    last_or_before(after, other);
    if fresh.len() >= 128 && peer_with_id(fresh, id) is None {
        let oldest = oldest_peer(fresh);
        oldest_in_range(fresh);
        let gone = fresh[oldest];
        let kept = fresh.remove(oldest);
        assert(after.drop_last() =~= kept);
        assert(fresh.contains(gone));
        assert forall|k: int| 0 <= k < fresh.len() implies gone.seen <= (
        #[trigger] fresh[k]).seen by {
            oldest_was_seen_first(fresh, k);
        }
        if fresh.contains(other) && other != gone {
            let k = choose|k: int| 0 <= k < fresh.len() && fresh[k] == other;
            if k < oldest {
                assert(kept[k] == other);
            } else {
                assert(kept[k - 1] == other);
            }
        }
        if kept.contains(other) {
            let k = choose|k: int| 0 <= k < kept.len() && kept[k] == other;
            assert(other == (if k < oldest {
                fresh[k]
            } else {
                fresh[k + 1]
            }));
        }
    } else {
        assert(after.drop_last() =~= peers_without(fresh, id));
    }
}

} // verus!
