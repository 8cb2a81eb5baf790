//! The registry of known peers: who is out there, when they were last heard
//! from, and which announcements have already been taken in.
use vstd::prelude::*;
use vstd::string::*;
use crate::crypto::CryptoError;
use crate::discovery::{
    DiscoveredPeer, NodeCapabilities, PeerAnnouncement, PeerDiscoveryAnnouncement, PeerListAnnouncement, PEER_EXPIRY_MS,
    expired_at, signed_check,
};
use crate::text;

verus! {

pub open spec fn has_id(peers: Seq<DiscoveredPeer>, id: Seq<char>) -> bool {
    exists|i: int| 0 <= i < peers.len() && #[trigger] peers[i].node_id@ == id
}

pub open spec fn index_of(peers: Seq<DiscoveredPeer>, id: Seq<char>) -> int {
    choose|i: int| 0 <= i < peers.len() && #[trigger] peers[i].node_id@ == id
}

pub open spec fn unique_ids(peers: Seq<DiscoveredPeer>) -> bool {
    forall|i: int, j: int|
        0 <= i < peers.len() && 0 <= j < peers.len() && i != j ==> #[trigger] peers[i].node_id@
            != #[trigger] peers[j].node_id@
}

/// `p` in place of the entry with its id, or added at the end when there is none.
pub open spec fn upserted(peers: Seq<DiscoveredPeer>, p: DiscoveredPeer) -> Seq<DiscoveredPeer> {
    if has_id(peers, p.node_id@) {
        peers.update(index_of(peers, p.node_id@), p)
    } else {
        peers.push(p)
    }
}

/// The timestamp most recently recorded for an announcement id.
pub open spec fn cache_get(cache: Seq<(Seq<char>, i64)>, id: Seq<char>) -> Option<i64>
    decreases cache.len(),
{
    if cache.len() == 0 {
        None
    } else if cache.last().0 == id {
        Some(cache.last().1)
    } else {
        cache_get(cache.drop_last(), id)
    }
}

/// An announcement is fresh when no announcement with its id and a
/// timestamp at least as recent has been taken in.
pub open spec fn announcement_fresh(cache: Seq<(Seq<char>, i64)>, a: PeerAnnouncement) -> bool {
    match cache_get(cache, a.id@) {
        Some(t) => a.timestamp > t,
        None => true,
    }
}

/// The peers that are not expired at `now_ms`, in their order.
pub open spec fn active(peers: Seq<DiscoveredPeer>, now_ms: int) -> Seq<DiscoveredPeer>
    decreases peers.len(),
{
    if peers.len() == 0 {
        Seq::empty()
    } else if expired_at(peers.last().last_seen, now_ms) {
        active(peers.drop_last(), now_ms)
    } else {
        active(peers.drop_last(), now_ms).push(peers.last())
    }
}

/// The cache entries newer than `cutoff`, in their order.
pub open spec fn recent(cache: Seq<(Seq<char>, i64)>, cutoff: int) -> Seq<(Seq<char>, i64)>
    decreases cache.len(),
{
    if cache.len() == 0 {
        Seq::empty()
    } else if cache.last().1 > cutoff {
        recent(cache.drop_last(), cutoff).push(cache.last())
    } else {
        recent(cache.drop_last(), cutoff)
    }
}

/// A minimally known peer: only its id, seen at `now_ms`.
pub open spec fn is_bare_peer(p: DiscoveredPeer, id: Seq<char>, now_ms: i64) -> bool {
    &&& p.node_id@ == id
    &&& p.public_key@.len() == 0
    &&& p.address is None
    &&& p.capabilities == (NodeCapabilities {
        mqtt: false,
        streams: false,
        timeseries: false,
        geo: false,
        blobs: false,
        mobile: false,
    })
    &&& p.region is None
    &&& p.version is None
    &&& p.last_seen == Some(now_ms)
    &&& p.latency_ms is None
}

/// The same peer, seen again at `now_ms`.
pub open spec fn refreshed(p: DiscoveredPeer, now_ms: i64) -> DiscoveredPeer {
    DiscoveredPeer { last_seen: Some(now_ms), ..p }
}

/// The peer as a peer-list entry refreshes it: seen again, with the address
/// and region replaced only by ones that are given.
pub open spec fn merged_from_list(p: DiscoveredPeer, address: Option<String>, region: Option<String>, now_ms: i64) -> DiscoveredPeer {
    DiscoveredPeer {
        last_seen: Some(now_ms),
        address: if address is Some { address } else { p.address },
        region: if region is Some { region } else { p.region },
        ..p
    }
}

/// Position of the first `@` in `s`, or its length when there is none.
pub open spec fn first_at(s: Seq<char>) -> int
    decreases s.len(),
{
    if s.len() == 0 {
        0
    } else if s[0] == '@' {
        0
    } else {
        1 + first_at(s.drop_first())
    }
}

/// The node id of a peer-list entry `node_id@address` or `node_id`.
pub open spec fn entry_node_id(entry: Seq<char>) -> Seq<char> {
    entry.subrange(0, first_at(entry))
}

/// The entries of a peer list that name neither the local node nor a known peer.
pub open spec fn unknown_entries(entries: Seq<String>, peers: Seq<DiscoveredPeer>, local: Seq<char>) -> Seq<String>
    decreases entries.len(),
{
    if entries.len() == 0 {
        Seq::empty()
    } else {
        let rest = unknown_entries(entries.drop_last(), peers, local);
        let id = entry_node_id(entries.last()@);
        if id != local && !has_id(peers, id) {
            rest.push(entries.last())
        } else {
            rest
        }
    }
}

/// How a peer appears in a broadcast peer list.
pub open spec fn broadcast_entry(p: DiscoveredPeer) -> Seq<char> {
    match p.address {
        Some(a) => p.node_id@ + seq!['@'] + a@,
        None => p.node_id@,
    }
}

proof fn lemma_first_at_is(s: Seq<char>, k: int)
    requires
        0 <= k <= s.len(),
        forall|j: int| 0 <= j < k ==> s[j] != '@',
        k < s.len() ==> s[k] == '@',
    ensures
        first_at(s) == k,
    decreases s.len(),
{
    if s.len() > 0 && s[0] != '@' {
        lemma_first_at_is(s.drop_first(), k - 1);
    }
}

fn first_at_index(s: &str) -> (k: usize)
    ensures
        k as int == first_at(s@),
        k <= s@.len(),
{
    let len = s.unicode_len();
    let mut k: usize = 0;
    while k < len
        invariant
            len == s@.len(),
            k <= len,
            forall|j: int| 0 <= j < k ==> s@[j] != '@',
        decreases len - k,
    {
        if s.get_char(k) == '@' {
            proof {
                lemma_first_at_is(s@, k as int);
            }
            return k;
        }
        k += 1;
    }
    proof {
        lemma_first_at_is(s@, k as int);
    }
    k
}

fn list_region(region: &String) -> (r: Option<String>)
    ensures
        r == Some(*region),
{
    Some(region.clone())
}

proof fn lemma_active_fresh(peers: Seq<DiscoveredPeer>, now_ms: int)
    ensures
        forall|i: int| 0 <= i < active(peers, now_ms).len() ==> !expired_at(#[trigger] active(peers, now_ms)[i].last_seen, now_ms),
        forall|i: int| 0 <= i < active(peers, now_ms).len() ==> has_id(peers, #[trigger] active(peers, now_ms)[i].node_id@),
    decreases peers.len(),
{
    if peers.len() > 0 {
        let d = peers.drop_last();
        lemma_active_fresh(d, now_ms);
        assert forall|i: int| 0 <= i < active(peers, now_ms).len() implies has_id(peers, #[trigger] active(peers, now_ms)[i].node_id@) by {
            if i < active(d, now_ms).len() {
                assert(has_id(d, active(d, now_ms)[i].node_id@));
                let j = choose|j: int| 0 <= j < d.len() && #[trigger] d[j].node_id@ == active(d, now_ms)[i].node_id@;
                assert(peers[j] == d[j]);
            } else {
                assert(peers[peers.len() - 1].node_id@ == active(peers, now_ms)[i].node_id@);
            }
        }
    }
}

/// Once an announcement has been taken in, a later one with the same id is
/// fresh only when its timestamp is strictly newer: only the most recent
/// announcement of an id ever updates the registry.
pub proof fn lemma_announcement_freshness(cache: Seq<(Seq<char>, i64)>, taken: PeerAnnouncement, later: PeerAnnouncement)
    requires
        later.id@ == taken.id@,
    ensures
        announcement_fresh(cache.push((taken.id@, taken.timestamp)), later) <==> later.timestamp > taken.timestamp,
{
    let c = cache.push((taken.id@, taken.timestamp));
    assert(c.last() == (taken.id@, taken.timestamp));
}

/// The address of a peer-list entry: after its first `@`, up to any further `@`.
pub open spec fn entry_address(entry: Seq<char>) -> Option<Seq<char>> {
    if first_at(entry) < entry.len() {
        let rest = entry.subrange(first_at(entry) + 1, entry.len() as int);
        Some(rest.subrange(0, first_at(rest)))
    } else {
        None
    }
}

pub open spec fn opt_text(o: Option<String>) -> Option<Seq<char>> {
    match o {
        Some(s) => Some(s@),
        None => None,
    }
}

/// No earlier entry of the list names the same node.
pub open spec fn first_naming(entries: Seq<Seq<char>>, j: int) -> bool {
    forall|j2: int| 0 <= j2 < j ==> entry_node_id(#[trigger] entries[j2]) != entry_node_id(entries[j])
}

/// A peer as a legacy list entry registers it: with the entry's address and
/// the list's region, seen at `now_ms`, and nothing else known.
pub open spec fn listed_peer(p: DiscoveredPeer, entry: Seq<char>, region: String, now_ms: i64) -> bool {
    &&& p.public_key@.len() == 0
    &&& opt_text(p.address) == entry_address(entry)
    &&& p.region == Some(region)
    &&& p.capabilities == (NodeCapabilities {
        mqtt: false,
        streams: false,
        timeseries: false,
        geo: false,
        blobs: false,
        mobile: false,
    })
    &&& p.version is None
    &&& p.last_seen == Some(now_ms)
    &&& p.latency_ms is None
}

/// The node ids of a legacy peer list that are new: neither the local node,
/// nor known, nor named by an earlier entry.
pub open spec fn new_listed_ids(entries: Seq<Seq<char>>, peers: Seq<DiscoveredPeer>, local: Seq<char>) -> Seq<Seq<char>>
    decreases entries.len(),
{
    if entries.len() == 0 {
        Seq::empty()
    } else {
        let d = entries.drop_last();
        let rest = new_listed_ids(d, peers, local);
        let id = entry_node_id(entries.last());
        if id != local && !has_id(peers, id) && !(exists|j: int| 0 <= j < d.len() && entry_node_id(#[trigger] d[j]) == id) {
            rest.push(id)
        } else {
            rest
        }
    }
}

/// Tracks discovered peers by node id, never the local node, together with
/// the timestamps of announcements already taken in.
pub struct PeerRegistry {
    peers: Vec<DiscoveredPeer>,
    local_node_id: String,
    /// Announcement ids with their timestamps, most recent last.
    announcement_cache: Vec<(String, i64)>,
}

impl PeerRegistry {
    pub closed spec fn peers(&self) -> Seq<DiscoveredPeer> {
        self.peers@
    }

    pub closed spec fn local(&self) -> Seq<char> {
        self.local_node_id@
    }

    pub closed spec fn cache(&self) -> Seq<(Seq<char>, i64)> {
        self.announcement_cache@.map_values(|e: (String, i64)| (e.0@, e.1))
    }

    /// Node ids are unique and none of them is the local node.
    pub open spec fn wf(&self) -> bool {
        &&& unique_ids(self.peers())
        &&& !has_id(self.peers(), self.local())
    }

    pub fn new(local_node_id: String) -> (r: Self)
        ensures
            r.wf(),
            r.peers() == Seq::<DiscoveredPeer>::empty(),
            r.local() == local_node_id@,
            r.cache() == Seq::<(Seq<char>, i64)>::empty(),
    {
        let r = PeerRegistry { peers: Vec::new(), local_node_id, announcement_cache: Vec::new() };
        assert(r.cache() =~= Seq::<(Seq<char>, i64)>::empty());
        r
    }

    proof fn lemma_index_of(peers: Seq<DiscoveredPeer>, i: int)
        requires
            unique_ids(peers),
            0 <= i < peers.len(),
        ensures
            has_id(peers, peers[i].node_id@),
            index_of(peers, peers[i].node_id@) == i,
    {
        assert(has_id(peers, peers[i].node_id@));
    }

    fn find(&self, node_id: &str) -> (r: Option<usize>)
        requires
            self.wf(),
        ensures
            r matches Some(i) ==> i < self.peers().len() && self.peers()[i as int].node_id@ == node_id@
                && index_of(self.peers(), node_id@) == i,
            r is None <==> !has_id(self.peers(), node_id@),
    {
        let key = String::from_str(node_id);
        let n = self.peers.len();
        let mut i: usize = 0;
        while i < n
            invariant
                n == self.peers@.len(),
                i <= n,
                self.wf(),
                key@ == node_id@,
                forall|j: int| 0 <= j < i ==> #[trigger] self.peers@[j].node_id@ != node_id@,
            decreases n - i,
        {
            if self.peers[i].node_id == key {
                proof {
                    Self::lemma_index_of(self.peers@, i as int);
                }
                return Some(i);
            }
            i += 1;
        }
        None
    }

    fn cached_timestamp(&self, id: &String) -> (r: Option<i64>)
        ensures
            r == cache_get(self.cache(), id@),
    {
        let mut i: usize = self.announcement_cache.len();
        assert(self.cache().subrange(0, i as int) =~= self.cache());
        while i > 0
            invariant
                i <= self.announcement_cache@.len(),
                self.cache().len() == self.announcement_cache@.len(),
                cache_get(self.cache(), id@) == cache_get(self.cache().subrange(0, i as int), id@),
            decreases i,
        {
            assert(self.cache().subrange(0, i as int).drop_last() =~= self.cache().subrange(0, i - 1));
            if self.announcement_cache[i - 1].0 == *id {
                return Some(self.announcement_cache[i - 1].1);
            }
            i -= 1;
        }
        None
    }

    /// Take in a signed announcement seen at `now_ms`. It is ignored when it
    /// comes from the local node, when an announcement with the same id and a
    /// timestamp at least as recent was already taken in, or when its
    /// signature does not hold. Otherwise its peer is inserted or replaced and
    /// its timestamp recorded. The result tells whether the peer is new.
    pub fn process_announcement(&mut self, announcement: &PeerAnnouncement, now_ms: i64) -> (r: Result<bool, CryptoError>)
        requires
            old(self).wf(),
        ensures
            final(self).wf(),
            final(self).local() == old(self).local(),
            ({
                let accepted = announcement.node_id@ != old(self).local()
                    && announcement_fresh(old(self).cache(), *announcement)
                    && signed_check(announcement.public_key@, announcement.message_text(), announcement.signature@)
                        == Ok::<bool, CryptoError>(true);
                &&& accepted ==> final(self).peers() == upserted(old(self).peers(), announcement.peer_at(now_ms))
                    && final(self).cache() == old(self).cache().push((announcement.id@, announcement.timestamp))
                &&& !accepted ==> final(self).peers() == old(self).peers() && final(self).cache() == old(self).cache()
                &&& r == Ok::<bool, CryptoError>(accepted && !has_id(old(self).peers(), announcement.node_id@))
            }),
    {
        if announcement.node_id == self.local_node_id {
            return Ok(false);
        }
        match self.cached_timestamp(&announcement.id) {
            Some(cached_ts) => {
                if cached_ts >= announcement.timestamp {
                    return Ok(false);
                }
            },
            None => {},
        }
        match announcement.verify() {
            Ok(true) => {},
            _ => {
                return Ok(false);
            },
        }
        self.announcement_cache.push((announcement.id.clone(), announcement.timestamp));
        let peer = announcement.to_discovered_peer(now_ms);
        let is_new = match self.find(announcement.node_id.as_str()) {
            Some(i) => {
                proof {
                    Self::lemma_set_keeps_wf(self.peers@, self.local_node_id@, i as int, peer);
                }
                self.peers.set(i, peer);
                false
            },
            None => {
                proof {
                    Self::lemma_push_keeps_wf(self.peers@, self.local_node_id@, peer);
                }
                self.peers.push(peer);
                true
            },
        };
        assert(self.cache() =~= old(self).cache().push((announcement.id@, announcement.timestamp)));
        Ok(is_new)
    }

    proof fn lemma_set_keeps_wf(peers: Seq<DiscoveredPeer>, local: Seq<char>, i: int, p: DiscoveredPeer)
        requires
            unique_ids(peers),
            !has_id(peers, local),
            0 <= i < peers.len(),
            p.node_id@ == peers[i].node_id@,
        ensures
            unique_ids(peers.update(i, p)),
            !has_id(peers.update(i, p), local),
    {
        let q = peers.update(i, p);
        assert forall|a: int, b: int| 0 <= a < q.len() && 0 <= b < q.len() && a != b
            implies #[trigger] q[a].node_id@ != #[trigger] q[b].node_id@ by {
            assert(peers[a].node_id@ != peers[b].node_id@);
        }
        if has_id(q, local) {
            let j = choose|j: int| 0 <= j < q.len() && #[trigger] q[j].node_id@ == local;
            assert(peers[j].node_id@ == local);
        }
    }

    proof fn lemma_push_keeps_wf(peers: Seq<DiscoveredPeer>, local: Seq<char>, p: DiscoveredPeer)
        requires
            unique_ids(peers),
            !has_id(peers, local),
            !has_id(peers, p.node_id@),
            p.node_id@ != local,
        ensures
            unique_ids(peers.push(p)),
            !has_id(peers.push(p), local),
    {
        let q = peers.push(p);
        assert forall|a: int, b: int| 0 <= a < q.len() && 0 <= b < q.len() && a != b
            implies #[trigger] q[a].node_id@ != #[trigger] q[b].node_id@ by {
            if a < peers.len() && b < peers.len() {
                assert(peers[a].node_id@ != peers[b].node_id@);
            } else if a < peers.len() {
                assert(peers[a].node_id@ == q[a].node_id@);
            } else {
                assert(peers[b].node_id@ == q[b].node_id@);
            }
        }
        if has_id(q, local) {
            let j = choose|j: int| 0 <= j < q.len() && #[trigger] q[j].node_id@ == local;
            if j < peers.len() {
                assert(peers[j].node_id@ == local);
            }
        }
    }

    proof fn lemma_remove_keeps_wf(peers: Seq<DiscoveredPeer>, local: Seq<char>, i: int)
        requires
            unique_ids(peers),
            !has_id(peers, local),
            0 <= i < peers.len(),
        ensures
            unique_ids(peers.remove(i)),
            !has_id(peers.remove(i), local),
            !has_id(peers.remove(i), peers[i].node_id@),
    {
        let q = peers.remove(i);
        assert forall|a: int, b: int| 0 <= a < q.len() && 0 <= b < q.len() && a != b
            implies #[trigger] q[a].node_id@ != #[trigger] q[b].node_id@ by {
            let a2 = if a < i { a } else { a + 1 };
            let b2 = if b < i { b } else { b + 1 };
            assert(peers[a2].node_id@ != peers[b2].node_id@);
        }
        if has_id(q, local) {
            let j = choose|j: int| 0 <= j < q.len() && #[trigger] q[j].node_id@ == local;
            let j2 = if j < i { j } else { j + 1 };
            assert(peers[j2].node_id@ == local);
        }
        if has_id(q, peers[i].node_id@) {
            let j = choose|j: int| 0 <= j < q.len() && #[trigger] q[j].node_id@ == peers[i].node_id@;
            let j2 = if j < i { j } else { j + 1 };
            assert(peers[j2].node_id@ == peers[i].node_id@);
        }
    }

    /// Record a measured latency; nothing happens for an unknown peer.
    pub fn update_latency(&mut self, node_id: &str, latency_ms: u64)
        requires
            old(self).wf(),
        ensures
            final(self).wf(),
            final(self).local() == old(self).local(),
            final(self).cache() == old(self).cache(),
            final(self).peers() == if has_id(old(self).peers(), node_id@) {
                old(self).peers().update(
                    index_of(old(self).peers(), node_id@),
                    DiscoveredPeer {
                        latency_ms: Some(latency_ms),
                        ..old(self).peers()[index_of(old(self).peers(), node_id@)]
                    },
                )
            } else {
                old(self).peers()
            },
    {
        match self.find(node_id) {
            Some(i) => {
                let mut p = self.peers[i].duplicate();
                p.latency_ms = Some(latency_ms);
                proof {
                    Self::lemma_set_keeps_wf(self.peers@, self.local_node_id@, i as int, p);
                }
                self.peers.set(i, p);
            },
            None => {},
        }
    }

    /// Register a neighbour the overlay reports as connected: a new peer is
    /// added with only its id, a known one is marked as seen at `now_ms`.
    /// Returns whether the peer is new; the local node is never registered.
    pub fn register_connected_peer(&mut self, node_id: String, now_ms: i64) -> (r: bool)
        requires
            old(self).wf(),
        ensures
            final(self).wf(),
            final(self).local() == old(self).local(),
            final(self).cache() == old(self).cache(),
            r == (node_id@ != old(self).local() && !has_id(old(self).peers(), node_id@)),
            node_id@ == old(self).local() ==> final(self).peers() == old(self).peers(),
            r ==> final(self).peers().len() == old(self).peers().len() + 1
                && final(self).peers().drop_last() == old(self).peers()
                && is_bare_peer(final(self).peers().last(), node_id@, now_ms),
            node_id@ != old(self).local() && has_id(old(self).peers(), node_id@) ==> final(self).peers()
                == old(self).peers().update(
                    index_of(old(self).peers(), node_id@),
                    refreshed(old(self).peers()[index_of(old(self).peers(), node_id@)], now_ms),
                ),
    {
        if node_id == self.local_node_id {
            return false;
        }
        match self.find(node_id.as_str()) {
            Some(i) => {
                let mut p = self.peers[i].duplicate();
                p.last_seen = Some(now_ms);
                proof {
                    Self::lemma_set_keeps_wf(self.peers@, self.local_node_id@, i as int, p);
                }
                self.peers.set(i, p);
                false
            },
            None => {
                let peer = DiscoveredPeer {
                    node_id,
                    public_key: String::new(),
                    address: None,
                    capabilities: NodeCapabilities::none(),
                    region: None,
                    version: None,
                    last_seen: Some(now_ms),
                    latency_ms: None,
                };
                proof {
                    Self::lemma_push_keeps_wf(self.peers@, self.local_node_id@, peer);
                }
                self.peers.push(peer);
                assert(self.peers@.drop_last() =~= old(self).peers());
                true
            },
        }
    }

    /// Insert or refresh a peer named in a peer list. A known peer keeps its
    /// address and region unless new ones are given. Returns whether the
    /// peer is new; the local node is never registered.
    pub fn register_peer_from_list(&mut self, node_id: String, address: Option<String>, region: Option<String>, now_ms: i64) -> (r: bool)
        requires
            old(self).wf(),
        ensures
            final(self).wf(),
            final(self).local() == old(self).local(),
            final(self).cache() == old(self).cache(),
            r == (node_id@ != old(self).local() && !has_id(old(self).peers(), node_id@)),
            node_id@ == old(self).local() ==> final(self).peers() == old(self).peers(),
            r ==> final(self).peers().len() == old(self).peers().len() + 1
                && final(self).peers().drop_last() == old(self).peers()
                && final(self).peers().last().node_id@ == node_id@
                && final(self).peers().last().public_key@.len() == 0
                && final(self).peers().last().address == address
                && final(self).peers().last().region == region
                && final(self).peers().last().capabilities == (NodeCapabilities {
                    mqtt: false,
                    streams: false,
                    timeseries: false,
                    geo: false,
                    blobs: false,
                    mobile: false,
                })
                && final(self).peers().last().version is None
                && final(self).peers().last().last_seen == Some(now_ms)
                && final(self).peers().last().latency_ms is None,
            node_id@ != old(self).local() && has_id(old(self).peers(), node_id@) ==> final(self).peers()
                == old(self).peers().update(
                    index_of(old(self).peers(), node_id@),
                    merged_from_list(old(self).peers()[index_of(old(self).peers(), node_id@)], address, region, now_ms),
                ),
    {
        if node_id == self.local_node_id {
            return false;
        }
        match self.find(node_id.as_str()) {
            Some(i) => {
                let mut p = self.peers[i].duplicate();
                p.last_seen = Some(now_ms);
                if address.is_some() {
                    p.address = address;
                }
                if region.is_some() {
                    p.region = region;
                }
                proof {
                    Self::lemma_set_keeps_wf(self.peers@, self.local_node_id@, i as int, p);
                }
                self.peers.set(i, p);
                false
            },
            None => {
                let peer = DiscoveredPeer {
                    node_id,
                    public_key: String::new(),
                    address,
                    capabilities: NodeCapabilities::none(),
                    region,
                    version: None,
                    last_seen: Some(now_ms),
                    latency_ms: None,
                };
                proof {
                    Self::lemma_push_keeps_wf(self.peers@, self.local_node_id@, peer);
                }
                self.peers.push(peer);
                assert(self.peers@.drop_last() =~= old(self).peers());
                true
            },
        }
    }

    /// Forget a peer the overlay reports as gone.
    pub fn unregister_peer(&mut self, node_id: &str)
        requires
            old(self).wf(),
        ensures
            final(self).wf(),
            final(self).local() == old(self).local(),
            final(self).cache() == old(self).cache(),
            !has_id(final(self).peers(), node_id@),
            final(self).peers() == if has_id(old(self).peers(), node_id@) {
                old(self).peers().remove(index_of(old(self).peers(), node_id@))
            } else {
                old(self).peers()
            },
    {
        match self.find(node_id) {
            Some(i) => {
                proof {
                    Self::lemma_remove_keeps_wf(self.peers@, self.local_node_id@, i as int);
                }
                self.peers.remove(i);
            },
            None => {},
        }
    }

    pub fn get_peer(&self, node_id: &str) -> (r: Option<&DiscoveredPeer>)
        requires
            self.wf(),
        ensures
            r is None <==> !has_id(self.peers(), node_id@),
            r matches Some(p) ==> *p == self.peers()[index_of(self.peers(), node_id@)],
    {
        match self.find(node_id) {
            Some(i) => Some(&self.peers[i]),
            None => None,
        }
    }

    pub fn has_peer(&self, node_id: &str) -> (r: bool)
        requires
            self.wf(),
        ensures
            r == has_id(self.peers(), node_id@),
    {
        self.find(node_id).is_some()
    }

    pub fn peer_count(&self) -> (r: usize)
        ensures
            r == self.peers().len(),
    {
        self.peers.len()
    }

    pub fn get_all_peers(&self) -> (r: Vec<&DiscoveredPeer>)
        ensures
            r@.len() == self.peers().len(),
            forall|i: int| 0 <= i < r@.len() ==> *r@[i] == self.peers()[i],
    {
        let mut out: Vec<&DiscoveredPeer> = Vec::new();
        let n = self.peers.len();
        let mut i: usize = 0;
        while i < n
            invariant
                n == self.peers@.len(),
                i <= n,
                out@.len() == i,
                forall|j: int| 0 <= j < i ==> *out@[j] == self.peers@[j],
            decreases n - i,
        {
            out.push(&self.peers[i]);
            i += 1;
        }
        out
    }

    /// The peers not expired at `now_ms`.
    pub fn get_active_peers(&self, now_ms: i64) -> (r: Vec<&DiscoveredPeer>)
        ensures
            r@.len() == active(self.peers(), now_ms as int).len(),
            forall|i: int| 0 <= i < r@.len() ==> *r@[i] == active(self.peers(), now_ms as int)[i],
    {
        let mut out: Vec<&DiscoveredPeer> = Vec::new();
        let n = self.peers.len();
        let mut i: usize = 0;
        while i < n
            invariant
                n == self.peers@.len(),
                i <= n,
                out@.len() == active(self.peers@.subrange(0, i as int), now_ms as int).len(),
                forall|j: int| 0 <= j < out@.len() ==> *out@[j] == active(self.peers@.subrange(0, i as int), now_ms as int)[j],
            decreases n - i,
        {
            assert(self.peers@.subrange(0, i + 1).drop_last() =~= self.peers@.subrange(0, i as int));
            if !self.peers[i].is_expired(now_ms) {
                out.push(&self.peers[i]);
            }
            i += 1;
        }
        assert(self.peers@.subrange(0, n as int) =~= self.peers@);
        out
    }

    pub fn active_peer_count(&self, now_ms: i64) -> (r: usize)
        ensures
            r == active(self.peers(), now_ms as int).len(),
    {
        let n = self.peers.len();
        let mut count: usize = 0;
        let mut i: usize = 0;
        while i < n
            invariant
                n == self.peers@.len(),
                i <= n,
                count == active(self.peers@.subrange(0, i as int), now_ms as int).len(),
                count <= i,
            decreases n - i,
        {
            assert(self.peers@.subrange(0, i + 1).drop_last() =~= self.peers@.subrange(0, i as int));
            if !self.peers[i].is_expired(now_ms) {
                count += 1;
            }
            i += 1;
        }
        assert(self.peers@.subrange(0, n as int) =~= self.peers@);
        count
    }

    /// Drop every peer expired at `now_ms`, and every cached announcement
    /// timestamp older than the expiry period. Returns how many peers went.
    pub fn cleanup_expired(&mut self, now_ms: i64) -> (r: usize)
        requires
            old(self).wf(),
        ensures
            final(self).wf(),
            final(self).local() == old(self).local(),
            final(self).peers() == active(old(self).peers(), now_ms as int),
            final(self).cache() == recent(old(self).cache(), now_ms - PEER_EXPIRY_MS),
            forall|i: int| 0 <= i < final(self).peers().len() ==> !expired_at(#[trigger] final(self).peers()[i].last_seen, now_ms as int),
            r == old(self).peers().len() - final(self).peers().len(),
    {
        let n = self.peers.len();
        let mut kept: Vec<DiscoveredPeer> = Vec::new();
        let mut i: usize = 0;
        while i < n
            invariant
                n == self.peers@.len(),
                i <= n,
                self.wf(),
                kept@ == active(self.peers@.subrange(0, i as int), now_ms as int),
                kept@.len() <= i,
                unique_ids(kept@),
                !has_id(kept@, self.local_node_id@),
                forall|k: int| 0 <= k < kept@.len() ==> has_id(self.peers@.subrange(0, i as int), #[trigger] kept@[k].node_id@),
            decreases n - i,
        {
            let ghost pre = self.peers@.subrange(0, i as int);
            assert(self.peers@.subrange(0, i + 1).drop_last() =~= pre);
            if !self.peers[i].is_expired(now_ms) {
                let p = self.peers[i].duplicate();
                proof {
                    if has_id(kept@, p.node_id@) {
                        let k = choose|k: int| 0 <= k < kept@.len() && #[trigger] kept@[k].node_id@ == p.node_id@;
                        assert(has_id(pre, kept@[k].node_id@));
                        let j = choose|j: int| 0 <= j < pre.len() && #[trigger] pre[j].node_id@ == kept@[k].node_id@;
                        assert(self.peers@[j].node_id@ != self.peers@[i as int].node_id@);
                    }
                    assert(self.peers@[i as int].node_id@ != self.local_node_id@);
                    Self::lemma_push_keeps_wf(kept@, self.local_node_id@, p);
                }
                kept.push(p);
            }
            proof {
                let post = self.peers@.subrange(0, i + 1);
                assert forall|k: int| 0 <= k < kept@.len() implies has_id(post, #[trigger] kept@[k].node_id@) by {
                    if has_id(pre, kept@[k].node_id@) {
                        let j = choose|j: int| 0 <= j < pre.len() && #[trigger] pre[j].node_id@ == kept@[k].node_id@;
                        assert(post[j] == pre[j]);
                    } else {
                        assert(post[i as int].node_id@ == kept@[k].node_id@);
                    }
                }
            }
            i += 1;
        }
        assert(self.peers@.subrange(0, n as int) =~= self.peers@);
        let cutoff: i128 = now_ms as i128 - PEER_EXPIRY_MS as i128;
        let m = self.announcement_cache.len();
        let mut cache: Vec<(String, i64)> = Vec::new();
        let mut j: usize = 0;
        while j < m
            invariant
                m == self.announcement_cache@.len(),
                j <= m,
                cutoff == now_ms - PEER_EXPIRY_MS,
                cache@.map_values(|e: (String, i64)| (e.0@, e.1)) == recent(
                    self.cache().subrange(0, j as int),
                    cutoff as int,
                ),
            decreases m - j,
        {
            assert(self.cache().subrange(0, j + 1).drop_last() =~= self.cache().subrange(0, j as int));
            let ts = self.announcement_cache[j].1;
            if (ts as i128) > cutoff {
                let ghost before = cache@;
                cache.push((self.announcement_cache[j].0.clone(), ts));
                assert(cache@.map_values(|e: (String, i64)| (e.0@, e.1)) =~= before.map_values(
                    |e: (String, i64)| (e.0@, e.1),
                ).push(self.cache()[j as int]));
            }
            j += 1;
        }
        assert(self.cache().subrange(0, m as int) =~= self.cache());
        let removed = n - kept.len();
        self.peers = kept;
        self.announcement_cache = cache;
        proof {
            lemma_active_fresh(old(self).peers(), now_ms as int);
        }
        removed
    }

    /// The active peers as peer-list entries: `node_id@address`, or the bare
    /// `node_id` when no address is known.
    pub fn get_peer_list_for_broadcast(&self, now_ms: i64) -> (r: Vec<String>)
        ensures
            crate::text::views(r@) == active(self.peers(), now_ms as int).map_values(|p: DiscoveredPeer| broadcast_entry(p)),
    {
        let mut out: Vec<String> = Vec::new();
        let n = self.peers.len();
        let mut i: usize = 0;
        while i < n
            invariant
                n == self.peers@.len(),
                i <= n,
                crate::text::views(out@) == active(self.peers@.subrange(0, i as int), now_ms as int).map_values(
                    |p: DiscoveredPeer| broadcast_entry(p),
                ),
            decreases n - i,
        {
            assert(self.peers@.subrange(0, i + 1).drop_last() =~= self.peers@.subrange(0, i as int));
            let p = &self.peers[i];
            if !p.is_expired(now_ms) {
                let mut entry = p.node_id.clone();
                match &p.address {
                    Some(a) => {
                        entry.append(text::at_sign());
                        entry.append(a.as_str());
                    },
                    None => {},
                }
                let ghost before = out@;
                out.push(entry);
                assert(crate::text::views(out@) =~= crate::text::views(before).push(broadcast_entry(*p)));
                assert(active(self.peers@.subrange(0, i + 1), now_ms as int).map_values(
                    |p: DiscoveredPeer| broadcast_entry(p),
                ) =~= active(self.peers@.subrange(0, i as int), now_ms as int).map_values(
                    |p: DiscoveredPeer| broadcast_entry(p),
                ).push(broadcast_entry(*p)));
            }
            i += 1;
        }
        assert(self.peers@.subrange(0, n as int) =~= self.peers@);
        out
    }

    /// The entries of a signed peer list worth connecting to: those naming
    /// neither the local node nor a known peer. A list from the local node,
    /// or one whose signature does not hold, gives nothing.
    pub fn process_peer_list(&self, list: &PeerListAnnouncement) -> (r: Vec<String>)
        requires
            self.wf(),
        ensures
            r@ == if list.from_node_id@ == self.local() || signed_check(
                list.public_key@,
                list.message_text(),
                list.signature@,
            ) != Ok::<bool, CryptoError>(true) {
                Seq::<String>::empty()
            } else {
                unknown_entries(list.peers@, self.peers(), self.local())
            },
    {
        let mut out: Vec<String> = Vec::new();
        if list.from_node_id == self.local_node_id {
            return out;
        }
        match list.verify() {
            Ok(true) => {},
            _ => {
                return out;
            },
        }
        let n = list.peers.len();
        let mut i: usize = 0;
        while i < n
            invariant
                n == list.peers@.len(),
                i <= n,
                self.wf(),
                out@ == unknown_entries(list.peers@.subrange(0, i as int), self.peers(), self.local()),
            decreases n - i,
        {
            assert(list.peers@.subrange(0, i + 1).drop_last() =~= list.peers@.subrange(0, i as int));
            let entry = &list.peers[i];
            let k = first_at_index(entry.as_str());
            let id = String::from_str(entry.as_str().substring_char(0, k));
            if id != self.local_node_id && self.find(id.as_str()).is_none() {
                out.push(entry.clone());
            }
            i += 1;
        }
        assert(list.peers@.subrange(0, n as int) =~= list.peers@);
        out
    }

    /// Take in a peer list in the older flat format: every listed peer that
    /// is neither the local node nor known yet is registered with its
    /// address and the list's region. Returns the ids registered.
    pub fn register_listed_peers(&mut self, list: &PeerDiscoveryAnnouncement, now_ms: i64) -> (r: Vec<String>)
        requires
            old(self).wf(),
        ensures
            final(self).wf(),
            final(self).local() == old(self).local(),
            final(self).cache() == old(self).cache(),
            text::views(r@) == new_listed_ids(text::views(list.connected_peers@), old(self).peers(), old(self).local()),
            forall|i: int| 0 <= i < old(self).peers().len() ==> has_id(final(self).peers(), #[trigger] old(self).peers()[i].node_id@),
            forall|i: int| 0 <= i < list.connected_peers@.len() && entry_node_id(#[trigger] list.connected_peers@[i]@) != old(self).local()
                ==> has_id(final(self).peers(), entry_node_id(list.connected_peers@[i]@)),
            forall|j: int|
                0 <= j < list.connected_peers@.len() && entry_node_id(#[trigger] list.connected_peers@[j]@) != old(self).local()
                    && !has_id(old(self).peers(), entry_node_id(list.connected_peers@[j]@)) && first_naming(
                    text::views(list.connected_peers@),
                    j,
                ) ==> listed_peer(
                    final(self).peers()[index_of(final(self).peers(), entry_node_id(list.connected_peers@[j]@))],
                    list.connected_peers@[j]@,
                    list.region,
                    now_ms,
                ),
    {
        let mut out: Vec<String> = Vec::new();
        let n = list.connected_peers.len();
        let ghost entries = text::views(list.connected_peers@);
        let ghost peers0 = self.peers();
        let mut i: usize = 0;
        while i < n
            invariant
                n == list.connected_peers@.len(),
                entries == text::views(list.connected_peers@),
                i <= n,
                self.wf(),
                self.local() == old(self).local(),
                self.cache() == old(self).cache(),
                peers0 == old(self).peers(),
                text::views(out@) == new_listed_ids(entries.subrange(0, i as int), peers0, self.local()),
                forall|j: int| 0 <= j < peers0.len() ==> has_id(self.peers(), #[trigger] peers0[j].node_id@),
                forall|j: int| 0 <= j < i && entry_node_id(#[trigger] entries[j]) != self.local()
                    ==> has_id(self.peers(), entry_node_id(entries[j])),
                forall|id: Seq<char>| #[trigger] has_id(self.peers(), id) ==> has_id(peers0, id)
                    || exists|j: int| 0 <= j < i && entry_node_id(#[trigger] entries[j]) == id,
                forall|j: int|
                    0 <= j < i && entry_node_id(#[trigger] entries[j]) != self.local() && !has_id(peers0, entry_node_id(entries[j]))
                        && first_naming(entries, j) ==> listed_peer(
                        self.peers()[index_of(self.peers(), entry_node_id(entries[j]))],
                        entries[j],
                        list.region,
                        now_ms,
                    ),
            decreases n - i,
        {
            let entry = &list.connected_peers[i];
            let k = first_at_index(entry.as_str());
            let len = entry.as_str().unicode_len();
            let id = String::from_str(entry.as_str().substring_char(0, k));
            let address = if k < len {
                let rest = entry.as_str().substring_char(k + 1, len);
                let k2 = first_at_index(rest);
                Some(String::from_str(rest.substring_char(0, k2)))
            } else {
                None
            };
            proof {
                if k < len {
                    let rest = entry@.subrange(k + 1, len as int);
                    assert(address matches Some(a) && a@ == rest.subrange(0, first_at(rest)));
                }
                assert(opt_text(address) == entry_address(entry@));
            }
            let ghost before = self.peers();
            let ghost out_before = text::views(out@);
            proof {
                assert(entries[i as int] == entry@);
                assert(entries.subrange(0, i + 1).drop_last() =~= entries.subrange(0, i as int));
                assert(entries.subrange(0, i + 1).last() == entry@);
            }
            let known = self.has_peer(id.as_str());
            if id != self.local_node_id && !known {
                let id_copy = id.clone();
                self.register_peer_from_list(id, address, list_region(&list.region), now_ms);
                out.push(id_copy);
                proof {
                    assert(text::views(out@) =~= out_before.push(entry_node_id(entry@)));
                    assert(!has_id(peers0, entry_node_id(entry@)));
                    assert(!(exists|j: int| 0 <= j < i && entry_node_id(#[trigger] entries.subrange(0, i as int)[j]) == entry_node_id(entry@))) by {
                        if exists|j: int| 0 <= j < i && entry_node_id(#[trigger] entries.subrange(0, i as int)[j]) == entry_node_id(entry@) {
                            let j = choose|j: int| 0 <= j < i && entry_node_id(#[trigger] entries.subrange(0, i as int)[j]) == entry_node_id(entry@);
                            assert(entries[j] == entries.subrange(0, i as int)[j]);
                        }
                    }
                }
            } else {
                proof {
                    if id@ != self.local_node_id@ {
                        if !has_id(peers0, id@) {
                            let j = choose|j: int| 0 <= j < i && entry_node_id(#[trigger] entries[j]) == id@;
                            assert(entries.subrange(0, i as int)[j] == entries[j]);
                        }
                    }
                }
            }
            proof {
                assert forall|j: int| 0 <= j < peers0.len() implies has_id(self.peers(), #[trigger] peers0[j].node_id@) by {
                    assert(has_id(before, peers0[j].node_id@));
                    let q = index_of(before, peers0[j].node_id@);
                    if before.len() < self.peers().len() {
                        assert(self.peers()[q] == before[q]);
                    } else {
                        assert(self.peers()[q].node_id@ == before[q].node_id@);
                    }
                }
                assert forall|id2: Seq<char>| #[trigger] has_id(self.peers(), id2) implies has_id(peers0, id2)
                    || exists|j: int| 0 <= j < i + 1 && entry_node_id(#[trigger] entries[j]) == id2 by {
                    let q = choose|q: int| 0 <= q < self.peers().len() && #[trigger] self.peers()[q].node_id@ == id2;
                    if q < before.len() {
                        assert(before[q].node_id@ == id2);
                        assert(has_id(before, id2));
                    } else {
                        assert(entry_node_id(entries[i as int]) == id2);
                    }
                }
                assert forall|j: int| 0 <= j < i + 1 && entry_node_id(#[trigger] entries[j]) != self.local()
                    implies has_id(self.peers(), entry_node_id(entries[j])) by {
                    if j < i {
                        let q = index_of(before, entry_node_id(entries[j]));
                        if before.len() < self.peers().len() {
                            assert(self.peers()[q] == before[q]);
                        } else {
                            assert(self.peers()[q].node_id@ == before[q].node_id@);
                        }
                    } else if known {
                        let q = index_of(before, id@);
                        assert(self.peers()[q] == before[q]);
                    } else {
                        assert(self.peers().last().node_id@ == id@);
                    }
                }
            }
            proof {
                assert forall|j: int|
                    0 <= j < i + 1 && entry_node_id(#[trigger] entries[j]) != self.local() && !has_id(peers0, entry_node_id(entries[j]))
                        && first_naming(entries, j) implies listed_peer(
                        self.peers()[index_of(self.peers(), entry_node_id(entries[j]))],
                        entries[j],
                        list.region,
                        now_ms,
                    ) by {
                    if j < i {
                        let q = index_of(before, entry_node_id(entries[j]));
                        if before.len() < self.peers().len() {
                            assert(self.peers()[q] == before[q]);
                            Self::lemma_index_of(self.peers(), q);
                        }
                    } else {
                        if known {
                            let j2 = choose|j2: int| 0 <= j2 < i && entry_node_id(#[trigger] entries[j2]) == id@;
                            assert(entry_node_id(entries[j2]) != entry_node_id(entries[j]));
                        }
                        let q = self.peers().len() - 1;
                        Self::lemma_index_of(self.peers(), q);
                    }
                }
            }
            i += 1;
        }
        assert(entries.subrange(0, n as int) =~= entries);
        assert forall|j: int|
            0 <= j < list.connected_peers@.len() && entry_node_id(#[trigger] list.connected_peers@[j]@) != old(self).local()
                && !has_id(old(self).peers(), entry_node_id(list.connected_peers@[j]@)) && first_naming(entries, j)
            implies listed_peer(
                self.peers()[index_of(self.peers(), entry_node_id(list.connected_peers@[j]@))],
                list.connected_peers@[j]@,
                list.region,
                now_ms,
            ) by {
            assert(entries[j] == list.connected_peers@[j]@);
        }
        assert forall|i: int| 0 <= i < list.connected_peers@.len() && entry_node_id(#[trigger] list.connected_peers@[i]@) != old(self).local()
            implies has_id(self.peers(), entry_node_id(list.connected_peers@[i]@)) by {
            assert(entries[i] == list.connected_peers@[i]@);
        }
        out
    }
}

} // verus!
