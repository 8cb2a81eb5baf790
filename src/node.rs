//! The node's shared state, status report, events and data-topic messages.
use vstd::prelude::*;
use crate::discovery::{LatencyResponse, one_way_latency};
use crate::registry::cache_get;

verus! {

/// Messages of the data topic.
#[derive(Debug, Clone)]
pub enum GossipMessage {
    Custom { from: String, content: String, timestamp: u64 },
    LatencyRequest { request_id: String, from_node_id: String, public_key: String, sent_at: i64, signature: String },
    LatencyResponse {
        request_id: String,
        from_node_id: String,
        public_key: String,
        region: Option<String>,
        responded_at: i64,
        signature: String,
    },
}

/// What the node reports about itself.
#[derive(Debug, Clone)]
pub struct NodeStatus {
    pub is_running: bool,
    pub node_id: Option<String>,
    pub connected_peers: usize,
    pub discovered_peers: usize,
    pub uptime_seconds: u64,
    pub gossip_messages_received: u64,
    pub storage_size_bytes: u64,
    pub total_keys: u64,
    pub total_operations: u64,
    pub sync_operations: usize,
    pub latency_requests_sent: u64,
    pub latency_responses_received: u64,
}

/// Events the node sends to its host.
#[derive(Debug, Clone)]
pub enum NodeEvent {
    Started { node_id: String, public_key: String },
    Stopped,
    PeerConnected { peer_id: String },
    PeerDisconnected { peer_id: String },
    PeerDiscovered { peer_id: String, address: Option<String> },
    GossipReceived { topic: String, from: String, content: String },
    SyncReceived { db_name: String, key: String },
    LatencyMeasured { peer_id: String, latency_ms: u64 },
    Error { message: String },
}

/// Counters the node loop keeps up to date for readers.
#[derive(Debug, Clone, Copy, PartialEq, Eq, Structural)]
pub struct SharedNodeState {
    pub is_running: bool,
    pub connected_peers: usize,
    pub discovered_peers: usize,
    pub gossip_messages_received: u64,
    pub latency_requests_sent: u64,
    pub latency_responses_received: u64,
    pub sync_operations: usize,
}

impl Default for SharedNodeState {
    /// A running node with every counter at zero.
    fn default() -> (r: Self)
        ensures
            r == (SharedNodeState {
                is_running: true,
                connected_peers: 0,
                discovered_peers: 0,
                gossip_messages_received: 0,
                latency_requests_sent: 0,
                latency_responses_received: 0,
                sync_operations: 0,
            }),
    {
        SharedNodeState {
            is_running: true,
            connected_peers: 0,
            discovered_peers: 0,
            gossip_messages_received: 0,
            latency_requests_sent: 0,
            latency_responses_received: 0,
            sync_operations: 0,
        }
    }
}

/// The status report: counters from the shared state, and both peer counts
/// from the registry, which is the one source of truth for peers.
pub fn node_status(
    state: &SharedNodeState,
    node_id: &String,
    peer_count: usize,
    uptime_seconds: u64,
    storage_size_bytes: u64,
    total_keys: u64,
) -> (r: NodeStatus)
    ensures
        r.is_running == state.is_running,
        r.node_id == Some(*node_id),
        r.connected_peers == peer_count,
        r.discovered_peers == peer_count,
        r.uptime_seconds == uptime_seconds,
        r.gossip_messages_received == state.gossip_messages_received,
        r.storage_size_bytes == storage_size_bytes,
        r.total_keys == total_keys,
        r.total_operations == 0,
        r.sync_operations == state.sync_operations,
        r.latency_requests_sent == state.latency_requests_sent,
        r.latency_responses_received == state.latency_responses_received,
{
    NodeStatus {
        is_running: state.is_running,
        node_id: Some(node_id.clone()),
        connected_peers: peer_count,
        discovered_peers: peer_count,
        uptime_seconds,
        gossip_messages_received: state.gossip_messages_received,
        storage_size_bytes,
        total_keys,
        total_operations: 0,
        sync_operations: state.sync_operations,
        latency_requests_sent: state.latency_requests_sent,
        latency_responses_received: state.latency_responses_received,
    }
}


/// The entries for other request ids, in their order.
pub open spec fn without_request(entries: Seq<(Seq<char>, i64)>, id: Seq<char>) -> Seq<(Seq<char>, i64)>
    decreases entries.len(),
{
    if entries.len() == 0 {
        Seq::empty()
    } else if entries.last().0 == id {
        without_request(entries.drop_last(), id)
    } else {
        without_request(entries.drop_last(), id).push(entries.last())
    }
}

/// Latency probes sent and not answered yet: request id and send time (ms).
pub struct PendingLatency {
    pending: Vec<(String, i64)>,
}

impl PendingLatency {
    pub closed spec fn entries(&self) -> Seq<(Seq<char>, i64)> {
        self.pending@.map_values(|e: (String, i64)| (e.0@, e.1))
    }

    pub fn new() -> (r: Self)
        ensures
            r.entries() == Seq::<(Seq<char>, i64)>::empty(),
    {
        let r = PendingLatency { pending: Vec::new() };
        assert(r.entries() =~= Seq::<(Seq<char>, i64)>::empty());
        r
    }

    /// Remember a probe sent at `sent_at`.
    pub fn insert(&mut self, request_id: String, sent_at: i64)
        ensures
            final(self).entries() == old(self).entries().push((request_id@, sent_at)),
    {
        let ghost id = request_id@;
        self.pending.push((request_id, sent_at));
        assert(self.entries() =~= old(self).entries().push((id, sent_at)));
    }

    fn sent_at(&self, id: &String) -> (r: Option<i64>)
        ensures
            r == cache_get(self.entries(), id@),
    {
        let mut i: usize = self.pending.len();
        assert(self.entries().subrange(0, i as int) =~= self.entries());
        while i > 0
            invariant
                i <= self.pending@.len(),
                self.entries().len() == self.pending@.len(),
                cache_get(self.entries(), id@) == cache_get(self.entries().subrange(0, i as int), id@),
            decreases i,
        {
            assert(self.entries().subrange(0, i as int).drop_last() =~= self.entries().subrange(0, i - 1));
            if self.pending[i - 1].0 == *id {
                return Some(self.pending[i - 1].1);
            }
            i -= 1;
        }
        None
    }

    /// Match a response to its probe: the probe is forgotten and the one-way
    /// latency returned. A response to no pending probe gives nothing.
    pub fn complete(&mut self, response: &LatencyResponse) -> (r: Option<u64>)
        ensures
            match cache_get(old(self).entries(), response.request_id@) {
                None => r is None && final(self).entries() == old(self).entries(),
                Some(sent_at) => r == Some(one_way_latency(response.responded_at as int, sent_at as int) as u64)
                    && final(self).entries() == without_request(old(self).entries(), response.request_id@),
            },
    {
        let n = self.pending.len();
        let sent_at = match self.sent_at(&response.request_id) {
            None => {
                return None;
            },
            Some(t) => t,
        };
        let ghost all = self.entries();
        let mut kept: Vec<(String, i64)> = Vec::new();
        let mut j: usize = 0;
        while j < n
            invariant
                n == self.pending@.len(),
                all == self.entries(),
                j <= n,
                kept@.map_values(|e: (String, i64)| (e.0@, e.1)) == without_request(all.subrange(0, j as int), response.request_id@),
            decreases n - j,
        {
            assert(all.subrange(0, j + 1).drop_last() =~= all.subrange(0, j as int));
            if self.pending[j].0 != response.request_id {
                let ghost before = kept@;
                kept.push((self.pending[j].0.clone(), self.pending[j].1));
                assert(kept@.map_values(|e: (String, i64)| (e.0@, e.1)) =~= before.map_values(
                    |e: (String, i64)| (e.0@, e.1),
                ).push(all[j as int]));
            }
            j += 1;
        }
        assert(all.subrange(0, n as int) =~= all);
        self.pending = kept;
        Some(response.calculate_latency(sent_at))
    }
}

} // verus!
