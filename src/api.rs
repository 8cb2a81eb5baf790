//! Values the host application sees, and the bounded log it can read.
use vstd::prelude::*;
use crate::discovery::DiscoveredPeer;
use crate::node::NodeStatus;

verus! {

/// Entries the log keeps; the oldest goes first.
pub const MAX_LOG_ENTRIES: usize = 500;

/// Entries `get_logs` returns when no limit is given.
pub const DEFAULT_LOG_LIMIT: u32 = 100;

pub struct NodeInfo {
    pub node_id: String,
    pub public_key: String,
    pub is_running: bool,
}

pub struct PeerInfoDto {
    pub node_id: String,
    pub public_key: String,
    pub address: Option<String>,
    pub region: Option<String>,
    pub version: Option<String>,
    pub latency_ms: Option<u64>,
    pub is_mobile: bool,
}

impl PeerInfoDto {
    pub fn from_peer(peer: &DiscoveredPeer) -> (r: Self)
        ensures
            r.node_id == peer.node_id,
            r.public_key == peer.public_key,
            r.address == peer.address,
            r.region == peer.region,
            r.version == peer.version,
            r.latency_ms == peer.latency_ms,
            r.is_mobile == peer.capabilities.mobile,
    {
        PeerInfoDto {
            node_id: peer.node_id.clone(),
            public_key: peer.public_key.clone(),
            address: crate::text::clone_opt(&peer.address),
            region: crate::text::clone_opt(&peer.region),
            version: crate::text::clone_opt(&peer.version),
            latency_ms: peer.latency_ms,
            is_mobile: peer.capabilities.mobile,
        }
    }
}

pub struct NodeStatusDto {
    pub is_running: bool,
    pub node_id: Option<String>,
    pub connected_peers: u32,
    pub discovered_peers: u32,
    pub uptime_seconds: u64,
    pub gossip_messages_received: u64,
    pub storage_size_bytes: u64,
    pub total_keys: u64,
    pub sync_operations: u32,
    pub latency_requests_sent: u64,
    pub latency_responses_received: u64,
}

impl NodeStatusDto {
    /// The report in the host's shape; counts above `u32::MAX` saturate.
    pub fn from_status(status: &NodeStatus) -> (r: Self)
        ensures
            r.is_running == status.is_running,
            r.node_id == status.node_id,
            r.connected_peers == if status.connected_peers > u32::MAX { u32::MAX as int } else { status.connected_peers as int },
            r.discovered_peers == if status.discovered_peers > u32::MAX { u32::MAX as int } else { status.discovered_peers as int },
            r.sync_operations == if status.sync_operations > u32::MAX { u32::MAX as int } else { status.sync_operations as int },
            r.uptime_seconds == status.uptime_seconds,
            r.gossip_messages_received == status.gossip_messages_received,
            r.storage_size_bytes == status.storage_size_bytes,
            r.total_keys == status.total_keys,
            r.latency_requests_sent == status.latency_requests_sent,
            r.latency_responses_received == status.latency_responses_received,
    {
        NodeStatusDto {
            is_running: status.is_running,
            node_id: crate::text::clone_opt(&status.node_id),
            connected_peers: saturate_u32(status.connected_peers),
            discovered_peers: saturate_u32(status.discovered_peers),
            uptime_seconds: status.uptime_seconds,
            gossip_messages_received: status.gossip_messages_received,
            storage_size_bytes: status.storage_size_bytes,
            total_keys: status.total_keys,
            sync_operations: saturate_u32(status.sync_operations),
            latency_requests_sent: status.latency_requests_sent,
            latency_responses_received: status.latency_responses_received,
        }
    }
}

fn saturate_u32(n: usize) -> (r: u32)
    ensures
        r == if n > u32::MAX { u32::MAX as int } else { n as int },
{
    if n > u32::MAX as usize {
        u32::MAX
    } else {
        n as u32
    }
}

#[derive(Debug, Clone)]
pub struct LogEntry {
    pub timestamp: i64,
    pub level: String,
    pub message: String,
}

impl LogEntry {
    pub fn duplicate(&self) -> (r: Self)
        ensures
            r == *self,
    {
        LogEntry { timestamp: self.timestamp, level: self.level.clone(), message: self.message.clone() }
    }
}

pub enum NodeEventDto {
    Started { node_id: String, public_key: String },
    Stopped,
    PeerConnected { peer_id: String },
    PeerDisconnected { peer_id: String },
    PeerDiscovered { peer_id: String, address: Option<String> },
    GossipReceived { topic: String, from: String, content: String },
    SyncReceived { db_name: String, key: String },
    LatencyMeasured { peer_id: String, latency_ms: u64 },
    Error { message: String },
}

pub struct KeyPairDto {
    pub public_key: String,
    pub secret_key: String,
}

pub struct DbEntryDto {
    pub db_name: String,
    pub key: String,
    pub value: String,
    pub value_bytes: Vec<u8>,
}

/// The most recent log entries, oldest first, at most `MAX_LOG_ENTRIES`.
pub struct LogBuffer {
    entries: Vec<LogEntry>,
}

impl LogBuffer {
    pub closed spec fn entries(&self) -> Seq<LogEntry> {
        self.entries@
    }

    pub fn new() -> (r: Self)
        ensures
            r.entries() == Seq::<LogEntry>::empty(),
    {
        LogBuffer { entries: Vec::new() }
    }

    /// Add an entry, dropping the oldest when the buffer is full.
    pub fn push(&mut self, entry: LogEntry)
        ensures
            old(self).entries().len() <= MAX_LOG_ENTRIES ==> final(self).entries().len() <= MAX_LOG_ENTRIES,
            final(self).entries() == if old(self).entries().len() >= MAX_LOG_ENTRIES {
                old(self).entries().drop_first().push(entry)
            } else {
                old(self).entries().push(entry)
            },
    {
        if self.entries.len() >= MAX_LOG_ENTRIES {
            self.entries.remove(0);
        }
        self.entries.push(entry);
    }

    /// The last `limit` entries (100 when none is given), oldest first.
    pub fn recent(&self, limit: Option<u32>) -> (r: Vec<LogEntry>)
        ensures
            ({
                let n = self.entries().len();
                let l: int = match limit {
                    Some(x) => x as int,
                    None => DEFAULT_LOG_LIMIT as int,
                };
                let k = if l < n { l } else { n as int };
                r@ == self.entries().subrange(n - k, n as int)
            }),
    {
        let n = self.entries.len();
        let l: u32 = match limit {
            Some(x) => x,
            None => DEFAULT_LOG_LIMIT,
        };
        let k: usize = if (l as usize) < n { l as usize } else { n };
        let mut out: Vec<LogEntry> = Vec::new();
        let mut i: usize = n - k;
        while i < n
            invariant
                n == self.entries@.len(),
                k <= n,
                n - k <= i <= n,
                out@ == self.entries@.subrange(n - k, i as int),
            decreases n - i,
        {
            out.push(self.entries[i].duplicate());
            assert(out@ =~= self.entries@.subrange(n - k, i + 1));
            i += 1;
        }
        out
    }

    pub fn clear(&mut self)
        ensures
            final(self).entries() == Seq::<LogEntry>::empty(),
    {
        self.entries.clear();
    }
}

} // verus!
