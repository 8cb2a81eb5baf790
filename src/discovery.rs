//! Signed discovery messages and the registry of known peers.
//!
//! Times are milliseconds on the local wall clock, handed in by the caller.
use vstd::prelude::*;
use vstd::string::*;
use vstd::utf8::*;
use crate::crypto::{self, CryptoError, hex_encoded, ed25519_signature, hex_signature_check};
use crate::text::{self, decimal, joined, views, text_or_empty};

verus! {

/// How long, in seconds, a peer stays known without a new signal.
pub const PEER_EXPIRY_SECS: u64 = 300;

/// How often, in seconds, a node announces itself.
pub const ANNOUNCE_INTERVAL_SECS: u64 = 10;

pub const PEER_EXPIRY_MS: i64 = 300000;

/// Relies on uuid::Uuid::new_v4 and its hyphenated text form, which is 36
/// characters long.
#[verifier::external_body]
pub(crate) fn new_uuid() -> (r: String)
    ensures
        r@.len() == 36,
{
    uuid::Uuid::new_v4().to_string()
}

#[derive(Debug, Clone, Copy, PartialEq, Eq, Structural, Default)]
pub struct NodeCapabilities {
    pub mqtt: bool,
    pub streams: bool,
    pub timeseries: bool,
    pub geo: bool,
    pub blobs: bool,
    pub mobile: bool,
}

impl NodeCapabilities {
    /// The profile a mobile node announces: blobs and mobile, nothing else.
    pub fn mobile_node() -> (r: Self)
        ensures
            r == (NodeCapabilities {
                mqtt: false,
                streams: false,
                timeseries: false,
                geo: false,
                blobs: true,
                mobile: true,
            }),
    {
        NodeCapabilities {
            mqtt: false,
            streams: false,
            timeseries: false,
            geo: false,
            blobs: true,
            mobile: true,
        }
    }

    pub fn none() -> (r: Self)
        ensures
            r == (NodeCapabilities {
                mqtt: false,
                streams: false,
                timeseries: false,
                geo: false,
                blobs: false,
                mobile: false,
            }),
    {
        NodeCapabilities {
            mqtt: false,
            streams: false,
            timeseries: false,
            geo: false,
            blobs: false,
            mobile: false,
        }
    }
}

/// A peer known to this node.
#[derive(Debug, Clone)]
pub struct DiscoveredPeer {
    pub node_id: String,
    /// Hex public key; empty when only an overlay neighbour is known.
    pub public_key: String,
    pub address: Option<String>,
    pub capabilities: NodeCapabilities,
    pub region: Option<String>,
    pub version: Option<String>,
    /// Local time (ms) of the last signal from this peer.
    pub last_seen: Option<i64>,
    pub latency_ms: Option<u64>,
}

/// A peer is expired when it was never seen, or last seen more than the
/// expiry period before `now_ms`.
pub open spec fn expired_at(last_seen: Option<i64>, now_ms: int) -> bool {
    match last_seen {
        None => true,
        Some(t) => now_ms - t > PEER_EXPIRY_MS,
    }
}

impl DiscoveredPeer {
    pub fn is_expired(&self, now_ms: i64) -> (r: bool)
        ensures
            r == expired_at(self.last_seen, now_ms as int),
    {
        match self.last_seen {
            None => true,
            Some(t) => (now_ms as i128) - (t as i128) > PEER_EXPIRY_MS as i128,
        }
    }

    /// A copy with every field the same.
    pub fn duplicate(&self) -> (r: Self)
        ensures
            r == *self,
    {
        DiscoveredPeer {
            node_id: self.node_id.clone(),
            public_key: self.public_key.clone(),
            address: text::clone_opt(&self.address),
            capabilities: self.capabilities,
            region: text::clone_opt(&self.region),
            version: text::clone_opt(&self.version),
            last_seen: self.last_seen,
            latency_ms: self.latency_ms,
        }
    }
}

/// The bytes a signing message stands for.
pub open spec fn message_bytes(text: Seq<char>) -> Seq<u8> {
    encode_utf8(text)
}

/// How a signed message checks: an empty signature is simply not valid.
pub open spec fn signed_check(public_key: Seq<char>, text: Seq<char>, signature: Seq<char>) -> Result<bool, CryptoError> {
    if signature.len() == 0 {
        Ok(false)
    } else {
        hex_signature_check(public_key, message_bytes(text), signature)
    }
}

fn check_signed(public_key: &String, message: &String, signature: &String) -> (r: Result<bool, CryptoError>)
    ensures
        r == signed_check(public_key@, message@, signature@),
{
    if signature.as_str().unicode_len() == 0 {
        return Ok(false);
    }
    crypto::verify_signature(public_key.as_str(), message.as_str().as_bytes(), signature.as_str())
}

/// A node's signed advertisement of itself.
#[derive(Debug, Clone)]
pub struct PeerAnnouncement {
    pub id: String,
    pub node_id: String,
    pub public_key: String,
    pub address: Option<String>,
    pub capabilities: NodeCapabilities,
    pub region: Option<String>,
    pub version: Option<String>,
    /// Unix time in milliseconds.
    pub timestamp: i64,
    pub signature: String,
}

impl PeerAnnouncement {
    /// `{id}:{node_id}:{timestamp}:{address or empty}`.
    pub open spec fn message_text(&self) -> Seq<char> {
        self.id@ + seq![':'] + self.node_id@ + seq![':'] + decimal(self.timestamp as int) + seq![':']
            + text_or_empty(self.address)
    }

    /// An unsigned announcement with a fresh id, stamped with the current time.
    pub fn new(
        node_id: String,
        public_key: String,
        address: Option<String>,
        capabilities: NodeCapabilities,
        region: Option<String>,
        version: Option<String>,
    ) -> (r: Self)
        ensures
            r.id@.len() == 36,
            r.node_id == node_id,
            r.public_key == public_key,
            r.address == address,
            r.capabilities == capabilities,
            r.region == region,
            r.version == version,
            r.signature@.len() == 0,
    {
        PeerAnnouncement {
            id: new_uuid(),
            node_id,
            public_key,
            address,
            capabilities,
            region,
            version,
            timestamp: crypto::now_millis(),
            signature: String::new(),
        }
    }

    pub fn signing_message(&self) -> (r: String)
        ensures
            r@ == self.message_text(),
    {
        let mut s = self.id.clone();
        s.append(text::colon());
        s.append(self.node_id.as_str());
        s.append(text::colon());
        let ts = text::i64_to_decimal(self.timestamp);
        s.append(ts.as_str());
        s.append(text::colon());
        match &self.address {
            Some(a) => s.append(a.as_str()),
            None => {},
        }
        s
    }

    pub fn sign(&mut self, secret: &[u8; 32])
        ensures
            final(self).signature@ == hex_encoded(
                ed25519_signature(secret@, message_bytes(old(self).message_text())),
            ),
            *final(self) == (PeerAnnouncement { signature: final(self).signature, ..*old(self) }),
    {
        let message = self.signing_message();
        self.signature = crypto::sign_message(secret, message.as_str().as_bytes());
    }

    pub fn verify(&self) -> (r: Result<bool, CryptoError>)
        ensures
            r == signed_check(self.public_key@, self.message_text(), self.signature@),
    {
        let message = self.signing_message();
        check_signed(&self.public_key, &message, &self.signature)
    }

    /// The peer this announcement describes, seen at `now_ms`.
    pub open spec fn peer_at(&self, now_ms: i64) -> DiscoveredPeer {
        DiscoveredPeer {
            node_id: self.node_id,
            public_key: self.public_key,
            address: self.address,
            capabilities: self.capabilities,
            region: self.region,
            version: self.version,
            last_seen: Some(now_ms),
            latency_ms: None,
        }
    }

    pub fn to_discovered_peer(&self, now_ms: i64) -> (r: DiscoveredPeer)
        ensures
            r == self.peer_at(now_ms),
    {
        DiscoveredPeer {
            node_id: self.node_id.clone(),
            public_key: self.public_key.clone(),
            address: text::clone_opt(&self.address),
            capabilities: self.capabilities,
            region: text::clone_opt(&self.region),
            version: text::clone_opt(&self.version),
            last_seen: Some(now_ms),
            latency_ms: None,
        }
    }
}

/// A signed list of the peers a node knows, each `node_id@address` or a bare `node_id`.
#[derive(Debug, Clone)]
pub struct PeerListAnnouncement {
    pub from_node_id: String,
    pub public_key: String,
    pub peers: Vec<String>,
    pub timestamp: i64,
    pub signature: String,
}

/// The older flat peer-list format, still accepted on the peer-list topic.
#[derive(Debug, Clone)]
pub struct PeerDiscoveryAnnouncement {
    pub node_id: String,
    pub connected_peers: Vec<String>,
    pub timestamp: i64,
    pub region: String,
    pub signature: String,
}

impl PeerListAnnouncement {
    /// `{from_node_id}:{timestamp}:{peers joined by ','}`.
    pub open spec fn message_text(&self) -> Seq<char> {
        self.from_node_id@ + seq![':'] + decimal(self.timestamp as int) + seq![':'] + joined(views(self.peers@))
    }

    pub fn new(from_node_id: String, public_key: String, peers: Vec<String>) -> (r: Self)
        ensures
            r.from_node_id == from_node_id,
            r.public_key == public_key,
            r.peers == peers,
            r.signature@.len() == 0,
    {
        PeerListAnnouncement {
            from_node_id,
            public_key,
            peers,
            timestamp: crypto::now_millis(),
            signature: String::new(),
        }
    }

    pub fn signing_message(&self) -> (r: String)
        ensures
            r@ == self.message_text(),
    {
        let mut s = self.from_node_id.clone();
        s.append(text::colon());
        let ts = text::i64_to_decimal(self.timestamp);
        s.append(ts.as_str());
        s.append(text::colon());
        let list = text::join_commas(&self.peers);
        s.append(list.as_str());
        s
    }

    pub fn sign(&mut self, secret: &[u8; 32])
        ensures
            final(self).signature@ == hex_encoded(
                ed25519_signature(secret@, message_bytes(old(self).message_text())),
            ),
            *final(self) == (PeerListAnnouncement { signature: final(self).signature, ..*old(self) }),
    {
        let message = self.signing_message();
        self.signature = crypto::sign_message(secret, message.as_str().as_bytes());
    }

    pub fn verify(&self) -> (r: Result<bool, CryptoError>)
        ensures
            r == signed_check(self.public_key@, self.message_text(), self.signature@),
    {
        let message = self.signing_message();
        check_signed(&self.public_key, &message, &self.signature)
    }
}

/// A signed probe; the response echoes its `request_id`.
#[derive(Debug, Clone)]
pub struct LatencyRequest {
    pub request_id: String,
    pub from_node_id: String,
    pub public_key: String,
    pub sent_at: i64,
    pub signature: String,
}

impl LatencyRequest {
    /// `{request_id}:{from_node_id}:{sent_at}`.
    pub open spec fn message_text(&self) -> Seq<char> {
        self.request_id@ + seq![':'] + self.from_node_id@ + seq![':'] + decimal(self.sent_at as int)
    }

    pub fn new(from_node_id: String, public_key: String) -> (r: Self)
        ensures
            r.request_id@.len() == 36,
            r.from_node_id == from_node_id,
            r.public_key == public_key,
            r.signature@.len() == 0,
    {
        LatencyRequest {
            request_id: new_uuid(),
            from_node_id,
            public_key,
            sent_at: crypto::now_millis(),
            signature: String::new(),
        }
    }

    pub fn signing_message(&self) -> (r: String)
        ensures
            r@ == self.message_text(),
    {
        let mut s = self.request_id.clone();
        s.append(text::colon());
        s.append(self.from_node_id.as_str());
        s.append(text::colon());
        let ts = text::i64_to_decimal(self.sent_at);
        s.append(ts.as_str());
        s
    }

    pub fn sign(&mut self, secret: &[u8; 32])
        ensures
            final(self).signature@ == hex_encoded(
                ed25519_signature(secret@, message_bytes(old(self).message_text())),
            ),
            *final(self) == (LatencyRequest { signature: final(self).signature, ..*old(self) }),
    {
        let message = self.signing_message();
        self.signature = crypto::sign_message(secret, message.as_str().as_bytes());
    }

    pub fn verify(&self) -> (r: Result<bool, CryptoError>)
        ensures
            r == signed_check(self.public_key@, self.message_text(), self.signature@),
    {
        let message = self.signing_message();
        check_signed(&self.public_key, &message, &self.signature)
    }
}

/// The signed answer to a latency probe.
#[derive(Debug, Clone)]
pub struct LatencyResponse {
    pub request_id: String,
    pub from_node_id: String,
    pub public_key: String,
    pub region: Option<String>,
    pub responded_at: i64,
    pub signature: String,
}

/// One-way latency: half the round trip, and zero when the round trip is not positive.
pub open spec fn one_way_latency(responded_at: int, sent_at: int) -> int {
    if responded_at - sent_at > 0 {
        (responded_at - sent_at) / 2
    } else {
        0
    }
}

impl LatencyResponse {
    /// `{request_id}:{from_node_id}:{responded_at}`.
    pub open spec fn message_text(&self) -> Seq<char> {
        self.request_id@ + seq![':'] + self.from_node_id@ + seq![':'] + decimal(self.responded_at as int)
    }

    pub fn new(request_id: String, from_node_id: String, public_key: String, region: Option<String>) -> (r: Self)
        ensures
            r.request_id == request_id,
            r.from_node_id == from_node_id,
            r.public_key == public_key,
            r.region == region,
            r.signature@.len() == 0,
    {
        LatencyResponse {
            request_id,
            from_node_id,
            public_key,
            region,
            responded_at: crypto::now_millis(),
            signature: String::new(),
        }
    }

    pub fn signing_message(&self) -> (r: String)
        ensures
            r@ == self.message_text(),
    {
        let mut s = self.request_id.clone();
        s.append(text::colon());
        s.append(self.from_node_id.as_str());
        s.append(text::colon());
        let ts = text::i64_to_decimal(self.responded_at);
        s.append(ts.as_str());
        s
    }

    pub fn sign(&mut self, secret: &[u8; 32])
        ensures
            final(self).signature@ == hex_encoded(
                ed25519_signature(secret@, message_bytes(old(self).message_text())),
            ),
            *final(self) == (LatencyResponse { signature: final(self).signature, ..*old(self) }),
    {
        let message = self.signing_message();
        self.signature = crypto::sign_message(secret, message.as_str().as_bytes());
    }

    pub fn verify(&self) -> (r: Result<bool, CryptoError>)
        ensures
            r == signed_check(self.public_key@, self.message_text(), self.signature@),
    {
        let message = self.signing_message();
        check_signed(&self.public_key, &message, &self.signature)
    }

    /// Latency from the time the request was sent, in milliseconds.
    pub fn calculate_latency(&self, request_sent_at: i64) -> (r: u64)
        ensures
            r as int == one_way_latency(self.responded_at as int, request_sent_at as int),
    {
        let rtt: i128 = self.responded_at as i128 - request_sent_at as i128;
        if rtt > 0 {
            (rtt / 2) as u64
        } else {
            0
        }
    }
}

/// The messages of the discovery and peer-list topics.
#[derive(Debug, Clone)]
pub enum DiscoveryMessage {
    Announce(PeerAnnouncement),
    PeerList(PeerListAnnouncement),
    LatencyRequest(LatencyRequest),
    LatencyResponse(LatencyResponse),
}

} // verus!
