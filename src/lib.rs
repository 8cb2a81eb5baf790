//! A mobile-class peer of a gossip-based key/value network: signed peer
//! discovery, a last-writer-wins replication store, and the connection
//! policies that keep a flaky node attached to its overlay.
use vstd::prelude::*;

pub mod api;
pub mod crypto;
pub mod discovery;
pub mod envelope;
pub mod node;
pub mod registry;
pub mod resilience;
pub mod sync;
pub mod text;

pub use crypto::{generate_keypair, sign_message, verify_signature};
pub use discovery::{DiscoveredPeer, NodeCapabilities, PeerAnnouncement};
pub use node::{GossipMessage, NodeEvent, NodeStatus};
pub use registry::PeerRegistry;
pub use resilience::NetworkResilience;
pub use sync::{SignedOperation, SyncManager, SyncMessage, SyncStats};

verus! {

} // verus!
