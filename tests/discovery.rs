use cyberfly_mobile::crypto::{generate_keypair, sign_message};
use cyberfly_mobile::discovery::{
    LatencyRequest, LatencyResponse, NodeCapabilities, PeerAnnouncement, PeerDiscoveryAnnouncement, PeerListAnnouncement,
};
use cyberfly_mobile::node::PendingLatency;
use cyberfly_mobile::registry::PeerRegistry;

fn signed_announcement(node_id: &str, address: Option<String>) -> ([u8; 32], PeerAnnouncement) {
    let (secret, public_key) = generate_keypair();
    let mut a = PeerAnnouncement::new(node_id.to_string(), public_key, address, NodeCapabilities::default(), None, None);
    a.sign(&secret);
    (secret, a)
}

#[test]
fn test_peer_announcement_signing() {
    let (secret, public_key) = generate_keypair();
    let mut announcement = PeerAnnouncement::new(
        "node123".to_string(),
        public_key,
        Some("127.0.0.1:8080".to_string()),
        NodeCapabilities::mobile_node(),
        Some("us-west".to_string()),
        Some("1.0.0".to_string()),
    );
    announcement.sign(&secret);
    assert!(!announcement.signature.is_empty());
    assert!(announcement.verify().unwrap());
}

#[test]
fn test_peer_registry() {
    let (secret, public_key) = generate_keypair();
    let mut registry = PeerRegistry::new("local-node".to_string());
    let mut announcement = PeerAnnouncement::new(
        "remote-node".to_string(),
        public_key,
        None,
        NodeCapabilities::default(),
        None,
        None,
    );
    announcement.sign(&secret);
    let is_new = registry.process_announcement(&announcement, 1_000).unwrap();
    assert!(is_new);
    assert_eq!(registry.peer_count(), 1);
    let is_new_again = registry.process_announcement(&announcement, 2_000).unwrap();
    assert!(!is_new_again);
}

#[test]
fn test_latency_calculation() {
    let sent_at = 1000i64;
    let response = LatencyResponse {
        request_id: "req1".to_string(),
        from_node_id: "node1".to_string(),
        public_key: "pub".to_string(),
        region: None,
        responded_at: 1100,
        signature: String::new(),
    };
    let latency = response.calculate_latency(sent_at);
    assert_eq!(latency, 50);
}

#[test]
fn latency_never_negative() {
    let response = LatencyResponse {
        request_id: "r".to_string(),
        from_node_id: "n".to_string(),
        public_key: String::new(),
        region: None,
        responded_at: 900,
        signature: String::new(),
    };
    assert_eq!(response.calculate_latency(1000), 0);
    assert_eq!(response.calculate_latency(900), 0);
    assert_eq!(response.calculate_latency(897), 1);
    assert_eq!(response.calculate_latency(i64::MIN), (((900i128 - i64::MIN as i128) / 2) as u64));
}

#[test]
fn signing_messages_have_their_formats() {
    let a = PeerAnnouncement {
        id: "id1".to_string(),
        node_id: "n1".to_string(),
        public_key: String::new(),
        address: None,
        capabilities: NodeCapabilities::default(),
        region: None,
        version: None,
        timestamp: -42,
        signature: String::new(),
    };
    assert_eq!(a.signing_message(), "id1:n1:-42:");
    let with_addr = PeerAnnouncement { address: Some("1.2.3.4:5".to_string()), timestamp: 1234567890123, ..a };
    assert_eq!(with_addr.signing_message(), "id1:n1:1234567890123:1.2.3.4:5");
    let list = PeerListAnnouncement {
        from_node_id: "f".to_string(),
        public_key: String::new(),
        peers: vec!["a@1.1.1.1:1".to_string(), "b".to_string()],
        timestamp: 7,
        signature: String::new(),
    };
    assert_eq!(list.signing_message(), "f:7:a@1.1.1.1:1,b");
    let req = LatencyRequest {
        request_id: "r".to_string(),
        from_node_id: "n".to_string(),
        public_key: String::new(),
        sent_at: 0,
        signature: String::new(),
    };
    assert_eq!(req.signing_message(), "r:n:0");
}

#[test]
fn unsigned_or_tampered_messages_do_not_verify() {
    let (_, a) = signed_announcement("peer", None);
    let unsigned = PeerAnnouncement { signature: String::new(), ..a.clone() };
    assert_eq!(unsigned.verify(), Ok(false));
    let tampered = PeerAnnouncement { timestamp: a.timestamp + 1, ..a.clone() };
    assert_eq!(tampered.verify(), Ok(false));
    let (secret, pk) = generate_keypair();
    let mut req = LatencyRequest::new("me".to_string(), pk.clone());
    assert_eq!(req.request_id.len(), 36);
    req.sign(&secret);
    assert_eq!(req.verify(), Ok(true));
    let mut resp = LatencyResponse::new(req.request_id.clone(), "you".to_string(), pk, None);
    resp.sign(&secret);
    assert_eq!(resp.verify(), Ok(true));
    assert_eq!(resp.signature, sign_message(&secret, resp.signing_message().as_bytes()));
}

#[test]
fn stale_announcement_is_ignored() {
    let (secret, a) = signed_announcement("peer", Some("10.0.0.1:1".to_string()));
    let mut registry = PeerRegistry::new("me".to_string());
    assert_eq!(registry.process_announcement(&a, 100), Ok(true));
    let mut older = PeerAnnouncement { timestamp: a.timestamp - 1, address: Some("10.0.0.2:2".to_string()), ..a.clone() };
    older.sign(&secret);
    assert_eq!(registry.process_announcement(&older, 200), Ok(false));
    assert_eq!(registry.get_peer("peer").unwrap().address.as_deref(), Some("10.0.0.1:1"));
    assert_eq!(registry.get_peer("peer").unwrap().last_seen, Some(100));
    let mut newer = PeerAnnouncement { timestamp: a.timestamp + 1, address: Some("10.0.0.3:3".to_string()), ..a.clone() };
    newer.sign(&secret);
    assert_eq!(registry.process_announcement(&newer, 300), Ok(false));
    assert_eq!(registry.get_peer("peer").unwrap().address.as_deref(), Some("10.0.0.3:3"));
    assert_eq!(registry.peer_count(), 1);
}

#[test]
fn own_announcement_and_bad_signature_rejected() {
    let (_, own) = signed_announcement("me", None);
    let mut registry = PeerRegistry::new("me".to_string());
    assert_eq!(registry.process_announcement(&own, 1), Ok(false));
    let (_, mut forged) = signed_announcement("peer", None);
    forged.node_id = "other".to_string();
    assert_eq!(registry.process_announcement(&forged, 1), Ok(false));
    assert_eq!(registry.peer_count(), 0);
}

#[test]
fn expired_peers_are_swept() {
    let mut registry = PeerRegistry::new("me".to_string());
    assert!(registry.register_connected_peer("old".to_string(), 0));
    assert!(registry.register_connected_peer("fresh".to_string(), 250_000));
    assert!(!registry.register_connected_peer("me".to_string(), 0));
    assert_eq!(registry.active_peer_count(300_001), 1);
    assert_eq!(registry.cleanup_expired(300_001), 1);
    assert!(!registry.has_peer("old"));
    assert!(registry.has_peer("fresh"));
    assert!(!registry.get_peer("fresh").unwrap().is_expired(550_000));
    assert!(registry.get_peer("fresh").unwrap().is_expired(550_001));
}

#[test]
fn registry_updates() {
    let mut registry = PeerRegistry::new("me".to_string());
    assert!(registry.register_peer_from_list("p".to_string(), Some("1.1.1.1:1".to_string()), None, 10));
    assert!(!registry.register_peer_from_list("p".to_string(), None, Some("eu".to_string()), 20));
    let p = registry.get_peer("p").unwrap();
    assert_eq!(p.address.as_deref(), Some("1.1.1.1:1"));
    assert_eq!(p.region.as_deref(), Some("eu"));
    assert_eq!(p.last_seen, Some(20));
    registry.update_latency("p", 42);
    registry.update_latency("nobody", 7);
    assert_eq!(registry.get_peer("p").unwrap().latency_ms, Some(42));
    assert!(!registry.register_connected_peer("p".to_string(), 30));
    assert_eq!(registry.get_peer("p").unwrap().last_seen, Some(30));
    assert!(registry.register_connected_peer("q".to_string(), 30));
    assert_eq!(registry.get_all_peers().len(), 2);
    assert_eq!(registry.get_peer_list_for_broadcast(40), vec!["p@1.1.1.1:1".to_string(), "q".to_string()]);
    registry.unregister_peer("p");
    assert!(!registry.has_peer("p"));
    assert_eq!(registry.get_active_peers(40).len(), 1);
}

#[test]
fn peer_list_yields_unknown_entries() {
    let (secret, pk) = generate_keypair();
    let mut registry = PeerRegistry::new("me".to_string());
    registry.register_connected_peer("known".to_string(), 0);
    let mut list = PeerListAnnouncement::new(
        "sender".to_string(),
        pk,
        vec!["known@1.1.1.1:1".to_string(), "me".to_string(), "new@2.2.2.2:2".to_string(), "bare".to_string()],
    );
    list.sign(&secret);
    assert_eq!(registry.process_peer_list(&list), vec!["new@2.2.2.2:2".to_string(), "bare".to_string()]);
    list.timestamp += 1;
    assert!(registry.process_peer_list(&list).is_empty());
}

#[test]
fn legacy_peer_list_registers_new_peers() {
    let mut registry = PeerRegistry::new("me".to_string());
    registry.register_connected_peer("known".to_string(), 0);
    let list = PeerDiscoveryAnnouncement {
        node_id: "desktop".to_string(),
        connected_peers: vec![
            "known@1.1.1.1:1".to_string(),
            "me@9.9.9.9:9".to_string(),
            "new@2.2.2.2:2".to_string(),
            "new@3.3.3.3:3".to_string(),
            "bare".to_string(),
        ],
        timestamp: 5,
        region: "eu".to_string(),
        signature: String::new(),
    };
    assert_eq!(registry.register_listed_peers(&list, 10), vec!["new".to_string(), "bare".to_string()]);
    assert_eq!(registry.peer_count(), 3);
    let p = registry.get_peer("new").unwrap();
    assert_eq!(p.address.as_deref(), Some("2.2.2.2:2"));
    assert_eq!(p.region.as_deref(), Some("eu"));
    assert_eq!(registry.get_peer("bare").unwrap().address, None);
}

#[test]
fn pending_latency_probe_is_matched_once() {
    let mut pending = PendingLatency::new();
    pending.insert("req1".to_string(), 1000);
    let response = LatencyResponse {
        request_id: "req1".to_string(),
        from_node_id: "n".to_string(),
        public_key: String::new(),
        region: None,
        responded_at: 1300,
        signature: String::new(),
    };
    assert_eq!(pending.complete(&response), Some(150));
    assert_eq!(pending.complete(&response), None);
}
