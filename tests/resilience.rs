use cyberfly_mobile::api::{LogBuffer, LogEntry, NodeStatusDto, PeerInfoDto};
use cyberfly_mobile::discovery::DiscoveredPeer;
use cyberfly_mobile::node::{node_status, SharedNodeState};
use cyberfly_mobile::resilience::{
    backoff_secs, is_isolated, next_retry_delay_ms, split_peer_address, IsolationMonitor, NetworkResilience,
};
use cyberfly_mobile::text::{i64_to_decimal, parse_i64};

#[test]
fn backoff_doubles_up_to_five_minutes() {
    assert_eq!(backoff_secs(1), 1);
    assert_eq!(backoff_secs(2), 2);
    assert_eq!(backoff_secs(5), 16);
    assert_eq!(backoff_secs(9), 256);
    assert_eq!(backoff_secs(10), 300);
    assert_eq!(backoff_secs(u32::MAX), 300);
}

#[test]
fn connection_budget_and_backoff_table() {
    let mut r = NetworkResilience::new();
    for _ in 0..8 {
        assert!(r.allow_connection_attempt());
    }
    assert!(!r.allow_connection_attempt());
    r.reset_cycle();
    assert!(r.allow_connection_attempt());
    let peer = "peer".to_string();
    assert!(r.may_attempt(&peer, 0));
    r.record_failure(&peer, 1_000);
    assert!(!r.may_attempt(&peer, 1_999));
    assert!(r.may_attempt(&peer, 2_000));
    r.record_failure(&peer, 2_000);
    assert_eq!(r.peer_backoff()[0].failures, 2);
    assert_eq!(r.peer_backoff()[0].next_allowed_ms, 4_000);
    r.record_success(&peer);
    assert!(r.peer_backoff().is_empty());
    assert_eq!(r.cycle_secs(), 30);
}

#[test]
fn isolation_recovery_after_three_checks() {
    let mut m = IsolationMonitor::new();
    assert!(!m.observe(0, 0, false));
    assert!(!m.observe(0, 0, false));
    assert!(m.observe(0, 0, false));
    assert_eq!(m.consecutive(), 0);
    assert!(!m.observe(0, 5, true));
    assert!(!m.observe(2, 5, true));
    assert_eq!(m.consecutive(), 0);
    assert!(is_isolated(3, 0, false));
    assert!(!is_isolated(3, 0, true));
}

#[test]
fn bootstrap_delays_and_addresses() {
    let mut d = 1000;
    let mut seen = vec![];
    for _ in 0..6 {
        seen.push(d);
        d = next_retry_delay_ms(d);
    }
    assert_eq!(seen, vec![1000, 2000, 4000, 8000, 16000, 30000]);
    let (id, addr) = split_peer_address("abc@1.2.3.4:5").unwrap();
    assert_eq!((id.as_str(), addr.as_str()), ("abc", "1.2.3.4:5"));
    assert!(split_peer_address("abc").is_none());
}

#[test]
fn decimal_round_trip() {
    for n in [0i64, 7, -7, 1234567890123, i64::MAX, i64::MIN] {
        assert_eq!(i64_to_decimal(n), n.to_string());
        assert_eq!(parse_i64(&n.to_string()), Some(n));
    }
    assert_eq!(parse_i64("+5"), Some(5));
    assert_eq!(parse_i64(""), None);
    assert_eq!(parse_i64("-"), None);
    assert_eq!(parse_i64("12a"), None);
    assert_eq!(parse_i64("9223372036854775808"), None);
}

#[test]
fn log_buffer_keeps_the_last_entries() {
    let mut b = LogBuffer::new();
    for i in 0..505 {
        b.push(LogEntry { timestamp: i, level: "INFO".to_string(), message: format!("m{}", i) });
    }
    let all = b.recent(Some(1000));
    assert_eq!(all.len(), 500);
    assert_eq!(all[0].timestamp, 5);
    let last = b.recent(None);
    assert_eq!(last.len(), 100);
    assert_eq!(last[99].timestamp, 504);
    assert_eq!(b.recent(Some(2))[0].timestamp, 503);
    b.clear();
    assert!(b.recent(None).is_empty());
}

#[test]
fn status_counts_come_from_the_registry() {
    let state = SharedNodeState { gossip_messages_received: 9, ..SharedNodeState::default() };
    let s = node_status(&state, &"n".to_string(), 4, 60, 100, 3);
    assert!(s.is_running);
    assert_eq!((s.connected_peers, s.discovered_peers), (4, 4));
    let dto = NodeStatusDto::from_status(&s);
    assert_eq!(dto.connected_peers, 4);
    assert_eq!(dto.gossip_messages_received, 9);
    let peer = DiscoveredPeer {
        node_id: "p".to_string(),
        public_key: String::new(),
        address: None,
        capabilities: Default::default(),
        region: Some("eu".to_string()),
        version: None,
        last_seen: None,
        latency_ms: Some(3),
    };
    let info = PeerInfoDto::from_peer(&peer);
    assert_eq!(info.region.as_deref(), Some("eu"));
    assert!(!info.is_mobile);
}
