use cyberfly_mobile::crypto::{generate_keypair, sign_message};
use cyberfly_mobile::sync::{
    sort_operations, storage_write_for, ApplyError, SignedOperation, SyncManager, SyncMessage, SyncStore,
};

fn op(op_id: &str, timestamp: i64, db_name: &str, key: &str, value: &str, public_key: &str, signature: &str) -> SignedOperation {
    SignedOperation {
        op_id: op_id.to_string(),
        timestamp,
        db_name: db_name.to_string(),
        key: key.to_string(),
        value: value.to_string(),
        store_type: "String".to_string(),
        field: None,
        score_bits: None,
        json_path: None,
        stream_fields: None,
        ts_timestamp: None,
        longitude_bits: None,
        latitude_bits: None,
        public_key: public_key.to_string(),
        signature: signature.to_string(),
    }
}

fn signed(secret: &[u8; 32], pk: &str, op_id: &str, ts: i64, db: &str, key: &str, value: &str) -> SignedOperation {
    let mut o = op(op_id, ts, db, key, value, pk, "");
    o.signature = sign_message(secret, o.full_signing_message().as_bytes());
    o
}

#[test]
fn test_sync_store_lww() {
    let mut store = SyncStore::new();
    let op1 = op("op1", 1000, "testdb", "key1", "value1", &"a".repeat(64), "sig1");
    let op2 = op("op2", 2000, "testdb", "key1", "value2", &"a".repeat(64), "sig2");
    store.add_operation_unverified(op1.clone()).unwrap();
    store.add_operation_unverified(op2.clone()).unwrap();
    let ops = store.get_all_operations();
    assert_eq!(ops.len(), 1);
    assert_eq!(ops[0].value, "value2");
}

#[test]
fn lww_conflict_tie_broken_by_op_id() {
    for order in [[0usize, 1], [1, 0]] {
        let ops = [
            op("a", 1000, "db-pk", "x", "v_a", "pk", "s"),
            op("b", 1000, "db-pk", "x", "v_b", "pk", "s"),
        ];
        let mut store = SyncStore::new();
        for i in order {
            store.add_operation_unverified(ops[i].clone()).unwrap();
        }
        let all = store.get_all_operations();
        assert_eq!(all.len(), 1);
        assert_eq!(all[0].op_id, "b");
        assert_eq!(all[0].value, "v_b");
    }
}

#[test]
fn older_operation_loses_and_keys_are_separate() {
    let mut store = SyncStore::new();
    assert_eq!(store.add_operation_unverified(op("z", 2000, "d", "k", "new", "", "")), Ok(true));
    assert_eq!(store.add_operation_unverified(op("zz", 1999, "d", "k", "old", "", "")), Ok(false));
    assert_eq!(store.add_operation_unverified(op("z", 2000, "d", "k", "again", "", "")), Ok(false));
    let mut hashed = op("h", 1, "d", "k", "f", "", "");
    hashed.field = Some("f1".to_string());
    assert_eq!(hashed.crdt_key(), "d:k:f1");
    assert_eq!(store.add_operation_unverified(hashed), Ok(true));
    assert_eq!(store.operation_count(), 2);
    assert_eq!(store.get_operations_since(2000).len(), 1);
    assert_eq!(store.get_operations_since(1).len(), 2);
}

#[test]
fn local_write_then_peer_read() {
    let (secret, pk) = generate_keypair();
    let db = format!("hello-{}", pk);
    let o = signed(&secret, &pk, "op-1", 1_700_000_000_000, &db, "k", "v");
    let mut a = SyncManager::new("node-a".to_string());
    assert!(a.add_local_operation(o.clone()));
    let msg = a.create_operation_message(o);
    let mut b = SyncManager::new("node-b".to_string());
    let out = b.handle_sync_message(msg, "node-a");
    assert!(out.reply.is_none());
    assert_eq!(out.writes.len(), 1);
    assert_eq!(out.writes[0].db_name, db);
    assert_eq!(out.writes[0].key, "k");
    assert_eq!(out.writes[0].value, b"v".to_vec());
}

#[test]
fn short_form_signature_accepted() {
    let (secret, pk) = generate_keypair();
    let db = format!("app-{}", pk);
    let mut o = op("id", 5, &db, "k", "v", &pk, "");
    o.signature = sign_message(&secret, format!("{}:k:v", db).as_bytes());
    assert_eq!(o.verify(), Ok(true));
    assert_eq!(o.verify_full(), Ok(false));
    let mut store = SyncStore::new();
    assert_eq!(store.add_operation(o), Ok(true));
}

#[test]
fn bad_signature_rejected() {
    let (secret, pk) = generate_keypair();
    let mut o = signed(&secret, &pk, "op-1", 10, "db", "k", "v");
    let mut bytes = hex::decode(&o.signature).unwrap();
    bytes[0] ^= 1;
    o.signature = hex::encode(bytes);
    let mut m = SyncManager::new("me".to_string());
    let out = m.handle_sync_message(SyncMessage::Operation { operation: o.clone() }, "peer");
    assert!(out.writes.is_empty());
    assert_eq!(m.get_stats().total_operations, 0);
    assert!(!m.sync_store().is_applied("op-1"));
    let mut store = SyncStore::new();
    assert_eq!(store.add_operation(o), Ok(false));
    assert_eq!(store.operation_count(), 0);
}

#[test]
fn redelivery_and_restart() {
    let (secret, pk) = generate_keypair();
    let db = format!("db-{}", pk);
    let o = signed(&secret, &pk, "op1", 10, &db, "k", "v");
    let mut m = SyncManager::new("me".to_string());
    let first = m.handle_sync_message(SyncMessage::Operation { operation: o.clone() }, "peer");
    assert_eq!(first.writes.len(), 1);
    assert!(!m.sync_store().is_applied("op1"));
    m.mark_applied(&first.writes[0].op_id);
    let again = m.handle_sync_message(SyncMessage::Operation { operation: o.clone() }, "peer");
    assert!(again.writes.is_empty());
    assert!(m.sync_store().is_applied("op1"));
    // after a restart the applied set is empty and the same put is handed out again
    let mut restarted = SyncManager::new("me".to_string());
    let replay = restarted.handle_sync_message(SyncMessage::Operation { operation: o }, "peer");
    assert_eq!(replay.writes.len(), 1);
    assert_eq!(replay.writes[0].value, first.writes[0].value);
    assert_eq!(replay.writes[0].key, first.writes[0].key);
    assert_eq!(restarted.get_stats().total_operations, 1);
}

#[test]
fn apply_once_and_hash_writes() {
    let mut store = SyncStore::new();
    let mut h = op("h1", 1, "db", "k", "val", "", "");
    h.store_type = "HASH".to_string();
    assert_eq!(store.apply_to_storage(&h).err(), Some(ApplyError::FieldRequired));
    assert!(!store.is_applied("h1"));
    h.field = Some("f".to_string());
    let w = store.apply_to_storage(&h).unwrap().unwrap();
    assert_eq!(w.key, "k:f");
    assert_eq!(w.db_name, "db");
    assert_eq!(w.op_id, "h1");
    assert!(!store.is_applied("h1"));
    store.mark_applied(&w.op_id);
    assert!(store.apply_to_storage(&h).unwrap().is_none());
    let w2 = storage_write_for(&op("s", 1, "db", "k", "val", "", ""), "json").unwrap();
    assert_eq!(w2.key, "k");
    assert_eq!(w2.value, b"val".to_vec());
    store.add_operation_unverified(op("a", 1, "db", "a", "1", "", "")).unwrap();
    store.add_operation_unverified(op("b", 1, "db", "b", "2", "", "")).unwrap();
    store.mark_applied("a");
    let writes = store.apply_all_to_storage();
    assert_eq!(writes.len(), 1);
    assert_eq!(writes[0].key, "b");
    // nothing counts as written until the caller records it
    assert_eq!(store.apply_all_to_storage().len(), 1);
    store.mark_applied(&writes[0].op_id);
    assert!(store.apply_all_to_storage().is_empty());
}

#[test]
fn sorting_is_by_timestamp_then_op_id() {
    let v = vec![
        op("b", 2, "d", "1", "", "", ""),
        op("c", 1, "d", "2", "", "", ""),
        op("a", 2, "d", "3", "", "", ""),
    ];
    let sorted: Vec<String> = sort_operations(v).into_iter().map(|o| o.op_id).collect();
    assert_eq!(sorted, vec!["c", "a", "b"]);
}

#[test]
fn chunked_catch_up() {
    let (secret, pk) = generate_keypair();
    let db = format!("seed-{}", pk);
    let mut seed = SyncManager::new("seed".to_string());
    for ts in 1..=300i64 {
        let o = signed(&secret, &pk, &format!("op-{:03}", ts), ts, &db, &format!("k{}", ts), "v");
        assert!(seed.add_local_operation(o));
    }
    let mut fresh = SyncManager::new("fresh".to_string());
    let mut request = fresh.create_sync_request(None);
    let mut rounds = 0;
    let mut responses = Vec::new();
    loop {
        rounds += 1;
        let response = seed.handle_sync_message(request, "fresh").reply.unwrap();
        if let SyncMessage::SyncResponse { operations, has_more, continuation_token, .. } = &response {
            responses.push((operations.len(), operations.first().map(|o| o.timestamp), *has_more, continuation_token.clone()));
        }
        let out = fresh.handle_sync_message(response, "seed");
        match out.reply {
            Some(next) => request = next,
            None => break,
        }
    }
    assert_eq!(rounds, 3);
    assert_eq!(responses[0], (128, Some(1), true, Some("ts:128".to_string())));
    assert_eq!(responses[1], (128, Some(128), true, Some("ts:255".to_string())));
    assert_eq!(responses[2].2, false);
    assert_eq!(fresh.get_stats().total_operations, 300);
}

#[test]
fn response_for_another_node_is_ignored() {
    let mut m = SyncManager::new("me".to_string());
    let msg = SyncMessage::SyncResponse {
        requester: "someone-else".to_string(),
        operations: vec![op("a", 1, "d", "k", "v", "", "")],
        has_more: true,
        continuation_token: Some("ts:5".to_string()),
    };
    let out = m.handle_sync_message(msg, "peer");
    assert!(out.reply.is_none());
    assert!(out.writes.is_empty());
    assert_eq!(m.get_stats().total_operations, 0);
    let bad_token = SyncMessage::SyncResponse {
        requester: "me".to_string(),
        operations: vec![],
        has_more: true,
        continuation_token: Some("at:5".to_string()),
    };
    assert!(m.handle_sync_message(bad_token, "peer").reply.is_none());
    let good = SyncMessage::SyncResponse {
        requester: "me".to_string(),
        operations: vec![],
        has_more: true,
        continuation_token: Some("ts:-17".to_string()),
    };
    match m.handle_sync_message(good, "peer").reply {
        Some(SyncMessage::SyncRequest { requester, since_timestamp }) => {
            assert_eq!(requester, "me");
            assert_eq!(since_timestamp, Some(-17));
        }
        _ => panic!("expected a follow-up request"),
    }
}

#[test]
fn signed_operation_on_someone_elses_database_is_rejected() {
    let (secret, pk) = generate_keypair();
    let (_, other) = generate_keypair();
    let mut store = SyncStore::new();
    let foreign = signed(&secret, &pk, "x1", 10, &format!("notes-{}", other), "k", "v");
    assert_eq!(foreign.verify(), Ok(true));
    assert_eq!(store.add_operation(foreign), Ok(false));
    let unbound = signed(&secret, &pk, "x2", 10, "notes", "k", "v");
    assert_eq!(store.add_operation(unbound), Ok(false));
    let control = signed(&secret, &pk, "x3", 10, &format!("no\u{1}tes-{}", pk), "k", "v");
    assert_eq!(store.add_operation(control), Ok(false));
    assert_eq!(store.operation_count(), 0);
    let own = signed(&secret, &pk, "x4", 10, &format!("notes-{}", pk), "k", "v");
    assert_eq!(store.add_operation(own), Ok(true));
    assert_eq!(store.operation_count(), 1);
}

#[test]
fn writes_for_one_id_are_handed_out_once_per_pass() {
    let mut store = SyncStore::new();
    store.add_operation_unverified(op("same", 1, "db", "a", "1", "", "")).unwrap();
    store.add_operation_unverified(op("same", 1, "db", "b", "2", "", "")).unwrap();
    assert_eq!(store.apply_all_to_storage().len(), 1);
}

#[test]
fn created_operation_verifies_and_is_admitted() {
    let (secret, pk) = generate_keypair();
    let o = SignedOperation::create_and_sign(format!("notes-{}", pk), "k".to_string(), "v".to_string(), "String".to_string(), &secret);
    assert_eq!(o.public_key, pk);
    assert_eq!(o.verify(), Ok(true));
    assert_eq!(o.verify_full(), Ok(true));
    let mut store = SyncStore::new();
    assert_eq!(store.add_operation(o), Ok(true));
}
