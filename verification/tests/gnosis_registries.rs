use kernel::gnosis::knowledge::KnowledgeRegistry;
use kernel::gnosis::messaging::{MessageRegistry, MAX_MESSAGES, MAX_PAYLOAD_SIZE};

#[test]
fn knowledge_insert_find_read() {
    let mut registry = KnowledgeRegistry::new();
    let id = registry.insert(b"GNOSIS", b"KNOWLEDGE SUBSTRATE").unwrap();
    assert_eq!(id, 1);
    assert_eq!(registry.entry_count(), 1);
    assert_eq!(registry.find_id(b"GNOSIS"), Some(id));
    assert!(registry.contains(b"GNOSIS"));
    assert!(!registry.contains(b"OTHER"));
    let (key, value) = registry.with_entry(id).unwrap();
    assert_eq!(key, b"GNOSIS".to_vec());
    assert_eq!(value, b"KNOWLEDGE SUBSTRATE".to_vec());
    registry.clear();
    assert_eq!(registry.entry_count(), 0);
}

#[test]
fn knowledge_rejects_bad_sizes_and_a_full_registry() {
    let mut registry = KnowledgeRegistry::new();
    assert_eq!(registry.insert(b"", b"v"), None);
    assert_eq!(registry.insert(&[1u8; 33], b"v"), None);
    assert_eq!(registry.insert(b"k", &[1u8; 97]), None);
    assert!(registry.insert(&[1u8; 32], &[2u8; 96]).is_some());
    let mut n = 1;
    while n < 16 {
        assert!(registry.insert(&[n as u8 + 10], b"x").is_some());
        n += 1;
    }
    assert_eq!(registry.entry_count(), 16);
    assert_eq!(registry.insert(b"late", b"x"), None);
}

#[test]
fn knowledge_upsert_keeps_the_id() {
    let mut registry = KnowledgeRegistry::new();
    let id = registry.upsert(b"key", b"one").unwrap();
    let other = registry.upsert(b"other", b"x").unwrap();
    assert_ne!(id, other);
    assert_eq!(registry.upsert(b"key", b"two"), Some(id));
    assert_eq!(registry.find_id(b"key"), Some(id));
    let (_, value) = registry.with_entry(id).unwrap();
    assert_eq!(value, b"two".to_vec());
    assert_eq!(registry.entry_count(), 2);
}

#[test]
fn messaging_lifecycle() {
    let mut registry = MessageRegistry::new();
    let src: &[u8] = b"SOURCE_NODE_1234567890";
    let dst: &[u8] = b"DEST_NODE_ABCDEFGHIJKL";
    let mtype: &[u8] = b"TEXT";
    let payload: &[u8] = b"HELLO TOGARA MESH";

    let oversized = [0u8; MAX_PAYLOAD_SIZE + 1];
    assert!(registry.send(src, dst, mtype, 1, 4, &oversized).is_none());
    assert!(registry.send(src, dst, mtype, 1, 0, payload).is_none());

    let id = registry.send(src, dst, mtype, 42, 4, payload).unwrap();
    assert_eq!(registry.count(), 1);
    assert!(registry.contains(id));

    let m = registry.with_message(id).unwrap();
    assert_eq!(m.source, src.to_vec());
    assert_eq!(m.destination, dst.to_vec());
    assert_eq!(m.msg_type, mtype.to_vec());
    assert_eq!(m.sequence, 42);
    assert_eq!(m.ttl, 4);
    assert_eq!(m.payload, payload.to_vec());

    assert!(registry.relay(id));
    assert_eq!(registry.with_message(id).unwrap().ttl, 3);
    assert!(registry.contains(id));
    assert!(registry.relay(id));
    assert!(registry.relay(id));
    assert!(registry.relay(id));
    assert_eq!(registry.with_message(id).unwrap().ttl, 0);
    assert!(!registry.relay(id));

    assert!(registry.remove(id));
    assert!(!registry.contains(id));
    assert_eq!(registry.count(), 0);
    assert!(!registry.remove(id));

    let mut ids = Vec::new();
    let mut idx = 0;
    while idx < MAX_MESSAGES {
        ids.push(registry.send(src, dst, mtype, idx as u64, 1, payload).unwrap());
        idx += 1;
    }
    assert!(registry.send(src, dst, mtype, 999, 1, payload).is_none());
    assert!(registry.remove(ids[0]));

    assert_eq!(registry.import_with_id(9999, src, dst, mtype, 7, 2, payload), Some(9999));
    assert!(registry.contains(9999));
    let before = registry.count();
    assert!(registry.import_with_id(9999, src, dst, mtype, 7, 2, payload).is_none());
    assert_eq!(registry.count(), before);
    assert!(registry.import_with_id(0, src, dst, mtype, 7, 2, payload).is_none());
    assert!(registry.relay(9999));
    assert_eq!(registry.with_message(9999).unwrap().ttl, 1);

    registry.clear();
    assert_eq!(registry.count(), 0);
    assert!(!registry.contains(1));
}
