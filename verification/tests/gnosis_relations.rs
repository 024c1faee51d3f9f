use kernel::gnosis::relation::{
    decode_sync_frame, encode_sync_frame, integrity_hash, ProvenanceSource, SyncOperation, RecursiveQuery, Relation, RelationRegistry, RelationTrust,
    CAPACITY, CURRENT_VERSION, MAX_SERIALIZED_BYTES, SERIALIZED_HEADER_BYTES,
    SERIALIZED_RELATION_BYTES, SYNC_FRAME_BYTES,
};
use kernel::gnosis::semantic;

fn rel(source: u64, relation: u32, target: u64, context: u64) -> Relation {
    Relation { source, relation, target, context }
}

#[test]
fn relation_registry_lifecycle() {
    let mut reg = RelationRegistry::new();
    assert_eq!(reg.count(), 0);
    assert!(!reg.contains(0));
    let valid = rel(42, semantic::CONNECTED_TO, 91, 7);
    let id1 = reg.add(valid, 10).unwrap();
    assert_eq!(id1, 1);
    assert_eq!(reg.count(), 1);
    assert!(reg.contains(id1));
    let stored = reg.relation(id1).unwrap();
    assert_eq!(stored.source, 42);
    assert_eq!(stored.target, 91);
    assert!(reg.relation(0).is_none());
    assert_eq!(reg.find(42, semantic::CONNECTED_TO, 91, 7), Some(id1));
    let meta = reg.metadata(id1).unwrap();
    assert_eq!(meta.version, CURRENT_VERSION);
    assert_eq!(meta.created_at, meta.updated_at);
    assert_eq!(meta.state, semantic::ACTIVE);
    assert_eq!(reg.find_by_source(42), Some(id1));
    assert_eq!(reg.find_by_target(91), Some(id1));
    assert_eq!(reg.find_by_semantic(semantic::CONNECTED_TO), Some(id1));

    let id2 = reg.add(valid, 11).unwrap();
    assert_eq!(id2, id1 + 1);
    assert_eq!(reg.count(), 2);
    assert_eq!(reg.find(42, semantic::CONNECTED_TO, 91, 7), Some(id1));
    assert!(reg.remove(id1));
    assert!(!reg.contains(id1));
    assert!(reg.contains(id2));
    assert_eq!(reg.find(42, semantic::CONNECTED_TO, 91, 7), Some(id2));
    assert!(reg.find_by_source(0).is_none());

    let id3 = reg.add(valid, 12).unwrap();
    assert_eq!(id3, id2 + 1);
    assert!(reg.add(Relation { source: 0, ..valid }, 13).is_none());
    assert!(reg.add(Relation { target: 0, ..valid }, 13).is_none());
    assert!(reg.add(Relation { relation: 0, ..valid }, 13).is_none());
    assert!(reg.add(Relation { context: 0, ..valid }, 13).is_some());
    let self_id = reg.add(Relation { source: 5, target: 5, ..valid }, 13).unwrap();
    assert_eq!(reg.find_by_source(5), Some(self_id));
    assert_eq!(reg.count(), 4);

    let mut fill = 0u64;
    while reg.count() < CAPACITY {
        assert!(reg.add(rel(1_000 + fill, semantic::CONNECTED_TO, 2_000 + fill, 0), 20).is_some());
        fill += 1;
    }
    assert_eq!(fill as usize, CAPACITY - 4);
    assert!(reg.add(rel(9_999, semantic::CONNECTED_TO, 9_998, 0), 21).is_none());
}

fn chain() -> (RelationRegistry, [u64; 4]) {
    let mut reg = RelationRegistry::new();
    let p12 = reg.add(rel(1, semantic::CONNECTED_TO, 2, 7), 1).unwrap();
    let p23 = reg.add(rel(2, semantic::CONNECTED_TO, 3, 7), 1).unwrap();
    let p34 = reg.add(rel(3, semantic::CAUSES, 4, 8), 1).unwrap();
    let p45 = reg.add(rel(4, semantic::CONNECTED_TO, 5, 7), 1).unwrap();
    (reg, [p12, p23, p34, p45])
}

#[test]
fn relation_paths_and_queries() {
    let (reg, ids) = chain();
    assert!(reg.reachable(1, 5, 4));
    assert!(!reg.reachable(1, 5, 3));
    assert!(reg.reachable(1, 1, 0));
    let all = RecursiveQuery { source: 1, target: 5, relation: None, context: None, max_depth: 4 };
    assert_eq!(reg.recursive_query(all), Some(4));
    let ctx = RecursiveQuery { source: 1, target: 3, relation: Some(semantic::CONNECTED_TO), context: Some(7), max_depth: 2 };
    assert_eq!(reg.recursive_query(ctx), Some(2));
    let wrong = RecursiveQuery { source: 1, target: 5, relation: None, context: Some(8), max_depth: 4 };
    assert!(reg.recursive_query(wrong).is_none());

    let path = reg.find_path(all).unwrap();
    assert!(path.is_valid());
    assert_eq!(path.depth(), 4);
    assert_eq!(path.node_count, 5);
    assert_eq!(path.nodes[0], 1);
    assert_eq!(path.nodes[4], 5);
    assert_eq!(path.relation_ids[0], ids[0]);
    assert_eq!(path.relation_ids[1], ids[1]);
    assert_eq!(path.relation_ids[2], ids[2]);
    assert_eq!(path.relation_ids[3], ids[3]);

    let same = reg.find_path(RecursiveQuery { source: 3, target: 3, relation: None, context: None, max_depth: 0 }).unwrap();
    assert!(same.is_valid());
    assert_eq!(same.node_count, 1);
    assert_eq!(same.relation_count, 0);
}

#[test]
fn relation_serialization_round_trip() {
    let (reg, ids) = chain();
    let mut buffer = [0u8; MAX_SERIALIZED_BYTES];
    let len = reg.serialize(&mut buffer).unwrap();
    assert_eq!(len, SERIALIZED_HEADER_BYTES + reg.count() * SERIALIZED_RELATION_BYTES);
    let hash = reg.hash().unwrap();

    let mut restored = RelationRegistry::new();
    assert!(restored.deserialize(&buffer[..len]));
    assert_eq!(restored.count(), 4);
    assert_eq!(restored.hash(), Some(hash));
    for id in ids {
        assert!(restored.contains(id));
    }
    let mut short = [0u8; 8];
    assert!(reg.serialize(&mut short).is_none());
}

#[test]
fn relation_sync_frame_round_trip() {
    let (mut reg, ids) = chain();
    let frame = reg.sync_frame(ids[0]).unwrap();
    assert_eq!(frame.relation_id, ids[0]);
    let mut bytes = [0u8; SYNC_FRAME_BYTES];
    let len = encode_sync_frame(&frame, &mut bytes).unwrap();
    assert_eq!(len, SYNC_FRAME_BYTES);
    let decoded = decode_sync_frame(&bytes[..len]).unwrap();
    assert_eq!(decoded.relation_id, frame.relation_id);
    assert_eq!(decoded.relation.source, frame.relation.source);
    assert_eq!(decoded.relation.target, frame.relation.target);
    assert_eq!(decoded.metadata.version, frame.metadata.version);
    assert!(reg.remove(ids[0]));
    assert!(reg.apply_sync_frame(decoded));
    assert!(reg.contains(ids[0]));
    assert!(reg.verify_integrity(ids[0]));
    assert_eq!(reg.trust(ids[0]), Some(RelationTrust::Verified));

    let provenance = reg.provenance(ids[0]).unwrap();
    assert_eq!(provenance.source, ProvenanceSource::Local);
    assert_eq!(provenance.revision, 1);
    assert!(reg.integrity(ids[0]).is_some());
    assert_eq!(reg.is_newer(ids[0], CURRENT_VERSION, 1), Some(false));

    let base = reg.sync_frame(ids[0]).unwrap();
    let mut newer = base;
    newer.operation = SyncOperation::Update;
    newer.metadata.updated_at = newer.metadata.updated_at.saturating_add(1);
    newer.metadata.version = CURRENT_VERSION + 1;
    newer.provenance.source = ProvenanceSource::Remote;
    newer.provenance.origin = 99;
    newer.provenance.revision = 2;
    newer.trust = RelationTrust::Verified;
    newer.integrity = integrity_hash(newer.relation_id, &newer.relation, &newer.metadata, &newer.provenance);
    assert!(reg.apply_sync_frame(newer));
    assert_eq!(reg.trust(ids[0]), Some(RelationTrust::Verified));
    assert!(!reg.apply_sync_frame(base));
    assert_eq!(reg.trust(ids[0]), Some(RelationTrust::Conflict));
}
