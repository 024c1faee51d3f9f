use kernel::boot::BootWriter;
use kernel::gnosis::mkc::{disclose, DisclosureRequest, MkcStatus, GOAL};
use kernel::gnosis::objects::{self, KnowledgeObject, ObjectStore, CURRENT_VERSION, FLAG_ACTIVE, FLAG_IMMUTABLE};
use kernel::gnosis::proof_security::DecisionProof;
use kernel::gnosis::relation::{
    encode_sync_frame, ProvenanceSource, RecursiveQuery, Relation, RelationProvenance, RelationRegistry, SYNC_FRAME_BYTES,
};
use kernel::gnosis::semantic;

fn rel(source: u64, relation: u32, target: u64, context: u64) -> Relation {
    Relation { source, relation, target, context }
}

#[test]
fn boot_writer_accepts_an_empty_buffer() {
    let mut w = BootWriter::new(Vec::new());
    w.write_str("");
    let mut small = BootWriter::new(vec![7u8; 4]);
    small.write_str("abcdef");
    let mut full = BootWriter::new(vec![7u8; 8]);
    full.write_str("ab");
    full.write_str("c");
    drop(small);
    drop(full);
}

#[test]
fn encoding_into_a_short_buffer_writes_the_frame_body_only() {
    let mut reg = RelationRegistry::new();
    let id = reg.add(rel(1, semantic::CONNECTED_TO, 2, 3), 5).unwrap();
    let frame = reg.sync_frame(id).unwrap();
    let mut full = [0u8; SYNC_FRAME_BYTES];
    assert_eq!(encode_sync_frame(&frame, &mut full), Some(SYNC_FRAME_BYTES));
    let mut short = [0xAAu8; 80];
    assert_eq!(encode_sync_frame(&frame, &mut short), None);
    assert_eq!(&short[..77], &full[..77]);
    assert!(short[77..].iter().all(|b| *b == 0xAA));
    let mut tiny = [0xAAu8; 76];
    assert_eq!(encode_sync_frame(&frame, &mut tiny), None);
    assert!(tiny.iter().all(|b| *b == 0xAA));
}

#[test]
fn find_path_agrees_with_the_query() {
    let mut reg = RelationRegistry::new();
    let a = reg.add(rel(1, semantic::CONNECTED_TO, 2, 7), 1).unwrap();
    let b = reg.add(rel(2, semantic::CONNECTED_TO, 3, 7), 1).unwrap();
    let _c = reg.add(rel(1, semantic::CAUSES, 9, 7), 1).unwrap();
    let q = RecursiveQuery { source: 1, target: 3, relation: None, context: None, max_depth: 3 };
    assert_eq!(reg.recursive_query(q), Some(2));
    let p = reg.find_path(q).unwrap();
    assert_eq!(p.relation_count, 2);
    assert_eq!(p.relation_ids[0], a);
    assert_eq!(p.relation_ids[1], b);
    let short = RecursiveQuery { max_depth: 1, ..q };
    assert_eq!(reg.recursive_query(short), None);
    assert!(reg.find_path(short).is_none());
    assert_eq!(reg.find_by_source(2), Some(b));
    assert_eq!(reg.find_by_source(5), None);
}

#[test]
fn an_invalid_disclosure_request_discloses_nothing() {
    let p = RelationProvenance { origin: 1, source: ProvenanceSource::Local, revision: 9 };
    let proof = DecisionProof {
        goal: semantic::COMPLETE,
        evidence: semantic::EVIDENCE,
        inference: semantic::INFERENCE,
        constraint_mask: 1,
        alternatives: [semantic::EXECUTE; 8],
        alternative_count: 1,
        selected_action: semantic::EXECUTE,
        confidence_fixed: 9000,
        cost_fixed: 4,
        expected_outcome: semantic::COMPLETE,
        rationale: semantic::INFERENCE,
        provenance: p,
    };
    let r = disclose(
        DisclosureRequest { allowed_mask: GOAL, requested_mask: GOAL, contract_id: 1, principal_id: 0, provenance: p },
        proof,
    );
    assert_eq!(r.status, MkcStatus::Invalid);
    assert_eq!(r.disclosure.used, 0);
    assert_eq!(r.disclosure.mask, 0);
    assert_eq!(r.disclosure.contract_id, 0);
    assert_eq!(r.disclosure.provenance.revision, 0);
    assert!(r.disclosure.values.iter().all(|v| *v == 0));
}

#[test]
fn objects_insert_once_and_commit_once() {
    let mut store = ObjectStore::new();
    let object = KnowledgeObject {
        id: 1,
        semantic_type: semantic::STATE_OBJECT,
        state: semantic::READY,
        context: 7,
        flags: FLAG_ACTIVE,
        version: CURRENT_VERSION,
    };
    assert!(objects::insert(&mut store, object));
    assert!(!objects::insert(&mut store, object));
    assert_eq!(objects::count(&store), 1);
    assert!(objects::prepare_transition(&store, 1, semantic::READY, 10).is_none());
    let t = objects::prepare_transition(&store, 1, semantic::ACTIVE, 11).unwrap();
    assert_eq!(t.previous_state, semantic::READY);
    assert_eq!(t.version, CURRENT_VERSION + 1);
    assert!(objects::commit_transition(&mut store, t));
    assert!(!objects::commit_transition(&mut store, t));
    let now = objects::with_object(&store, 1).unwrap();
    assert_eq!(now.state, semantic::ACTIVE);
    assert_eq!(now.version, CURRENT_VERSION + 1);
    let frozen = KnowledgeObject { id: 2, flags: FLAG_IMMUTABLE, ..object };
    assert!(objects::insert(&mut store, frozen));
    assert!(objects::prepare_transition(&store, 2, semantic::ACTIVE, 12).is_none());
    assert!(objects::remove(&mut store, 1));
    assert!(!objects::contains(&store, 1));
    assert_eq!(objects::count(&store), 1);
}
