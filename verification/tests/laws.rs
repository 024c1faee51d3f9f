use kernel::gnosis::mkc::{disclose, DisclosureRequest, MkcStatus, ACTION, COST, GOAL};
use kernel::gnosis::proof_security::DecisionProof;
use kernel::gnosis::relation::{ProvenanceSource, RelationProvenance};
use kernel::gnosis::semantic;
use kernel::memory::{MemoryRegion, MemoryRegionKind, PhysicalMemory};

#[test]
fn disclosure_is_limited_to_allowed_parts() {
    let p = RelationProvenance { origin: 1, source: ProvenanceSource::Local, revision: 9 };
    let proof = DecisionProof {
        goal: semantic::COMPLETE,
        evidence: semantic::EVIDENCE,
        inference: semantic::INFERENCE,
        constraint_mask: 1,
        alternatives: [semantic::EXECUTE; 8],
        alternative_count: 1,
        selected_action: semantic::EXECUTE,
        confidence_fixed: 9000,
        cost_fixed: 4,
        expected_outcome: semantic::COMPLETE,
        rationale: semantic::INFERENCE,
        provenance: p,
    };
    let r = disclose(
        DisclosureRequest {
            allowed_mask: GOAL | ACTION,
            requested_mask: GOAL | ACTION | COST,
            contract_id: 1,
            principal_id: 1,
            provenance: p,
        },
        proof,
    );
    assert_eq!(r.status, MkcStatus::Denied);
    assert_eq!(r.disclosure.used, 2);
    assert_eq!(r.denied_mask, COST);
    assert_eq!(r.disclosure.values[0], semantic::COMPLETE);
    assert_eq!(r.disclosure.values[1], semantic::EXECUTE);

    let invalid = disclose(
        DisclosureRequest { allowed_mask: GOAL, requested_mask: GOAL, contract_id: 0, principal_id: 1, provenance: p },
        proof,
    );
    assert_eq!(invalid.status, MkcStatus::Invalid);
    assert_eq!(invalid.disclosure.used, 0);
}

#[test]
fn a_freed_frame_is_allocated_next() {
    let mut memory = PhysicalMemory::new();
    let regions = [MemoryRegion { start: 0x100000, end: 0x110000, kind: MemoryRegionKind::Usable }];
    assert_eq!(memory.init(&regions), 1);
    let first = memory.allocate_frame().unwrap();
    let second = memory.allocate_frame().unwrap();
    assert_ne!(first, second);
    assert!(memory.free_frame(first));
    assert!(!memory.free_frame(first));
    assert!(!memory.free_frame(first + 1));
    assert_eq!(memory.allocate_frame(), Some(first));
}
