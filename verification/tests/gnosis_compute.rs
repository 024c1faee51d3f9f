use kernel::gnosis::compute_fabric::{decide, evaluate_speculation, ComputeLocation, ComputeRequest};
use kernel::gnosis::local_compute::{self, LocalComputeResult};
use kernel::gnosis::mesh::{self, CapabilityRecord, Mesh, MeshNode};
use kernel::gnosis::relation::{ProvenanceSource, RelationProvenance};
use kernel::gnosis::speculation::{SpeculationKind, SpeculativeScenario};
use kernel::gnosis::trust::{self, AuthorizationDecision, AuthorizationRequest, TrustPrincipal, TrustRegistry};

fn local(origin: u64) -> RelationProvenance {
    RelationProvenance { origin, source: ProvenanceSource::Local, revision: 1 }
}

#[test]
fn trust_authorizes_by_authority() {
    let mut registry = TrustRegistry::new();
    assert!(trust::upsert(
        &mut registry,
        TrustPrincipal { principal_id: 7, trust_fixed: 9_000, authority_mask: 0b11, revision: 1, provenance: local(1) },
    ));
    let mut node = MeshNode::empty();
    node.node_id = 8;
    node.revision = 1;
    node.provenance = local(1);
    node.capabilities[0] = CapabilityRecord { capability: 100, quality_fixed: 9_000, latency_ticks: 4, resource_units: 8 };
    node.capability_used = 1;
    let allowed = trust::authorize(
        &registry,
        AuthorizationRequest { principal_id: 7, required_capability: 100, required_authority: 0b01, minimum_trust_fixed: 8_000 },
        Some(node),
    );
    let denied = trust::authorize(
        &registry,
        AuthorizationRequest { principal_id: 7, required_capability: 100, required_authority: 0b100, minimum_trust_fixed: 8_000 },
        Some(node),
    );
    assert_eq!(allowed, AuthorizationDecision::Authorized);
    assert_eq!(denied, AuthorizationDecision::MissingAuthority);
    assert_eq!(trust::trust_of(&registry, 7), 9_000);
    let unknown = trust::authorize(
        &registry,
        AuthorizationRequest { principal_id: 0xFFFF, required_capability: 0, required_authority: 1, minimum_trust_fixed: 1 },
        None,
    );
    assert_eq!(unknown, AuthorizationDecision::NoPrincipal);
}

#[test]
fn mesh_advertises_and_finds_capabilities() {
    let mut m = Mesh::new();
    let node = MeshNode {
        node_id: 7,
        revision: 1,
        trust_hint_fixed: 8_000,
        provenance: local(1),
        capabilities: [CapabilityRecord::empty(); 8],
        capability_used: 0,
    };
    assert!(mesh::upsert(&mut m, node).is_ok());
    assert!(mesh::advertise_capability(
        &mut m,
        7,
        CapabilityRecord { capability: 100, quality_fixed: 9_000, latency_ticks: 4, resource_units: 8 },
    )
    .is_ok());
    let found = mesh::find_capability(&m, 100).unwrap();
    assert_eq!(found.node_id, 7);
    assert_eq!(mesh::count_nodes(&m), 1);
    assert!(mesh::find_capability(&m, 101).is_none());
}

#[test]
fn compute_fabric_admits_local_work_within_budget() {
    let request = ComputeRequest {
        semantic_id: 2,
        context: 3,
        estimated_work: 4,
        max_work: 16,
        deadline_ticks: 100,
        required_capability: 0,
        minimum_trust_fixed: 0,
        provenance: local(1),
    };
    let scenario = SpeculativeScenario {
        kind: SpeculationKind::PredictedAlternative,
        object_id: 1,
        semantic_id: 2,
        context: 3,
        baseline_state: 10,
        hypothetical_state: 20,
        previous_state: 9,
        support: 3,
        confidence_fixed: 8_000,
        uncertainty_fixed: 2_000,
        horizon: 1,
        timestamp: 100,
        provenance: request.provenance,
    };
    let decision = evaluate_speculation(request, scenario);
    assert_eq!(decision.location, ComputeLocation::Local);
    assert!(decision.admitted);
    let rejected = decide(request, Some(LocalComputeResult::empty()));
    assert_eq!(rejected.location, ComputeLocation::Defer);
    assert!(!rejected.admitted);
    let too_big = ComputeRequest { estimated_work: 17, max_work: 16, ..request };
    assert!(!decide(too_big, Some(local_compute::evaluate(scenario))).admitted);
}
