use kernel::gnosis::delta::SemanticDelta;
use kernel::gnosis::experience::{self, ExperienceLog, SCALE};
use kernel::gnosis::mesh::{self, CapabilityRecord, Mesh, MeshNode};
use kernel::gnosis::relation::{ProvenanceSource, RelationProvenance};
use kernel::gnosis::remote_compute::{self, RemoteRequest, Route};
use kernel::gnosis::semantic;
use kernel::gnosis::trust::{self, TrustPrincipal, TrustRegistry};
use kernel::gnosis::world_model::{self, WorldModel};

fn local() -> RelationProvenance {
    RelationProvenance { origin: 1, source: ProvenanceSource::Local, revision: 1 }
}

#[test]
fn experience_records_prediction_errors() {
    let mut log = ExperienceLog::new();
    let first = experience::observe(&mut log, 1, 2, 3, 10, 10, 9_000, 3, 100, local());
    let second = experience::observe(&mut log, 1, 2, 3, 10, 20, 9_000, 3, 101, local());
    assert!(first.is_some());
    assert!(second.is_some());
    assert_eq!(experience::count(&log), 2);
    assert_eq!(experience::latest(&log).error_fixed, SCALE);
    assert_eq!(experience::mean_error_fixed(&log), SCALE / 2);
    assert_eq!(experience::for_each(&log).len(), 2);
    experience::clear(&mut log);
    assert_eq!(experience::count(&log), 0);
}

#[test]
fn world_model_tracks_facts() {
    let mut world = WorldModel::new();
    let d = SemanticDelta {
        object_id: 1,
        semantic_id: semantic::STATE_OBJECT,
        previous_state: semantic::READY,
        new_state: semantic::ACTIVE,
        context: 2,
        timestamp: 3,
        provenance: local(),
    };
    assert!(world_model::observe_delta(&mut world, d));
    assert_eq!(world_model::fact(&world, 1).map(|f| f.state), Some(semantic::ACTIVE));
    assert!(world_model::predict(&mut world, 1, semantic::STATE_OBJECT, semantic::COMPLETE, 8000, 4, local()));
    world_model::clear(&mut world);
    assert_eq!(world_model::count(&world), 0);
}

#[test]
fn remote_compute_routes_to_an_authorized_node() {
    let mut m = Mesh::new();
    let mut n = MeshNode::empty();
    n.node_id = 9;
    n.revision = 1;
    n.provenance = local();
    n.capabilities[0] = CapabilityRecord { capability: 77, quality_fixed: 9000, latency_ticks: 2, resource_units: 8 };
    n.capability_used = 1;
    assert!(mesh::upsert(&mut m, n).is_ok());
    let mut registry = TrustRegistry::new();
    assert!(trust::upsert(
        &mut registry,
        TrustPrincipal { principal_id: 7, trust_fixed: 9000, authority_mask: 1, revision: 1, provenance: local() },
    ));
    let request = RemoteRequest {
        principal_id: 7,
        capability: 77,
        authority: 1,
        minimum_trust_fixed: 8000,
        estimated_work: 8,
        local_quality_fixed: 5000,
        remote_quality_fixed: 9000,
        remote_latency_ticks: 2,
        max_latency_ticks: 10,
        allow_split: true,
        provenance: local(),
    };
    let r = remote_compute::arbitrate(&m, &registry, request, None);
    assert_eq!(r.route, Route::Remote);
    assert!(r.authorized);

    let unknown = RemoteRequest { principal_id: 8, ..request };
    let denied = remote_compute::arbitrate(&m, &registry, unknown, None);
    assert!(!denied.authorized);
    assert_ne!(denied.route, Route::Remote);
}
