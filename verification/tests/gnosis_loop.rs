use kernel::gnosis::attention::{self, AttentionQueue};
use kernel::gnosis::conscious::{self, Workspace};
use kernel::gnosis::delta::{self, DeltaQueue, SemanticDelta};
use kernel::gnosis::objects::{self, KnowledgeObject, ObjectStore, CURRENT_VERSION, FLAG_ACTIVE};
use kernel::gnosis::orchestration::{transition_and_publish, TransitionCycleResult};
use kernel::gnosis::relation::{ProvenanceSource, RelationProvenance};
use kernel::gnosis::semantic;
use kernel::gnosis::subconscious::{self, CandidateFreshness, CandidateRecord, SubconsciousEngine, MAX_CANDIDATES};
use kernel::gnosis::transition::{self, Journal};
use kernel::gnosis::trust::{self, AuthorizationDecision, AuthorizationRequest, TrustRegistry};

#[test]
fn local_cognitive_loop_gtest() {
    let mut store = ObjectStore::new();
    let mut journal = Journal::new();
    let mut deltas = DeltaQueue::new();
    let mut attention_queue = AttentionQueue::new();
    let mut engine = SubconsciousEngine::new();
    let mut workspace = Workspace::new();
    let registry = TrustRegistry::new();

    let object = KnowledgeObject {
        id: 0x7A0,
        semantic_type: semantic::STATE_OBJECT,
        state: semantic::READY,
        context: 77,
        flags: FLAG_ACTIVE,
        version: CURRENT_VERSION,
    };
    assert!(objects::insert(&mut store, object));
    let initial = objects::with_object(&store, object.id).unwrap();
    assert_eq!(initial.state, semantic::READY);
    assert_eq!(initial.version, CURRENT_VERSION);

    let training_delta = |timestamp: u64| SemanticDelta {
        object_id: object.id,
        semantic_id: semantic::STATE_OBJECT,
        previous_state: semantic::READY,
        new_state: semantic::ACTIVE,
        context: object.context,
        timestamp,
        provenance: RelationProvenance {
            origin: object.id,
            source: ProvenanceSource::Local,
            revision: u64::from(initial.version),
        },
    };
    let training = [training_delta(100), training_delta(101), training_delta(102)];
    let training_report = subconscious::process(&mut engine, &training);
    assert_eq!(training_report.valid_observations, training.len());

    let expected_version = initial.version.saturating_add(1);
    assert_eq!(
        transition_and_publish(&mut journal, &mut deltas, &mut store, object.id, semantic::ACTIVE, 900, object.id, u64::from(expected_version)),
        TransitionCycleResult::Published
    );
    assert_eq!(delta::count(&deltas), 1);
    assert_eq!(transition::count(&journal), 1);

    let mut snapshot = [None; 64];
    let snapshot_count = delta::snapshot_fifo_into(&deltas, &mut snapshot);
    assert_eq!(snapshot_count, 1);
    let observed = snapshot[0].unwrap();
    assert!(observed.is_valid());
    assert_eq!(observed.object_id, object.id);
    assert_eq!(observed.previous_state, semantic::READY);
    assert_eq!(observed.new_state, semantic::ACTIVE);
    assert_eq!(observed.context, object.context);
    assert_eq!(observed.provenance.revision, u64::from(expected_version));

    assert!(attention::push(&mut attention_queue, observed, 900).is_ok());
    let report = subconscious::process(&mut engine, &[observed]);
    assert_eq!(report.valid_observations, 1);
    assert_eq!(delta::count(&deltas), 1);

    let mut candidates = [CandidateRecord::empty(); MAX_CANDIDATES];
    let candidate_count = subconscious::latest_candidates(&engine, &mut candidates);
    let candidate = candidates[..candidate_count]
        .iter()
        .copied()
        .find(|c| {
            c.origin_object_id == object.id
                && c.timestamp == observed.timestamp
                && c.provenance.revision == u64::from(expected_version)
        })
        .unwrap();

    let after = objects::with_object(&store, object.id).unwrap();
    assert_eq!(after.state, semantic::ACTIVE);
    assert_eq!(after.version, expected_version);

    let records = attention::for_each(&attention_queue);
    let conscious_report = conscious::process(&mut workspace, &records, &candidates[..candidate_count]);
    assert!(conscious_report.workspace_count > 0);
    assert_eq!(delta::count(&deltas), 1);
    assert_eq!(subconscious::candidate_freshness(&store, &candidate), CandidateFreshness::Fresh);

    let stale_version = expected_version.saturating_add(1);
    assert_eq!(
        transition_and_publish(&mut journal, &mut deltas, &mut store, object.id, semantic::READY, 901, object.id, u64::from(stale_version)),
        TransitionCycleResult::Published
    );
    assert_eq!(subconscious::candidate_freshness(&store, &candidate), CandidateFreshness::Stale);

    let authority = trust::authorize(
        &registry,
        AuthorizationRequest { principal_id: 0xFFFF, required_capability: 0, required_authority: 1, minimum_trust_fixed: 1 },
        None,
    );
    assert_eq!(authority, AuthorizationDecision::NoPrincipal);
}
