use kernel::gnosis::decision::{decide, AuthorityOutcome, CanonicalValidation, DecisionConstraints, DecisionRequest, DecisionStatus};
use kernel::gnosis::proof_security::{build, ProofStatus};
use kernel::gnosis::reason::{InferenceKind, InferenceRecord, TruthState};
use kernel::gnosis::relation::{ProvenanceSource, RelationProvenance};
use kernel::gnosis::semantic;
use kernel::gnosis::semantic_abi::{accept, validate, AbiStatus, SemanticAbiRequest};
use kernel::gnosis::trust::{self, AuthorizationRequest, TrustPrincipal, TrustRegistry};
use kernel::gnosis::wisdom::{WisdomCandidate, WisdomDisposition, WisdomEvaluation};

fn local() -> RelationProvenance {
    RelationProvenance { origin: 1, source: ProvenanceSource::Local, revision: 1 }
}

#[test]
fn semantic_abi_accepts_a_valid_request() {
    let mut request = SemanticAbiRequest::empty();
    request.object_id = 1;
    request.semantic_id = 2;
    request.context = 3;
    request.payload[0] = 42;
    request.payload_len = 1;
    request.provenance = local();
    assert_eq!(validate(&request), AbiStatus::Accepted);
    let result = accept(request);
    assert_eq!(result.status, AbiStatus::Accepted);
    assert_eq!(result.payload[0], 42);

    let mut missing = request;
    missing.object_id = 0;
    assert_ne!(validate(&missing), AbiStatus::Accepted);
    assert_ne!(accept(missing).status, AbiStatus::Accepted);
}

#[test]
fn proofs_refuse_execution() {
    let inference = InferenceRecord {
        object_id: 1,
        semantic_id: semantic::STATE_OBJECT,
        previous_state: semantic::READY,
        current_state: semantic::ACTIVE,
        predicted_state: semantic::ACTIVE,
        context: 1,
        kind: InferenceKind::PredictionConsistent,
        truth: TruthState::True,
        confidence_fixed: 9_000,
        uncertainty_fixed: 1_000,
        timestamp: 1,
        provenance: local(),
    };
    let evaluation = WisdomEvaluation {
        action: semantic::VERIFY,
        disposition: WisdomDisposition::Eligible,
        utility_fixed: 8_000,
        confidence_fixed: 9_000,
        cost_fixed: 1_000,
        source_inference: inference,
    };
    let valid = build(semantic::STATE_OBJECT, &evaluation, DecisionConstraints::cognitive_release());
    assert!(valid.valid());
    let denied = build(
        semantic::STATE_OBJECT,
        &evaluation,
        DecisionConstraints { execution_allowed: true, ..DecisionConstraints::cognitive_release() },
    );
    assert_eq!(denied.status, ProofStatus::InvalidConstraints);
}

#[test]
fn decisions_propose_fresh_and_deny_stale() {
    let mut registry = TrustRegistry::new();
    assert!(trust::upsert(
        &mut registry,
        TrustPrincipal { principal_id: 7, trust_fixed: 9_000, authority_mask: 1, revision: 1, provenance: local() },
    ));
    let candidate = WisdomCandidate {
        action: semantic::VERIFY,
        goal_alignment_fixed: 9_000,
        confidence_fixed: 9_000,
        expected_outcome_fixed: 9_000,
        reversibility_fixed: 9_000,
        experience_fixed: 9_000,
        cost_fixed: 1_000,
        stale: false,
        safe: true,
        authorization: AuthorizationRequest { principal_id: 7, required_capability: 0, required_authority: 1, minimum_trust_fixed: 8_000 },
        node: None,
    };
    let mut candidates = [WisdomCandidate::empty(); 16];
    candidates[0] = candidate;
    let request = DecisionRequest {
        candidates,
        candidate_count: 1,
        canonical_validation: CanonicalValidation::Valid,
        evidence_reference: 42,
        rationale_code: 1,
        work_budget: 8,
    };
    let (artifact, report, evaluations) = decide(&registry, request);
    assert_eq!(artifact.status, DecisionStatus::Proposed);
    assert_eq!(artifact.authority, AuthorityOutcome::Allow);
    assert_eq!(report.eligible, 1);
    assert_eq!(report.selected_index, Some(0));
    assert!(evaluations[0].eligible());

    let mut stale = [WisdomCandidate::empty(); 16];
    stale[0] = WisdomCandidate { stale: true, ..candidate };
    let stale_request = DecisionRequest { candidates: stale, ..request };
    let (stale_artifact, _, _) = decide(&registry, stale_request);
    assert_eq!(stale_artifact.status, DecisionStatus::Denied);
}
