//! GNOSIS decisions: turns the wisdom ranking of candidate actions into a
//! proposed (never executed) decision artifact, or a denial.
use vstd::prelude::*;
use crate::gnosis::reason::InferenceRecord;
use crate::gnosis::relation::{ProvenanceSource, RelationProvenance};
use crate::gnosis::semantic::{ContextId, ObjectId, SemanticId};
use crate::gnosis::trust::{self, AuthorizationRequest, TrustPrincipal, TrustRegistry};
use crate::gnosis::wisdom::{
    self,
    WisdomCandidate,
    WisdomEvaluation,
    WisdomReport,
    best_upto,
    candidate_ok,
    eligible_count,
    empty_evaluation,
    empty_report,
    spec_evaluate_candidate,
};

verus! {

pub const SCALE: u32 = 10_000;
pub const MAX_CANDIDATES: usize = 16;
pub const MAX_WORK: usize = 16;

#[derive(Clone, Copy, Debug, PartialEq, Eq, Structural)]
pub enum DecisionStatus {
    Proposed,
    Denied,
    Invalid,
}

#[derive(Clone, Copy, Debug, PartialEq, Eq, Structural)]
pub enum CanonicalValidation {
    Valid,
    Stale,
    Invalid,
}

#[derive(Clone, Copy, Debug, PartialEq, Eq, Structural)]
pub enum AuthorityOutcome {
    Allow,
    Deny,
}

#[derive(Clone, Copy, Debug, PartialEq, Eq)]
pub struct DecisionRequest {
    pub candidates: [WisdomCandidate; 16],
    pub candidate_count: usize,
    pub canonical_validation: CanonicalValidation,
    pub evidence_reference: u64,
    pub rationale_code: u16,
    pub work_budget: usize,
}

#[derive(Clone, Copy, Debug, PartialEq, Eq, Structural)]
pub struct DecisionArtifact {
    pub status: DecisionStatus,
    pub object_id: ObjectId,
    pub semantic_id: SemanticId,
    pub context: ContextId,
    pub evidence_reference: u64,
    pub authority: AuthorityOutcome,
    pub canonical_validation: CanonicalValidation,
    pub confidence_fixed: u32,
    pub rationale_code: u16,
    pub work_used: usize,
    pub provenance: RelationProvenance,
}

pub open spec fn denied_artifact() -> DecisionArtifact {
    DecisionArtifact {
        status: DecisionStatus::Invalid,
        object_id: 0,
        semantic_id: 0,
        context: 0,
        evidence_reference: 0,
        authority: AuthorityOutcome::Deny,
        canonical_validation: CanonicalValidation::Invalid,
        confidence_fixed: 0,
        rationale_code: 0,
        work_used: 0,
        provenance: RelationProvenance { origin: 0, source: ProvenanceSource::Local, revision: 0 },
    }
}

impl DecisionArtifact {
    pub fn denied() -> (r: Self)
        ensures
            r == denied_artifact(),
    {
        DecisionArtifact {
            status: DecisionStatus::Invalid,
            object_id: 0,
            semantic_id: 0,
            context: 0,
            evidence_reference: 0,
            authority: AuthorityOutcome::Deny,
            canonical_validation: CanonicalValidation::Invalid,
            confidence_fixed: 0,
            rationale_code: 0,
            work_used: 0,
            provenance: RelationProvenance { origin: 0, source: ProvenanceSource::Local, revision: 0 },
        }
    }
}

/// The constraints a decision is taken under.
#[derive(Clone, Copy, Debug, PartialEq, Eq, Structural)]
pub struct DecisionConstraints {
    pub safe: bool,
    pub fresh: bool,
    pub authority_checked: bool,
    pub trust_checked: bool,
    pub execution_allowed: bool,
}

impl DecisionConstraints {
    /// Every check on, and execution never allowed at this stage.
    pub fn cognitive_release() -> (c: Self)
        ensures
            c == (DecisionConstraints { safe: true, fresh: true, authority_checked: true, trust_checked: true, execution_allowed: false }),
    {
        DecisionConstraints { safe: true, fresh: true, authority_checked: true, trust_checked: true, execution_allowed: false }
    }
}

pub open spec fn count_of(request: DecisionRequest) -> int {
    if request.candidate_count < MAX_CANDIDATES { request.candidate_count as int } else { MAX_CANDIDATES as int }
}

/// Decides on a request: denied without budget-free evaluation of valid
/// canonical state, denied when no candidate is eligible, otherwise a
/// proposal of the best-ranked eligible action.
pub fn decide(registry: &TrustRegistry, request: DecisionRequest) -> (r: (DecisionArtifact, WisdomReport, [WisdomEvaluation; 16]))
    requires
        forall|i: int| 0 <= i < 16 ==> candidate_ok(#[trigger] request.candidates@[i]),
    ensures
        ({
            let (a, report, evals) = r;
            let base = DecisionArtifact {
                evidence_reference: request.evidence_reference,
                canonical_validation: request.canonical_validation,
                rationale_code: request.rationale_code,
                ..denied_artifact()
            };
            let n = count_of(request);
            &&& request.work_budget == 0 ==> a == DecisionArtifact { work_used: 1, ..base }
            &&& request.work_budget != 0 && request.canonical_validation != CanonicalValidation::Valid ==> a == DecisionArtifact {
                status: DecisionStatus::Denied,
                work_used: 1,
                ..base
            }
            &&& (request.work_budget == 0 || request.canonical_validation != CanonicalValidation::Valid) ==> {
                &&& report == empty_report()
                &&& forall|i: int| 0 <= i < 16 ==> #[trigger] evals@[i] == empty_evaluation()
            }
            &&& request.work_budget != 0 && request.canonical_validation == CanonicalValidation::Valid ==> {
                &&& forall|i: int| 0 <= i < n ==> #[trigger] evals@[i] == spec_evaluate_candidate(registry.principals(), request.candidates@[i], crate::gnosis::reason::empty_inference())
                &&& forall|i: int| n <= i < 16 ==> #[trigger] evals@[i] == empty_evaluation()
                &&& report.evaluated == n && report.work_used == n && report.work_budget == MAX_WORK
                &&& report.eligible == eligible_count(evals@, n)
                &&& report.eligible + report.denied == n
                &&& !report.stopped_by_budget && !report.provisional
                &&& report.selected_index matches Some(k) ==> best_upto(evals@, n) == Some(k as int)
                &&& report.selected_index is None ==> best_upto(evals@, n) is None
                &&& a.work_used == 1 + n
                &&& match best_upto(evals@, n) {
                    None => a.status == DecisionStatus::Denied && a.authority == AuthorityOutcome::Deny,
                    Some(k) => a.status == DecisionStatus::Proposed && a.authority == AuthorityOutcome::Allow
                        && a.semantic_id == evals@[k].action && a.confidence_fixed == evals@[k].confidence_fixed
                        && a.object_id == 1 && a.context == 0
                        && a.provenance == (RelationProvenance { origin: 1, source: ProvenanceSource::Local, revision: 1 }),
                }
            }
        }),
{
    let mut result = DecisionArtifact::denied();
    let mut evaluations = [WisdomEvaluation::empty(); 16];
    result.evidence_reference = request.evidence_reference;
    result.canonical_validation = request.canonical_validation;
    result.rationale_code = request.rationale_code;
    result.work_used = 1;
    let budget = if request.work_budget < MAX_WORK { request.work_budget } else { MAX_WORK };
    if budget == 0 {
        return (result, WisdomReport::empty(), evaluations);
    }
    if request.canonical_validation != CanonicalValidation::Valid {
        result.status = DecisionStatus::Denied;
        result.authority = AuthorityOutcome::Deny;
        return (result, WisdomReport::empty(), evaluations);
    }
    let n = if request.candidate_count < MAX_CANDIDATES { request.candidate_count } else { MAX_CANDIDATES };
    let candidates = vstd::slice::slice_subrange(vstd::array::array_as_slice(&request.candidates), 0, n);
    let mut out: Vec<WisdomEvaluation> = Vec::new();
    let mut k: usize = 0;
    while k < 16
        invariant
            0 <= k <= 16,
            out@.len() == k,
            forall|j: int| 0 <= j < k ==> #[trigger] out@[j] == empty_evaluation(),
        decreases 16 - k,
    {
        out.push(WisdomEvaluation::empty());
        k = k + 1;
    }
    let report = wisdom::evaluate(registry, candidates, InferenceRecord::empty(), out.as_mut_slice());
    let mut i: usize = 0;
    while i < 16
        invariant
            0 <= i <= 16,
            out@.len() == 16,
            forall|j: int| 0 <= j < i ==> #[trigger] evaluations@[j] == out@[j],
        decreases 16 - i,
    {
        evaluations[i] = out[i];
        i = i + 1;
    }
    assert(evaluations@ =~= out@);
    proof {
        wisdom::lemma_best_upto(out@, n as int);
        assert forall|j: int| 0 <= j < n implies #[trigger] evaluations@[j] == spec_evaluate_candidate(
            registry.principals(),
            request.candidates@[j],
            crate::gnosis::reason::empty_inference(),
        ) by {
            assert(candidates@[j] == request.candidates@[j]);
            assert(out@[j] == spec_evaluate_candidate(registry.principals(), candidates@[j], crate::gnosis::reason::empty_inference()));
        }
    }
    result.work_used = result.work_used + report.work_used;
    match report.selected_index {
        None => {
            result.status = DecisionStatus::Denied;
            result.authority = AuthorityOutcome::Deny;
            (result, report, evaluations)
        },
        Some(idx) => {
            proof {
                wisdom::lemma_best_implies_eligible(out@, n as int);
            }
            if report.eligible == 0 {
                result.status = DecisionStatus::Denied;
                result.authority = AuthorityOutcome::Deny;
                return (result, report, evaluations);
            }
            proof {
                wisdom::lemma_best_implies_eligible(out@, n as int);
            }
            let chosen = evaluations[idx];
            result.status = DecisionStatus::Proposed;
            result.authority = AuthorityOutcome::Allow;
            result.object_id = 1;
            result.semantic_id = chosen.action;
            result.context = 0;
            result.confidence_fixed = if chosen.confidence_fixed < SCALE { chosen.confidence_fixed } else { SCALE };
            result.provenance = RelationProvenance { origin: 1, source: ProvenanceSource::Local, revision: 1 };
            (result, report, evaluations)
        },
    }
}

/// The decision layer's own check: with principal 7 trusted and holding
/// authority bit 0, a valid request with one fresh, safe verification is
/// proposed and allowed, that candidate is the one eligible and selected;
/// the same request with the candidate gone stale is denied.
pub fn self_test() -> (ok: bool)
    ensures
        ok,
{
    let mut registry = TrustRegistry::new();
    let provenance = RelationProvenance { origin: 1, source: ProvenanceSource::Local, revision: 1 };
    if !trust::upsert(
        &mut registry,
        TrustPrincipal { principal_id: 7, trust_fixed: 9_000, authority_mask: 1, revision: 1, provenance },
    ) {
        return false;
    }
    let candidate = WisdomCandidate {
        action: crate::gnosis::semantic::VERIFY,
        goal_alignment_fixed: 9_000,
        confidence_fixed: 9_000,
        expected_outcome_fixed: 9_000,
        reversibility_fixed: 9_000,
        experience_fixed: 9_000,
        cost_fixed: 1_000,
        stale: false,
        safe: true,
        authorization: AuthorizationRequest {
            principal_id: 7,
            required_capability: 0,
            required_authority: 1,
            minimum_trust_fixed: 8_000,
        },
        node: None,
    };
    let mut candidates = [WisdomCandidate::empty(); MAX_CANDIDATES];
    candidates[0] = candidate;
    let request = DecisionRequest {
        candidates,
        candidate_count: 1,
        canonical_validation: CanonicalValidation::Valid,
        evidence_reference: 42,
        rationale_code: 1,
        work_budget: 8,
    };
    let stale_candidate = WisdomCandidate { stale: true, ..candidate };
    let mut stale_candidates = [WisdomCandidate::empty(); MAX_CANDIDATES];
    stale_candidates[0] = stale_candidate;
    let stale_request = DecisionRequest {
        candidates: stale_candidates,
        candidate_count: 1,
        canonical_validation: CanonicalValidation::Valid,
        evidence_reference: 42,
        rationale_code: 1,
        work_budget: 8,
    };
    proof {
        assert(1u32 & 1u32 == 1u32) by (bit_vector);
        let ps = registry.principals();
        assert(ps.len() == 1 && ps[0].principal_id == 7);
        assert(trust::principal_slot(ps, 7, 0) == Some(0int));
        assert(crate::gnosis::semantic::spec_is_valid(crate::gnosis::semantic::VERIFY));
        assert(request.candidates@[0] == candidate);
        assert(stale_request.candidates@[0] == stale_candidate);
        assert(count_of(request) == 1 && count_of(stale_request) == 1);
    }
    let (artifact, report, evaluations) = decide(&registry, request);
    let (stale_artifact, stale_report, stale_evaluations) = decide(&registry, stale_request);
    proof {
        assert(evaluations@[0].disposition == wisdom::WisdomDisposition::Eligible);
        assert(eligible_count(evaluations@, 0) == 0);
        assert(eligible_count(evaluations@, 1) == 1);
        assert(best_upto(evaluations@, 0) is None);
        assert(best_upto(evaluations@, 1) == Some(0int));
        assert(stale_evaluations@[0].disposition != wisdom::WisdomDisposition::Eligible);
        assert(eligible_count(stale_evaluations@, 0) == 0);
        assert(eligible_count(stale_evaluations@, 1) == 0);
        assert(best_upto(stale_evaluations@, 0) is None);
        assert(best_upto(stale_evaluations@, 1) is None);
    }
    artifact.status == DecisionStatus::Proposed && artifact.authority == AuthorityOutcome::Allow
        && report.eligible == 1 && report.selected_index == Some(0usize) && evaluations[0].eligible()
        && stale_artifact.status == DecisionStatus::Denied && stale_report.eligible == 0
}

} // verus!
