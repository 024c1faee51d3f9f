//! GNOSIS proof records: the justification attached to a proposed action,
//! valid only with sound evidence and every decision constraint satisfied.
use vstd::prelude::*;
use crate::gnosis::reason::InferenceKind;
use crate::gnosis::relation::{ProvenanceSource, RelationProvenance};
use crate::gnosis::wisdom::WisdomDisposition;
use crate::gnosis::decision::DecisionConstraints;
use crate::gnosis::reason::{InferenceRecord, TruthState};
use crate::gnosis::semantic::{self, ContextId, ObjectId, SemanticId, spec_is_valid};
use crate::gnosis::wisdom::WisdomEvaluation;

verus! {

#[derive(Clone, Copy, Debug, PartialEq, Eq, Structural)]
pub enum ProofStatus {
    NotEvaluated,
    Valid,
    InvalidEvidence,
    InvalidConstraints,
    InvalidAction,
    Stale,
    MissingAuthorityCheck,
    MissingTrustCheck,
}

#[derive(Clone, Copy, Debug, PartialEq, Eq, Structural)]
pub struct ProofRecord {
    pub status: ProofStatus,
    pub goal: SemanticId,
    pub action: SemanticId,
    pub evidence_object: ObjectId,
    pub evidence_context: ContextId,
    pub source_revision: u64,
    pub truth: TruthState,
    pub confidence_fixed: u32,
    pub uncertainty_fixed: u32,
    pub constraints_hash: u32,
}

impl ProofRecord {
    pub fn empty() -> (r: Self)
        ensures
            r == (ProofRecord {
                status: ProofStatus::NotEvaluated,
                goal: 0,
                action: 0,
                evidence_object: 0,
                evidence_context: 0,
                source_revision: 0,
                truth: TruthState::Unknown,
                confidence_fixed: 0,
                uncertainty_fixed: 10_000,
                constraints_hash: 0,
            }),
    {
        ProofRecord {
            status: ProofStatus::NotEvaluated,
            goal: 0,
            action: 0,
            evidence_object: 0,
            evidence_context: 0,
            source_revision: 0,
            truth: TruthState::Unknown,
            confidence_fixed: 0,
            uncertainty_fixed: 10_000,
            constraints_hash: 0,
        }
    }

    /// Whether the proof holds.
    pub fn valid(&self) -> (r: bool)
        ensures
            r == (self.status == ProofStatus::Valid),
    {
        match self.status {
            ProofStatus::Valid => true,
            _ => false,
        }
    }
}

pub open spec fn fnv_step(h: u32, b: bool) -> u32 {
    ((((h ^ (if b { 1u32 } else { 0u32 })) as int) * 16_777_619) % 0x1_0000_0000) as u32
}

/// FNV-1a over the five constraint flags.
pub open spec fn spec_constraints_hash(c: DecisionConstraints) -> u32 {
    fnv_step(fnv_step(fnv_step(fnv_step(fnv_step(0x811C_9DC5u32, c.safe), c.fresh), c.authority_checked), c.trust_checked), c.execution_allowed)
}

fn step(h: u32, b: bool) -> (r: u32)
    ensures
        r == fnv_step(h, b),
{
    let v = h ^ (if b { 1u32 } else { 0u32 });
    v.wrapping_mul(16_777_619)
}

fn constraints_hash(c: DecisionConstraints) -> (r: u32)
    ensures
        r == spec_constraints_hash(c),
{
    let mut value: u32 = 0x811C_9DC5;
    value = step(value, c.safe);
    value = step(value, c.fresh);
    value = step(value, c.authority_checked);
    value = step(value, c.trust_checked);
    step(value, c.execution_allowed)
}

pub open spec fn inference_sound(i: InferenceRecord) -> bool {
    i.object_id != 0 && spec_is_valid(i.semantic_id) && i.provenance.revision != 0 && i.timestamp != 0
        && i.confidence_fixed <= 10_000 && i.uncertainty_fixed <= 10_000
}

/// The status of a proof: the first failed check, or valid.
pub open spec fn spec_status(goal: SemanticId, e: WisdomEvaluation, c: DecisionConstraints) -> ProofStatus {
    let i = e.source_inference;
    if goal == 0 || !spec_is_valid(goal) || e.action == 0 || !spec_is_valid(e.action) {
        ProofStatus::InvalidAction
    } else if !inference_sound(i) {
        ProofStatus::InvalidEvidence
    } else if i.truth == TruthState::Stale {
        ProofStatus::Stale
    } else if i.truth == TruthState::Unknown || i.truth == TruthState::Conflicting {
        ProofStatus::InvalidEvidence
    } else if !c.safe || !c.fresh {
        ProofStatus::InvalidConstraints
    } else if !c.authority_checked {
        ProofStatus::MissingAuthorityCheck
    } else if !c.trust_checked {
        ProofStatus::MissingTrustCheck
    } else if c.execution_allowed {
        ProofStatus::InvalidConstraints
    } else {
        ProofStatus::Valid
    }
}

/// Builds the proof record of an evaluated action toward `goal`.
pub fn build(goal: SemanticId, evaluation: &WisdomEvaluation, constraints: DecisionConstraints) -> (p: ProofRecord)
    ensures
        p == (ProofRecord {
            status: spec_status(goal, *evaluation, constraints),
            goal,
            action: evaluation.action,
            evidence_object: evaluation.source_inference.object_id,
            evidence_context: evaluation.source_inference.context,
            source_revision: evaluation.source_inference.provenance.revision,
            truth: evaluation.source_inference.truth,
            confidence_fixed: if evaluation.source_inference.confidence_fixed < 10_000 { evaluation.source_inference.confidence_fixed } else { 10_000 },
            uncertainty_fixed: if evaluation.source_inference.uncertainty_fixed < 10_000 { evaluation.source_inference.uncertainty_fixed } else { 10_000 },
            constraints_hash: spec_constraints_hash(constraints),
        }),
{
    let inference = &evaluation.source_inference;
    let mut proof = ProofRecord {
        status: ProofStatus::InvalidEvidence,
        goal,
        action: evaluation.action,
        evidence_object: inference.object_id,
        evidence_context: inference.context,
        source_revision: inference.provenance.revision,
        truth: inference.truth,
        confidence_fixed: if inference.confidence_fixed < 10_000 { inference.confidence_fixed } else { 10_000 },
        uncertainty_fixed: if inference.uncertainty_fixed < 10_000 { inference.uncertainty_fixed } else { 10_000 },
        constraints_hash: constraints_hash(constraints),
    };
    if goal == 0 || !semantic::is_valid(goal) || evaluation.action == 0 {
        proof.status = ProofStatus::InvalidAction;
        return proof;
    }
    if !semantic::is_valid(evaluation.action) {
        proof.status = ProofStatus::InvalidAction;
        return proof;
    }
    if !(inference.object_id != 0 && semantic::is_valid(inference.semantic_id) && inference.provenance.revision != 0
        && inference.timestamp != 0 && inference.confidence_fixed <= 10_000 && inference.uncertainty_fixed <= 10_000) {
        proof.status = ProofStatus::InvalidEvidence;
        return proof;
    }
    match inference.truth {
        TruthState::Stale => {
            proof.status = ProofStatus::Stale;
            return proof;
        },
        TruthState::Unknown => {
            proof.status = ProofStatus::InvalidEvidence;
            return proof;
        },
        TruthState::Conflicting => {
            proof.status = ProofStatus::InvalidEvidence;
            return proof;
        },
        _ => {},
    }
    if !constraints.safe || !constraints.fresh {
        proof.status = ProofStatus::InvalidConstraints;
        return proof;
    }
    if !constraints.authority_checked {
        proof.status = ProofStatus::MissingAuthorityCheck;
        return proof;
    }
    if !constraints.trust_checked {
        proof.status = ProofStatus::MissingTrustCheck;
        return proof;
    }
    if constraints.execution_allowed {
        proof.status = ProofStatus::InvalidConstraints;
        return proof;
    }
    proof.status = ProofStatus::Valid;
    proof
}

/// A valid proof rests on sound evidence whose truth is settled, and on
/// constraints that were all checked and forbid execution.
pub proof fn law_valid_proof_is_justified(goal: SemanticId, e: WisdomEvaluation, c: DecisionConstraints)
    requires
        spec_status(goal, e, c) == ProofStatus::Valid,
    ensures
        inference_sound(e.source_inference),
        e.source_inference.truth == TruthState::True || e.source_inference.truth == TruthState::False,
        c.safe && c.fresh && c.authority_checked && c.trust_checked && !c.execution_allowed,
{
}


/// The justification of a decision as disclosed to other parties: goal,
/// evidence, inference, the alternatives considered, the selected action
/// with its confidence, cost and expected outcome, and provenance.
#[derive(Clone, Copy, Debug, PartialEq, Eq)]
pub struct DecisionProof {
    pub goal: SemanticId,
    pub evidence: SemanticId,
    pub inference: SemanticId,
    pub constraint_mask: u32,
    pub alternatives: [SemanticId; 8],
    pub alternative_count: usize,
    pub selected_action: SemanticId,
    pub confidence_fixed: u32,
    pub cost_fixed: u32,
    pub expected_outcome: SemanticId,
    pub rationale: SemanticId,
    pub provenance: crate::gnosis::relation::RelationProvenance,
}

/// The proof layer's own check: an eligible evaluation under the release
/// constraints yields a valid proof, and allowing execution is refused.
pub fn self_test() -> (ok: bool)
    ensures
        ok,
{
    let provenance = RelationProvenance { origin: 1, source: ProvenanceSource::Local, revision: 1 };
    let inference = InferenceRecord {
        object_id: 1,
        semantic_id: semantic::STATE_OBJECT,
        previous_state: semantic::READY,
        current_state: semantic::ACTIVE,
        predicted_state: semantic::ACTIVE,
        context: 1,
        kind: InferenceKind::PredictionConsistent,
        truth: TruthState::True,
        confidence_fixed: 9_000,
        uncertainty_fixed: 1_000,
        timestamp: 1,
        provenance,
    };
    let evaluation = WisdomEvaluation {
        action: semantic::VERIFY,
        disposition: WisdomDisposition::Eligible,
        utility_fixed: 8_000,
        confidence_fixed: 9_000,
        cost_fixed: 1_000,
        source_inference: inference,
    };
    let valid = build(semantic::STATE_OBJECT, &evaluation, DecisionConstraints::cognitive_release());
    let execution_denied = build(
        semantic::STATE_OBJECT,
        &evaluation,
        DecisionConstraints { execution_allowed: true, ..DecisionConstraints::cognitive_release() },
    );
    valid.valid() && execution_denied.status == ProofStatus::InvalidConstraints
}

} // verus!
