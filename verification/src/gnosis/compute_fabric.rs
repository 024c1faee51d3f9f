//! GNOSIS compute arbitration: decides between running a request locally
//! and deferring it. Hard constraints always dominate utility.
use vstd::prelude::*;
use crate::gnosis::local_compute::{self, ComputeDisposition, LocalComputeResult, spec_evaluate};
use crate::gnosis::relation::{ProvenanceSource, RelationProvenance};
use crate::gnosis::semantic::{ContextId, SemanticId};
use crate::gnosis::speculation::SpeculativeScenario;

verus! {

pub const SCALE: u32 = 10_000;
pub const MAX_CANDIDATES: usize = 8;
pub const MAX_WORK: usize = 256;

#[derive(Clone, Copy, Debug, PartialEq, Eq, Structural)]
pub enum ComputeLocation {
    Local,
    Defer,
}

#[derive(Clone, Copy, Debug, PartialEq, Eq, Structural)]
pub struct ComputeRequest {
    pub semantic_id: SemanticId,
    pub context: ContextId,
    pub estimated_work: u32,
    pub max_work: u32,
    pub deadline_ticks: u64,
    pub required_capability: u32,
    pub minimum_trust_fixed: u32,
    pub provenance: RelationProvenance,
}

impl ComputeRequest {
    pub fn empty() -> (r: Self)
        ensures
            r.semantic_id == 0 && r.estimated_work == 0 && r.max_work == 0 && r.provenance.revision == 0,
    {
        ComputeRequest {
            semantic_id: 0,
            context: 0,
            estimated_work: 0,
            max_work: 0,
            deadline_ticks: 0,
            required_capability: 0,
            minimum_trust_fixed: 0,
            provenance: RelationProvenance { origin: 0, source: ProvenanceSource::Local, revision: 0 },
        }
    }
}

#[derive(Clone, Copy, Debug, PartialEq, Eq, Structural)]
pub struct ComputeDecision {
    pub location: ComputeLocation,
    pub admitted: bool,
    pub utility_fixed: u32,
    pub estimated_work: u32,
    pub reason: u8,
}

pub open spec fn rejected_decision() -> ComputeDecision {
    ComputeDecision { location: ComputeLocation::Defer, admitted: false, utility_fixed: 0, estimated_work: 0, reason: 0 }
}

impl ComputeDecision {
    pub fn rejected() -> (d: Self)
        ensures
            d == rejected_decision(),
    {
        ComputeDecision { location: ComputeLocation::Defer, admitted: false, utility_fixed: 0, estimated_work: 0, reason: 0 }
    }
}

#[derive(Clone, Copy, Debug, PartialEq, Eq, Structural)]
pub struct ComputeReport {
    pub considered: usize,
    pub admitted: usize,
    pub deferred: usize,
    pub work_used: usize,
    pub work_budget: usize,
    pub stopped_by_budget: bool,
    pub latest: ComputeDecision,
}

impl ComputeReport {
    pub fn empty() -> (r: Self)
        ensures
            r == (ComputeReport {
                considered: 0,
                admitted: 0,
                deferred: 0,
                work_used: 0,
                work_budget: MAX_WORK,
                stopped_by_budget: false,
                latest: rejected_decision(),
            }),
    {
        ComputeReport {
            considered: 0,
            admitted: 0,
            deferred: 0,
            work_used: 0,
            work_budget: MAX_WORK,
            stopped_by_budget: false,
            latest: ComputeDecision::rejected(),
        }
    }
}

/// A request is well formed: it names a type, has provenance, and a
/// nonzero work estimate within its limit.
pub open spec fn request_ok(r: ComputeRequest) -> bool {
    r.semantic_id != 0 && r.provenance.revision != 0 && r.estimated_work != 0 && r.max_work != 0 && r.estimated_work <= r.max_work
}

/// The decision: reject a malformed request; run locally when the local
/// evaluation succeeded, with its (capped) utility; defer otherwise.
pub open spec fn spec_decide(request: ComputeRequest, local: Option<LocalComputeResult>) -> ComputeDecision {
    if !request_ok(request) {
        rejected_decision()
    } else {
        match local {
            Some(result) if result.disposition == ComputeDisposition::Evaluated => ComputeDecision {
                location: ComputeLocation::Local,
                admitted: true,
                utility_fixed: if result.utility_fixed < SCALE { result.utility_fixed } else { SCALE },
                estimated_work: request.estimated_work,
                reason: 1,
            },
            _ => ComputeDecision {
                location: ComputeLocation::Defer,
                admitted: false,
                utility_fixed: 0,
                estimated_work: request.estimated_work,
                reason: 2,
            },
        }
    }
}

pub fn decide(request: ComputeRequest, local: Option<LocalComputeResult>) -> (d: ComputeDecision)
    ensures
        d == spec_decide(request, local),
{
    if request.semantic_id == 0 || request.provenance.revision == 0 || request.estimated_work == 0
        || request.max_work == 0 || request.estimated_work > request.max_work {
        return ComputeDecision::rejected();
    }
    match local {
        Some(result) => {
            if result.disposition == ComputeDisposition::Evaluated {
                let utility = if result.utility_fixed < SCALE { result.utility_fixed } else { SCALE };
                return ComputeDecision {
                    location: ComputeLocation::Local,
                    admitted: true,
                    utility_fixed: utility,
                    estimated_work: request.estimated_work,
                    reason: 1,
                };
            }
        },
        None => {},
    }
    ComputeDecision {
        location: ComputeLocation::Defer,
        admitted: false,
        utility_fixed: 0,
        estimated_work: request.estimated_work,
        reason: 2,
    }
}

/// Same as `decide`.
pub fn arbitrate(request: ComputeRequest, local: Option<LocalComputeResult>) -> (d: ComputeDecision)
    ensures
        d == spec_decide(request, local),
{
    decide(request, local)
}

/// Evaluates a speculative branch locally and decides on it.
pub fn evaluate_speculation(request: ComputeRequest, scenario: SpeculativeScenario) -> (d: ComputeDecision)
    ensures
        d == spec_decide(request, Some(spec_evaluate(scenario))),
{
    let result = local_compute::evaluate(scenario);
    decide(request, Some(result))
}

/// A decision admits work only when the request is well formed and the
/// local evaluation succeeded; admitted work runs locally within its limit.
pub proof fn law_constraints_dominate(request: ComputeRequest, local: Option<LocalComputeResult>)
    ensures
        spec_decide(request, local).admitted ==> request_ok(request) && spec_decide(request, local).location == ComputeLocation::Local
            && spec_decide(request, local).estimated_work <= request.max_work
            && spec_decide(request, local).utility_fixed <= SCALE,
        !request_ok(request) ==> spec_decide(request, local) == rejected_decision(),
{
}

/// The fabric's own check: a confident scenario within budget runs
/// locally; a failed local evaluation defers; over-budget work is refused.
pub fn self_test() -> (ok: bool)
    ensures
        ok,
{
    let provenance = RelationProvenance { origin: 1, source: ProvenanceSource::Local, revision: 1 };
    let request = ComputeRequest {
        semantic_id: 2,
        context: 3,
        estimated_work: 4,
        max_work: 16,
        deadline_ticks: 100,
        required_capability: 0,
        minimum_trust_fixed: 0,
        provenance,
    };
    let scenario = SpeculativeScenario {
        kind: crate::gnosis::speculation::SpeculationKind::PredictedAlternative,
        object_id: 1,
        semantic_id: 2,
        context: 3,
        baseline_state: 10,
        hypothetical_state: 20,
        previous_state: 9,
        support: 3,
        confidence_fixed: 8_000,
        uncertainty_fixed: 2_000,
        horizon: 1,
        timestamp: 100,
        provenance,
    };
    let decision = evaluate_speculation(request, scenario);
    if decision.location != ComputeLocation::Local || !decision.admitted {
        return false;
    }
    let rejected = LocalComputeResult::empty();
    let rejected_decision = decide(request, Some(rejected));
    if rejected_decision.location != ComputeLocation::Defer || rejected_decision.admitted {
        return false;
    }
    let invalid_request = ComputeRequest { estimated_work: 17, max_work: 16, ..request };
    if decide(invalid_request, Some(local_compute::evaluate(scenario))).admitted {
        return false;
    }
    true
}

} // verus!
