//! GNOSIS cognitive power arbitration: admits a compute request only when
//! the system model is confident, the deadline fits, and the decided quality
//! and cost meet the request's bounds.
use vstd::prelude::*;
use crate::gnosis::context::SystemState;
use crate::memory::PhysicalMemory;
use crate::gnosis::compute_fabric::{self, ComputeLocation, ComputeRequest, spec_decide};
use crate::gnosis::local_compute::LocalComputeResult;
use crate::gnosis::relation::{ProvenanceSource, RelationProvenance};
use crate::gnosis::self_model::SelfModel;

verus! {

pub const SCALE: u32 = 10_000;
pub const MAX_WORK: usize = 512;

#[derive(Clone, Copy, Debug, PartialEq, Eq, Structural)]
pub struct PowerRequest {
    pub compute: ComputeRequest,
    pub required_quality_fixed: u32,
    pub max_cost_fixed: u32,
    pub max_latency_ticks: u64,
    pub prefer_local: bool,
    pub provenance: RelationProvenance,
}

#[derive(Clone, Copy, Debug, PartialEq, Eq, Structural)]
pub struct PowerDecision {
    pub location: ComputeLocation,
    pub admitted: bool,
    pub quality_fixed: u32,
    pub estimated_work: u32,
    pub cost_fixed: u32,
    pub work_used: usize,
    pub reason_code: u8,
    pub provenance: RelationProvenance,
}

pub open spec fn rejected_power() -> PowerDecision {
    PowerDecision {
        location: ComputeLocation::Defer,
        admitted: false,
        quality_fixed: 0,
        estimated_work: 0,
        cost_fixed: 0,
        work_used: 0,
        reason_code: 0,
        provenance: RelationProvenance { origin: 0, source: ProvenanceSource::Local, revision: 0 },
    }
}

impl PowerDecision {
    pub fn rejected() -> (d: Self)
        ensures
            d == rejected_power(),
    {
        PowerDecision {
            location: ComputeLocation::Defer,
            admitted: false,
            quality_fixed: 0,
            estimated_work: 0,
            cost_fixed: 0,
            work_used: 0,
            reason_code: 0,
            provenance: RelationProvenance { origin: 0, source: ProvenanceSource::Local, revision: 0 },
        }
    }
}

/// The arbitration rule.
pub open spec fn spec_arbitrate(request: PowerRequest, local: Option<LocalComputeResult>, model: SelfModel) -> PowerDecision {
    let d = PowerDecision { provenance: request.provenance, estimated_work: request.compute.estimated_work, ..rejected_power() };
    if request.provenance.revision == 0 || model.operational_confidence_fixed == 0 {
        d
    } else if request.compute.deadline_ticks != 0 && request.max_latency_ticks != 0 && request.compute.deadline_ticks > request.max_latency_ticks {
        d
    } else {
        let c = spec_decide(request.compute, local);
        let quality: u32 = if c.utility_fixed < SCALE { c.utility_fixed } else { SCALE };
        let ok = c.admitted && quality >= request.required_quality_fixed && c.estimated_work <= request.max_cost_fixed;
        PowerDecision {
            location: if ok { c.location } else { ComputeLocation::Defer },
            admitted: ok,
            quality_fixed: quality,
            cost_fixed: c.estimated_work,
            work_used: c.estimated_work as usize,
            reason_code: if ok { 1 } else { 2 },
            ..d
        }
    }
}

pub fn arbitrate(request: PowerRequest, local: Option<LocalComputeResult>, self_model: SelfModel) -> (d: PowerDecision)
    ensures
        d == spec_arbitrate(request, local, self_model),
{
    let mut d = PowerDecision::rejected();
    d.provenance = request.provenance;
    d.estimated_work = request.compute.estimated_work;
    let known = match request.provenance.source {
        ProvenanceSource::Local => true,
        ProvenanceSource::Remote => true,
        ProvenanceSource::Recovered => true,
    };
    if request.provenance.revision == 0 || !known || self_model.operational_confidence_fixed == 0 {
        return d;
    }
    if request.compute.deadline_ticks != 0 && request.max_latency_ticks != 0
        && request.compute.deadline_ticks > request.max_latency_ticks {
        return d;
    }
    let c = compute_fabric::decide(request.compute, local);
    d.location = c.location;
    d.admitted = c.admitted;
    d.quality_fixed = if c.utility_fixed < SCALE { c.utility_fixed } else { SCALE };
    d.cost_fixed = c.estimated_work;
    d.work_used = c.estimated_work as usize;
    d.reason_code = if c.admitted && d.quality_fixed >= request.required_quality_fixed && d.cost_fixed <= request.max_cost_fixed {
        1
    } else {
        2
    };
    if d.reason_code != 1 {
        d.admitted = false;
        d.location = ComputeLocation::Defer;
    }
    d
}

/// Admitted work meets the requested quality and cost bounds and comes from
/// a confident system model.
pub proof fn law_admission_meets_bounds(request: PowerRequest, local: Option<LocalComputeResult>, model: SelfModel)
    ensures
        spec_arbitrate(request, local, model).admitted ==> model.operational_confidence_fixed != 0
            && spec_arbitrate(request, local, model).quality_fixed >= request.required_quality_fixed
            && spec_arbitrate(request, local, model).cost_fixed <= request.max_cost_fixed
            && spec_arbitrate(request, local, model).location == ComputeLocation::Local,
{
}

/// Power arbitration's own check: affordable, good-enough local work with
/// a confident self model is admitted locally.
pub fn self_test(system: &SystemState, memory: &PhysicalMemory, messaging_count: usize) -> (ok: bool)
    requires
        memory.wf(),
    ensures
        ok,
{
    let p = RelationProvenance { origin: 1, source: ProvenanceSource::Local, revision: 1 };
    let req = ComputeRequest {
        semantic_id: crate::gnosis::semantic::EXECUTE,
        context: 1,
        estimated_work: 4,
        max_work: 16,
        deadline_ticks: 10,
        required_capability: 0,
        minimum_trust_fixed: 0,
        provenance: p,
    };
    let local = LocalComputeResult {
        disposition: crate::gnosis::local_compute::ComputeDisposition::Evaluated,
        object_id: 1,
        semantic_id: crate::gnosis::semantic::EXECUTE,
        baseline_state: 1,
        hypothetical_state: 2,
        delta: 1,
        confidence_fixed: 9000,
        utility_fixed: 9000,
        work_used: 4,
    };
    let s = crate::gnosis::self_model::snapshot(system, memory, messaging_count, p);
    let d = arbitrate(
        PowerRequest {
            compute: req,
            required_quality_fixed: 5000,
            max_cost_fixed: 16,
            max_latency_ticks: 20,
            prefer_local: true,
            provenance: p,
        },
        Some(local),
        s,
    );
    d.admitted && d.location == ComputeLocation::Local
}

} // verus!
