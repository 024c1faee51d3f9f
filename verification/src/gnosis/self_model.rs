//! GNOSIS self model: the system's estimate of its own capacity and
//! operational confidence, derived from a body snapshot.
use vstd::prelude::*;
use crate::gnosis::body::{self, BodySnapshot};
use crate::gnosis::context::SystemState;
use crate::gnosis::relation::{ProvenanceSource, RelationProvenance};
use crate::memory::PhysicalMemory;

verus! {

pub const SCALE: u32 = 10_000;

#[derive(Clone, Copy, Debug, PartialEq, Eq, Structural)]
pub struct SelfModel {
    pub generation: u64,
    pub uptime_ticks: u64,
    pub keyboard_events: u64,
    pub total_memory_bytes: u64,
    pub usable_memory_bytes: u64,
    pub allocated_memory_bytes: u64,
    pub reserved_memory_bytes: u64,
    pub reclaimed_memory_bytes: u64,
    pub compute_capacity_fixed: u32,
    pub operational_confidence_fixed: u32,
    pub provenance: RelationProvenance,
}

impl SelfModel {
    pub fn empty() -> (r: Self)
        ensures
            r == (SelfModel {
                generation: 0,
                uptime_ticks: 0,
                keyboard_events: 0,
                total_memory_bytes: 0,
                usable_memory_bytes: 0,
                allocated_memory_bytes: 0,
                reserved_memory_bytes: 0,
                reclaimed_memory_bytes: 0,
                compute_capacity_fixed: 0,
                operational_confidence_fixed: 0,
                provenance: RelationProvenance { origin: 0, source: ProvenanceSource::Local, revision: 0 },
            }),
    {
        SelfModel {
            generation: 0,
            uptime_ticks: 0,
            keyboard_events: 0,
            total_memory_bytes: 0,
            usable_memory_bytes: 0,
            allocated_memory_bytes: 0,
            reserved_memory_bytes: 0,
            reclaimed_memory_bytes: 0,
            compute_capacity_fixed: 0,
            operational_confidence_fixed: 0,
            provenance: RelationProvenance { origin: 0, source: ProvenanceSource::Local, revision: 0 },
        }
    }
}

#[derive(Clone, Copy, Debug, PartialEq, Eq, Structural)]
pub struct SelfAssessment {
    pub healthy: bool,
    pub capacity_fixed: u32,
    pub confidence_fixed: u32,
    pub reason_code: u8,
}

/// Compute capacity: the usable share of memory in fixed point (the
/// product saturating), capped at `SCALE`; 0 without memory.
pub open spec fn spec_capacity(b: BodySnapshot) -> u32 {
    if b.total_memory_bytes == 0 {
        0
    } else {
        let product: int = if b.usable_memory_bytes as int * SCALE as int > u64::MAX {
            u64::MAX as int
        } else {
            b.usable_memory_bytes as int * SCALE as int
        };
        let q = product / b.total_memory_bytes as int;
        if q < SCALE { q as u32 } else { SCALE }
    }
}

pub open spec fn spec_derive(b: BodySnapshot, provenance: RelationProvenance) -> SelfModel {
    SelfModel {
        generation: b.keyboard_events,
        uptime_ticks: b.uptime_ticks,
        keyboard_events: b.keyboard_events,
        total_memory_bytes: b.total_memory_bytes,
        usable_memory_bytes: b.usable_memory_bytes,
        allocated_memory_bytes: b.allocated_memory_bytes,
        reserved_memory_bytes: b.reserved_memory_bytes,
        reclaimed_memory_bytes: b.reclaimed_memory_bytes,
        compute_capacity_fixed: spec_capacity(b),
        operational_confidence_fixed: if b.timer_frequency == 0 { 0 } else { SCALE },
        provenance,
    }
}

/// The self model a body snapshot supports.
pub fn derive(b: BodySnapshot, provenance: RelationProvenance) -> (m: SelfModel)
    ensures
        m == spec_derive(b, provenance),
{
    let capacity: u32 = if b.total_memory_bytes == 0 {
        0
    } else {
        let product: u64 = if b.usable_memory_bytes > u64::MAX / (SCALE as u64) {
            u64::MAX
        } else {
            b.usable_memory_bytes * (SCALE as u64)
        };
        proof {
            if b.usable_memory_bytes > u64::MAX / (SCALE as u64) {
                assert(b.usable_memory_bytes as int * SCALE as int > u64::MAX) by (nonlinear_arith)
                    requires
                        b.usable_memory_bytes > u64::MAX / 10000,
                ;
            } else {
                assert(b.usable_memory_bytes as int * SCALE as int <= u64::MAX) by (nonlinear_arith)
                    requires
                        b.usable_memory_bytes <= u64::MAX / 10000,
                ;
            }
        }
        let q = product / b.total_memory_bytes;
        if q < SCALE as u64 { q as u32 } else { SCALE }
    };
    let conf = if b.timer_frequency == 0 { 0 } else { SCALE };
    SelfModel {
        generation: b.keyboard_events,
        uptime_ticks: b.uptime_ticks,
        keyboard_events: b.keyboard_events,
        total_memory_bytes: b.total_memory_bytes,
        usable_memory_bytes: b.usable_memory_bytes,
        allocated_memory_bytes: b.allocated_memory_bytes,
        reserved_memory_bytes: b.reserved_memory_bytes,
        reclaimed_memory_bytes: b.reclaimed_memory_bytes,
        compute_capacity_fixed: capacity,
        operational_confidence_fixed: conf,
        provenance,
    }
}

/// The current self model.
pub fn snapshot(system: &SystemState, memory: &PhysicalMemory, messaging_count: usize, provenance: RelationProvenance) -> (m: SelfModel)
    requires
        memory.wf(),
    ensures
        m.operational_confidence_fixed == SCALE,
        m.compute_capacity_fixed <= SCALE,
        m.total_memory_bytes == memory.spec_total_bytes(),
        m.usable_memory_bytes == memory.spec_usable_bytes(),
        m.uptime_ticks == system.uptime_ticks,
        m.keyboard_events == system.keyboard_events,
        m.generation == system.keyboard_events,
        m.provenance == provenance,
{
    derive(body::snapshot(system, memory, messaging_count), provenance)
}

/// Healthy when confident and the usable memory does not exceed the total.
pub open spec fn spec_assess(m: SelfModel) -> SelfAssessment {
    let healthy = m.operational_confidence_fixed > 0 && m.usable_memory_bytes <= m.total_memory_bytes;
    SelfAssessment {
        healthy,
        capacity_fixed: m.compute_capacity_fixed,
        confidence_fixed: m.operational_confidence_fixed,
        reason_code: if healthy { 1 } else { 2 },
    }
}

pub fn assess(model: SelfModel) -> (a: SelfAssessment)
    ensures
        a == spec_assess(model),
{
    let healthy = model.operational_confidence_fixed > 0 && model.usable_memory_bytes <= model.total_memory_bytes;
    SelfAssessment {
        healthy,
        capacity_fixed: model.compute_capacity_fixed,
        confidence_fixed: model.operational_confidence_fixed,
        reason_code: if healthy { 1 } else { 2 },
    }
}

/// The self model's own check: the model of the machine as it stands is
/// confident and its capacity within scale.
pub fn self_test(system: &SystemState, memory: &PhysicalMemory, messaging_count: usize) -> (ok: bool)
    requires
        memory.wf(),
    ensures
        ok,
{
    let p = RelationProvenance { origin: 1, source: ProvenanceSource::Local, revision: 1 };
    let s = snapshot(system, memory, messaging_count, p);
    let a = assess(s);
    a.confidence_fixed > 0 && a.capacity_fixed <= SCALE
}

} // verus!
