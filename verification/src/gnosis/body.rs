//! GNOSIS body: a snapshot of the machine's observable condition (time,
//! input, memory, messaging), read without changing anything.
use vstd::prelude::*;
use crate::gnosis::context::SystemState;
use crate::interrupts::timer::TIMER_FREQUENCY;
use crate::memory::{PhysicalMemory, sat_sub};

verus! {

#[derive(Clone, Copy, Debug, PartialEq, Eq, Structural)]
pub struct BodySnapshot {
    pub uptime_ticks: u64,
    pub uptime_seconds: u64,
    pub uptime_millis: u64,
    pub keyboard_events: u64,
    pub timer_frequency: u32,
    pub total_memory_bytes: u64,
    pub usable_memory_bytes: u64,
    pub reserved_memory_bytes: u64,
    pub allocated_memory_bytes: u64,
    pub reclaimed_memory_bytes: u64,
    pub messaging_count: usize,
}

/// Whether `s` shows the counters, the memory accounting and the number of
/// queued messages.
pub open spec fn body_matches(s: BodySnapshot, system: SystemState, memory: PhysicalMemory, messaging_count: usize) -> bool {
    &&& s.uptime_ticks == system.uptime_ticks
    &&& s.uptime_seconds == system.uptime_seconds
    &&& s.uptime_millis == system.uptime_millis
    &&& s.keyboard_events == system.keyboard_events
    &&& s.timer_frequency == TIMER_FREQUENCY
    &&& s.total_memory_bytes == memory.spec_total_bytes()
    &&& s.usable_memory_bytes == memory.spec_usable_bytes()
    &&& s.reserved_memory_bytes == sat_sub(memory.spec_total_bytes(), memory.spec_usable_bytes())
    &&& s.allocated_memory_bytes == crate::memory::sat_mul_frame(memory.spec_allocated())
    &&& s.reclaimed_memory_bytes == memory.reclaim_stack().len() * 4096
    &&& s.messaging_count == messaging_count
}

/// Takes a snapshot of the counters, the memory accounting and the number
/// of queued messages.
pub fn snapshot(system: &SystemState, memory: &PhysicalMemory, messaging_count: usize) -> (s: BodySnapshot)
    requires
        memory.wf(),
    ensures
        body_matches(s, *system, *memory, messaging_count),
{
    BodySnapshot {
        uptime_ticks: system.uptime_ticks,
        uptime_seconds: system.uptime_seconds,
        uptime_millis: system.uptime_millis,
        keyboard_events: system.keyboard_events,
        timer_frequency: TIMER_FREQUENCY,
        total_memory_bytes: memory.total_bytes(),
        usable_memory_bytes: memory.usable_bytes(),
        reserved_memory_bytes: memory.reserved_bytes(),
        allocated_memory_bytes: memory.allocated_bytes(),
        reclaimed_memory_bytes: memory.reclaimed_bytes(),
        messaging_count,
    }
}

/// The body's own check: a snapshot shows the memory accounting and the
/// message count as they stand, reserved memory is what usable memory leaves
/// of the total, and a second snapshot equals the first. It fails exactly
/// when the boot map counts more usable than total memory.
pub fn self_test(system: &SystemState, memory: &PhysicalMemory, messaging_count: usize) -> (ok: bool)
    requires
        memory.wf(),
    ensures
        ok <==> memory.spec_usable_bytes() <= memory.spec_total_bytes(),
{
    let before_total = memory.total_bytes();
    let before_usable = memory.usable_bytes();
    let before_reserved = memory.reserved_bytes();
    let before_allocated = memory.allocated_bytes();
    let before_reclaimed = memory.reclaimed_bytes();
    let observed = snapshot(system, memory, messaging_count);
    if observed.timer_frequency == 0 {
        return false;
    }
    if observed.total_memory_bytes != before_total || observed.usable_memory_bytes != before_usable
        || observed.reserved_memory_bytes != before_reserved
        || observed.allocated_memory_bytes != before_allocated
        || observed.reclaimed_memory_bytes != before_reclaimed
        || observed.messaging_count != messaging_count {
        return false;
    }
    if observed.usable_memory_bytes > observed.total_memory_bytes {
        return false;
    }
    if observed.reserved_memory_bytes != observed.total_memory_bytes - observed.usable_memory_bytes {
        return false;
    }
    let repeated = snapshot(system, memory, messaging_count);
    repeated == observed
}

} // verus!
