//! GNOSIS runtime context: a read-only view of the kernel's counters. The
//! counters themselves are kept by the kernel and handed in as a
//! `SystemState` value.
use vstd::prelude::*;

verus! {

pub const ACTIVE: bool = true;

/// The kernel counters that GNOSIS reads.
#[derive(Clone, Copy, Debug, PartialEq, Eq, Structural)]
pub struct SystemState {
    pub uptime_ticks: u64,
    pub uptime_seconds: u64,
    pub uptime_millis: u64,
    pub keyboard_events: u64,
}

/// GNOSIS is always active.
pub fn is_active() -> (r: bool)
    ensures
        r == ACTIVE,
{
    ACTIVE
}

/// The context generation: the number of keyboard events, the kernel's
/// main event source.
pub fn generation(state: &SystemState) -> (r: u64)
    ensures
        r == state.keyboard_events,
{
    state.keyboard_events
}

pub fn keyboard_events(state: &SystemState) -> (r: u64)
    ensures
        r == state.keyboard_events,
{
    state.keyboard_events
}

pub fn uptime_ticks(state: &SystemState) -> (r: u64)
    ensures
        r == state.uptime_ticks,
{
    state.uptime_ticks
}

pub fn uptime_seconds(state: &SystemState) -> (r: u64)
    ensures
        r == state.uptime_seconds,
{
    state.uptime_seconds
}

pub fn uptime_millis(state: &SystemState) -> (r: u64)
    ensures
        r == state.uptime_millis,
{
    state.uptime_millis
}

} // verus!
