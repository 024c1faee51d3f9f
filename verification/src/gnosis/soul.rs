//! GNOSIS soul: a compact, read-only projection of the kernel's current
//! self-state (name, version, counters, body, homeostasis, reflex). It keeps
//! no state of its own.
use vstd::prelude::*;
use crate::gnosis::attention::AttentionQueue;
use crate::gnosis::body::{self, BodySnapshot, body_matches};
use crate::gnosis::context::{self, SystemState};
use crate::gnosis::homeostasis::{self, HomeostaticSummary, summary_of};
use crate::gnosis::messaging::{MessageRegistry, leading_messages};
use crate::gnosis::reflex::{self, ReflexTrigger, first_trigger};
use crate::gnosis::{VERSION_MAJOR, VERSION_MINOR, kernel_name, spec_kernel_name};
use crate::memory::PhysicalMemory;

verus! {

#[derive(Clone, Copy, Debug, PartialEq, Eq)]
pub struct SoulSnapshot {
    pub kernel_name: [u8; 8],
    pub kernel_version_major: u64,
    pub kernel_version_minor: u64,
    pub active: bool,
    pub generation: u64,
    pub uptime_ticks: u64,
    pub uptime_seconds: u64,
    pub uptime_millis: u64,
    pub keyboard_events: u64,
    pub body: BodySnapshot,
    pub homeostasis: HomeostaticSummary,
    pub reflex: Option<ReflexTrigger>,
}

pub const CAPACITY: usize = 1;

/// Whether `s` shows the kernel's self-state: each field as its source
/// holds it.
pub open spec fn soul_matches(
    s: SoulSnapshot,
    system: SystemState,
    memory: PhysicalMemory,
    messages: MessageRegistry,
    attention: AttentionQueue,
) -> bool {
    &&& s.kernel_name@ == spec_kernel_name()
    &&& s.kernel_version_major == VERSION_MAJOR
    &&& s.kernel_version_minor == VERSION_MINOR
    &&& s.active == context::ACTIVE
    &&& s.generation == system.keyboard_events
    &&& s.uptime_ticks == system.uptime_ticks
    &&& s.uptime_seconds == system.uptime_seconds
    &&& s.uptime_millis == system.uptime_millis
    &&& s.keyboard_events == system.keyboard_events
    &&& body_matches(s.body, system, memory, leading_messages(messages.messages()) as usize)
    &&& s.homeostasis == summary_of(attention.contents(), system.uptime_ticks)
    &&& s.reflex == first_trigger(attention.contents())
}

/// The soul as it stands: each field read from its source.
pub fn snapshot(
    system: &SystemState,
    memory: &PhysicalMemory,
    messages: &MessageRegistry,
    attention: &AttentionQueue,
) -> (s: SoulSnapshot)
    requires
        memory.wf(),
        messages.wf(),
        attention.wf(),
    ensures
        soul_matches(s, *system, *memory, *messages, *attention),
{
    let messaging_count = messages.count();
    SoulSnapshot {
        kernel_name: kernel_name(),
        kernel_version_major: VERSION_MAJOR,
        kernel_version_minor: VERSION_MINOR,
        active: context::is_active(),
        generation: context::generation(system),
        uptime_ticks: context::uptime_ticks(system),
        uptime_seconds: context::uptime_seconds(system),
        uptime_millis: context::uptime_millis(system),
        keyboard_events: context::keyboard_events(system),
        body: body::snapshot(system, memory, messaging_count),
        homeostasis: homeostasis::observe(attention, system),
        reflex: reflex::observe(attention),
    }
}

/// Same as `snapshot`.
pub fn observe(
    system: &SystemState,
    memory: &PhysicalMemory,
    messages: &MessageRegistry,
    attention: &AttentionQueue,
) -> (s: SoulSnapshot)
    requires
        memory.wf(),
        messages.wf(),
        attention.wf(),
    ensures
        soul_matches(s, *system, *memory, *messages, *attention),
{
    snapshot(system, memory, messages, attention)
}

fn same_reflex(a: Option<ReflexTrigger>, b: Option<ReflexTrigger>) -> (r: bool)
    ensures
        r == (a == b),
{
    match (a, b) {
        (Some(x), Some(y)) => x == y,
        (None, None) => true,
        _ => false,
    }
}

fn name_is_kernel(name: &[u8; 8]) -> (r: bool)
    ensures
        r == (name@ == spec_kernel_name()),
{
    let expected = kernel_name();
    let mut i: usize = 0;
    while i < 8
        invariant
            0 <= i <= 8,
            expected@ == spec_kernel_name(),
            forall|j: int| 0 <= j < i ==> name@[j] == expected@[j],
        decreases 8 - i,
    {
        if name[i] != expected[i] {
            return false;
        }
        i = i + 1;
    }
    assert(name@ =~= expected@);
    true
}

/// The soul's own check: a snapshot carries the kernel's name and version,
/// each counter as the system state holds it, the body, the homeostatic
/// summary and the reflex as their own observers give them, and a second
/// snapshot shows the same.
pub fn self_test(
    system: &SystemState,
    memory: &PhysicalMemory,
    messages: &MessageRegistry,
    attention: &AttentionQueue,
) -> (ok: bool)
    requires
        memory.wf(),
        messages.wf(),
        attention.wf(),
    ensures
        ok,
{
    if CAPACITY != 1 {
        return false;
    }
    let observed = snapshot(system, memory, messages, attention);
    if !name_is_kernel(&observed.kernel_name) {
        return false;
    }
    if observed.kernel_version_major != VERSION_MAJOR || observed.kernel_version_minor != VERSION_MINOR {
        return false;
    }
    if observed.active != context::is_active() || observed.generation != context::generation(system)
        || observed.keyboard_events != context::keyboard_events(system) || observed.uptime_ticks
        != context::uptime_ticks(system) || observed.uptime_seconds != context::uptime_seconds(system)
        || observed.uptime_millis != context::uptime_millis(system) {
        return false;
    }
    let current_body = body::snapshot(system, memory, messages.count());
    if observed.body != current_body {
        return false;
    }
    let current_homeostasis = homeostasis::observe(attention, system);
    proof {
        homeostasis::lemma_count_le(attention.contents(), homeostasis::recent_at(system.uptime_ticks));
        attention.lemma_len_bound();
    }
    if observed.homeostasis != current_homeostasis || observed.homeostasis.recent_count
        > observed.homeostasis.attention_count {
        return false;
    }
    if !same_reflex(observed.reflex, reflex::observe(attention)) {
        return false;
    }
    let repeated = snapshot(system, memory, messages, attention);
    name_is_kernel(&repeated.kernel_name) && repeated.active == observed.active
        && repeated.kernel_version_major == observed.kernel_version_major
        && repeated.kernel_version_minor == observed.kernel_version_minor && same_reflex(
        repeated.reflex,
        observed.reflex,
    ) && repeated.body == observed.body && repeated.homeostasis == observed.homeostasis
}

} // verus!
