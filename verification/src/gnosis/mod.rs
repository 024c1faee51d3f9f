//! GNOSIS: the kernel's semantic knowledge and cognition subsystem.
pub mod semantic;
pub mod relation;
pub mod objects;
pub mod attention;
pub mod delta;
pub mod transition;
pub mod subconscious;
pub mod conscious;
pub mod speculation;
pub mod local_compute;
pub mod compute_fabric;
pub mod mesh;
pub mod trust;
pub mod remote_compute;
pub mod context;
pub mod body;
pub mod self_model;
pub mod cognitive_power;
pub mod experience;
pub mod world_model;
pub mod reason;
pub mod wisdom;
pub mod decision;
pub mod semantic_abi;
pub mod proof_security;
pub mod body_compiler;
pub mod mkc;
pub mod graph;
pub mod query;
pub mod homeostasis;
pub mod reflex;
pub mod knowledge;
pub mod messaging;
pub mod soul;
pub mod spirit;
pub mod orchestration;

use vstd::prelude::*;

verus! {

pub const VERSION_MAJOR: u64 = 0;

pub const VERSION_MINOR: u64 = 2;

/// The subsystem's name, `GNOSIS`, padded with zero bytes to eight.
pub open spec fn spec_kernel_name() -> Seq<u8> {
    seq![71u8, 78u8, 79u8, 83u8, 73u8, 83u8, 0u8, 0u8]
}

/// The subsystem's name as eight bytes.
pub fn kernel_name() -> (n: [u8; 8])
    ensures
        n@ == spec_kernel_name(),
{
    let n: [u8; 8] = [71, 78, 79, 83, 73, 83, 0, 0];
    assert(n@ =~= spec_kernel_name());
    n
}

/// GNOSIS is initialized whenever it is active, which it always is.
pub fn initialized() -> (r: bool)
    ensures
        r == context::ACTIVE,
{
    context::is_active()
}

/// The subsystem's combined check, module by module: objects, deltas
/// (stamped at tick 0), the subconscious, attention (on a fresh queue), the
/// workspace, transitions, orchestration, speculation, local compute,
/// experience, the compute fabric, the semantic ABI, the mesh, trust,
/// reasoning, wisdom, decisions and decision proofs. Every module check is
/// run; the result is whether all held.
pub fn self_test() -> (ok: bool) {
    let mut ok = true;
    ok = objects::self_test() && ok;
    ok = delta::self_test(0) && ok;
    ok = subconscious::self_test() && ok;
    let mut queue = attention::AttentionQueue::new();
    ok = attention::self_test(&mut queue) && ok;
    ok = conscious::self_test() && ok;
    ok = transition::self_test() && ok;
    ok = orchestration::self_test() && ok;
    ok = speculation::self_test() && ok;
    ok = local_compute::self_test() && ok;
    ok = experience::self_test() && ok;
    ok = compute_fabric::self_test() && ok;
    ok = semantic_abi::self_test() && ok;
    ok = mesh::self_test() && ok;
    ok = trust::self_test() && ok;
    ok = reason::self_test() && ok;
    ok = wisdom::self_test() && ok;
    ok = decision::self_test() && ok;
    ok = proof_security::self_test() && ok;
    ok
}

} // verus!
