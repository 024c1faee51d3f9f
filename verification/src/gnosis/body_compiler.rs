//! GNOSIS body compiler: turns an accepted semantic request into a plan of
//! body actions. Only compute, speculate and predict requests produce one.
use vstd::prelude::*;
use crate::gnosis::relation::{ProvenanceSource, RelationProvenance};
use crate::gnosis::semantic::{ContextId, ObjectId, SemanticId};
use crate::gnosis::semantic_abi::{self, AbiOperation, AbiStatus, SemanticAbiRequest, SemanticAbiResult, spec_validate};

verus! {

pub const MAX_ACTIONS: usize = 8;
pub const MAX_WORK: usize = 128;

#[derive(Clone, Copy, Debug, PartialEq, Eq, Structural)]
pub struct BodyAction {
    pub action: SemanticId,
    pub object_id: ObjectId,
    pub context: ContextId,
    pub parameter: u32,
}

impl BodyAction {
    pub fn empty() -> (r: Self)
        ensures
            r == (BodyAction { action: 0, object_id: 0, context: 0, parameter: 0 }),
    {
        BodyAction { action: 0, object_id: 0, context: 0, parameter: 0 }
    }
}

#[derive(Clone, Copy, Debug, PartialEq, Eq)]
pub struct BodyPlan {
    pub accepted: bool,
    pub source_operation: AbiOperation,
    pub actions: [BodyAction; 8],
    pub action_count: usize,
    pub work_used: usize,
    pub provenance: RelationProvenance,
}

impl BodyPlan {
    pub fn empty() -> (p: Self)
        ensures
            !p.accepted && p.source_operation == AbiOperation::Observe && p.action_count == 0 && p.work_used == 0,
            p.provenance.revision == 0,
            forall|i: int| 0 <= i < 8 ==> #[trigger] p.actions@[i] == (BodyAction { action: 0, object_id: 0, context: 0, parameter: 0 }),
    {
        BodyPlan {
            accepted: false,
            source_operation: AbiOperation::Observe,
            actions: [BodyAction::empty(); 8],
            action_count: 0,
            work_used: 0,
            provenance: RelationProvenance { origin: 0, source: ProvenanceSource::Local, revision: 0 },
        }
    }
}

/// Whether an operation drives the body.
pub open spec fn drives_body(op: AbiOperation) -> bool {
    op == AbiOperation::Compute || op == AbiOperation::Speculate || op == AbiOperation::Predict
}

/// The plan compiled from an ABI result: one action on the result's object,
/// parameterized by the first payload word, when the result is accepted,
/// complete and of a body-driving operation.
pub fn compile_result(result: SemanticAbiResult) -> (p: BodyPlan)
    requires
        result.payload_len <= 8,
    ensures
        p.source_operation == result.operation,
        p.provenance == result.provenance,
        p.accepted == (result.status == AbiStatus::Accepted && result.object_id != 0 && result.semantic_id != 0
            && drives_body(result.operation)),
        p.accepted ==> p.action_count == 1 && p.work_used == 1 && p.actions@[0] == (BodyAction {
            action: result.semantic_id,
            object_id: result.object_id,
            context: result.context,
            parameter: if result.payload_len > 0 { result.payload@[0] } else { 0 },
        }),
        !p.accepted ==> p.action_count == 0 && p.work_used == 0,
{
    let mut p = BodyPlan::empty();
    p.source_operation = result.operation;
    p.provenance = result.provenance;
    if result.status != AbiStatus::Accepted || result.object_id == 0 || result.semantic_id == 0 {
        return p;
    }
    let drives = match result.operation {
        AbiOperation::Compute => true,
        AbiOperation::Speculate => true,
        AbiOperation::Predict => true,
        _ => false,
    };
    if !drives {
        return p;
    }
    p.actions[0] = BodyAction {
        action: result.semantic_id,
        object_id: result.object_id,
        context: result.context,
        parameter: if result.payload_len > 0 { result.payload[0] } else { 0 },
    };
    p.action_count = 1;
    p.work_used = 1;
    p.accepted = true;
    p
}

/// Validates a request through the semantic ABI and compiles the result.
pub fn compile(request: SemanticAbiRequest) -> (p: BodyPlan)
    ensures
        p.source_operation == request.operation,
        p.accepted == (spec_validate(request) == AbiStatus::Accepted && drives_body(request.operation)),
        p.accepted ==> p.action_count == 1 && p.provenance == request.provenance && p.actions@[0] == (BodyAction {
            action: request.semantic_id,
            object_id: request.object_id,
            context: request.context,
            parameter: if request.payload_len > 0 { request.payload@[0] } else { 0 },
        }),
        !p.accepted ==> p.action_count == 0,
{
    let accepted = semantic_abi::accept(request);
    compile_result(accepted)
}

/// The body compiler's own check: an authorized compute request with one
/// payload word compiles to one action carrying that word.
pub fn self_test() -> (ok: bool)
    ensures
        ok,
{
    let p = RelationProvenance { origin: 1, source: ProvenanceSource::Local, revision: 1 };
    let mut r = SemanticAbiRequest::empty();
    r.operation = AbiOperation::Compute;
    r.object_id = 1;
    r.semantic_id = crate::gnosis::semantic::EXECUTE;
    r.context = 2;
    r.payload[0] = 42;
    r.payload_len = 1;
    r.authority = 1;
    r.provenance = p;
    let b = compile(r);
    b.accepted && b.action_count == 1 && b.actions[0].parameter == 42
}

} // verus!
