//! GNOSIS semantic ABI: the versioned request format through which callers
//! submit semantic operations, and its validation.
use vstd::prelude::*;
use crate::gnosis::relation::{ProvenanceSource, RelationProvenance};
use crate::gnosis::semantic::{ContextId, ObjectId, SemanticId};

verus! {

pub const ABI_MAJOR: u16 = 1;
pub const ABI_MINOR: u16 = 0;
pub const MAX_PAYLOAD: usize = 8;

#[derive(Clone, Copy, Debug, PartialEq, Eq, Structural)]
pub enum AbiOperation {
    Observe,
    Predict,
    Speculate,
    Compute,
    Discover,
}

/// Wire code of an operation.
pub fn operation_code(op: AbiOperation) -> (c: u8)
    ensures
        c == match op {
            AbiOperation::Observe => 1u8,
            AbiOperation::Predict => 2u8,
            AbiOperation::Speculate => 3u8,
            AbiOperation::Compute => 4u8,
            AbiOperation::Discover => 5u8,
        },
{
    match op {
        AbiOperation::Observe => 1,
        AbiOperation::Predict => 2,
        AbiOperation::Speculate => 3,
        AbiOperation::Compute => 4,
        AbiOperation::Discover => 5,
    }
}

#[derive(Clone, Copy, Debug, PartialEq, Eq)]
pub struct SemanticAbiRequest {
    pub abi_major: u16,
    pub abi_minor: u16,
    pub operation: AbiOperation,
    pub object_id: ObjectId,
    pub semantic_id: SemanticId,
    pub context: ContextId,
    pub payload: [u32; 8],
    pub payload_len: usize,
    pub capability: u32,
    pub authority: u32,
    pub provenance: RelationProvenance,
}

pub open spec fn request_valid(r: SemanticAbiRequest) -> bool {
    r.abi_major == ABI_MAJOR && r.payload_len <= MAX_PAYLOAD && r.object_id != 0 && r.semantic_id != 0 && r.provenance.revision != 0
}

impl SemanticAbiRequest {
    /// A current-version observe request with nothing filled in.
    pub fn empty() -> (r: Self)
        ensures
            r.abi_major == ABI_MAJOR && r.abi_minor == ABI_MINOR && r.operation == AbiOperation::Observe,
            r.object_id == 0 && r.semantic_id == 0 && r.context == 0 && r.payload_len == 0,
            r.capability == 0 && r.authority == 0 && r.provenance.revision == 0,
            forall|i: int| 0 <= i < 8 ==> #[trigger] r.payload@[i] == 0,
    {
        SemanticAbiRequest {
            abi_major: ABI_MAJOR,
            abi_minor: ABI_MINOR,
            operation: AbiOperation::Observe,
            object_id: 0,
            semantic_id: 0,
            context: 0,
            payload: [0u32; 8],
            payload_len: 0,
            capability: 0,
            authority: 0,
            provenance: RelationProvenance { origin: 0, source: ProvenanceSource::Local, revision: 0 },
        }
    }

    /// Current major version, payload within bounds, an object, a type and
    /// provenance.
    pub fn valid(&self) -> (r: bool)
        ensures
            r == request_valid(*self),
    {
        self.abi_major == ABI_MAJOR && self.payload_len <= MAX_PAYLOAD && self.object_id != 0 && self.semantic_id != 0
            && self.provenance.revision != 0
    }
}

#[derive(Clone, Copy, Debug, PartialEq, Eq, Structural)]
pub enum AbiStatus {
    Accepted,
    InvalidVersion,
    InvalidRequest,
    Unauthorized,
}

#[derive(Clone, Copy, Debug, PartialEq, Eq)]
pub struct SemanticAbiResult {
    pub status: AbiStatus,
    pub operation: AbiOperation,
    pub object_id: ObjectId,
    pub semantic_id: SemanticId,
    pub context: ContextId,
    pub payload: [u32; 8],
    pub payload_len: usize,
    pub provenance: RelationProvenance,
}

impl SemanticAbiResult {
    /// A rejection carrying only the operation and the status.
    pub fn rejected(operation: AbiOperation, status: AbiStatus) -> (r: Self)
        ensures
            r.status == status && r.operation == operation,
            r.object_id == 0 && r.semantic_id == 0 && r.context == 0 && r.payload_len == 0,
            r.provenance == (RelationProvenance { origin: 0, source: ProvenanceSource::Local, revision: 0 }),
            forall|i: int| 0 <= i < 8 ==> #[trigger] r.payload@[i] == 0,
    {
        SemanticAbiResult {
            status,
            operation,
            object_id: 0,
            semantic_id: 0,
            context: 0,
            payload: [0u32; 8],
            payload_len: 0,
            provenance: RelationProvenance { origin: 0, source: ProvenanceSource::Local, revision: 0 },
        }
    }
}

/// Version first, then form, then authority for compute requests.
pub open spec fn spec_validate(r: SemanticAbiRequest) -> AbiStatus {
    if r.abi_major != ABI_MAJOR {
        AbiStatus::InvalidVersion
    } else if !request_valid(r) {
        AbiStatus::InvalidRequest
    } else if r.authority == 0 && r.operation == AbiOperation::Compute {
        AbiStatus::Unauthorized
    } else {
        AbiStatus::Accepted
    }
}

pub fn validate(request: &SemanticAbiRequest) -> (s: AbiStatus)
    ensures
        s == spec_validate(*request),
{
    if request.abi_major != ABI_MAJOR {
        return AbiStatus::InvalidVersion;
    }
    if !request.valid() {
        return AbiStatus::InvalidRequest;
    }
    if request.authority == 0 && request.operation == AbiOperation::Compute {
        return AbiStatus::Unauthorized;
    }
    AbiStatus::Accepted
}

/// Accepts a valid request, echoing its operation, identity, payload and
/// provenance; rejects any other with its status.
pub fn accept(request: SemanticAbiRequest) -> (r: SemanticAbiResult)
    ensures
        r.status == spec_validate(request),
        r.operation == request.operation,
        r.status == AbiStatus::Accepted ==> r.object_id == request.object_id && r.semantic_id == request.semantic_id
            && r.context == request.context && r.payload == request.payload && r.payload_len == request.payload_len
            && r.provenance == request.provenance,
        r.status != AbiStatus::Accepted ==> r.object_id == 0 && r.semantic_id == 0 && r.payload_len == 0
            && r.provenance.revision == 0,
{
    let status = validate(&request);
    if status != AbiStatus::Accepted {
        return SemanticAbiResult::rejected(request.operation, status);
    }
    SemanticAbiResult {
        status,
        operation: request.operation,
        object_id: request.object_id,
        semantic_id: request.semantic_id,
        context: request.context,
        payload: request.payload,
        payload_len: request.payload_len,
        provenance: request.provenance,
    }
}

/// The ABI's own check: a valid observe request with one payload word is
/// accepted and the word comes back.
pub fn self_test() -> (ok: bool)
    ensures
        ok,
{
    let mut request = SemanticAbiRequest::empty();
    request.object_id = 1;
    request.semantic_id = 2;
    request.context = 3;
    request.payload[0] = 42;
    request.payload_len = 1;
    request.provenance = RelationProvenance { origin: 1, source: ProvenanceSource::Local, revision: 1 };
    if validate(&request) != AbiStatus::Accepted {
        return false;
    }
    let result = accept(request);
    result.status == AbiStatus::Accepted && result.payload[0] == 42
}

} // verus!
