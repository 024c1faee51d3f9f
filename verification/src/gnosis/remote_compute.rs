//! GNOSIS remote computation routing: chooses between remote, split, local
//! and deferred execution for an authorized principal, from advertised
//! quality and latency.
use vstd::prelude::*;
use crate::gnosis::compute_fabric::ComputeLocation;
use crate::gnosis::local_compute::{ComputeDisposition, LocalComputeResult};
use crate::gnosis::mesh::{self, Mesh, capability_node};
use crate::gnosis::relation::{ProvenanceSource, RelationProvenance};
use crate::gnosis::trust::{self, AuthorizationDecision, AuthorizationRequest, TrustRegistry, spec_authorize};

verus! {

pub const MAX_WORK: usize = 512;
pub const SCALE: u32 = 10_000;

#[derive(Clone, Copy, Debug, PartialEq, Eq, Structural)]
pub enum Route {
    Local,
    Remote,
    Split,
    Defer,
}

#[derive(Clone, Copy, Debug, PartialEq, Eq, Structural)]
pub struct RemoteRequest {
    pub principal_id: u64,
    pub capability: u32,
    pub authority: u32,
    pub minimum_trust_fixed: u32,
    pub estimated_work: u32,
    pub local_quality_fixed: u32,
    pub remote_quality_fixed: u32,
    pub remote_latency_ticks: u64,
    pub max_latency_ticks: u64,
    pub allow_split: bool,
    pub provenance: RelationProvenance,
}

#[derive(Clone, Copy, Debug, PartialEq, Eq, Structural)]
pub struct RemoteDecision {
    pub route: Route,
    pub authorized: bool,
    pub quality_fixed: u32,
    pub local_share_fixed: u32,
    pub remote_share_fixed: u32,
    pub reason_code: u8,
    pub provenance: RelationProvenance,
}

pub open spec fn defer_decision() -> RemoteDecision {
    RemoteDecision {
        route: Route::Defer,
        authorized: false,
        quality_fixed: 0,
        local_share_fixed: 0,
        remote_share_fixed: 0,
        reason_code: 0,
        provenance: RelationProvenance { origin: 0, source: ProvenanceSource::Local, revision: 0 },
    }
}

impl RemoteDecision {
    pub fn defer() -> (d: Self)
        ensures
            d == defer_decision(),
    {
        RemoteDecision {
            route: Route::Defer,
            authorized: false,
            quality_fixed: 0,
            local_share_fixed: 0,
            remote_share_fixed: 0,
            reason_code: 0,
            provenance: RelationProvenance { origin: 0, source: ProvenanceSource::Local, revision: 0 },
        }
    }
}

pub open spec fn cap(v: u32) -> u32 {
    if v < SCALE { v } else { SCALE }
}

pub open spec fn auth_request(r: RemoteRequest) -> AuthorizationRequest {
    AuthorizationRequest {
        principal_id: r.principal_id,
        required_capability: r.capability,
        required_authority: r.authority,
        minimum_trust_fixed: r.minimum_trust_fixed,
    }
}

pub open spec fn local_ok(local: Option<LocalComputeResult>) -> bool {
    local matches Some(x) && x.disposition == ComputeDisposition::Evaluated
}

/// The routing rule. A request with valid provenance, some work, an
/// authorized principal and acceptable latency goes remote when the remote
/// quality is at least the local one; else split when allowed and local
/// evaluation succeeded; else local when that succeeded; otherwise it is
/// deferred. Anything else is deferred unauthorized.
pub open spec fn spec_arbitrate(nodes: Seq<mesh::MeshNode>, principals: Seq<trust::TrustPrincipal>, r: RemoteRequest, local: Option<LocalComputeResult>) -> RemoteDecision {
    let d = RemoteDecision { provenance: r.provenance, ..defer_decision() };
    let node = if r.capability == 0 { None } else { capability_node(nodes, r.capability, 0) };
    if r.provenance.revision == 0 || r.estimated_work == 0 {
        d
    } else if spec_authorize(principals, auth_request(r), node) != AuthorizationDecision::Authorized {
        d
    } else if r.max_latency_ticks != 0 && r.remote_latency_ticks > r.max_latency_ticks {
        d
    } else if r.remote_quality_fixed >= r.local_quality_fixed && r.remote_quality_fixed > 0 {
        RemoteDecision { route: Route::Remote, quality_fixed: cap(r.remote_quality_fixed), remote_share_fixed: SCALE, authorized: true, reason_code: 1, ..d }
    } else if r.allow_split && local_ok(local) && r.remote_quality_fixed > 0 {
        let best = if r.local_quality_fixed > r.remote_quality_fixed { r.local_quality_fixed } else { r.remote_quality_fixed };
        RemoteDecision { route: Route::Split, quality_fixed: cap(best), local_share_fixed: 5_000, remote_share_fixed: 5_000, authorized: true, reason_code: 2, ..d }
    } else if local_ok(local) {
        RemoteDecision { route: Route::Local, quality_fixed: cap(r.local_quality_fixed), local_share_fixed: SCALE, reason_code: 3, ..d }
    } else {
        RemoteDecision { reason_code: 4, ..d }
    }
}

pub fn arbitrate(mesh: &Mesh, trust_registry: &TrustRegistry, r: RemoteRequest, local: Option<LocalComputeResult>) -> (d: RemoteDecision)
    requires
        mesh.wf(),
    ensures
        d == spec_arbitrate(mesh.nodes(), trust_registry.principals(), r, local),
{
    let mut d = RemoteDecision::defer();
    d.provenance = r.provenance;
    let known = match r.provenance.source {
        ProvenanceSource::Local => true,
        ProvenanceSource::Remote => true,
        ProvenanceSource::Recovered => true,
    };
    if r.provenance.revision == 0 || !known || r.estimated_work == 0 {
        return d;
    }
    let node = mesh::find_capability(mesh, r.capability);
    let auth = trust::authorize(
        trust_registry,
        AuthorizationRequest {
            principal_id: r.principal_id,
            required_capability: r.capability,
            required_authority: r.authority,
            minimum_trust_fixed: r.minimum_trust_fixed,
        },
        node,
    );
    if auth != AuthorizationDecision::Authorized {
        return d;
    }
    if r.max_latency_ticks != 0 && r.remote_latency_ticks > r.max_latency_ticks {
        return d;
    }
    let is_local_ok = match local {
        Some(x) => x.disposition == ComputeDisposition::Evaluated,
        None => false,
    };
    if r.remote_quality_fixed >= r.local_quality_fixed && r.remote_quality_fixed > 0 {
        d.route = Route::Remote;
        d.quality_fixed = if r.remote_quality_fixed < SCALE { r.remote_quality_fixed } else { SCALE };
        d.remote_share_fixed = SCALE;
        d.authorized = true;
        d.reason_code = 1;
    } else if r.allow_split && is_local_ok && r.remote_quality_fixed > 0 {
        let best = if r.local_quality_fixed > r.remote_quality_fixed { r.local_quality_fixed } else { r.remote_quality_fixed };
        d.route = Route::Split;
        d.quality_fixed = if best < SCALE { best } else { SCALE };
        d.local_share_fixed = 5_000;
        d.remote_share_fixed = 5_000;
        d.authorized = true;
        d.reason_code = 2;
    } else if is_local_ok {
        d.route = Route::Local;
        d.quality_fixed = if r.local_quality_fixed < SCALE { r.local_quality_fixed } else { SCALE };
        d.local_share_fixed = SCALE;
        d.reason_code = 3;
    } else {
        d.reason_code = 4;
    }
    d
}

/// Where the work runs when the remote path is not taken: an authorized
/// local or split route runs locally, otherwise local if a local result
/// exists.
pub open spec fn spec_fallback(local: Option<LocalComputeResult>, decision: RemoteDecision) -> ComputeLocation {
    if decision.authorized {
        match decision.route {
            Route::Local => ComputeLocation::Local,
            Route::Split => ComputeLocation::Local,
            Route::Remote => ComputeLocation::Defer,
            Route::Defer => ComputeLocation::Defer,
        }
    } else if local is Some {
        ComputeLocation::Local
    } else {
        ComputeLocation::Defer
    }
}

pub fn fallback(local: Option<LocalComputeResult>, decision: RemoteDecision) -> (r: ComputeLocation)
    ensures
        r == spec_fallback(local, decision),
{
    if decision.authorized {
        match decision.route {
            Route::Local => ComputeLocation::Local,
            Route::Split => ComputeLocation::Local,
            Route::Remote => ComputeLocation::Defer,
            Route::Defer => ComputeLocation::Defer,
        }
    } else if local.is_some() {
        ComputeLocation::Local
    } else {
        ComputeLocation::Defer
    }
}

/// Only an authorized principal is ever routed remotely, and shares add up
/// to the whole.
pub proof fn law_remote_needs_authorization(
    nodes: Seq<mesh::MeshNode>,
    principals: Seq<trust::TrustPrincipal>,
    r: RemoteRequest,
    local: Option<LocalComputeResult>,
)
    ensures
        ({
            let d = spec_arbitrate(nodes, principals, r, local);
            &&& (d.route == Route::Remote || d.route == Route::Split) ==> d.authorized
            &&& d.authorized ==> spec_authorize(principals, auth_request(r), if r.capability == 0 { None } else { capability_node(nodes, r.capability, 0) }) == AuthorizationDecision::Authorized
            &&& d.route != Route::Defer ==> d.local_share_fixed + d.remote_share_fixed == SCALE
            &&& d.quality_fixed <= SCALE
        }),
{
}

/// Remote arbitration's own check: a trusted principal with authority,
/// asking for a capability that a node advertises, is routed remotely.
pub fn self_test() -> (ok: bool)
    ensures
        ok,
{
    let mut m = Mesh::new();
    let mut registry = TrustRegistry::new();
    let p = RelationProvenance { origin: 1, source: ProvenanceSource::Local, revision: 1 };
    let mut n = mesh::MeshNode::empty();
    n.node_id = 9;
    n.revision = 1;
    n.provenance = p;
    n.capabilities[0] = mesh::CapabilityRecord { capability: 77, quality_fixed: 9000, latency_ticks: 2, resource_units: 8 };
    n.capability_used = 1;
    if mesh::upsert(&mut m, n).is_err() {
        return false;
    }
    if !trust::upsert(
        &mut registry,
        trust::TrustPrincipal { principal_id: 7, trust_fixed: 9000, authority_mask: 1, revision: 1, provenance: p },
    ) {
        return false;
    }
    proof {
        let nodes = m.nodes();
        assert(nodes.len() == 1 && nodes[0].capabilities@[0].capability == 77);
        assert(mesh::node_has_capability(nodes[0], 77));
        assert(capability_node(nodes, 77, 0) == Some(nodes[0]));
        let ps = registry.principals();
        assert(ps.len() == 1 && ps[0].principal_id == 7);
        assert(trust::principal_slot(ps, 7, 0) == Some(0int));
        assert(1u32 & 1u32 == 1u32) by (bit_vector);
    }
    let r = arbitrate(
        &m,
        &registry,
        RemoteRequest {
            principal_id: 7,
            capability: 77,
            authority: 1,
            minimum_trust_fixed: 8000,
            estimated_work: 8,
            local_quality_fixed: 5000,
            remote_quality_fixed: 9000,
            remote_latency_ticks: 2,
            max_latency_ticks: 10,
            allow_split: true,
            provenance: p,
        },
        None,
    );
    r.route == Route::Remote && r.authorized
}

} // verus!
