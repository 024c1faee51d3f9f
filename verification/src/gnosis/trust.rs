//! GNOSIS trust: known principals with their trust level and authority, and
//! the authorization rule that combines them with a node's capabilities.
use vstd::prelude::*;
use crate::gnosis::mesh::{self, CapabilityRecord, MeshNode, node_has_capability, node_ok};
use crate::gnosis::relation::{ProvenanceSource, RelationProvenance};

verus! {

pub const SCALE: u32 = 10_000;
pub const MAX_PRINCIPALS: usize = 16;
pub const MAX_WORK: usize = 256;

#[derive(Clone, Copy, Debug, PartialEq, Eq, Structural)]
pub struct TrustPrincipal {
    pub principal_id: u64,
    pub trust_fixed: u32,
    pub authority_mask: u32,
    pub revision: u64,
    pub provenance: RelationProvenance,
}

impl TrustPrincipal {
    pub fn empty() -> (r: Self)
        ensures
            r == (TrustPrincipal {
                principal_id: 0,
                trust_fixed: 0,
                authority_mask: 0,
                revision: 0,
                provenance: RelationProvenance { origin: 0, source: ProvenanceSource::Local, revision: 0 },
            }),
    {
        TrustPrincipal {
            principal_id: 0,
            trust_fixed: 0,
            authority_mask: 0,
            revision: 0,
            provenance: RelationProvenance { origin: 0, source: ProvenanceSource::Local, revision: 0 },
        }
    }
}

#[derive(Clone, Copy, Debug, PartialEq, Eq, Structural)]
pub struct AuthorizationRequest {
    pub principal_id: u64,
    pub required_capability: u32,
    pub required_authority: u32,
    pub minimum_trust_fixed: u32,
}

#[derive(Clone, Copy, Debug, PartialEq, Eq, Structural)]
pub enum AuthorizationDecision {
    Authorized,
    NoPrincipal,
    MissingCapability,
    MissingAuthority,
    InsufficientTrust,
}

/// The known principals, in registration order.
pub struct TrustRegistry {
    principals: Vec<TrustPrincipal>,
}

/// First principal from `i` on with ID `id`.
pub open spec fn principal_slot(ps: Seq<TrustPrincipal>, id: u64, i: int) -> Option<int>
    decreases ps.len() - i,
{
    if i < 0 || i >= ps.len() {
        None
    } else if ps[i].principal_id == id {
        Some(i)
    } else {
        principal_slot(ps, id, i + 1)
    }
}

pub open spec fn principal_of(ps: Seq<TrustPrincipal>, id: u64) -> Option<TrustPrincipal> {
    match principal_slot(ps, id, 0) {
        Some(k) => Some(ps[k]),
        None => None,
    }
}

pub open spec fn cap_trust(t: u32) -> u32 {
    if t < SCALE { t } else { SCALE }
}

impl TrustRegistry {
    pub closed spec fn principals(&self) -> Seq<TrustPrincipal> {
        self.principals@
    }

    pub closed spec fn wf(&self) -> bool {
        self.principals@.len() <= MAX_PRINCIPALS
    }

    pub fn new() -> (t: Self)
        ensures
            t.wf(),
            t.principals().len() == 0,
    {
        TrustRegistry { principals: Vec::new() }
    }

    fn find(&self, id: u64) -> (r: Option<usize>)
        ensures
            r matches Some(k) ==> k < self.principals().len() && principal_slot(self.principals(), id, 0) == Some(k as int),
            r is None ==> principal_slot(self.principals(), id, 0) is None,
    {
        let mut index: usize = 0;
        while index < self.principals.len()
            invariant
                0 <= index <= self.principals@.len(),
                principal_slot(self.principals@, id, 0) == principal_slot(self.principals@, id, index as int),
            decreases self.principals@.len() - index,
        {
            if self.principals[index].principal_id == id {
                return Some(index);
            }
            index = index + 1;
        }
        None
    }
}

/// Records a principal, replacing the one with the same ID; false for a
/// malformed principal or a full registry.
pub fn upsert(registry: &mut TrustRegistry, principal: TrustPrincipal) -> (r: bool)
    requires
        old(registry).wf(),
    ensures
        final(registry).wf(),
        !r ==> final(registry).principals() == old(registry).principals(),
        (principal.principal_id == 0 || principal.revision == 0 || principal.provenance.revision == 0) ==> !r,
        !(principal.principal_id == 0 || principal.revision == 0 || principal.provenance.revision == 0) ==> match principal_slot(
            old(registry).principals(),
            principal.principal_id,
            0,
        ) {
            Some(k) => r && final(registry).principals() == old(registry).principals().update(k, principal),
            None => r == (old(registry).principals().len() < MAX_PRINCIPALS) && (r ==> final(registry).principals()
                == old(registry).principals().push(principal)),
        },
{
    if principal.principal_id == 0 || principal.revision == 0 || principal.provenance.revision == 0 {
        return false;
    }
    match registry.find(principal.principal_id) {
        Some(k) => {
            registry.principals.set(k, principal);
            true
        },
        None => {
            if registry.principals.len() >= MAX_PRINCIPALS {
                return false;
            }
            registry.principals.push(principal);
            true
        },
    }
}

/// The authorization rule: the principal must be known; a required
/// capability must be advertised by the node; the required authority bits
/// must all be held; and the (capped) trust must reach the (capped) minimum.
pub open spec fn spec_authorize(ps: Seq<TrustPrincipal>, request: AuthorizationRequest, node: Option<MeshNode>) -> AuthorizationDecision {
    match principal_of(ps, request.principal_id) {
        None => AuthorizationDecision::NoPrincipal,
        Some(p) => if request.required_capability != 0 && !(node matches Some(n) && node_has_capability(n, request.required_capability)) {
            AuthorizationDecision::MissingCapability
        } else if request.required_authority != 0 && p.authority_mask & request.required_authority != request.required_authority {
            AuthorizationDecision::MissingAuthority
        } else if cap_trust(p.trust_fixed) < cap_trust(request.minimum_trust_fixed) {
            AuthorizationDecision::InsufficientTrust
        } else {
            AuthorizationDecision::Authorized
        },
    }
}

pub fn authorize(registry: &TrustRegistry, request: AuthorizationRequest, node: Option<MeshNode>) -> (r: AuthorizationDecision)
    requires
        node matches Some(n) ==> node_ok(n),
    ensures
        r == spec_authorize(registry.principals(), request, node),
{
    let principal = match registry.find(request.principal_id) {
        None => {
            return AuthorizationDecision::NoPrincipal;
        },
        Some(k) => registry.principals[k],
    };
    if request.required_capability != 0 {
        let found = match node {
            None => false,
            Some(n) => mesh::has_capability(&n, request.required_capability),
        };
        if !found {
            return AuthorizationDecision::MissingCapability;
        }
    }
    if request.required_authority != 0 && principal.authority_mask & request.required_authority != request.required_authority {
        return AuthorizationDecision::MissingAuthority;
    }
    let t = if principal.trust_fixed < SCALE { principal.trust_fixed } else { SCALE };
    let m = if request.minimum_trust_fixed < SCALE { request.minimum_trust_fixed } else { SCALE };
    if t < m {
        return AuthorizationDecision::InsufficientTrust;
    }
    AuthorizationDecision::Authorized
}

/// The (capped) trust of a principal; 0 when unknown.
pub fn trust_of(registry: &TrustRegistry, principal_id: u64) -> (r: u32)
    ensures
        r == match principal_of(registry.principals(), principal_id) {
            Some(p) => cap_trust(p.trust_fixed),
            None => 0,
        },
{
    match registry.find(principal_id) {
        Some(k) => {
            let t = registry.principals[k].trust_fixed;
            if t < SCALE { t } else { SCALE }
        },
        None => 0,
    }
}

/// Forgets every principal.
pub fn clear(registry: &mut TrustRegistry)
    ensures
        final(registry).wf(),
        final(registry).principals().len() == 0,
{
    *registry = TrustRegistry::new();
}

/// An authorization grants exactly what it checked: a known principal with
/// every required authority bit, enough trust, and the node's capability.
pub proof fn law_authorized_means_entitled(ps: Seq<TrustPrincipal>, request: AuthorizationRequest, node: Option<MeshNode>)
    requires
        spec_authorize(ps, request, node) == AuthorizationDecision::Authorized,
    ensures
        principal_of(ps, request.principal_id) is Some,
        request.required_capability != 0 ==> (node matches Some(n) && node_has_capability(n, request.required_capability)),
        ({
            let p = principal_of(ps, request.principal_id)->0;
            &&& request.required_authority != 0 ==> p.authority_mask & request.required_authority == request.required_authority
            &&& cap_trust(p.trust_fixed) >= cap_trust(request.minimum_trust_fixed)
        }),
{
}

/// The registry's own check: a principal holding authority bits 0 and 1
/// is authorized for bit 0 on a node with the capability, refused bit 2,
/// and reports its trust.
pub fn self_test() -> (ok: bool)
    ensures
        ok,
{
    let mut registry = TrustRegistry::new();
    let provenance = RelationProvenance { origin: 1, source: ProvenanceSource::Local, revision: 1 };
    if !upsert(
        &mut registry,
        TrustPrincipal { principal_id: 7, trust_fixed: 9_000, authority_mask: 0b11, revision: 1, provenance },
    ) {
        return false;
    }
    let mut node = MeshNode::empty();
    node.node_id = 8;
    node.revision = 1;
    node.provenance = provenance;
    node.capabilities[0] = CapabilityRecord { capability: 100, quality_fixed: 9_000, latency_ticks: 4, resource_units: 8 };
    node.capability_used = 1;
    let decision = authorize(
        &registry,
        AuthorizationRequest { principal_id: 7, required_capability: 100, required_authority: 0b01, minimum_trust_fixed: 8_000 },
        Some(node),
    );
    let denied = authorize(
        &registry,
        AuthorizationRequest { principal_id: 7, required_capability: 100, required_authority: 0b100, minimum_trust_fixed: 8_000 },
        Some(node),
    );
    proof {
        assert(0b11u32 & 0b01u32 == 0b01u32) by (bit_vector);
        assert(0b11u32 & 0b100u32 != 0b100u32) by (bit_vector);
        let ps = registry.principals();
        assert(ps.len() == 1 && ps[0].principal_id == 7);
        assert(principal_slot(ps, 7, 0) == Some(0int));
        assert(node.capabilities@[0].capability == 100);
        assert(node_has_capability(node, 100));
    }
    decision == AuthorizationDecision::Authorized && denied == AuthorizationDecision::MissingAuthority
        && trust_of(&registry, 7) == 9_000
}

} // verus!
