//! GNOSIS mesh: the known compute nodes and the capabilities they advertise.
use vstd::prelude::*;
use crate::gnosis::relation::{ProvenanceSource, RelationProvenance};

verus! {

pub const MAX_NODES: usize = 16;
pub const MAX_CAPABILITIES_PER_NODE: usize = 8;
pub const MAX_WORK: usize = 512;

#[derive(Clone, Copy, Debug, PartialEq, Eq, Structural)]
pub struct CapabilityRecord {
    pub capability: u32,
    pub quality_fixed: u32,
    pub latency_ticks: u64,
    pub resource_units: u32,
}

impl CapabilityRecord {
    pub fn empty() -> (r: Self)
        ensures
            r == (CapabilityRecord { capability: 0, quality_fixed: 0, latency_ticks: 0, resource_units: 0 }),
    {
        CapabilityRecord { capability: 0, quality_fixed: 0, latency_ticks: 0, resource_units: 0 }
    }
}

/// A node and up to `MAX_CAPABILITIES_PER_NODE` advertised capabilities.
#[derive(Clone, Copy, Debug, PartialEq, Eq)]
pub struct MeshNode {
    pub node_id: u64,
    pub revision: u64,
    pub trust_hint_fixed: u32,
    pub provenance: RelationProvenance,
    pub capabilities: [CapabilityRecord; 8],
    pub capability_used: usize,
}

impl MeshNode {
    pub fn empty() -> (r: Self)
        ensures
            r.node_id == 0 && r.revision == 0 && r.capability_used == 0 && r.trust_hint_fixed == 0,
            r.provenance == (RelationProvenance { origin: 0, source: ProvenanceSource::Local, revision: 0 }),
            forall|i: int| 0 <= i < 8 ==> #[trigger] r.capabilities@[i] == (CapabilityRecord {
                capability: 0,
                quality_fixed: 0,
                latency_ticks: 0,
                resource_units: 0,
            }),
    {
        MeshNode {
            node_id: 0,
            revision: 0,
            trust_hint_fixed: 0,
            provenance: RelationProvenance { origin: 0, source: ProvenanceSource::Local, revision: 0 },
            capabilities: [CapabilityRecord::empty(); 8],
            capability_used: 0,
        }
    }
}

/// The node advertises `capability` among its used records.
pub open spec fn node_has_capability(n: MeshNode, capability: u32) -> bool {
    exists|i: int| 0 <= i < n.capability_used && #[trigger] n.capabilities@[i].capability == capability
}

/// Whether a node's advertised capabilities can be read.
pub open spec fn node_ok(n: MeshNode) -> bool {
    n.capability_used <= MAX_CAPABILITIES_PER_NODE
}

/// Scans a node's advertised capabilities.
pub fn has_capability(node: &MeshNode, capability: u32) -> (r: bool)
    requires
        node_ok(*node),
    ensures
        r == node_has_capability(*node, capability),
{
    let mut cap: usize = 0;
    while cap < node.capability_used
        invariant
            0 <= cap <= node.capability_used <= 8,
            forall|i: int| 0 <= i < cap ==> #[trigger] node.capabilities@[i].capability != capability,
        decreases node.capability_used - cap,
    {
        if node.capabilities[cap].capability == capability {
            assert(node.capabilities@[cap as int].capability == capability);
            return true;
        }
        cap = cap + 1;
    }
    false
}

#[derive(Clone, Copy, Debug, PartialEq, Eq, Structural)]
pub enum DiscoverError {
    Invalid,
    Full,
    CapabilityFull,
}

/// The known nodes, in discovery order.
pub struct Mesh {
    nodes: Vec<MeshNode>,
}

/// First index from `i` on holding node `id`.
pub open spec fn node_slot(nodes: Seq<MeshNode>, id: u64, i: int) -> Option<int>
    decreases nodes.len() - i,
{
    if i < 0 || i >= nodes.len() {
        None
    } else if nodes[i].node_id == id {
        Some(i)
    } else {
        node_slot(nodes, id, i + 1)
    }
}

proof fn lemma_node_slot(nodes: Seq<MeshNode>, id: u64, i: int)
    requires
        0 <= i,
    ensures
        node_slot(nodes, id, i) matches Some(k) ==> i <= k < nodes.len() && nodes[k].node_id == id,
        node_slot(nodes, id, i) is None ==> forall|j: int| i <= j < nodes.len() ==> nodes[j].node_id != id,
    decreases nodes.len() - i,
{
    if i < nodes.len() && nodes[i].node_id != id {
        lemma_node_slot(nodes, id, i + 1);
    }
}

impl Mesh {
    pub closed spec fn nodes(&self) -> Seq<MeshNode> {
        self.nodes@
    }

    pub closed spec fn wf(&self) -> bool {
        &&& self.nodes@.len() <= MAX_NODES
        &&& forall|i: int| 0 <= i < self.nodes@.len() ==> node_ok(#[trigger] self.nodes@[i])
    }

    /// An empty mesh.
    pub fn new() -> (m: Self)
        ensures
            m.wf(),
            m.nodes().len() == 0,
    {
        Mesh { nodes: Vec::new() }
    }

    fn find_node(&self, id: u64) -> (r: Option<usize>)
        ensures
            r matches Some(k) ==> k < self.nodes().len() && node_slot(self.nodes(), id, 0) == Some(k as int),
            r is None ==> node_slot(self.nodes(), id, 0) is None,
    {
        let mut index: usize = 0;
        while index < self.nodes.len()
            invariant
                0 <= index <= self.nodes@.len(),
                node_slot(self.nodes@, id, 0) == node_slot(self.nodes@, id, index as int),
            decreases self.nodes@.len() - index,
        {
            if self.nodes[index].node_id == id {
                return Some(index);
            }
            index = index + 1;
        }
        None
    }
}

/// Records a node, replacing the one with the same ID.
pub fn upsert(mesh: &mut Mesh, node: MeshNode) -> (r: Result<(), DiscoverError>)
    requires
        old(mesh).wf(),
        node_ok(node),
    ensures
        final(mesh).wf(),
        node.node_id == 0 || node.revision == 0 || node.provenance.revision == 0 ==> r == Err::<(), DiscoverError>(DiscoverError::Invalid)
            && final(mesh).nodes() == old(mesh).nodes(),
        !(node.node_id == 0 || node.revision == 0 || node.provenance.revision == 0) ==> match node_slot(old(mesh).nodes(), node.node_id, 0) {
            Some(k) => r is Ok && final(mesh).nodes() == old(mesh).nodes().update(k, node),
            None => if old(mesh).nodes().len() >= MAX_NODES {
                r == Err::<(), DiscoverError>(DiscoverError::Full) && final(mesh).nodes() == old(mesh).nodes()
            } else {
                r is Ok && final(mesh).nodes() == old(mesh).nodes().push(node)
            },
        },
{
    if node.node_id == 0 || node.revision == 0 || node.provenance.revision == 0 {
        return Err(DiscoverError::Invalid);
    }
    match mesh.find_node(node.node_id) {
        Some(k) => {
            mesh.nodes.set(k, node);
            Ok(())
        },
        None => {
            if mesh.nodes.len() >= MAX_NODES {
                return Err(DiscoverError::Full);
            }
            mesh.nodes.push(node);
            Ok(())
        },
    }
}

/// First used record of `n` for `capability`.
pub open spec fn cap_slot(n: MeshNode, capability: u32, i: int) -> Option<int>
    decreases n.capability_used - i,
{
    if i < 0 || i >= n.capability_used {
        None
    } else if n.capabilities@[i].capability == capability {
        Some(i)
    } else {
        cap_slot(n, capability, i + 1)
    }
}

/// Advertises (or updates) a capability of a known node.
#[verifier::loop_isolation(false)]
pub fn advertise_capability(mesh: &mut Mesh, node_id: u64, capability: CapabilityRecord) -> (r: Result<(), DiscoverError>)
    requires
        old(mesh).wf(),
    ensures
        final(mesh).wf(),
        r is Err ==> final(mesh).nodes() == old(mesh).nodes(),
        (node_id == 0 || capability.capability == 0 || node_slot(old(mesh).nodes(), node_id, 0) is None) ==> r == Err::<(), DiscoverError>(DiscoverError::Invalid),
        (node_id != 0 && capability.capability != 0) ==> match node_slot(old(mesh).nodes(), node_id, 0) {
            Some(k) => {
                let n = old(mesh).nodes()[k];
                let m = final(mesh).nodes()[k];
                (match cap_slot(n, capability.capability, 0) {
                    Some(c) => r is Ok && m.capabilities@ == n.capabilities@.update(c, capability)
                        && m.capability_used == n.capability_used,
                    None => if n.capability_used >= MAX_CAPABILITIES_PER_NODE {
                        r == Err::<(), DiscoverError>(DiscoverError::CapabilityFull)
                    } else {
                        r is Ok && m.capabilities@ == n.capabilities@.update(n.capability_used as int, capability)
                            && m.capability_used == n.capability_used + 1
                    },
                })
                && (r is Ok ==> final(mesh).nodes() == old(mesh).nodes().update(k, m) && m.node_id == n.node_id
                    && m.revision == n.revision && m.trust_hint_fixed == n.trust_hint_fixed && m.provenance == n.provenance)
            },
            None => true,
        },
        r is Ok ==> final(mesh).nodes().len() == old(mesh).nodes().len(),
{
    if node_id == 0 || capability.capability == 0 {
        return Err(DiscoverError::Invalid);
    }
    match mesh.find_node(node_id) {
        None => Err(DiscoverError::Invalid),
        Some(k) => {
            let mut node = mesh.nodes[k];
            assert(node_ok(mesh.nodes@[k as int]));
            let mut cap: usize = 0;
            while cap < node.capability_used
                invariant
                    0 <= cap <= node.capability_used <= 8,
                    mesh.nodes@ == old(mesh).nodes@,
                    node == mesh.nodes@[k as int],
                    cap_slot(node, capability.capability, 0) == cap_slot(node, capability.capability, cap as int),
                decreases node.capability_used - cap,
            {
                if node.capabilities[cap].capability == capability.capability {
                    node.capabilities[cap] = capability;
                    mesh.nodes.set(k, node);
                    return Ok(());
                }
                cap = cap + 1;
            }
            if node.capability_used >= MAX_CAPABILITIES_PER_NODE {
                return Err(DiscoverError::CapabilityFull);
            }
            node.capabilities[node.capability_used] = capability;
            node.capability_used = node.capability_used + 1;
            mesh.nodes.set(k, node);
            Ok(())
        },
    }
}

/// Number of known nodes.
pub fn count_nodes(mesh: &Mesh) -> (n: usize)
    ensures
        n == mesh.nodes().len(),
{
    mesh.nodes.len()
}

/// First node from `i` on that advertises `capability`.
pub open spec fn capability_node(nodes: Seq<MeshNode>, capability: u32, i: int) -> Option<MeshNode>
    decreases nodes.len() - i,
{
    if i < 0 || i >= nodes.len() {
        None
    } else if node_has_capability(nodes[i], capability) {
        Some(nodes[i])
    } else {
        capability_node(nodes, capability, i + 1)
    }
}

/// The first known node advertising `capability`; none for capability 0.
#[verifier::loop_isolation(false)]
pub fn find_capability(mesh: &Mesh, capability: u32) -> (r: Option<MeshNode>)
    requires
        mesh.wf(),
    ensures
        capability == 0 ==> r is None,
        capability != 0 ==> r == capability_node(mesh.nodes(), capability, 0),
        r matches Some(n) ==> node_ok(n),
{
    if capability == 0 {
        return None;
    }
    let mut index: usize = 0;
    while index < mesh.nodes.len()
        invariant
            0 <= index <= mesh.nodes@.len(),
            mesh.wf(),
            capability_node(mesh.nodes@, capability, 0) == capability_node(mesh.nodes@, capability, index as int),
        decreases mesh.nodes@.len() - index,
    {
        let node = mesh.nodes[index];
        assert(node_ok(mesh.nodes@[index as int]));
        if has_capability(&node, capability) {
            return Some(node);
        }
        index = index + 1;
    }
    None
}

/// Forgets every node.
pub fn clear(mesh: &mut Mesh)
    ensures
        final(mesh).wf(),
        final(mesh).nodes().len() == 0,
{
    *mesh = Mesh::new();
}

/// The mesh's own check: a node advertised with one capability is found
/// by it, and is the only node.
pub fn self_test() -> (ok: bool)
    ensures
        ok,
{
    let mut mesh = Mesh::new();
    let provenance = RelationProvenance { origin: 1, source: ProvenanceSource::Local, revision: 1 };
    let node = MeshNode {
        node_id: 7,
        revision: 1,
        trust_hint_fixed: 8_000,
        provenance,
        capabilities: [CapabilityRecord::empty(); 8],
        capability_used: 0,
    };
    if upsert(&mut mesh, node).is_err() {
        return false;
    }
    let record = CapabilityRecord { capability: 100, quality_fixed: 9_000, latency_ticks: 4, resource_units: 8 };
    proof {
        assert(node_slot(mesh.nodes(), 7, 0) == Some(0int));
        assert(cap_slot(mesh.nodes()[0], 100, 0) is None);
    }
    if advertise_capability(&mut mesh, 7, record).is_err() {
        return false;
    }
    proof {
        let n = mesh.nodes()[0];
        assert(n.capabilities@[0].capability == 100);
        assert(capability_node(mesh.nodes(), 100, 0) is Some);
    }
    let found = find_capability(&mesh, 100);
    found.is_some() && count_nodes(&mesh) == 1
}

} // verus!
