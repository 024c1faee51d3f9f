//! GNOSIS knowledge graph views: snapshots, neighbourhoods, pattern
//! matching, statistics and consistency checks over the relation registry.
//! Every view reads the registry only.
use vstd::prelude::*;
use crate::gnosis::relation::{self, Relation, RelationRegistry, listing, relation_valid};
use crate::gnosis::semantic::{self, ContextId, ObjectId, SemanticId, spec_is_valid};

verus! {

pub const MAX_GRAPH_NODES: usize = 128;
pub const MAX_GRAPH_RELATIONS: usize = 64;

#[derive(Clone, Copy, Debug, PartialEq, Eq, Structural)]
pub enum GraphDirection {
    Outgoing,
    Incoming,
    Both,
}

/// A relation pattern; `None` fields match anything.
#[derive(Clone, Copy)]
pub struct GraphPattern {
    pub source: Option<ObjectId>,
    pub relation: Option<SemanticId>,
    pub target: Option<ObjectId>,
    pub context: Option<ContextId>,
}

/// A set of nodes and relation IDs taken from the registry.
#[derive(Clone, Copy)]
pub struct GraphSnapshot {
    pub nodes: [ObjectId; 128],
    pub relation_ids: [u64; 64],
    pub node_count: usize,
    pub relation_count: usize,
}

/// Nonzero, pairwise distinct nodes and nonzero relation IDs.
pub open spec fn seqs_valid(ns: Seq<u64>, rs: Seq<u64>) -> bool {
    &&& ns.len() != 0
    &&& ns.len() <= MAX_GRAPH_NODES
    &&& rs.len() <= MAX_GRAPH_RELATIONS
    &&& forall|i: int| 0 <= i < ns.len() ==> #[trigger] ns[i] != 0
    &&& forall|i: int, j: int| 0 <= i < j < ns.len() ==> #[trigger] ns[i] != #[trigger] ns[j]
    &&& forall|i: int| 0 <= i < rs.len() ==> #[trigger] rs[i] != 0
}

pub open spec fn snapshot_nodes(s: GraphSnapshot) -> Seq<u64> {
    s.nodes@.subrange(0, s.node_count as int)
}

pub open spec fn snapshot_relations(s: GraphSnapshot) -> Seq<u64> {
    s.relation_ids@.subrange(0, s.relation_count as int)
}

pub open spec fn snapshot_valid(s: GraphSnapshot) -> bool {
    s.node_count <= MAX_GRAPH_NODES && s.relation_count <= MAX_GRAPH_RELATIONS && seqs_valid(
        snapshot_nodes(s),
        snapshot_relations(s),
    )
}

impl GraphSnapshot {
    pub fn is_valid(&self) -> (r: bool)
        ensures
            r == snapshot_valid(*self),
    {
        if self.node_count == 0 || self.node_count > MAX_GRAPH_NODES || self.relation_count > MAX_GRAPH_RELATIONS {
            return false;
        }
        let ghost ns = snapshot_nodes(*self);
        let ghost rs = snapshot_relations(*self);
        let mut i: usize = 0;
        while i < self.node_count
            invariant
                0 <= i <= self.node_count <= 128,
                ns == self.nodes@.subrange(0, self.node_count as int),
                forall|a: int| 0 <= a < i ==> #[trigger] ns[a] != 0,
                forall|a: int, b: int| 0 <= a < i && a < b < ns.len() ==> #[trigger] ns[a] != #[trigger] ns[b],
            decreases self.node_count - i,
        {
            if self.nodes[i] == 0 {
                assert(ns[i as int] == 0);
                return false;
            }
            let mut j = i + 1;
            while j < self.node_count
                invariant
                    i < j <= self.node_count <= 128,
                    ns == self.nodes@.subrange(0, self.node_count as int),
                    forall|b: int| i < b < j ==> ns[i as int] != #[trigger] ns[b],
                decreases self.node_count - j,
            {
                if self.nodes[i] == self.nodes[j] {
                    assert(ns[i as int] == ns[j as int]);
                    return false;
                }
                j = j + 1;
            }
            i = i + 1;
        }
        let mut r: usize = 0;
        while r < self.relation_count
            invariant
                0 <= r <= self.relation_count <= 64,
                rs == self.relation_ids@.subrange(0, self.relation_count as int),
                forall|a: int| 0 <= a < r ==> #[trigger] rs[a] != 0,
            decreases self.relation_count - r,
        {
            if self.relation_ids[r] == 0 {
                assert(rs[r as int] == 0);
                return false;
            }
            r = r + 1;
        }
        true
    }

    /// Node `index`, if within the snapshot.
    pub fn node(&self, index: usize) -> (r: Option<ObjectId>)
        requires
            self.node_count <= MAX_GRAPH_NODES,
        ensures
            r == (if index < self.node_count { Some(self.nodes@[index as int]) } else { None }),
    {
        if index < self.node_count {
            Some(self.nodes[index])
        } else {
            None
        }
    }

    /// Relation ID `index`, if within the snapshot.
    pub fn relation_id(&self, index: usize) -> (r: Option<u64>)
        requires
            self.relation_count <= MAX_GRAPH_RELATIONS,
        ensures
            r == (if index < self.relation_count { Some(self.relation_ids@[index as int]) } else { None }),
    {
        if index < self.relation_count {
            Some(self.relation_ids[index])
        } else {
            None
        }
    }
}

#[derive(Clone, Copy)]
pub struct GraphStats {
    pub relation_count: usize,
    pub node_count: usize,
    pub source_node_count: usize,
    pub sink_node_count: usize,
    pub isolated_node_count: usize,
    pub self_relation_count: usize,
    pub context_count: usize,
    pub semantic_count: usize,
}

#[derive(Clone, Copy)]
pub struct ConsistencyReport {
    pub valid: bool,
    pub checked_relations: usize,
    pub invalid_relations: usize,
    pub duplicate_relations: usize,
    pub disconnected_relation_count: usize,
}

pub open spec fn nodes_of(p: (Seq<u64>, Seq<u64>)) -> Seq<u64> {
    p.0
}

pub open spec fn rels_of(p: (Seq<u64>, Seq<u64>)) -> Seq<u64> {
    p.1
}

/// Adds a node unless it is 0 or present; fails when full.
pub open spec fn add_node_spec(ns: Seq<u64>, x: u64) -> Option<Seq<u64>> {
    if x == 0 || ns.contains(x) {
        Some(ns)
    } else if ns.len() >= MAX_GRAPH_NODES {
        None
    } else {
        Some(ns.push(x))
    }
}

/// Adds a relation ID unless present; fails for ID 0 or when full.
pub open spec fn add_rel_spec(rs: Seq<u64>, id: u64) -> Option<Seq<u64>> {
    if id == 0 {
        None
    } else if rs.contains(id) {
        Some(rs)
    } else if rs.len() >= MAX_GRAPH_RELATIONS {
        None
    } else {
        Some(rs.push(id))
    }
}

/// Adds a relation and both its endpoints.
pub open spec fn add_edge_spec(acc: Option<(Seq<u64>, Seq<u64>)>, id: u64, r: Relation) -> Option<(Seq<u64>, Seq<u64>)> {
    match acc {
        None => None,
        Some((ns, rs)) => match add_rel_spec(rs, id) {
            None => None,
            Some(rs2) => match add_node_spec(ns, r.source) {
                None => None,
                Some(ns2) => match add_node_spec(ns2, r.target) {
                    None => None,
                    Some(ns3) => Some((ns3, rs2)),
                },
            },
        },
    }
}

/// The snapshot built from the first `n` listed relations.
pub open spec fn snapshot_fold(list: Seq<(u64, Relation)>, n: int) -> Option<(Seq<u64>, Seq<u64>)>
    decreases n,
{
    if n <= 0 {
        Some((Seq::empty(), Seq::empty()))
    } else {
        add_edge_spec(snapshot_fold(list, n - 1), list[n - 1].0, list[n - 1].1)
    }
}

/// Whether a relation touches `node` in `direction`.
pub open spec fn touches(r: Relation, node: ObjectId, direction: GraphDirection) -> bool {
    match direction {
        GraphDirection::Outgoing => r.source == node,
        GraphDirection::Incoming => r.target == node,
        GraphDirection::Both => r.source == node || r.target == node,
    }
}

/// The neighbourhood of `node` built from the first `n` listed relations.
pub open spec fn neighborhood_fold(list: Seq<(u64, Relation)>, node: ObjectId, direction: GraphDirection, n: int) -> Option<(Seq<u64>, Seq<u64>)>
    decreases n,
{
    if n <= 0 {
        Some((seq![node], Seq::empty()))
    } else {
        let prev = neighborhood_fold(list, node, direction, n - 1);
        if touches(list[n - 1].1, node, direction) {
            add_edge_spec(prev, list[n - 1].0, list[n - 1].1)
        } else {
            prev
        }
    }
}

fn seq_contains(v: &Vec<u64>, x: u64) -> (r: bool)
    ensures
        r == v@.contains(x),
{
    let mut i: usize = 0;
    while i < v.len()
        invariant
            0 <= i <= v@.len(),
            forall|j: int| 0 <= j < i ==> v@[j] != x,
        decreases v@.len() - i,
    {
        if v[i] == x {
            assert(v@[i as int] == x);
            return true;
        }
        i = i + 1;
    }
    false
}

fn add_node(ns: &mut Vec<u64>, x: u64) -> (ok: bool)
    ensures
        ok == (add_node_spec(old(ns)@, x) is Some),
        ok ==> final(ns)@ == add_node_spec(old(ns)@, x)->0,
{
    if x == 0 || seq_contains(ns, x) {
        return true;
    }
    if ns.len() >= MAX_GRAPH_NODES {
        return false;
    }
    ns.push(x);
    true
}

fn add_relation(rs: &mut Vec<u64>, id: u64) -> (ok: bool)
    ensures
        ok == (add_rel_spec(old(rs)@, id) is Some),
        ok ==> final(rs)@ == add_rel_spec(old(rs)@, id)->0,
{
    if id == 0 {
        return false;
    }
    if seq_contains(rs, id) {
        return true;
    }
    if rs.len() >= MAX_GRAPH_RELATIONS {
        return false;
    }
    rs.push(id);
    true
}

fn add_edge(ns: &mut Vec<u64>, rs: &mut Vec<u64>, id: u64, r: &Relation) -> (ok: bool)
    ensures
        ok == (add_edge_spec(Some((old(ns)@, old(rs)@)), id, *r) is Some),
        ok ==> (final(ns)@, final(rs)@) == add_edge_spec(Some((old(ns)@, old(rs)@)), id, *r)->0,
{
    add_relation(rs, id) && add_node(ns, r.source) && add_node(ns, r.target)
}

fn to_snapshot(ns: &Vec<u64>, rs: &Vec<u64>) -> (s: GraphSnapshot)
    requires
        ns@.len() <= MAX_GRAPH_NODES,
        rs@.len() <= MAX_GRAPH_RELATIONS,
    ensures
        snapshot_nodes(s) == ns@,
        snapshot_relations(s) == rs@,
        s.node_count == ns@.len(),
        s.relation_count == rs@.len(),
{
    let mut s = GraphSnapshot { nodes: [0u64; 128], relation_ids: [0u64; 64], node_count: 0, relation_count: 0 };
    let mut i: usize = 0;
    while i < ns.len()
        invariant
            0 <= i <= ns@.len() <= 128,
            s.node_count == 0 && s.relation_count == 0,
            forall|j: int| 0 <= j < i ==> #[trigger] s.nodes@[j] == ns@[j],
        decreases ns@.len() - i,
    {
        s.nodes[i] = ns[i];
        i = i + 1;
    }
    let mut k: usize = 0;
    while k < rs.len()
        invariant
            0 <= k <= rs@.len() <= 64,
            s.node_count == 0 && s.relation_count == 0,
            forall|j: int| 0 <= j < ns@.len() ==> #[trigger] s.nodes@[j] == ns@[j],
            forall|j: int| 0 <= j < k ==> #[trigger] s.relation_ids@[j] == rs@[j],
        decreases rs@.len() - k,
    {
        s.relation_ids[k] = rs[k];
        k = k + 1;
    }
    s.node_count = ns.len();
    s.relation_count = rs.len();
    assert(snapshot_nodes(s) =~= ns@);
    assert(snapshot_relations(s) =~= rs@);
    s
}

/// A snapshot of the whole relation graph: every relation ID and every
/// endpoint once, in registry order.
pub fn snapshot(reg: &RelationRegistry) -> (r: Option<GraphSnapshot>)
    ensures
        ({
            let list = listing(reg.slots());
            let f = snapshot_fold(list, list.len() as int);
            &&& r is Some <==> (reg.spec_count() != 0 && f is Some && seqs_valid(nodes_of(f->0), rels_of(f->0)))
            &&& r matches Some(s) ==> snapshot_valid(s) && snapshot_nodes(s) == nodes_of(f->0) && snapshot_relations(s) == rels_of(f->0)
        }),
{
    if reg.count() == 0 {
        return None;
    }
    let list = reg.for_each();
    let mut ns: Vec<u64> = Vec::new();
    let mut rs: Vec<u64> = Vec::new();
    let mut ok = true;
    let mut i: usize = 0;
    while i < list.len()
        invariant
            0 <= i <= list@.len(),
            list@ == listing(reg.slots()),
            ok ==> snapshot_fold(list@, i as int) == Some((ns@, rs@)),
            !ok ==> snapshot_fold(list@, i as int) is None,
        decreases list@.len() - i,
    {
        if ok {
            let (id, relation) = list[i];
            if !add_edge(&mut ns, &mut rs, id, &relation) {
                ok = false;
            }
        }
        i = i + 1;
    }
    if !ok || ns.len() > MAX_GRAPH_NODES || rs.len() > MAX_GRAPH_RELATIONS {
        proof {
            if ok {
                lemma_fold_bounds(list@, list@.len() as int);
            }
        }
        return None;
    }
    let s = to_snapshot(&ns, &rs);
    if s.is_valid() {
        Some(s)
    } else {
        None
    }
}

proof fn lemma_fold_bounds(list: Seq<(u64, Relation)>, n: int)
    requires
        0 <= n <= list.len(),
        snapshot_fold(list, n) is Some,
    ensures
        nodes_of(snapshot_fold(list, n)->0).len() <= MAX_GRAPH_NODES,
        rels_of(snapshot_fold(list, n)->0).len() <= MAX_GRAPH_RELATIONS,
    decreases n,
{
    if n > 0 {
        lemma_fold_bounds(list, n - 1);
    }
}

proof fn lemma_neighborhood_bounds(list: Seq<(u64, Relation)>, node: ObjectId, direction: GraphDirection, n: int)
    requires
        0 <= n <= list.len(),
        neighborhood_fold(list, node, direction, n) is Some,
    ensures
        nodes_of(neighborhood_fold(list, node, direction, n)->0).len() <= MAX_GRAPH_NODES,
        rels_of(neighborhood_fold(list, node, direction, n)->0).len() <= MAX_GRAPH_RELATIONS,
    decreases n,
{
    if n > 0 {
        lemma_neighborhood_bounds(list, node, direction, n - 1);
    }
}

fn touches_exec(r: &Relation, node: ObjectId, direction: GraphDirection) -> (b: bool)
    ensures
        b == touches(*r, node, direction),
{
    match direction {
        GraphDirection::Outgoing => r.source == node,
        GraphDirection::Incoming => r.target == node,
        GraphDirection::Both => r.source == node || r.target == node,
    }
}

/// The one-hop neighbourhood of `node`: the node, the relations touching
/// it in `direction`, and their endpoints.
pub fn neighborhood(reg: &RelationRegistry, node: ObjectId, direction: GraphDirection) -> (r: Option<GraphSnapshot>)
    ensures
        ({
            let list = listing(reg.slots());
            let f = neighborhood_fold(list, node, direction, list.len() as int);
            &&& r is Some <==> (node != 0 && reg.spec_count() != 0 && f is Some && rels_of(f->0).len() != 0 && seqs_valid(nodes_of(f->0), rels_of(f->0)))
            &&& r matches Some(s) ==> snapshot_valid(s) && snapshot_nodes(s) == nodes_of(f->0) && snapshot_relations(s) == rels_of(f->0)
        }),
{
    if node == 0 || reg.count() == 0 {
        return None;
    }
    let list = reg.for_each();
    let mut ns: Vec<u64> = Vec::new();
    let mut rs: Vec<u64> = Vec::new();
    ns.push(node);
    let mut ok = true;
    let mut i: usize = 0;
    while i < list.len()
        invariant
            0 <= i <= list@.len(),
            list@ == listing(reg.slots()),
            ok ==> neighborhood_fold(list@, node, direction, i as int) == Some((ns@, rs@)),
            !ok ==> neighborhood_fold(list@, node, direction, i as int) is None,
        decreases list@.len() - i,
    {
        if ok {
            let (id, relation) = list[i];
            if touches_exec(&relation, node, direction) {
                if !add_edge(&mut ns, &mut rs, id, &relation) {
                    ok = false;
                }
            }
        }
        i = i + 1;
    }
    if !ok || ns.len() > MAX_GRAPH_NODES || rs.len() > MAX_GRAPH_RELATIONS {
        proof {
            if ok {
                lemma_neighborhood_bounds(list@, node, direction, list@.len() as int);
            }
        }
        return None;
    }
    let s = to_snapshot(&ns, &rs);
    if s.relation_count != 0 && s.is_valid() {
        Some(s)
    } else {
        None
    }
}

pub open spec fn pattern_admits(p: GraphPattern, r: Relation) -> bool {
    &&& (p.source matches Some(v) ==> v == r.source)
    &&& (p.relation matches Some(v) ==> v == r.relation)
    &&& (p.target matches Some(v) ==> v == r.target)
    &&& (p.context matches Some(v) ==> v == r.context)
}

/// Whether the relation stored under `id` matches the pattern.
pub open spec fn id_matches(reg: RelationRegistry, id: u64, p: GraphPattern) -> bool {
    match reg.entry(id) {
        Some(e) => pattern_admits(p, e.relation),
        None => false,
    }
}

/// The listed IDs, among the first `n`, whose relation matches.
pub open spec fn matching_ids(reg: RelationRegistry, list: Seq<(u64, Relation)>, p: GraphPattern, n: int) -> Seq<u64>
    decreases n,
{
    if n <= 0 {
        Seq::empty()
    } else {
        let prev = matching_ids(reg, list, p, n - 1);
        if id_matches(reg, list[n - 1].0, p) { prev.push(list[n - 1].0) } else { prev }
    }
}

fn pattern_matches(reg: &RelationRegistry, id: u64, pattern: &GraphPattern) -> (b: bool)
    ensures
        b == id_matches(*reg, id, *pattern),
{
    match reg.relation(id) {
        None => false,
        Some(relation) => {
            let a = match pattern.source { Some(v) => v == relation.source, None => true };
            let b = match pattern.relation { Some(v) => v == relation.relation, None => true };
            let c = match pattern.target { Some(v) => v == relation.target, None => true };
            let d = match pattern.context { Some(v) => v == relation.context, None => true };
            a && b && c && d
        },
    }
}

/// Writes the IDs of the matching relations, in registry order, as many as
/// fit; returns how many were written.
pub fn match_pattern(reg: &RelationRegistry, pattern: GraphPattern, output: &mut [u64]) -> (n: usize)
    ensures
        ({
            let list = listing(reg.slots());
            let m = matching_ids(*reg, list, pattern, list.len() as int);
            &&& n == (if m.len() < old(output)@.len() { m.len() } else { old(output)@.len() as nat })
            &&& final(output)@.len() == old(output)@.len()
            &&& forall|i: int| 0 <= i < n ==> #[trigger] final(output)@[i] == m[i]
            &&& forall|i: int| n <= i < old(output)@.len() ==> #[trigger] final(output)@[i] == old(output)@[i]
        }),
{
    let list = reg.for_each();
    let mut count: usize = 0;
    let mut i: usize = 0;
    while i < list.len()
        invariant
            0 <= i <= list@.len(),
            output@.len() == old(output)@.len(),
            ({
                let m = matching_ids(*reg, list@, pattern, i as int);
                &&& count == (if m.len() < output@.len() { m.len() } else { output@.len() as nat })
                &&& forall|j: int| 0 <= j < count ==> #[trigger] output@[j] == m[j]
            }),
            forall|j: int| count <= j < output@.len() ==> #[trigger] output@[j] == old(output)@[j],
        decreases list@.len() - i,
    {
        let (id, _relation) = list[i];
        let ghost before = matching_ids(*reg, list@, pattern, i as int);
        if count < output.len() && pattern_matches(reg, id, &pattern) {
            output[count] = id;
            count = count + 1;
        } else {
            let _ = pattern_matches(reg, id, &pattern);
        }
        proof {
            let after = matching_ids(*reg, list@, pattern, i + 1);
            if id_matches(*reg, id, pattern) {
                assert(after == before.push(id));
            } else {
                assert(after == before);
            }
        }
        i = i + 1;
    }
    count
}


pub open spec fn push_unique(s: Seq<u64>, x: u64) -> Seq<u64> {
    if s.contains(x) { s } else { s.push(x) }
}

/// The distinct endpoints of the first `n` listed relations, in order of
/// first appearance (sources before targets).
pub open spec fn endpoints(list: Seq<(u64, Relation)>, n: int) -> Seq<u64>
    decreases n,
{
    if n <= 0 {
        Seq::empty()
    } else {
        push_unique(push_unique(endpoints(list, n - 1), list[n - 1].1.source), list[n - 1].1.target)
    }
}

/// The distinct contexts of the first `n` listed relations.
pub open spec fn contexts_of(list: Seq<(u64, Relation)>, n: int) -> Seq<u64>
    decreases n,
{
    if n <= 0 { Seq::empty() } else { push_unique(contexts_of(list, n - 1), list[n - 1].1.context) }
}

/// The distinct relation types of the first `n` listed relations.
pub open spec fn semantics_of(list: Seq<(u64, Relation)>, n: int) -> Seq<u64>
    decreases n,
{
    if n <= 0 { Seq::empty() } else { push_unique(semantics_of(list, n - 1), list[n - 1].1.relation as u64) }
}

/// Self-relations among the first `n` listed relations.
pub open spec fn self_relations(list: Seq<(u64, Relation)>, n: int) -> nat
    decreases n,
{
    if n <= 0 {
        0
    } else {
        self_relations(list, n - 1) + if list[n - 1].1.source == list[n - 1].1.target { 1nat } else { 0nat }
    }
}

proof fn lemma_push_unique_len(s: Seq<u64>, x: u64)
    ensures
        push_unique(s, x).len() <= s.len() + 1,
        push_unique(s, x).contains(x),
        forall|y: u64| s.contains(y) ==> push_unique(s, x).contains(y),
{
    if !s.contains(x) {
        assert(s.push(x)[s.len() as int] == x);
        assert forall|y: u64| s.contains(y) implies s.push(x).contains(y) by {
            let k = choose|k: int| 0 <= k < s.len() && s[k] == y;
            assert(s.push(x)[k] == y);
        }
    }
}

proof fn lemma_fold_lens(list: Seq<(u64, Relation)>, n: int)
    requires
        0 <= n <= list.len(),
    ensures
        endpoints(list, n).len() <= 2 * n,
        contexts_of(list, n).len() <= n,
        semantics_of(list, n).len() <= n,
        self_relations(list, n) <= n,
    decreases n,
{
    if n > 0 {
        lemma_fold_lens(list, n - 1);
        let e = endpoints(list, n - 1);
        lemma_push_unique_len(e, list[n - 1].1.source);
        lemma_push_unique_len(push_unique(e, list[n - 1].1.source), list[n - 1].1.target);
        lemma_push_unique_len(contexts_of(list, n - 1), list[n - 1].1.context);
        lemma_push_unique_len(semantics_of(list, n - 1), list[n - 1].1.relation as u64);
    }
}

/// Whether `x` is the source of one of the first `n` listed relations.
pub open spec fn is_source(list: Seq<(u64, Relation)>, n: int, x: u64) -> bool {
    exists|j: int| 0 <= j < n && #[trigger] list[j].1.source == x
}

/// Whether `x` is the target of one of the first `n` listed relations.
pub open spec fn is_sink(list: Seq<(u64, Relation)>, n: int, x: u64) -> bool {
    exists|j: int| 0 <= j < n && #[trigger] list[j].1.target == x
}

/// How many of the first `k` of `nodes` satisfy `p`.
pub open spec fn count_nodes(nodes: Seq<u64>, k: int, p: spec_fn(u64) -> bool) -> nat
    decreases k,
{
    if k <= 0 {
        0
    } else {
        count_nodes(nodes, k - 1, p) + if p(nodes[k - 1]) { 1nat } else { 0nat }
    }
}

pub open spec fn source_of(list: Seq<(u64, Relation)>, n: int) -> spec_fn(u64) -> bool {
    |x: u64| is_source(list, n, x)
}

pub open spec fn sink_of(list: Seq<(u64, Relation)>, n: int) -> spec_fn(u64) -> bool {
    |x: u64| is_sink(list, n, x)
}

pub open spec fn isolated_in(list: Seq<(u64, Relation)>, n: int) -> spec_fn(u64) -> bool {
    |x: u64| !is_source(list, n, x) && !is_sink(list, n, x)
}

proof fn lemma_count_nodes_le(nodes: Seq<u64>, k: int, p: spec_fn(u64) -> bool)
    requires
        0 <= k,
    ensures
        count_nodes(nodes, k, p) <= k,
    decreases k,
{
    if k > 0 {
        lemma_count_nodes_le(nodes, k - 1, p);
    }
}

/// The endpoints are distinct and hold every source and target listed so far.
proof fn lemma_endpoints(list: Seq<(u64, Relation)>, n: int)
    requires
        0 <= n <= list.len(),
    ensures
        forall|a: int, b: int| 0 <= a < b < endpoints(list, n).len() ==> endpoints(list, n)[a] != endpoints(list, n)[b],
        forall|j: int| 0 <= j < n ==> endpoints(list, n).contains(#[trigger] list[j].1.source),
        forall|j: int| 0 <= j < n ==> endpoints(list, n).contains(#[trigger] list[j].1.target),
    decreases n,
{
    if n > 0 {
        lemma_endpoints(list, n - 1);
        let e = endpoints(list, n - 1);
        let s = list[n - 1].1.source;
        let t = list[n - 1].1.target;
        lemma_push_unique_len(e, s);
        lemma_push_unique_len(push_unique(e, s), t);
        let e1 = push_unique(e, s);
        assert forall|a: int, b: int| 0 <= a < b < e1.len() implies e1[a] != e1[b] by {
            if !e.contains(s) && b == e.len() {
                assert(e1[a] == e[a]);
                if e[a] == s {
                    assert(e.contains(s));
                }
            }
        }
        let e2 = push_unique(e1, t);
        assert forall|a: int, b: int| 0 <= a < b < e2.len() implies e2[a] != e2[b] by {
            if !e1.contains(t) && b == e1.len() {
                assert(e2[a] == e1[a]);
                if e1[a] == t {
                    assert(e1.contains(t));
                }
            }
        }
        assert forall|j: int| 0 <= j < n implies e2.contains(#[trigger] list[j].1.source) by {
            if j < n - 1 {
                assert(e.contains(list[j].1.source));
            }
        }
        assert forall|j: int| 0 <= j < n implies e2.contains(#[trigger] list[j].1.target) by {
            if j < n - 1 {
                assert(e.contains(list[j].1.target));
            }
        }
    }
}

fn index_of(v: &Vec<u64>, x: u64) -> (r: Option<usize>)
    ensures
        r matches Some(k) ==> k < v@.len() && v@[k as int] == x,
        r is None ==> !v@.contains(x),
{
    let mut i: usize = 0;
    while i < v.len()
        invariant
            0 <= i <= v@.len(),
            forall|j: int| 0 <= j < i ==> v@[j] != x,
        decreases v@.len() - i,
    {
        if v[i] == x {
            return Some(i);
        }
        i = i + 1;
    }
    None
}

/// Counts over the relation graph: relations, distinct endpoints,
/// self-relations, distinct contexts and relation types, and how many
/// endpoints are sources, sinks or isolated.
pub fn stats(reg: &RelationRegistry) -> (r: GraphStats)
    ensures
        ({
            let list = listing(reg.slots());
            let n = list.len() as int;
            &&& r.relation_count == reg.spec_count()
            &&& r.node_count == endpoints(list, n).len()
            &&& r.self_relation_count == self_relations(list, n)
            &&& r.context_count == contexts_of(list, n).len()
            &&& r.semantic_count == semantics_of(list, n).len()
            &&& r.source_node_count == count_nodes(endpoints(list, n), endpoints(list, n).len() as int, source_of(list, n))
            &&& r.sink_node_count == count_nodes(endpoints(list, n), endpoints(list, n).len() as int, sink_of(list, n))
            &&& r.isolated_node_count == count_nodes(endpoints(list, n), endpoints(list, n).len() as int, isolated_in(list, n))
        }),
{
    let relation_count = reg.count();
    let list = reg.for_each();
    proof {
        relation::lemma_listing_len(*reg);
    }
    let mut nodes: Vec<u64> = Vec::new();
    let mut outgoing: Vec<bool> = Vec::new();
    let mut incoming: Vec<bool> = Vec::new();
    let mut contexts: Vec<u64> = Vec::new();
    let mut semantics: Vec<u64> = Vec::new();
    let mut self_relation_count: usize = 0;
    let mut i: usize = 0;
    while i < list.len()
        invariant
            0 <= i <= list@.len() <= 64,
            list@ == listing(reg.slots()),
            nodes@ == endpoints(list@, i as int),
            outgoing@.len() == nodes@.len(),
            incoming@.len() == nodes@.len(),
            contexts@ == contexts_of(list@, i as int),
            semantics@ == semantics_of(list@, i as int),
            self_relation_count == self_relations(list@, i as int),
            forall|k: int| 0 <= k < nodes@.len() ==> outgoing@[k] == is_source(list@, i as int, #[trigger] nodes@[k]),
            forall|k: int| 0 <= k < nodes@.len() ==> incoming@[k] == is_sink(list@, i as int, #[trigger] nodes@[k]),
        decreases list@.len() - i,
    {
        proof {
            lemma_fold_lens(list@, i as int);
            lemma_endpoints(list@, i as int);
            lemma_endpoints(list@, i + 1);
        }
        let ghost before = nodes@;
        let (_id, relation) = list[i];
        if relation.source == relation.target {
            self_relation_count = self_relation_count + 1;
        }
        let source_index = match index_of(&nodes, relation.source) {
            Some(k) => k,
            None => {
                nodes.push(relation.source);
                outgoing.push(false);
                incoming.push(false);
                nodes.len() - 1
            },
        };
        let target_index = match index_of(&nodes, relation.target) {
            Some(k) => k,
            None => {
                nodes.push(relation.target);
                outgoing.push(false);
                incoming.push(false);
                nodes.len() - 1
            },
        };
        proof {
            let li = list@[i as int].1;
            assert(li == relation);
            assert(nodes@[source_index as int] == relation.source);
            assert(nodes@[target_index as int] == relation.target);
            let e = endpoints(list@, i + 1);
            assert(nodes@ == e);
            assert forall|k: int| 0 <= k < nodes@.len() && k != source_index implies nodes@[k] != relation.source by {
                if k < source_index {
                    assert(e[k] != e[source_index as int]);
                } else {
                    assert(e[source_index as int] != e[k]);
                }
            }
            assert forall|k: int| 0 <= k < nodes@.len() && k != target_index implies nodes@[k] != relation.target by {
                if k < target_index {
                    assert(e[k] != e[target_index as int]);
                } else {
                    assert(e[target_index as int] != e[k]);
                }
            }
            assert forall|k: int| before.len() <= k < nodes@.len() implies !is_source(list@, i as int, #[trigger] nodes@[k])
                && !is_sink(list@, i as int, nodes@[k]) by {
                if is_source(list@, i as int, nodes@[k]) {
                    let j = choose|j: int| 0 <= j < i && #[trigger] list@[j].1.source == nodes@[k];
                    assert(before.contains(list@[j].1.source));
                    let m = choose|m: int| 0 <= m < before.len() && before[m] == list@[j].1.source;
                    assert(nodes@[m] == before[m]);
                }
                if is_sink(list@, i as int, nodes@[k]) {
                    let j = choose|j: int| 0 <= j < i && #[trigger] list@[j].1.target == nodes@[k];
                    assert(before.contains(list@[j].1.target));
                    let m = choose|m: int| 0 <= m < before.len() && before[m] == list@[j].1.target;
                    assert(nodes@[m] == before[m]);
                }
            }
        }
        let ghost out0 = outgoing@;
        let ghost in0 = incoming@;
        outgoing.set(source_index, true);
        incoming.set(target_index, true);
        proof {
            assert forall|k: int| 0 <= k < nodes@.len() implies outgoing@[k] == is_source(list@, i + 1, #[trigger] nodes@[k]) by {
                if k == source_index {
                    assert(list@[i as int].1.source == nodes@[k]);
                } else {
                    if is_source(list@, i + 1, nodes@[k]) {
                        let j = choose|j: int| 0 <= j < i + 1 && #[trigger] list@[j].1.source == nodes@[k];
                        assert(j != i);
                    }
                    if k < before.len() {
                        assert(nodes@[k] == before[k]);
                    }
                }
            }
            assert forall|k: int| 0 <= k < nodes@.len() implies incoming@[k] == is_sink(list@, i + 1, #[trigger] nodes@[k]) by {
                if k == target_index {
                    assert(list@[i as int].1.target == nodes@[k]);
                } else {
                    if is_sink(list@, i + 1, nodes@[k]) {
                        let j = choose|j: int| 0 <= j < i + 1 && #[trigger] list@[j].1.target == nodes@[k];
                        assert(j != i);
                    }
                }
            }
        }
        if index_of(&contexts, relation.context).is_none() {
            contexts.push(relation.context);
        }
        if index_of(&semantics, relation.relation as u64).is_none() {
            semantics.push(relation.relation as u64);
        }
        i = i + 1;
    }
    let mut source_node_count: usize = 0;
    let mut sink_node_count: usize = 0;
    let mut isolated_node_count: usize = 0;
    let mut k: usize = 0;
    while k < nodes.len()
        invariant
            0 <= k <= nodes@.len(),
            outgoing@.len() == nodes@.len(),
            incoming@.len() == nodes@.len(),
            nodes@ == endpoints(list@, list@.len() as int),
            forall|q: int| 0 <= q < nodes@.len() ==> outgoing@[q] == is_source(list@, list@.len() as int, #[trigger] nodes@[q]),
            forall|q: int| 0 <= q < nodes@.len() ==> incoming@[q] == is_sink(list@, list@.len() as int, #[trigger] nodes@[q]),
            source_node_count == count_nodes(nodes@, k as int, source_of(list@, list@.len() as int)),
            sink_node_count == count_nodes(nodes@, k as int, sink_of(list@, list@.len() as int)),
            isolated_node_count == count_nodes(nodes@, k as int, isolated_in(list@, list@.len() as int)),
        decreases nodes@.len() - k,
    {
        proof {
            lemma_count_nodes_le(nodes@, k as int, source_of(list@, list@.len() as int));
            lemma_count_nodes_le(nodes@, k as int, sink_of(list@, list@.len() as int));
            lemma_count_nodes_le(nodes@, k as int, isolated_in(list@, list@.len() as int));
        }
        if !outgoing[k] && !incoming[k] {
            isolated_node_count = isolated_node_count + 1;
        }
        if outgoing[k] {
            source_node_count = source_node_count + 1;
        }
        if incoming[k] {
            sink_node_count = sink_node_count + 1;
        }
        k = k + 1;
    }
    GraphStats {
        relation_count,
        node_count: nodes.len(),
        source_node_count,
        sink_node_count,
        isolated_node_count,
        self_relation_count,
        context_count: contexts.len(),
        semantic_count: semantics.len(),
    }
}

/// Listed relations among the first `n` that are malformed or not found
/// again by their ID.
pub open spec fn invalid_count(reg: RelationRegistry, list: Seq<(u64, Relation)>, n: int) -> nat
    decreases n,
{
    if n <= 0 {
        0
    } else {
        invalid_count(reg, list, n - 1) + if !relation_valid(list[n - 1].1) || reg.entry(list[n - 1].0) is None { 1nat } else { 0nat }
    }
}

pub open spec fn ids_upto(list: Seq<(u64, Relation)>, n: int) -> Seq<u64> {
    list.subrange(0, n).map_values(|p: (u64, Relation)| p.0)
}

/// Listed relations among the first `n` whose ID was already listed.
pub open spec fn duplicate_count(list: Seq<(u64, Relation)>, n: int) -> nat
    decreases n,
{
    if n <= 0 {
        0
    } else {
        duplicate_count(list, n - 1) + if ids_upto(list, n - 1).contains(list[n - 1].0) { 1nat } else { 0nat }
    }
}

/// The relation is missing from one of the registry's indexes.
pub open spec fn disconnected(reg: RelationRegistry, r: Relation) -> bool {
    ||| r.source == 0
    ||| relation::index_lookup(reg.sources(), r.source, 0) is None
    ||| r.target == 0
    ||| relation::index_lookup(reg.targets(), r.target, 0) is None
    ||| !spec_is_valid(r.relation)
    ||| relation::index_lookup(reg.semantics(), r.relation as u64, 0) is None
}

pub open spec fn disconnected_count(reg: RelationRegistry, list: Seq<(u64, Relation)>, n: int) -> nat
    decreases n,
{
    if n <= 0 {
        0
    } else {
        disconnected_count(reg, list, n - 1) + if disconnected(reg, list[n - 1].1) { 1nat } else { 0nat }
    }
}

/// Checks every stored relation: well formed and found by its ID, listed
/// once, and present in the source, target and type indexes.
pub fn validate(reg: &RelationRegistry) -> (r: ConsistencyReport)
    ensures
        ({
            let list = listing(reg.slots());
            let n = list.len() as int;
            &&& r.checked_relations == n
            &&& r.invalid_relations == invalid_count(*reg, list, n)
            &&& r.duplicate_relations == duplicate_count(list, n)
            &&& r.disconnected_relation_count == disconnected_count(*reg, list, n)
            &&& r.valid == (r.invalid_relations == 0 && r.duplicate_relations == 0 && r.disconnected_relation_count == 0)
        }),
{
    let list = reg.for_each();
    proof {
        relation::lemma_listing_len(*reg);
    }
    let mut report = ConsistencyReport {
        valid: true,
        checked_relations: 0,
        invalid_relations: 0,
        duplicate_relations: 0,
        disconnected_relation_count: 0,
    };
    let mut seen: Vec<u64> = Vec::new();
    let mut i: usize = 0;
    while i < list.len()
        invariant
            0 <= i <= list@.len() <= 64,
            list@ == listing(reg.slots()),
            seen@ == ids_upto(list@, i as int),
            report.checked_relations == i,
            report.invalid_relations == invalid_count(*reg, list@, i as int),
            report.duplicate_relations == duplicate_count(list@, i as int),
            report.disconnected_relation_count == disconnected_count(*reg, list@, i as int),
            report.invalid_relations <= i,
            report.duplicate_relations <= i,
            report.disconnected_relation_count <= i,
            report.valid == (report.invalid_relations == 0 && report.duplicate_relations == 0
                && report.disconnected_relation_count == 0),
        decreases list@.len() - i,
    {
        let (id, relation) = list[i];
        report.checked_relations = report.checked_relations + 1;
        if !relation::is_valid(&relation) || !reg.contains(id) {
            report.invalid_relations = report.invalid_relations + 1;
            report.valid = false;
        }
        if index_of(&seen, id).is_some() {
            report.duplicate_relations = report.duplicate_relations + 1;
            report.valid = false;
        }
        seen.push(id);
        proof {
            assert(ids_upto(list@, i + 1) =~= ids_upto(list@, i as int).push(id));
        }
        if reg.find_by_source(relation.source).is_none() || reg.find_by_target(relation.target).is_none()
            || reg.find_by_semantic(relation.relation).is_none() {
            report.disconnected_relation_count = report.disconnected_relation_count + 1;
            report.valid = false;
        }
        i = i + 1;
    }
    report
}

/// The neighbour reached from `current` over `r` in `direction`, if any.
pub open spec fn step_over(r: Relation, current: ObjectId, direction: GraphDirection) -> Option<ObjectId> {
    match direction {
        GraphDirection::Outgoing => if r.source == current { Some(r.target) } else { None },
        GraphDirection::Incoming => if r.target == current { Some(r.source) } else { None },
        GraphDirection::Both => if r.source == current {
            Some(r.target)
        } else if r.target == current {
            Some(r.source)
        } else {
            None
        },
    }
}

fn step_exec(r: &Relation, current: ObjectId, direction: GraphDirection) -> (n: Option<ObjectId>)
    ensures
        n == step_over(*r, current, direction),
{
    match direction {
        GraphDirection::Outgoing => if r.source == current { Some(r.target) } else { None },
        GraphDirection::Incoming => if r.target == current { Some(r.source) } else { None },
        GraphDirection::Both => if r.source == current {
            Some(r.target)
        } else if r.target == current {
            Some(r.source)
        } else {
            None
        },
    }
}

/// Whether some listed relation leads from `a` to `b` in `direction`.
pub open spec fn edge(list: Seq<(u64, Relation)>, direction: GraphDirection, a: u64, b: u64) -> bool {
    exists|j: int| 0 <= j < list.len() && #[trigger] step_over(list[j].1, a, direction) == Some(b)
}

/// Whether `p` is a walk from `start` along edges in `direction`.
pub open spec fn is_walk(list: Seq<(u64, Relation)>, direction: GraphDirection, start: u64, p: Seq<u64>) -> bool {
    &&& p.len() >= 1
    &&& p[0] == start
    &&& forall|i: int| 0 <= i < p.len() - 1 ==> #[trigger] edge(list, direction, p[i], p[i + 1])
}

/// Whether a walk from `start` in `direction` reaches `x`.
pub open spec fn connected(list: Seq<(u64, Relation)>, direction: GraphDirection, start: u64, x: u64) -> bool {
    exists|p: Seq<u64>| #[trigger] is_walk(list, direction, start, p) && p.last() == x
}

proof fn lemma_one_step_walk(list: Seq<(u64, Relation)>, direction: GraphDirection, j: int, a: u64, b: u64)
    requires
        0 <= j < list.len(),
        step_over(list[j].1, a, direction) == Some(b),
    ensures
        connected(list, direction, a, b),
{
    let p = seq![a, b];
    assert(edge(list, direction, p[0], p[1]));
    assert forall|i: int| 0 <= i < p.len() - 1 implies #[trigger] edge(list, direction, p[i], p[i + 1]) by {
        assert(i == 0);
    }
    assert(is_walk(list, direction, a, p));
}

/// Every listed relation from `a` to `b` links them in both directions
/// when the walk follows relations either way, and forwards (from `a` to
/// `b`) when it follows them outgoing, backwards (from `b` to `a`) when
/// it follows them incoming.
pub proof fn law_relation_links_endpoints(list: Seq<(u64, Relation)>, j: int)
    requires
        0 <= j < list.len(),
    ensures
        connected(list, GraphDirection::Both, list[j].1.source, list[j].1.target),
        connected(list, GraphDirection::Both, list[j].1.target, list[j].1.source),
        connected(list, GraphDirection::Outgoing, list[j].1.source, list[j].1.target),
        connected(list, GraphDirection::Incoming, list[j].1.target, list[j].1.source),
{
    let r = list[j].1;
    lemma_one_step_walk(list, GraphDirection::Both, j, r.source, r.target);
    lemma_one_step_walk(list, GraphDirection::Both, j, r.target, r.source);
    lemma_one_step_walk(list, GraphDirection::Outgoing, j, r.source, r.target);
    lemma_one_step_walk(list, GraphDirection::Incoming, j, r.target, r.source);
}

/// Following relations either way reaches everything that following them
/// only outgoing, or only incoming, reaches.
pub proof fn law_both_reaches_outgoing_and_incoming(list: Seq<(u64, Relation)>, start: u64, x: u64)
    ensures
        connected(list, GraphDirection::Outgoing, start, x) ==> connected(list, GraphDirection::Both, start, x),
        connected(list, GraphDirection::Incoming, start, x) ==> connected(list, GraphDirection::Both, start, x),
{
    if connected(list, GraphDirection::Outgoing, start, x) {
        let p = choose|p: Seq<u64>| #[trigger] is_walk(list, GraphDirection::Outgoing, start, p) && p.last() == x;
        lemma_walk_in_both(list, GraphDirection::Outgoing, start, p);
    }
    if connected(list, GraphDirection::Incoming, start, x) {
        let p = choose|p: Seq<u64>| #[trigger] is_walk(list, GraphDirection::Incoming, start, p) && p.last() == x;
        lemma_walk_in_both(list, GraphDirection::Incoming, start, p);
    }
}

proof fn lemma_walk_in_both(list: Seq<(u64, Relation)>, direction: GraphDirection, start: u64, p: Seq<u64>)
    requires
        is_walk(list, direction, start, p),
    ensures
        is_walk(list, GraphDirection::Both, start, p),
{
    assert forall|i: int| 0 <= i < p.len() - 1 implies #[trigger] edge(list, GraphDirection::Both, p[i], p[i + 1]) by {
        assert(edge(list, direction, p[i], p[i + 1]));
        let j = choose|j: int| 0 <= j < list.len() && #[trigger] step_over(list[j].1, p[i], direction) == Some(p[i + 1]);
        assert(step_over(list[j].1, p[i], GraphDirection::Both) == Some(p[i + 1]));
    }
}

proof fn lemma_step_endpoints(r: Relation, current: u64, direction: GraphDirection)
    ensures
        step_over(r, current, direction) matches Some(b) ==> (current == r.source || current == r.target) && (b
            == r.source || b == r.target),
{
}

proof fn lemma_extend_walk(list: Seq<(u64, Relation)>, direction: GraphDirection, start: u64, p: Seq<u64>, next: u64, j: int)
    requires
        is_walk(list, direction, start, p),
        0 <= j < list.len(),
        step_over(list[j].1, p.last(), direction) == Some(next),
    ensures
        is_walk(list, direction, start, p.push(next)),
        p.push(next).last() == next,
{
    let q = p.push(next);
    assert(edge(list, direction, p.last(), next));
    assert forall|i: int| 0 <= i < q.len() - 1 implies #[trigger] edge(list, direction, q[i], q[i + 1]) by {
        if i < p.len() - 1 {
            assert(q[i] == p[i] && q[i + 1] == p[i + 1]);
            assert(edge(list, direction, p[i], p[i + 1]));
        } else {
            assert(q[i] == p.last());
        }
    }
}

/// A set holding `start` and closed under edges holds every node that a
/// walk from `start` reaches.
proof fn lemma_closed_holds_walks(list: Seq<(u64, Relation)>, direction: GraphDirection, start: u64, vs: Seq<u64>, p: Seq<u64>, i: int)
    requires
        vs.contains(start),
        forall|k: int, j: int|
            0 <= k < vs.len() && 0 <= j < list.len() ==> (#[trigger] step_over(list[j].1, vs[k], direction) matches Some(b)
                ==> vs.contains(b)),
        is_walk(list, direction, start, p),
        0 <= i < p.len(),
    ensures
        vs.contains(p[i]),
    decreases i,
{
    if i > 0 {
        lemma_closed_holds_walks(list, direction, start, vs, p, i - 1);
        let h = i - 1;
        assert(edge(list, direction, p[h], p[h + 1]));
        assert(h + 1 == i);
        let j = choose|j: int| 0 <= j < list.len() && #[trigger] step_over(list[j].1, p[i - 1], direction) == Some(p[i]);
        let k = choose|k: int| 0 <= k < vs.len() && vs[k] == p[i - 1];
        assert(step_over(list[j].1, vs[k], direction) == Some(p[i]));
    }
}

/// Number of distinct nodes that walks from `start` in `direction` reach,
/// `start` included, found breadth-first.
pub fn component_size(reg: &RelationRegistry, start: ObjectId, direction: GraphDirection) -> (r: Option<usize>)
    ensures
        r is None <==> (start == 0 || reg.spec_count() == 0),
        r matches Some(n) ==> 1 <= n <= MAX_GRAPH_NODES && exists|vs: Seq<u64>|
            #![trigger vs.len()]
            vs.len() == n && vs.no_duplicates() && forall|x: u64|
                vs.contains(x) <==> connected(listing(reg.slots()), direction, start, x),
{
    if start == 0 || reg.count() == 0 {
        return None;
    }
    let list = reg.for_each();
    proof {
        relation::lemma_listing_len(*reg);
        lemma_fold_lens(list@, list@.len() as int);
        lemma_endpoints(list@, list@.len() as int);
    }
    let ghost ends = endpoints(list@, list@.len() as int);
    let mut visited: Vec<u64> = Vec::new();
    visited.push(start);
    proof {
        let p = seq![start];
        assert(is_walk(list@, direction, start, p));
        assert(visited@[0] == start);
    }
    let mut head: usize = 0;
    while head < visited.len()
        invariant
            list@ == listing(reg.slots()),
            list@.len() <= 64,
            ends == endpoints(list@, list@.len() as int),
            ends.len() <= 128,
            forall|j: int| 0 <= j < list@.len() ==> ends.contains(#[trigger] list@[j].1.source),
            forall|j: int| 0 <= j < list@.len() ==> ends.contains(#[trigger] list@[j].1.target),
            0 <= head <= visited@.len() <= MAX_GRAPH_NODES,
            visited@.len() >= 1,
            visited@[0] == start,
            visited@.no_duplicates(),
            forall|k: int| 0 <= k < visited@.len() ==> connected(list@, direction, start, #[trigger] visited@[k]),
            visited@.len() >= 2 ==> forall|k: int| 0 <= k < visited@.len() ==> ends.contains(#[trigger] visited@[k]),
            forall|k: int, j: int|
                0 <= k < head && 0 <= j < list@.len() ==> (#[trigger] step_over(list@[j].1, visited@[k], direction) matches Some(b)
                    ==> visited@.contains(b)),
        decreases MAX_GRAPH_NODES - head,
    {
        let current = visited[head];
        head = head + 1;
        let mut i: usize = 0;
        while i < list.len()
            invariant
                list@ == listing(reg.slots()),
                list@.len() <= 64,
                ends == endpoints(list@, list@.len() as int),
                ends.len() <= 128,
                forall|j: int| 0 <= j < list@.len() ==> ends.contains(#[trigger] list@[j].1.source),
                forall|j: int| 0 <= j < list@.len() ==> ends.contains(#[trigger] list@[j].1.target),
                0 <= i <= list@.len(),
                0 < head <= visited@.len() <= MAX_GRAPH_NODES,
                visited@[0] == start,
                current == visited@[head - 1],
                visited@.no_duplicates(),
                forall|k: int| 0 <= k < visited@.len() ==> connected(list@, direction, start, #[trigger] visited@[k]),
                visited@.len() >= 2 ==> forall|k: int| 0 <= k < visited@.len() ==> ends.contains(#[trigger] visited@[k]),
                forall|k: int, j: int|
                    0 <= k < head - 1 && 0 <= j < list@.len() ==> (#[trigger] step_over(list@[j].1, visited@[k], direction) matches Some(b)
                        ==> visited@.contains(b)),
                forall|j: int|
                    0 <= j < i ==> (#[trigger] step_over(list@[j].1, current, direction) matches Some(b) ==> visited@.contains(b)),
            decreases list@.len() - i,
        {
            let (_id, relation) = list[i];
            let ghost before = visited@;
            match step_exec(&relation, current, direction) {
                Some(next) => {
                    if index_of(&visited, next).is_none() {
                        proof {
                            lemma_step_endpoints(list@[i as int].1, current, direction);
                            assert(ends.contains(next));
                            assert(ends.contains(current));
                            let grown = before.push(next);
                            assert(grown.no_duplicates());
                            assert forall|x: u64| grown.to_set().contains(x) implies ends.to_set().contains(x) by {
                                assert(grown.contains(x));
                                let k = choose|k: int| 0 <= k < grown.len() && grown[k] == x;
                                if k < before.len() {
                                    if before.len() == 1 {
                                        assert(before[k] == current);
                                    }
                                    assert(ends.contains(before[k]));
                                }
                                assert(ends.contains(x));
                            }
                            grown.unique_seq_to_set();
                            ends.lemma_cardinality_of_set();
                            vstd::set_lib::lemma_len_subset(grown.to_set(), ends.to_set());
                            let w = choose|p: Seq<u64>| #[trigger] is_walk(list@, direction, start, p) && p.last() == current;
                            assert(connected(list@, direction, start, before[head - 1]));
                            lemma_extend_walk(list@, direction, start, w, next, i as int);
                            assert(connected(list@, direction, start, next));
                        }
                        if visited.len() < MAX_GRAPH_NODES {
                            visited.push(next);
                        }
                        proof {
                            assert forall|k: int| 0 <= k < visited@.len() implies connected(list@, direction, start, #[trigger] visited@[k]) by {
                                if k < before.len() {
                                    assert(visited@[k] == before[k]);
                                }
                            }
                            assert forall|x: u64| before.contains(x) implies visited@.contains(x) by {
                                let k = choose|k: int| 0 <= k < before.len() && before[k] == x;
                                assert(visited@[k] == x);
                            }
                            assert(visited@[visited@.len() - 1] == next);
                            if visited@.len() >= 2 {
                                assert forall|k: int| 0 <= k < visited@.len() implies ends.contains(#[trigger] visited@[k]) by {
                                    if k < before.len() {
                                        assert(visited@[k] == before[k]);
                                        if before.len() == 1 {
                                            assert(before[k] == current);
                                        }
                                    }
                                }
                            }
                        }
                    }
                },
                None => {},
            }
            i = i + 1;
        }
    }
    proof {
        let vs = visited@;
        assert(vs.contains(start)) by {
            assert(vs[0] == start);
        }
        assert forall|x: u64| vs.contains(x) <==> connected(list@, direction, start, x) by {
            if connected(list@, direction, start, x) {
                let p = choose|p: Seq<u64>| #[trigger] is_walk(list@, direction, start, p) && p.last() == x;
                lemma_closed_holds_walks(list@, direction, start, vs, p, p.len() - 1);
            }
            if vs.contains(x) {
                let k = choose|k: int| 0 <= k < vs.len() && vs[k] == x;
                assert(connected(list@, direction, start, vs[k]));
            }
        }
        assert(vs.len() == visited@.len());
    }
    Some(visited.len())
}


/// The graph views on a fresh registry holding the chain 10 -> 20 -> 30 -> 40
/// (two CONNECTED_TO relations in context 1, one CAUSES in context 2): the
/// snapshot, the neighbourhood of 20, the pattern of context-1 connections,
/// the statistics, the consistency check and the component sizes, and the
/// registry empties again. Returns whether every check held.
pub fn self_test() -> (ok: bool) {
    let mut reg = RelationRegistry::new();
    let ia = match reg.add(Relation { source: 10, relation: semantic::CONNECTED_TO, target: 20, context: 1 }, 0) {
        Some(v) => v,
        None => {
            return false;
        },
    };
    let ib = match reg.add(Relation { source: 20, relation: semantic::CONNECTED_TO, target: 30, context: 1 }, 0) {
        Some(v) => v,
        None => {
            return false;
        },
    };
    let ic = match reg.add(Relation { source: 30, relation: semantic::CAUSES, target: 40, context: 2 }, 0) {
        Some(v) => v,
        None => {
            return false;
        },
    };
    match snapshot(&reg) {
        Some(full) => {
            if full.relation_count != 3 || full.node_count != 4 || !full.is_valid() {
                return false;
            }
        },
        None => {
            return false;
        },
    }
    match neighborhood(&reg, 20, GraphDirection::Both) {
        Some(near) => {
            if near.relation_count != 2 || near.node_count != 3 {
                return false;
            }
        },
        None => {
            return false;
        },
    }
    let mut matches: Vec<u64> = Vec::new();
    let mut i: usize = 0;
    while i < MAX_GRAPH_RELATIONS
        invariant
            i <= MAX_GRAPH_RELATIONS,
            matches@.len() == i,
        decreases MAX_GRAPH_RELATIONS - i,
    {
        matches.push(0);
        i = i + 1;
    }
    let pattern = GraphPattern { source: None, relation: Some(semantic::CONNECTED_TO), target: None, context: Some(1) };
    let matched = match_pattern(&reg, pattern, matches.as_mut_slice());
    if matched != 2 || matches[0] != ia || matches[1] != ib {
        return false;
    }
    let s = stats(&reg);
    if s.relation_count != 3 || s.node_count != 4 || s.self_relation_count != 0 || s.context_count != 2 || s.semantic_count != 2 {
        return false;
    }
    let report = validate(&reg);
    if !report.valid || report.checked_relations != 3 || report.invalid_relations != 0 || report.duplicate_relations != 0 {
        return false;
    }
    if component_size(&reg, 10, GraphDirection::Outgoing) != Some(4usize)
        || component_size(&reg, 40, GraphDirection::Outgoing) != Some(1usize)
        || component_size(&reg, 30, GraphDirection::Incoming) != Some(3usize)
    {
        return false;
    }
    if !reg.remove(ia) || !reg.remove(ib) || !reg.remove(ic) {
        return false;
    }
    reg.count() == 0
}

} // verus!
