//! GNOSIS graph queries: bounded multi-hop path search and ordered pattern
//! chains over the relation registry, with deterministic path scores.
use vstd::prelude::*;
use crate::gnosis::graph::GraphDirection;
use crate::gnosis::relation::{self, Relation, RelationRegistry, RelationTrust, listing, spec_relation_score, trust_only};
use crate::gnosis::semantic::{self, ContextId, ObjectId, SemanticId};

verus! {

pub const MAX_QUERY_DEPTH: usize = 16;
pub const MAX_QUERY_PATHS: usize = 32;
pub const MAX_QUERY_RESULTS: usize = 32;

/// One step of a pattern chain; `None` fields match anything.
#[derive(Clone, Copy)]
pub struct QueryStep {
    pub relation: Option<SemanticId>,
    pub context: Option<ContextId>,
    pub target: Option<ObjectId>,
}

impl QueryStep {
    /// A step that matches every relation.
    pub fn any() -> (s: Self)
        ensures
            s.relation is None && s.context is None && s.target is None,
    {
        QueryStep { relation: None, context: None, target: None }
    }
}

#[derive(Clone, Copy)]
pub struct GraphQuery {
    pub source: ObjectId,
    pub target: Option<ObjectId>,
    pub direction: GraphDirection,
    pub max_depth: usize,
    pub relation: Option<SemanticId>,
    pub context: Option<ContextId>,
}

/// A source and up to `MAX_QUERY_DEPTH` ordered steps.
#[derive(Clone, Copy)]
pub struct PatternQuery {
    pub source: ObjectId,
    pub steps: [QueryStep; 16],
    pub step_count: usize,
}

pub open spec fn pattern_query_valid(q: PatternQuery) -> bool {
    q.source != 0 && q.step_count > 0 && q.step_count <= MAX_QUERY_DEPTH
}

impl PatternQuery {
    /// A chain from `source` with no steps yet.
    pub fn empty(source: ObjectId) -> (q: Self)
        ensures
            q.source == source,
            q.step_count == 0,
    {
        PatternQuery { source, steps: [QueryStep::any(); 16], step_count: 0 }
    }

    /// Appends a step; false when the chain is full.
    pub fn push(&mut self, step: QueryStep) -> (ok: bool)
        requires
            old(self).step_count <= MAX_QUERY_DEPTH,
        ensures
            ok == (old(self).step_count < MAX_QUERY_DEPTH),
            final(self).source == old(self).source,
            ok ==> final(self).step_count == old(self).step_count + 1 && final(self).steps@ == old(self).steps@.update(
                old(self).step_count as int,
                step,
            ),
            !ok ==> *final(self) == *old(self),
    {
        if self.step_count >= MAX_QUERY_DEPTH {
            return false;
        }
        self.steps[self.step_count] = step;
        self.step_count = self.step_count + 1;
        true
    }

    /// A chain needs a source and between one and `MAX_QUERY_DEPTH` steps.
    pub fn is_valid(&self) -> (r: bool)
        ensures
            r == pattern_query_valid(*self),
    {
        self.source != 0 && self.step_count > 0 && self.step_count <= MAX_QUERY_DEPTH
    }
}

/// A scored path of at most `MAX_QUERY_DEPTH` relations.
#[derive(Clone, Copy)]
pub struct QueryPath {
    pub nodes: [ObjectId; 17],
    pub relation_ids: [u64; 16],
    pub node_count: usize,
    pub relation_count: usize,
    pub score: u16,
}

pub open spec fn qpath_valid(p: QueryPath) -> bool {
    &&& p.node_count != 0
    &&& p.node_count <= MAX_QUERY_DEPTH + 1
    &&& p.relation_count + 1 == p.node_count
    &&& p.relation_count <= MAX_QUERY_DEPTH
    &&& forall|i: int| 0 <= i < p.node_count ==> #[trigger] p.nodes@[i] != 0
    &&& forall|i: int| 0 <= i < p.relation_count ==> #[trigger] p.relation_ids@[i] != 0
}

/// The counts and nodes of a path are well formed.
pub open spec fn qpath_shape(p: QueryPath) -> bool {
    &&& p.node_count != 0
    &&& p.node_count <= MAX_QUERY_DEPTH + 1
    &&& p.relation_count + 1 == p.node_count
    &&& p.relation_count <= MAX_QUERY_DEPTH
    &&& forall|i: int| 0 <= i < p.node_count ==> #[trigger] p.nodes@[i] != 0
}

pub open spec fn qpath_nodes(p: QueryPath) -> Seq<u64> {
    p.nodes@.subrange(0, p.node_count as int)
}

impl QueryPath {
    pub fn empty(source: ObjectId) -> (p: Self)
        ensures
            p.node_count == 1,
            p.relation_count == 0,
            p.score == 0,
            p.nodes@[0] == source,
            pview(p) == start_view(source),
    {
        let mut p = QueryPath { nodes: [0u64; 17], relation_ids: [0u64; 16], node_count: 0, relation_count: 0, score: 0 };
        p.nodes[0] = source;
        p.node_count = 1;
        assert(p.nodes@ =~= Seq::new(17, |i: int| if i == 0 { source } else { 0u64 }));
        assert(p.relation_ids@ =~= Seq::new(16, |i: int| 0u64));
        p
    }

    /// One more node than relations, within capacity, no zero node or ID.
    pub fn is_valid(&self) -> (r: bool)
        ensures
            r == qpath_valid(*self),
    {
        if self.node_count == 0 || self.node_count > MAX_QUERY_DEPTH + 1 || self.relation_count > MAX_QUERY_DEPTH
            || self.relation_count + 1 != self.node_count {
            return false;
        }
        let mut i: usize = 0;
        while i < self.node_count
            invariant
                0 <= i <= self.node_count <= 17,
                forall|a: int| 0 <= a < i ==> #[trigger] self.nodes@[a] != 0,
            decreases self.node_count - i,
        {
            if self.nodes[i] == 0 {
                return false;
            }
            i = i + 1;
        }
        i = 0;
        while i < self.relation_count
            invariant
                0 <= i <= self.relation_count <= 16,
                forall|a: int| 0 <= a < i ==> #[trigger] self.relation_ids@[a] != 0,
            decreases self.relation_count - i,
        {
            if self.relation_ids[i] == 0 {
                return false;
            }
            i = i + 1;
        }
        true
    }

    /// Node `index`, if on the path.
    pub fn node(&self, index: usize) -> (r: Option<ObjectId>)
        requires
            self.node_count <= MAX_QUERY_DEPTH + 1,
        ensures
            r == (if index < self.node_count { Some(self.nodes@[index as int]) } else { None }),
    {
        if index < self.node_count {
            Some(self.nodes[index])
        } else {
            None
        }
    }

    /// Relation ID `index`, if on the path.
    pub fn relation_id(&self, index: usize) -> (r: Option<u64>)
        requires
            self.relation_count <= MAX_QUERY_DEPTH,
        ensures
            r == (if index < self.relation_count { Some(self.relation_ids@[index as int]) } else { None }),
    {
        if index < self.relation_count {
            Some(self.relation_ids[index])
        } else {
            None
        }
    }
}

#[derive(Clone, Copy)]
pub struct QueryReport {
    pub valid: bool,
    pub paths_found: usize,
    pub relations_examined: usize,
    pub rejected_paths: usize,
}

pub open spec fn spec_step_matches(r: Relation, step: QueryStep) -> bool {
    &&& (step.relation matches Some(v) ==> v == r.relation)
    &&& (step.context matches Some(v) ==> v == r.context)
    &&& (step.target matches Some(v) ==> v == r.target)
}

fn step_matches(relation: &Relation, step: QueryStep) -> (b: bool)
    ensures
        b == spec_step_matches(*relation, step),
{
    let a = match step.relation { Some(v) => v == relation.relation, None => true };
    let c = match step.context { Some(v) => v == relation.context, None => true };
    let t = match step.target { Some(v) => v == relation.target, None => true };
    a && c && t
}

/// The node a relation leads to from `current` under the query's direction,
/// type and context constraints.
pub open spec fn spec_edge(r: Relation, current: ObjectId, direction: GraphDirection, semantic: Option<SemanticId>, context: Option<ContextId>) -> Option<ObjectId> {
    if (semantic matches Some(v) && v != r.relation) || (context matches Some(v) && v != r.context) {
        None
    } else {
        match direction {
            GraphDirection::Outgoing => if r.source == current { Some(r.target) } else { None },
            GraphDirection::Incoming => if r.target == current { Some(r.source) } else { None },
            GraphDirection::Both => if r.source == current {
                Some(r.target)
            } else if r.target == current {
                Some(r.source)
            } else {
                None
            },
        }
    }
}

fn edge_matches(relation: &Relation, current: ObjectId, direction: GraphDirection, semantic: Option<SemanticId>, context: Option<ContextId>) -> (r: Option<ObjectId>)
    ensures
        r == spec_edge(*relation, current, direction, semantic, context),
{
    let wrong_type = match semantic { Some(v) => v != relation.relation, None => false };
    let wrong_context = match context { Some(v) => v != relation.context, None => false };
    if wrong_type || wrong_context {
        return None;
    }
    match direction {
        GraphDirection::Outgoing => if relation.source == current { Some(relation.target) } else { None },
        GraphDirection::Incoming => if relation.target == current { Some(relation.source) } else { None },
        GraphDirection::Both => if relation.source == current {
            Some(relation.target)
        } else if relation.target == current {
            Some(relation.source)
        } else {
            None
        },
    }
}

fn path_contains(path: &QueryPath, node: ObjectId) -> (r: bool)
    requires
        path.node_count <= 17,
    ensures
        r == qpath_nodes(*path).contains(node),
{
    let ghost ns = qpath_nodes(*path);
    let mut i: usize = 0;
    while i < path.node_count
        invariant
            0 <= i <= path.node_count <= 17,
            ns == path.nodes@.subrange(0, path.node_count as int),
            forall|j: int| 0 <= j < i ==> ns[j] != node,
        decreases path.node_count - i,
    {
        if path.nodes[i] == node {
            assert(ns[i as int] == node);
            return true;
        }
        i = i + 1;
    }
    false
}

/// Scores a relation by checking its integrity, which also records the
/// outcome as its trust state.
fn relation_score(reg: &mut RelationRegistry, id: u64) -> (s: u16)
    ensures
        s == spec_relation_score(*old(reg), id),
        trust_only(*old(reg), *final(reg)),
        relation::trust_checked(*old(reg), *final(reg)),
        relation::is_checked(*final(reg), id),
        forall|other: u64| relation::is_checked(*old(reg), other) ==> #[trigger] relation::is_checked(*final(reg), other),
{
    let ok = reg.verify_integrity(id);
    proof {
        let a = *old(reg);
        let b = *reg;
        if a.entry(id) is Some {
            let k = relation::slot_of(a.slots(), id, 0)->0;
            relation::lemma_slot_of(a.slots(), id, 0);
            assert forall|i: int| 0 <= i < a.slots().len() implies #[trigger] relation::same_but_trust(a.slots()[i], b.slots()[i]) by {
                if i != k {
                    assert(b.slots()[i] == a.slots()[i]);
                }
            }
            assert forall|i: int| 0 <= i < a.slots().len() implies #[trigger] b.slots()[i].trust == a.slots()[i].trust
                || b.slots()[i].trust == relation::checked_trust(a.slots()[i]) by {
                if i != k {
                    assert(b.slots()[i] == a.slots()[i]);
                }
            }
        }
        relation::lemma_trust_only(a, b, id);
        assert forall|other: u64| relation::is_checked(a, other) implies #[trigger] relation::is_checked(b, other) by {
            relation::lemma_trust_only(a, b, other);
            if a.entry(other) is Some && a.entry(id) is Some {
                let k = relation::slot_of(a.slots(), id, 0)->0;
                let j = relation::slot_of(a.slots(), other, 0)->0;
                relation::lemma_slot_of(a.slots(), other, 0);
                if j != k {
                    assert(b.slots()[j] == a.slots()[j]);
                }
            }
        }
        if ok {
            let k = relation::slot_of(a.slots(), id, 0)->0;
            assert(b.entry(id) == Some(b.slots()[k]));
            assert(b.slots()[k].trust == RelationTrust::Verified);
        }
    }
    if !ok {
        return 0;
    }
    match reg.trust(id) {
        Some(RelationTrust::Verified) => 100,
        Some(RelationTrust::Unverified) => 50,
        Some(RelationTrust::Conflict) => 10,
        Some(RelationTrust::Invalid) => 0,
        None => 0,
    }
}

pub open spec fn sat_add16(a: u16, b: u16) -> u16 {
    if a + b > u16::MAX { u16::MAX } else { (a + b) as u16 }
}

/// Saturating sum of the scores of the first `n` relation IDs.
pub open spec fn path_score(reg: RelationRegistry, ids: Seq<u64>, n: int) -> u16
    decreases n,
{
    if n <= 0 { 0 } else { sat_add16(path_score(reg, ids, n - 1), spec_relation_score(reg, ids[n - 1])) }
}

proof fn lemma_path_score_trust(a: RelationRegistry, b: RelationRegistry, ids: Seq<u64>, n: int)
    requires
        trust_only(a, b),
    ensures
        path_score(a, ids, n) == path_score(b, ids, n),
    decreases n,
{
    if n > 0 {
        lemma_path_score_trust(a, b, ids, n - 1);
        relation::lemma_trust_only(a, b, ids[n - 1]);
    }
}

proof fn lemma_path_score_prefix(reg: RelationRegistry, a: Seq<u64>, b: Seq<u64>, n: int)
    requires
        0 <= n <= a.len(),
        n <= b.len(),
        a.subrange(0, n) == b.subrange(0, n),
    ensures
        path_score(reg, a, n) == path_score(reg, b, n),
    decreases n,
{
    if n > 0 {
        assert(a.subrange(0, n - 1) == b.subrange(0, n - 1)) by {
            assert(a.subrange(0, n - 1) =~= a.subrange(0, n).subrange(0, n - 1));
            assert(b.subrange(0, n - 1) =~= b.subrange(0, n).subrange(0, n - 1));
        }
        assert(a[n - 1] == a.subrange(0, n)[n - 1]);
        assert(b[n - 1] == b.subrange(0, n)[n - 1]);
        lemma_path_score_prefix(reg, a, b, n - 1);
    }
}

/// Extends a path by one relation to a new, nonzero node.
fn extend_path(reg: &mut RelationRegistry, path: &QueryPath, relation_id: u64, target: ObjectId) -> (r: Option<QueryPath>)
    requires
        qpath_shape(*path),
    ensures
        trust_only(*old(reg), *final(reg)),
        relation::trust_checked(*old(reg), *final(reg)),
        r is None ==> *final(reg) == *old(reg),
        r is Some ==> relation::is_checked(*final(reg), relation_id),
        forall|other: u64| relation::is_checked(*old(reg), other) ==> #[trigger] relation::is_checked(*final(reg), other),
        r is None <==> (target == 0 || path.relation_count >= MAX_QUERY_DEPTH || qpath_nodes(*path).contains(target)),
        r matches Some(n) ==> {
            &&& n.node_count == path.node_count + 1
            &&& n.relation_count == path.relation_count + 1
            &&& n.nodes@ == path.nodes@.update(path.node_count as int, target)
            &&& n.relation_ids@ == path.relation_ids@.update(path.relation_count as int, relation_id)
            &&& n.score == sat_add16(path.score, spec_relation_score(*old(reg), relation_id))
        },
{
    if target == 0 || path.relation_count >= MAX_QUERY_DEPTH || path_contains(path, target) {
        return None;
    }
    let mut next = *path;
    next.relation_ids[next.relation_count] = relation_id;
    next.nodes[next.node_count] = target;
    next.relation_count = next.relation_count + 1;
    next.node_count = next.node_count + 1;
    let s = relation_score(reg, relation_id);
    next.score = next.score.saturating_add(s);
    Some(next)
}

pub open spec fn spec_validate_query(q: GraphQuery) -> bool {
    q.source != 0 && q.max_depth > 0 && q.max_depth <= MAX_QUERY_DEPTH && q.target != Some(0u64)
}

/// A query needs a source, a depth of 1 to `MAX_QUERY_DEPTH`, and no zero
/// target.
pub fn validate_query(query: GraphQuery) -> (r: bool)
    ensures
        r == spec_validate_query(query),
{
    let zero_target = match query.target { Some(t) => t == 0, None => false };
    query.source != 0 && query.max_depth > 0 && query.max_depth <= MAX_QUERY_DEPTH && !zero_target
}

/// Listed relation `k` has ID `id` and leads from `a` to `b` under the
/// query.
pub open spec fn edge_in(list: Seq<(u64, Relation)>, q: GraphQuery, k: int, id: u64, a: ObjectId, b: ObjectId) -> bool {
    0 <= k < list.len() && list[k].0 == id && spec_edge(list[k].1, a, q.direction, q.relation, q.context) == Some(b)
}

pub open spec fn listed_edge(list: Seq<(u64, Relation)>, q: GraphQuery, id: u64, a: ObjectId, b: ObjectId) -> bool {
    exists|k: int| #[trigger] edge_in(list, q, k, id, a, b)
}

/// A path from the query's source over listed relations the query admits,
/// through distinct nodes, scored by its relations.
pub open spec fn partial_path(reg: RelationRegistry, list: Seq<(u64, Relation)>, q: GraphQuery, p: QueryPath) -> bool {
    &&& qpath_shape(p)
    &&& p.nodes@[0] == q.source
    &&& forall|i: int, j: int| 0 <= i < j < p.node_count ==> #[trigger] p.nodes@[i] != #[trigger] p.nodes@[j]
    &&& forall|i: int| 0 <= i < p.relation_count ==> #[trigger] listed_edge(list, q, p.relation_ids@[i], p.nodes@[i], p.nodes@[i + 1])
    &&& p.score == path_score(reg, p.relation_ids@, p.relation_count as int)
}

/// `p` answers the query: a path from its source to its target within the
/// depth bound.
pub open spec fn path_answers(reg: RelationRegistry, list: Seq<(u64, Relation)>, q: GraphQuery, p: QueryPath) -> bool {
    &&& partial_path(reg, list, q, p)
    &&& q.target == Some(p.nodes@[p.node_count - 1])
    &&& p.relation_count <= q.max_depth
}

proof fn lemma_extend_partial(
    reg: RelationRegistry,
    list: Seq<(u64, Relation)>,
    q: GraphQuery,
    p: QueryPath,
    n: QueryPath,
    k: int,
    id: u64,
    target: ObjectId,
)
    requires
        partial_path(reg, list, q, p),
        edge_in(list, q, k, id, p.nodes@[p.node_count - 1], target),
        target != 0,
        p.relation_count < MAX_QUERY_DEPTH,
        !qpath_nodes(p).contains(target),
        n.node_count == p.node_count + 1,
        n.relation_count == p.relation_count + 1,
        n.nodes@ == p.nodes@.update(p.node_count as int, target),
        n.relation_ids@ == p.relation_ids@.update(p.relation_count as int, id),
        n.score == sat_add16(p.score, spec_relation_score(reg, id)),
    ensures
        partial_path(reg, list, q, n),
{
    assert forall|i: int| 0 <= i < n.node_count implies #[trigger] n.nodes@[i] != 0 by {
        if i < p.node_count {
            assert(n.nodes@[i] == p.nodes@[i]);
        }
    }
    assert forall|i: int, j: int| 0 <= i < j < n.node_count implies #[trigger] n.nodes@[i] != #[trigger] n.nodes@[j] by {
        if j == p.node_count {
            assert(qpath_nodes(p)[i] == p.nodes@[i]);
        } else {
            assert(n.nodes@[i] == p.nodes@[i]);
            assert(n.nodes@[j] == p.nodes@[j]);
        }
    }
    assert forall|i: int| 0 <= i < n.relation_count implies #[trigger] listed_edge(list, q, n.relation_ids@[i], n.nodes@[i], n.nodes@[i + 1]) by {
        if i < p.relation_count {
            assert(n.relation_ids@[i] == p.relation_ids@[i]);
            assert(n.nodes@[i] == p.nodes@[i]);
            assert(n.nodes@[i + 1] == p.nodes@[i + 1]);
            assert(listed_edge(list, q, p.relation_ids@[i], p.nodes@[i], p.nodes@[i + 1]));
        } else {
            assert(edge_in(list, q, k, n.relation_ids@[i], n.nodes@[i], n.nodes@[i + 1]));
        }
    }
    assert(n.relation_ids@.subrange(0, p.relation_count as int) == p.relation_ids@.subrange(0, p.relation_count as int)) by {
        assert(n.relation_ids@.subrange(0, p.relation_count as int) =~= p.relation_ids@.subrange(0, p.relation_count as int));
    }
    lemma_path_score_prefix(reg, n.relation_ids@, p.relation_ids@, p.relation_count as int);
}


/// What every query report and output satisfy.
/// Every relation of `p` carries the outcome of its integrity check.
pub open spec fn path_checked(reg: RelationRegistry, p: QueryPath) -> bool {
    forall|i: int| 0 <= i < p.relation_count ==> #[trigger] relation::is_checked(reg, p.relation_ids@[i])
}

/// A path as plain values: nodes, relation IDs, node and relation counts,
/// score.
pub type PathView = (Seq<u64>, Seq<u64>, usize, usize, u16);

pub open spec fn pview(p: QueryPath) -> PathView {
    (p.nodes@, p.relation_ids@, p.node_count, p.relation_count, p.score)
}

/// The one-node path a search starts from.
pub open spec fn start_view(source: ObjectId) -> PathView {
    (Seq::new(17, |i: int| if i == 0 { source } else { 0u64 }), Seq::new(16, |i: int| 0u64), 1usize, 0usize, 0u16)
}

/// `v` extended over relation `id` to node `t`, scored in `reg`.
pub open spec fn extended(reg: RelationRegistry, v: PathView, id: u64, t: ObjectId) -> PathView {
    (v.0.update(v.2 as int, t), v.1.update(v.3 as int, id), (v.2 + 1) as usize, (v.3 + 1) as usize, sat_add16(v.4, spec_relation_score(reg, id)))
}

/// Whether `v` may be extended to node `t`: a nonzero node not yet on the
/// path, within the depth capacity.
pub open spec fn can_extend(v: PathView, t: ObjectId) -> bool {
    t != 0 && v.3 < MAX_QUERY_DEPTH && !v.0.subrange(0, v.2 as int).contains(t)
}

/// The next frontier and the answers after the search tried the first `k`
/// listed relations from the end of `v`: while the next frontier has room,
/// each admitted extension that reaches the target is written if fewer than
/// `cap` answers are, and any other one joins the next frontier.
pub open spec fn scan(reg: RelationRegistry, list: Seq<(u64, Relation)>, q: GraphQuery, v: PathView, k: int, acc: (Seq<PathView>, Seq<PathView>), cap: nat) -> (Seq<PathView>, Seq<PathView>)
    decreases k,
{
    if k <= 0 {
        acc
    } else {
        let prev = scan(reg, list, q, v, k - 1, acc, cap);
        let (nx, fd) = prev;
        let (id, rel) = list[k - 1];
        if nx.len() < MAX_QUERY_PATHS {
            match spec_edge(rel, v.0[v.2 - 1], q.direction, q.relation, q.context) {
                None => prev,
                Some(t) => if !can_extend(v, t) {
                    prev
                } else if q.target == Some(t) {
                    if fd.len() < cap { (nx, fd.push(extended(reg, v, id, t))) } else { prev }
                } else {
                    (nx.push(extended(reg, v, id, t)), fd)
                },
            }
        } else {
            prev
        }
    }
}

/// The search of one depth over the first `i` paths of the frontier.
pub open spec fn layer(reg: RelationRegistry, list: Seq<(u64, Relation)>, q: GraphQuery, frontier: Seq<PathView>, i: int, acc: (Seq<PathView>, Seq<PathView>), cap: nat) -> (Seq<PathView>, Seq<PathView>)
    decreases i,
{
    if i <= 0 {
        acc
    } else {
        scan(reg, list, q, frontier[i - 1], list.len() as int, layer(reg, list, q, frontier, i - 1, acc, cap), cap)
    }
}

/// The answers of the bounded breadth-first search: depth by depth, while
/// depth remains, the frontier is not empty and fewer than `cap` answers
/// were found.
pub open spec fn search(reg: RelationRegistry, list: Seq<(u64, Relation)>, q: GraphQuery, frontier: Seq<PathView>, depth: int, found: Seq<PathView>, cap: nat) -> Seq<PathView>
    decreases q.max_depth - depth,
{
    if depth < q.max_depth && frontier.len() > 0 && found.len() < cap {
        let next = layer(reg, list, q, frontier, frontier.len() as int, (Seq::empty(), found), cap);
        search(reg, list, q, next.0, depth + 1, next.1, cap)
    } else {
        found
    }
}

pub open spec fn views(s: Seq<QueryPath>) -> Seq<PathView> {
    s.map_values(|p: QueryPath| pview(p))
}

/// The first `n` written answers, as plain values.
pub open spec fn answers_view(out: Seq<QueryPath>, n: int) -> Seq<PathView> {
    views(out.subrange(0, n))
}

/// The answers the bounded search of `q` finds in `reg` with room for
/// `cap` of them.
pub open spec fn search_result(reg: RelationRegistry, q: GraphQuery, cap: nat) -> Seq<PathView> {
    search(reg, listing(reg.slots()), q, seq![start_view(q.source)], 0, Seq::empty(), cap)
}

/// The next frontier after matching step `step` against the first `k`
/// listed relations from the end of `v`: while it has room, each relation
/// leaving that node that matches the step and can extend `v` joins it.
pub open spec fn pattern_scan(reg: RelationRegistry, list: Seq<(u64, Relation)>, step: QueryStep, v: PathView, k: int, nx: Seq<PathView>) -> Seq<PathView>
    decreases k,
{
    if k <= 0 {
        nx
    } else {
        let prev = pattern_scan(reg, list, step, v, k - 1, nx);
        let (id, rel) = list[k - 1];
        if prev.len() < MAX_QUERY_PATHS && rel.source == v.0[v.2 - 1] && spec_step_matches(rel, step) && can_extend(v, rel.target) {
            prev.push(extended(reg, v, id, rel.target))
        } else {
            prev
        }
    }
}

/// One step of the pattern search over the first `i` frontier paths.
pub open spec fn pattern_layer(reg: RelationRegistry, list: Seq<(u64, Relation)>, step: QueryStep, frontier: Seq<PathView>, i: int) -> Seq<PathView>
    decreases i,
{
    if i <= 0 {
        Seq::empty()
    } else {
        pattern_scan(reg, list, step, frontier[i - 1], list.len() as int, pattern_layer(reg, list, step, frontier, i - 1))
    }
}

/// The paths that follow the steps from step `s` on, while any are left.
pub open spec fn pattern_search(reg: RelationRegistry, list: Seq<(u64, Relation)>, q: PatternQuery, frontier: Seq<PathView>, s: int) -> Seq<PathView>
    decreases q.step_count - s,
{
    if s < q.step_count && frontier.len() > 0 {
        pattern_search(reg, list, q, pattern_layer(reg, list, q.steps@[s], frontier, frontier.len() as int), s + 1)
    } else {
        frontier
    }
}

/// The paths the bounded pattern search of `q` finds in `reg`.
pub open spec fn pattern_result(reg: RelationRegistry, q: PatternQuery) -> Seq<PathView> {
    pattern_search(reg, listing(reg.slots()), q, seq![start_view(q.source)], 0)
}

pub open spec fn find_paths_sound(
    reg: RelationRegistry,
    q: GraphQuery,
    before: Seq<QueryPath>,
    after: Seq<QueryPath>,
    r: QueryReport,
) -> bool {
    &&& r.valid == spec_validate_query(q)
    &&& (!r.valid || before.len() == 0) ==> r.paths_found == 0
    &&& r.paths_found <= before.len()
    &&& after.len() == before.len()
    &&& forall|i: int| 0 <= i < r.paths_found ==> #[trigger] path_answers(reg, listing(reg.slots()), q, after[i])
    &&& forall|i: int| r.paths_found <= i < before.len() ==> #[trigger] after[i] == before[i]
}

/// Bounded path search: expands up to `MAX_QUERY_PATHS` partial paths per
/// depth, over distinct nodes, and writes every path that reaches the
/// query's target, in registry and expansion order, as many as fit.
/// Scoring checks each relation's integrity, which records its trust state.
pub fn find_paths(reg: &mut RelationRegistry, query: GraphQuery, output: &mut [QueryPath]) -> (report: QueryReport)
    ensures
        trust_only(*old(reg), *final(reg)),
        relation::trust_checked(*old(reg), *final(reg)),
        forall|i: int| 0 <= i < report.paths_found ==> #[trigger] path_checked(*final(reg), final(output)@[i]),
        find_paths_sound(*old(reg), query, old(output)@, final(output)@, report),
        spec_validate_query(query) && old(output)@.len() > 0 && query.target == Some(query.source) ==> report.paths_found == 1,
        spec_validate_query(query) && old(output)@.len() > 0 && query.target != Some(query.source) ==> answers_view(
            final(output)@,
            report.paths_found as int,
        ) == search_result(*old(reg), query, old(output)@.len()),
{
    let ghost reg0 = *reg;
    let mut report = QueryReport { valid: validate_query(query), paths_found: 0, relations_examined: 0, rejected_paths: 0 };
    if !report.valid || output.len() == 0 {
        return report;
    }
    let start = QueryPath::empty(query.source);
    let ghost list0 = listing(reg0.slots());
    proof {
        assert(path_score(reg0, start.relation_ids@, 0) == 0);
    }
    if query.target == Some(query.source) {
        output[0] = start;
        report.paths_found = 1;
        proof {
            assert(path_answers(reg0, list0, query, output@[0]));
        }
        return report;
    }
    let list = reg.for_each();
    let mut frontier: Vec<QueryPath> = Vec::new();
    frontier.push(start);
    let mut depth: usize = 0;
    let ghost cap: nat = output@.len();
    let ghost goal = search_result(reg0, query, cap);
    proof {
        assert(views(frontier@) =~= seq![start_view(query.source)]);
        assert(answers_view(output@, 0) =~= Seq::<PathView>::empty());
    }
    while depth < query.max_depth && frontier.len() > 0 && report.paths_found < output.len()
        invariant
            0 <= depth <= query.max_depth <= MAX_QUERY_DEPTH,
            spec_validate_query(query),
            report.valid,
            list@ == list0,
            list0 == listing(reg0.slots()),
            trust_only(reg0, *reg),
            relation::trust_checked(reg0, *reg),
            forall|j: int| 0 <= j < frontier@.len() ==> #[trigger] path_checked(*reg, frontier@[j]),
            forall|j: int| 0 <= j < report.paths_found ==> #[trigger] path_checked(*reg, output@[j]),
            frontier@.len() <= MAX_QUERY_PATHS,
            forall|i: int| 0 <= i < frontier@.len() ==> #[trigger] partial_path(reg0, list0, query, frontier@[i])
                && frontier@[i].relation_count == depth,
            report.paths_found <= output@.len(),
            output@.len() == old(output)@.len(),
            forall|i: int| 0 <= i < report.paths_found ==> #[trigger] path_answers(reg0, list0, query, output@[i]),
            forall|i: int| report.paths_found <= i < output@.len() ==> #[trigger] output@[i] == old(output)@[i],
            cap == output@.len(),
            goal == search_result(reg0, query, cap),
            search(reg0, list0, query, views(frontier@), depth as int, answers_view(output@, report.paths_found as int), cap) == goal,
        decreases query.max_depth - depth,
    {
        let mut next: Vec<QueryPath> = Vec::new();
        let mut i: usize = 0;
        let ghost fr = views(frontier@);
        let ghost found0 = answers_view(output@, report.paths_found as int);
        proof {
            assert((views(next@), answers_view(output@, report.paths_found as int)) == layer(reg0, list0, query, fr, 0, (Seq::<PathView>::empty(), found0), cap)) by {
                assert(views(next@) =~= Seq::<PathView>::empty());
            }
        }
        assert forall|j: int| 0 <= j < frontier@.len() implies #[trigger] partial_path(reg0, list0, query, frontier@[j])
            && frontier@[j].relation_count == depth by {
            assert(partial_path(reg0, list0, query, frontier@[j]));
        }
        assert forall|j: int| 0 <= j < frontier@.len() implies #[trigger] path_checked(*reg, frontier@[j]) by {
            assert(path_checked(*reg, frontier@[j]));
        }
        while i < frontier.len()
            invariant
                0 <= i <= frontier@.len() <= MAX_QUERY_PATHS,
                depth < query.max_depth <= MAX_QUERY_DEPTH,
                spec_validate_query(query),
                report.valid,
                list@ == list0,
                list0 == listing(reg0.slots()),
                trust_only(reg0, *reg),
                relation::trust_checked(reg0, *reg),
                forall|j: int| 0 <= j < frontier@.len() ==> #[trigger] path_checked(*reg, frontier@[j]),
                forall|j: int| 0 <= j < next@.len() ==> #[trigger] path_checked(*reg, next@[j]),
                forall|j: int| 0 <= j < report.paths_found ==> #[trigger] path_checked(*reg, output@[j]),
                forall|j: int| 0 <= j < frontier@.len() ==> #[trigger] partial_path(reg0, list0, query, frontier@[j])
                    && frontier@[j].relation_count == depth,
                next@.len() <= MAX_QUERY_PATHS,
                forall|j: int| 0 <= j < next@.len() ==> #[trigger] partial_path(reg0, list0, query, next@[j])
                    && next@[j].relation_count == depth + 1,
                report.paths_found <= output@.len(),
                output@.len() == old(output)@.len(),
                forall|j: int| 0 <= j < report.paths_found ==> #[trigger] path_answers(reg0, list0, query, output@[j]),
                forall|j: int| report.paths_found <= j < output@.len() ==> #[trigger] output@[j] == old(output)@[j],
                cap == output@.len(),
                fr == views(frontier@),
                found0.len() < cap,
                fr.len() > 0,
                search(reg0, list0, query, fr, depth as int, found0, cap) == goal,
                (views(next@), answers_view(output@, report.paths_found as int)) == layer(reg0, list0, query, fr, i as int, (Seq::<PathView>::empty(), found0), cap),
            decreases frontier@.len() - i,
        {
            let current_path = frontier[i];
            assert(partial_path(reg0, list0, query, frontier@[i as int]));
            let current = current_path.nodes[current_path.node_count - 1];
            let mut k: usize = 0;
            let ghost before_scan = layer(reg0, list0, query, fr, i as int, (Seq::<PathView>::empty(), found0), cap);
            proof {
                assert(fr[i as int] == pview(current_path));
            }
            while k < list.len()
                invariant
                    0 <= k <= list@.len(),
                    depth < query.max_depth <= MAX_QUERY_DEPTH,
                    spec_validate_query(query),
                    report.valid,
                    list@ == list0,
                    trust_only(reg0, *reg),
                    relation::trust_checked(reg0, *reg),
                    path_checked(*reg, current_path),
                    forall|j: int| 0 <= j < frontier@.len() ==> #[trigger] path_checked(*reg, frontier@[j]),
                    forall|j: int| 0 <= j < next@.len() ==> #[trigger] path_checked(*reg, next@[j]),
                    forall|j: int| 0 <= j < report.paths_found ==> #[trigger] path_checked(*reg, output@[j]),
                    partial_path(reg0, list0, query, current_path),
                    current_path.relation_count == depth,
                    current == current_path.nodes@[current_path.node_count - 1],
                    next@.len() <= MAX_QUERY_PATHS,
                    forall|j: int| 0 <= j < next@.len() ==> #[trigger] partial_path(reg0, list0, query, next@[j])
                        && next@[j].relation_count == depth + 1,
                    report.paths_found <= output@.len(),
                    output@.len() == old(output)@.len(),
                    forall|j: int| 0 <= j < report.paths_found ==> #[trigger] path_answers(reg0, list0, query, output@[j]),
                    forall|j: int| report.paths_found <= j < output@.len() ==> #[trigger] output@[j] == old(output)@[j],
                    cap == output@.len(),
                    (views(next@), answers_view(output@, report.paths_found as int)) == scan(reg0, list0, query, pview(current_path), k as int, before_scan, cap),
                decreases list@.len() - k,
            {
                let (id, relation) = list[k];
                report.relations_examined = report.relations_examined.saturating_add(1);
                let ghost nv0 = views(next@);
                let ghost fv0 = answers_view(output@, report.paths_found as int);
                if next.len() < MAX_QUERY_PATHS {
                    match edge_matches(&relation, current, query.direction, query.relation, query.context) {
                        Some(target) => {
                            let ghost reg_before = *reg;
                            let ghost next_before = next@;
                            let ghost out_before = output@;
                            let ghost found_before = report.paths_found;
                            match extend_path(reg, &current_path, id, target) {
                                None => {
                                    report.rejected_paths = report.rejected_paths.saturating_add(1);
                                },
                                Some(candidate) => {
                                    proof {
                                        relation::lemma_trust_only_trans(reg0, reg_before, *reg);
                                        relation::lemma_trust_only(reg0, reg_before, id);
                                        assert(edge_in(list0, query, k as int, id, current, target));
                                        lemma_extend_partial(reg0, list0, query, current_path, candidate, k as int, id, target);
                                        assert forall|r: int| 0 <= r < candidate.relation_count implies #[trigger] relation::is_checked(
                                            *reg,
                                            candidate.relation_ids@[r],
                                        ) by {
                                            if r < current_path.relation_count {
                                                assert(candidate.relation_ids@[r] == current_path.relation_ids@[r]);
                                                assert(relation::is_checked(reg_before, current_path.relation_ids@[r]));
                                            } else {
                                                assert(candidate.relation_ids@[r] == id);
                                            }
                                        }
                                        assert(path_checked(*reg, candidate));
                                        assert(spec_relation_score(reg_before, id) == spec_relation_score(reg0, id));
                                        assert(pview(candidate) == extended(reg0, pview(current_path), id, target)) by {
                                            assert(candidate.nodes@ =~= current_path.nodes@.update(current_path.node_count as int, target));
                                        }
                                    }
                                    let reaches = match query.target { Some(t) => t == target, None => false };
                                    if reaches {
                                        if report.paths_found < output.len() {
                                            let ghost pf = report.paths_found as int;
                                            output[report.paths_found] = candidate;
                                            report.paths_found = report.paths_found + 1;
                                            proof {
                                                assert(answers_view(output@, pf + 1) =~= fv0.push(pview(candidate))) by {
                                                    assert forall|m: int| 0 <= m < pf implies output@[m] == out_before[m] by {}
                                                }
                                            }
                                        }
                                    } else if next.len() < MAX_QUERY_PATHS {
                                        next.push(candidate);
                                        proof {
                                            assert(views(next@) =~= nv0.push(pview(candidate)));
                                        }
                                    }
                                },
                            }
                            proof {
                                if !(*reg == reg_before) {
                                    relation::lemma_trust_only_trans(reg0, reg_before, *reg);
                                    relation::lemma_trust_checked_trans(reg0, reg_before, *reg);
                                }
                                assert forall|j: int| 0 <= j < frontier@.len() implies #[trigger] path_checked(*reg, frontier@[j]) by {
                                    assert(path_checked(reg_before, frontier@[j]));
                                    assert forall|r: int| 0 <= r < frontier@[j].relation_count implies #[trigger] relation::is_checked(
                                        *reg,
                                        frontier@[j].relation_ids@[r],
                                    ) by {
                                        assert(relation::is_checked(reg_before, frontier@[j].relation_ids@[r]));
                                    }
                                }
                                assert forall|j: int| 0 <= j < next@.len() implies #[trigger] path_checked(*reg, next@[j]) by {
                                    if j < next_before.len() {
                                        assert(next@[j] == next_before[j]);
                                        assert(path_checked(reg_before, next_before[j]));
                                        assert forall|r: int| 0 <= r < next@[j].relation_count implies #[trigger] relation::is_checked(
                                            *reg,
                                            next@[j].relation_ids@[r],
                                        ) by {
                                            assert(relation::is_checked(reg_before, next_before[j].relation_ids@[r]));
                                        }
                                    }
                                }
                                assert forall|j: int| 0 <= j < report.paths_found implies #[trigger] path_checked(*reg, output@[j]) by {
                                    if j < found_before {
                                        assert(output@[j] == out_before[j]);
                                        assert(path_checked(reg_before, out_before[j]));
                                        assert forall|r: int| 0 <= r < output@[j].relation_count implies #[trigger] relation::is_checked(
                                            *reg,
                                            output@[j].relation_ids@[r],
                                        ) by {
                                            assert(relation::is_checked(reg_before, out_before[j].relation_ids@[r]));
                                        }
                                    }
                                }
                                assert forall|r: int| 0 <= r < current_path.relation_count implies #[trigger] relation::is_checked(
                                    *reg,
                                    current_path.relation_ids@[r],
                                ) by {
                                    assert(relation::is_checked(reg_before, current_path.relation_ids@[r]));
                                }
                            }
                        },
                        None => {},
                    }
                }
                proof {
                    assert((views(next@), answers_view(output@, report.paths_found as int)) == scan(reg0, list0, query, pview(current_path), k + 1, before_scan, cap));
                }
                k = k + 1;
            }
            i = i + 1;
        }
        assert forall|j: int| 0 <= j < next@.len() implies #[trigger] partial_path(reg0, list0, query, next@[j])
            && next@[j].relation_count == depth + 1 by {
            assert(partial_path(reg0, list0, query, next@[j]));
        }
        let ghost nx = next@;
        frontier = next;
        depth = depth + 1;
        assert(frontier@ == nx);
        assert forall|j: int| 0 <= j < frontier@.len() implies #[trigger] path_checked(*reg, frontier@[j]) by {
            assert(frontier@[j] == nx[j]);
            assert(path_checked(*reg, nx[j]));
        }
        assert forall|j: int| 0 <= j < frontier@.len() implies #[trigger] partial_path(reg0, list0, query, frontier@[j])
            && frontier@[j].relation_count == depth by {
            assert(frontier@[j] == nx[j]);
            assert(partial_path(reg0, list0, query, nx[j]));
            assert(nx[j].relation_count == depth);
        }
    }
    report
}


/// Listed relation `k` has ID `id`, leads from `a` to `b`, and satisfies
/// `step`.
pub open spec fn step_edge_in(list: Seq<(u64, Relation)>, step: QueryStep, k: int, id: u64, a: ObjectId, b: ObjectId) -> bool {
    0 <= k < list.len() && list[k].0 == id && list[k].1.source == a && list[k].1.target == b && spec_step_matches(list[k].1, step)
}

pub open spec fn step_edge(list: Seq<(u64, Relation)>, step: QueryStep, id: u64, a: ObjectId, b: ObjectId) -> bool {
    exists|k: int| #[trigger] step_edge_in(list, step, k, id, a, b)
}

/// A path from the chain's source whose `i`-th relation satisfies step `i`.
pub open spec fn pattern_partial(reg: RelationRegistry, list: Seq<(u64, Relation)>, q: PatternQuery, p: QueryPath) -> bool {
    &&& qpath_shape(p)
    &&& p.nodes@[0] == q.source
    &&& p.relation_count <= q.step_count
    &&& forall|i: int, j: int| 0 <= i < j < p.node_count ==> #[trigger] p.nodes@[i] != #[trigger] p.nodes@[j]
    &&& forall|i: int| 0 <= i < p.relation_count ==> #[trigger] step_edge(list, q.steps@[i], p.relation_ids@[i], p.nodes@[i], p.nodes@[i + 1])
    &&& p.score == path_score(reg, p.relation_ids@, p.relation_count as int)
}

proof fn lemma_extend_pattern(
    reg: RelationRegistry,
    list: Seq<(u64, Relation)>,
    q: PatternQuery,
    p: QueryPath,
    n: QueryPath,
    k: int,
    id: u64,
    target: ObjectId,
)
    requires
        pattern_partial(reg, list, q, p),
        p.relation_count < q.step_count,
        step_edge_in(list, q.steps@[p.relation_count as int], k, id, p.nodes@[p.node_count - 1], target),
        target != 0,
        p.relation_count < MAX_QUERY_DEPTH,
        !qpath_nodes(p).contains(target),
        n.node_count == p.node_count + 1,
        n.relation_count == p.relation_count + 1,
        n.nodes@ == p.nodes@.update(p.node_count as int, target),
        n.relation_ids@ == p.relation_ids@.update(p.relation_count as int, id),
        n.score == sat_add16(p.score, spec_relation_score(reg, id)),
    ensures
        pattern_partial(reg, list, q, n),
{
    assert forall|i: int| 0 <= i < n.node_count implies #[trigger] n.nodes@[i] != 0 by {
        if i < p.node_count {
            assert(n.nodes@[i] == p.nodes@[i]);
        }
    }
    assert forall|i: int, j: int| 0 <= i < j < n.node_count implies #[trigger] n.nodes@[i] != #[trigger] n.nodes@[j] by {
        if j == p.node_count {
            assert(qpath_nodes(p)[i] == p.nodes@[i]);
        } else {
            assert(n.nodes@[i] == p.nodes@[i]);
            assert(n.nodes@[j] == p.nodes@[j]);
        }
    }
    assert forall|i: int| 0 <= i < n.relation_count implies #[trigger] step_edge(list, q.steps@[i], n.relation_ids@[i], n.nodes@[i], n.nodes@[i + 1]) by {
        if i < p.relation_count {
            assert(n.relation_ids@[i] == p.relation_ids@[i]);
            assert(n.nodes@[i] == p.nodes@[i]);
            assert(n.nodes@[i + 1] == p.nodes@[i + 1]);
            assert(step_edge(list, q.steps@[i], p.relation_ids@[i], p.nodes@[i], p.nodes@[i + 1]));
        } else {
            assert(step_edge_in(list, q.steps@[i], k, n.relation_ids@[i], n.nodes@[i], n.nodes@[i + 1]));
        }
    }
    assert(n.relation_ids@.subrange(0, p.relation_count as int) =~= p.relation_ids@.subrange(0, p.relation_count as int));
    lemma_path_score_prefix(reg, n.relation_ids@, p.relation_ids@, p.relation_count as int);
}

/// Follows the chain step by step from its source, keeping up to
/// `MAX_QUERY_PATHS` partial paths, and writes the complete chains, as many
/// as fit.
pub fn match_pattern(reg: &mut RelationRegistry, query: PatternQuery, output: &mut [QueryPath]) -> (report: QueryReport)
    ensures
        trust_only(*old(reg), *final(reg)),
        report.valid == pattern_query_valid(query),
        (!report.valid || old(output)@.len() == 0) ==> report.paths_found == 0,
        report.paths_found <= old(output)@.len(),
        final(output)@.len() == old(output)@.len(),
        forall|i: int| 0 <= i < report.paths_found ==> #[trigger] pattern_partial(*old(reg), listing(old(reg).slots()), query, final(output)@[i])
            && final(output)@[i].relation_count == query.step_count,
        forall|i: int| report.paths_found <= i < old(output)@.len() ==> #[trigger] final(output)@[i] == old(output)@[i],
        report.valid ==> {
            let found = pattern_result(*old(reg), query);
            &&& report.paths_found == (if found.len() < old(output)@.len() { found.len() } else { old(output)@.len() as nat })
            &&& answers_view(final(output)@, report.paths_found as int) == found.take(report.paths_found as int)
        },
{
    let ghost reg0 = *reg;
    let mut report = QueryReport { valid: query.is_valid(), paths_found: 0, relations_examined: 0, rejected_paths: 0 };
    if !report.valid || output.len() == 0 {
        return report;
    }
    let ghost list0 = listing(reg0.slots());
    let list = reg.for_each();
    let start = QueryPath::empty(query.source);
    proof {
        assert(path_score(reg0, start.relation_ids@, 0) == 0);
    }
    let mut frontier: Vec<QueryPath> = Vec::new();
    frontier.push(start);
    let mut step_index: usize = 0;
    let ghost goal = pattern_result(reg0, query);
    proof {
        assert(views(frontier@) =~= seq![start_view(query.source)]);
    }
    while step_index < query.step_count && frontier.len() > 0
        invariant
            0 <= step_index <= query.step_count <= MAX_QUERY_DEPTH,
            pattern_query_valid(query),
            list@ == list0,
            list0 == listing(reg0.slots()),
            trust_only(reg0, *reg),
            frontier@.len() <= MAX_QUERY_PATHS,
            forall|i: int| 0 <= i < frontier@.len() ==> #[trigger] pattern_partial(reg0, list0, query, frontier@[i])
                && frontier@[i].relation_count == step_index,
            report.valid,
            report.paths_found == 0,
            output@ == old(output)@,
            goal == pattern_result(reg0, query),
            pattern_search(reg0, list0, query, views(frontier@), step_index as int) == goal,
        decreases query.step_count - step_index,
    {
        let step = query.steps[step_index];
        let mut next: Vec<QueryPath> = Vec::new();
        let mut i: usize = 0;
        let ghost fr = views(frontier@);
        proof {
            assert(views(next@) =~= Seq::<PathView>::empty());
        }
        while i < frontier.len()
            invariant
                0 <= i <= frontier@.len() <= MAX_QUERY_PATHS,
                step_index < query.step_count <= MAX_QUERY_DEPTH,
                step == query.steps@[step_index as int],
                list@ == list0,
                trust_only(reg0, *reg),
                forall|j: int| 0 <= j < frontier@.len() ==> #[trigger] pattern_partial(reg0, list0, query, frontier@[j])
                    && frontier@[j].relation_count == step_index,
                next@.len() <= MAX_QUERY_PATHS,
                forall|j: int| 0 <= j < next@.len() ==> #[trigger] pattern_partial(reg0, list0, query, next@[j])
                    && next@[j].relation_count == step_index + 1,
                report.valid,
                report.paths_found == 0,
                fr == views(frontier@),
                views(next@) == pattern_layer(reg0, list0, step, fr, i as int),
            decreases frontier@.len() - i,
        {
            let current_path = frontier[i];
            assert(pattern_partial(reg0, list0, query, frontier@[i as int]));
            let current = current_path.nodes[current_path.node_count - 1];
            let mut k: usize = 0;
            let ghost before_scan = pattern_layer(reg0, list0, step, fr, i as int);
            proof {
                assert(fr[i as int] == pview(current_path));
            }
            while k < list.len()
                invariant
                    0 <= k <= list@.len(),
                    step_index < query.step_count <= MAX_QUERY_DEPTH,
                    step == query.steps@[step_index as int],
                    list@ == list0,
                    trust_only(reg0, *reg),
                    pattern_partial(reg0, list0, query, current_path),
                    current_path.relation_count == step_index,
                    current == current_path.nodes@[current_path.node_count - 1],
                    next@.len() <= MAX_QUERY_PATHS,
                    forall|j: int| 0 <= j < next@.len() ==> #[trigger] pattern_partial(reg0, list0, query, next@[j])
                        && next@[j].relation_count == step_index + 1,
                    report.valid,
                    report.paths_found == 0,
                    views(next@) == pattern_scan(reg0, list0, step, pview(current_path), k as int, before_scan),
                decreases list@.len() - k,
            {
                let (id, relation) = list[k];
                report.relations_examined = report.relations_examined.saturating_add(1);
                let ghost nv0 = views(next@);
                if next.len() < MAX_QUERY_PATHS && relation.source == current && step_matches(&relation, step) {
                    let ghost reg_before = *reg;
                    match extend_path(reg, &current_path, id, relation.target) {
                        None => {
                            report.rejected_paths = report.rejected_paths.saturating_add(1);
                        },
                        Some(candidate) => {
                            proof {
                                relation::lemma_trust_only(reg0, reg_before, id);
                                assert(step_edge_in(list0, query.steps@[current_path.relation_count as int], k as int, id, current, relation.target));
                                lemma_extend_pattern(reg0, list0, query, current_path, candidate, k as int, id, relation.target);
                                assert(spec_relation_score(reg_before, id) == spec_relation_score(reg0, id));
                                assert(pview(candidate) == extended(reg0, pview(current_path), id, relation.target)) by {
                                    assert(candidate.nodes@ =~= current_path.nodes@.update(current_path.node_count as int, relation.target));
                                }
                            }
                            next.push(candidate);
                            proof {
                                assert(views(next@) =~= nv0.push(pview(candidate)));
                            }
                        },
                    }
                    proof {
                        relation::lemma_trust_only_trans(reg0, reg_before, *reg);
                    }
                }
                proof {
                    assert(views(next@) == pattern_scan(reg0, list0, step, pview(current_path), k + 1, before_scan));
                }
                k = k + 1;
            }
            i = i + 1;
        }
        assert forall|j: int| 0 <= j < next@.len() implies #[trigger] pattern_partial(reg0, list0, query, next@[j])
            && next@[j].relation_count == step_index + 1 by {
            assert(pattern_partial(reg0, list0, query, next@[j]));
        }
        let ghost nx = next@;
        frontier = next;
        step_index = step_index + 1;
        assert forall|j: int| 0 <= j < frontier@.len() implies #[trigger] pattern_partial(reg0, list0, query, frontier@[j])
            && frontier@[j].relation_count == step_index by {
            assert(frontier@[j] == nx[j]);
            assert(pattern_partial(reg0, list0, query, nx[j]));
            assert(nx[j].relation_count == step_index);
        }
    }
    let mut i: usize = 0;
    proof {
        assert(pattern_search(reg0, list0, query, views(frontier@), step_index as int) == views(frontier@));
    }
    while i < frontier.len() && report.paths_found < output.len()
        invariant
            views(frontier@) == goal,
            0 <= i <= frontier@.len(),
            report.paths_found == i,
            report.valid,
            i <= output@.len(),
            output@.len() == old(output)@.len(),
            frontier@.len() == 0 || step_index == query.step_count,
            forall|j: int| 0 <= j < frontier@.len() ==> #[trigger] pattern_partial(reg0, list0, query, frontier@[j])
                && frontier@[j].relation_count == step_index,
            forall|j: int| 0 <= j < i ==> #[trigger] output@[j] == frontier@[j],
            forall|j: int| i <= j < output@.len() ==> #[trigger] output@[j] == old(output)@[j],
        decreases frontier@.len() - i,
    {
        output[report.paths_found] = frontier[i];
        report.paths_found = report.paths_found + 1;
        i = i + 1;
    }
    proof {
        assert(answers_view(output@, report.paths_found as int) =~= goal.take(report.paths_found as int)) by {
            assert forall|j: int| 0 <= j < report.paths_found implies output@[j] == frontier@[j] by {}
        }
        lemma_written_chains(reg0, query, output@, frontier@, report.paths_found as int, step_index as int);
    }
    report
}

/// The first `n` outputs copied from a frontier of complete chains are
/// complete chains.
proof fn lemma_written_chains(reg: RelationRegistry, query: PatternQuery, out: Seq<QueryPath>, fr: Seq<QueryPath>, n: int, step: int)
    requires
        0 <= n <= fr.len(),
        n <= out.len(),
        fr.len() == 0 || step == query.step_count,
        forall|j: int| 0 <= j < fr.len() ==> #[trigger] pattern_partial(reg, listing(reg.slots()), query, fr[j])
            && fr[j].relation_count == step,
        forall|j: int| 0 <= j < n ==> #[trigger] out[j] == fr[j],
    ensures
        forall|i: int| #![trigger out[i]] 0 <= i < n ==> pattern_partial(reg, listing(reg.slots()), query, out[i])
            && out[i].relation_count == query.step_count,
{
    assert forall|i: int| #![trigger out[i]] 0 <= i < n implies pattern_partial(reg, listing(reg.slots()), query, out[i])
        && out[i].relation_count == query.step_count by {
        assert(out[i] == fr[i]);
        assert(pattern_partial(reg, listing(reg.slots()), query, fr[i]));
    }
}

/// Whether some path answers the query.
pub fn reachable(reg: &mut RelationRegistry, query: GraphQuery) -> (r: bool)
    ensures
        trust_only(*old(reg), *final(reg)),
        r ==> exists|p: QueryPath| #[trigger] path_answers(*old(reg), listing(old(reg).slots()), query, p),
        !spec_validate_query(query) ==> !r,
        spec_validate_query(query) && query.target == Some(query.source) ==> r,
        spec_validate_query(query) && query.target != Some(query.source) ==> r == (search_result(*old(reg), query, 1).len() > 0),
{
    let mut output = [QueryPath::empty(0); 1];
    let report = find_paths(reg, query, &mut output);
    if report.paths_found != 0 {
        proof {
            assert(path_answers(*old(reg), listing(old(reg).slots()), query, output@[0]));
        }
    }
    report.paths_found != 0
}

/// The highest score among the paths that answer the query.
pub fn best_score(reg: &mut RelationRegistry, query: GraphQuery) -> (r: Option<u16>)
    ensures
        trust_only(*old(reg), *final(reg)),
        r matches Some(b) ==> exists|p: QueryPath| #[trigger] path_answers(*old(reg), listing(old(reg).slots()), query, p) && p.score == b,
        !spec_validate_query(query) ==> r is None,
        spec_validate_query(query) && query.target == Some(query.source) ==> r == Some(0u16),
        spec_validate_query(query) && query.target != Some(query.source) ==> {
            let found = search_result(*old(reg), query, 32);
            &&& r is None <==> found.len() == 0
            &&& r matches Some(b) ==> (forall|i: int| 0 <= i < found.len() ==> #[trigger] found[i].4 <= b)
                && exists|i: int| 0 <= i < found.len() && #[trigger] found[i].4 == b
        },
{
    let mut output = [QueryPath::empty(0); 32];
    let report = find_paths(reg, query, &mut output);
    if report.paths_found == 0 {
        return None;
    }
    let mut best: u16 = 0;
    let mut best_index: usize = 0;
    let mut i: usize = 0;
    while i < report.paths_found
        invariant
            0 <= i <= report.paths_found <= 32,
            output@.len() == 32,
            best_index < report.paths_found,
            best == 0 || best == output@[best_index as int].score,
            i == 0 ==> best == 0,
            forall|j: int| 0 <= j < i ==> #[trigger] output@[j].score <= best,
        decreases report.paths_found - i,
    {
        if output[i].score > best {
            best = output[i].score;
            best_index = i;
        }
        i = i + 1;
    }
    proof {
        assert(output@[0].score <= best);
        let w = if best == 0 { 0int } else { best_index as int };
        if spec_validate_query(query) && query.target != Some(query.source) {
            let found = search_result(*old(reg), query, 32);
            assert(found == answers_view(output@, report.paths_found as int));
            assert forall|m: int| 0 <= m < found.len() implies #[trigger] found[m].4 <= best by {
                assert(found[m] == pview(output@[m]));
            }
            assert(found[w].4 == best) by {
                assert(found[w] == pview(output@[w]));
                if best == 0 {
                    assert(output@[0].score == 0);
                }
            }
        }
        assert(path_answers(*old(reg), listing(old(reg).slots()), query, output@[w]));
        if best == 0 {
            assert(output@[0].score == 0);
        }
    }
    Some(best)
}

/// A result path is well formed and its score is the sum of its relations'
/// scores. Checking a score records each relation's trust state.
pub fn validate_path(reg: &mut RelationRegistry, path: &QueryPath) -> (r: bool)
    ensures
        trust_only(*old(reg), *final(reg)),
        r == (qpath_valid(*path) && path.score == path_score(*old(reg), path.relation_ids@, path.relation_count as int)),
{
    proof {
        assert(trust_only(*reg, *reg)) by {
            assert forall|i: int| 0 <= i < reg.slots().len() implies #[trigger] relation::same_but_trust(reg.slots()[i], reg.slots()[i]) by {}
        }
    }
    if !path.is_valid() {
        return false;
    }
    let ghost reg0 = *reg;
    let mut expected: u16 = 0;
    let mut i: usize = 0;
    while i < path.relation_count
        invariant
            0 <= i <= path.relation_count <= 16,
            trust_only(reg0, *reg),
            expected == path_score(reg0, path.relation_ids@, i as int),
        decreases path.relation_count - i,
    {
        let ghost before = *reg;
        let s = relation_score(reg, path.relation_ids[i]);
        proof {
            relation::lemma_trust_only(reg0, before, path.relation_ids@[i as int]);
            relation::lemma_trust_only_trans(reg0, before, *reg);
        }
        expected = expected.saturating_add(s);
        i = i + 1;
    }
    path.score == expected
}


/// `MAX_QUERY_PATHS` empty paths to write answers into.
fn path_buffer() -> (v: Vec<QueryPath>)
    ensures
        v@.len() == MAX_QUERY_PATHS,
{
    let mut v: Vec<QueryPath> = Vec::new();
    let mut i: usize = 0;
    while i < MAX_QUERY_PATHS
        invariant
            i <= MAX_QUERY_PATHS,
            v@.len() == i,
        decreases MAX_QUERY_PATHS - i,
    {
        v.push(QueryPath::empty(0));
        i = i + 1;
    }
    v
}

/// Queries on a fresh registry holding the chain 10 -> 20 -> 30 -> 40: the
/// path search finds exactly that chain, with a valid score, through the
/// three relations in order; a best score exists and the target is
/// reachable; the matching pattern chain is found once; a query without a
/// source is invalid and reaches nothing. Returns whether every check held.
pub fn self_test() -> (ok: bool) {
    let mut reg = RelationRegistry::new();
    let r1 = match reg.add(Relation { source: 10, relation: semantic::CONNECTED_TO, target: 20, context: 1 }, 0) {
        Some(id) => id,
        None => {
            return false;
        },
    };
    let r2 = match reg.add(Relation { source: 20, relation: semantic::CONNECTED_TO, target: 30, context: 1 }, 0) {
        Some(id) => id,
        None => {
            return false;
        },
    };
    let r3 = match reg.add(Relation { source: 30, relation: semantic::CAUSES, target: 40, context: 2 }, 0) {
        Some(id) => id,
        None => {
            return false;
        },
    };
    let query = GraphQuery { source: 10, target: Some(40), direction: GraphDirection::Outgoing, max_depth: 4, relation: None, context: None };
    let mut paths = path_buffer();
    let report = find_paths(&mut reg, query, paths.as_mut_slice());
    if !report.valid || report.paths_found != 1 {
        return false;
    }
    let first = paths[0];
    if !validate_path(&mut reg, &first) || first.node_count != 4 || first.relation_count != 3 {
        return false;
    }
    if first.nodes[0] != 10 || first.nodes[3] != 40 {
        return false;
    }
    if first.relation_ids[0] != r1 || first.relation_ids[1] != r2 || first.relation_ids[2] != r3 {
        return false;
    }
    if best_score(&mut reg, query).is_none() || !reachable(&mut reg, query) {
        return false;
    }
    let mut pattern = PatternQuery::empty(10);
    if !pattern.push(QueryStep { relation: Some(semantic::CONNECTED_TO), context: Some(1), target: Some(20) }) {
        return false;
    }
    if !pattern.push(QueryStep { relation: Some(semantic::CONNECTED_TO), context: Some(1), target: Some(30) }) {
        return false;
    }
    if !pattern.push(QueryStep { relation: Some(semantic::CAUSES), context: Some(2), target: Some(40) }) {
        return false;
    }
    let mut pattern_paths = path_buffer();
    let pattern_report = match_pattern(&mut reg, pattern, pattern_paths.as_mut_slice());
    if !pattern_report.valid || pattern_report.paths_found != 1 {
        return false;
    }
    let chain = pattern_paths[0];
    if !validate_path(&mut reg, &chain) {
        return false;
    }
    let invalid = GraphQuery { source: 0, target: Some(40), direction: GraphDirection::Outgoing, max_depth: 4, relation: None, context: None };
    if validate_query(invalid) || reachable(&mut reg, invalid) {
        return false;
    }
    true
}

} // verus!
