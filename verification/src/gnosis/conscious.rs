//! GNOSIS conscious workspace: a bounded, ranked scene integrating scored
//! attention records and subconscious candidates. It is derived state only.
use vstd::prelude::*;
use crate::gnosis::attention::AttentionRecord;
use crate::gnosis::relation::{ProvenanceSource, RelationProvenance};
use crate::gnosis::semantic::{self, ContextId, ObjectId, SemanticId};
use crate::gnosis::subconscious::{CandidateKind, CandidateRecord};

verus! {

pub const SCALE: u32 = 10_000;
pub const MAX_WORKSPACE: usize = 16;
pub const MAX_SEEN: usize = 64;
pub const MAX_WORK: usize = 2048;

#[derive(Clone, Copy, Debug, PartialEq, Eq, Structural)]
pub enum WorkspaceSource {
    Attention,
    Subconscious,
}

/// One item of the active scene.
#[derive(Clone, Copy, Debug, PartialEq, Eq, Structural)]
pub struct WorkspaceItem {
    pub object_id: ObjectId,
    pub semantic_id: SemanticId,
    pub previous_state: SemanticId,
    pub current_state: SemanticId,
    pub predicted_state: SemanticId,
    pub context: ContextId,
    pub salience_fixed: u32,
    pub uncertainty_fixed: u32,
    pub support: u32,
    pub timestamp: u64,
    pub provenance: RelationProvenance,
    pub source: WorkspaceSource,
}

pub open spec fn empty_item() -> WorkspaceItem {
    WorkspaceItem {
        object_id: 0,
        semantic_id: 0,
        previous_state: 0,
        current_state: 0,
        predicted_state: 0,
        context: 0,
        salience_fixed: 0,
        uncertainty_fixed: SCALE,
        support: 0,
        timestamp: 0,
        provenance: RelationProvenance { origin: 0, source: ProvenanceSource::Local, revision: 0 },
        source: WorkspaceSource::Attention,
    }
}

impl WorkspaceItem {
    pub fn empty() -> (r: Self)
        ensures
            r == empty_item(),
    {
        WorkspaceItem {
            object_id: 0,
            semantic_id: 0,
            previous_state: 0,
            current_state: 0,
            predicted_state: 0,
            context: 0,
            salience_fixed: 0,
            uncertainty_fixed: SCALE,
            support: 0,
            timestamp: 0,
            provenance: RelationProvenance { origin: 0, source: ProvenanceSource::Local, revision: 0 },
            source: WorkspaceSource::Attention,
        }
    }
}

/// Identity of an item for duplicate suppression.
#[derive(Clone, Copy, Debug, PartialEq, Eq, Structural)]
pub struct SeenKey {
    pub object_id: ObjectId,
    pub semantic_id: SemanticId,
    pub previous_state: SemanticId,
    pub current_state: SemanticId,
    pub predicted_state: SemanticId,
    pub context: ContextId,
    pub timestamp: u64,
    pub origin: u64,
    pub revision: u64,
    pub source: WorkspaceSource,
}

pub open spec fn key_of(i: WorkspaceItem) -> SeenKey {
    SeenKey {
        object_id: i.object_id,
        semantic_id: i.semantic_id,
        previous_state: i.previous_state,
        current_state: i.current_state,
        predicted_state: i.predicted_state,
        context: i.context,
        timestamp: i.timestamp,
        origin: i.provenance.origin,
        revision: i.provenance.revision,
        source: i.source,
    }
}

fn key_from_item(i: &WorkspaceItem) -> (k: SeenKey)
    ensures
        k == key_of(*i),
{
    SeenKey {
        object_id: i.object_id,
        semantic_id: i.semantic_id,
        previous_state: i.previous_state,
        current_state: i.current_state,
        predicted_state: i.predicted_state,
        context: i.context,
        timestamp: i.timestamp,
        origin: i.provenance.origin,
        revision: i.provenance.revision,
        source: i.source,
    }
}

#[derive(Clone, Copy, Debug, PartialEq, Eq, Structural)]
pub struct ConsciousReport {
    pub admitted: usize,
    pub rejected: usize,
    pub duplicate: usize,
    pub workspace_count: usize,
    pub work_used: usize,
    pub work_budget: usize,
    pub stopped_by_budget: bool,
    pub overflow: bool,
    pub focused: WorkspaceItem,
}

impl ConsciousReport {
    pub fn empty() -> (r: Self)
        ensures
            r.admitted == 0 && r.rejected == 0 && r.duplicate == 0 && r.workspace_count == 0 && r.work_used == 0,
            r.work_budget == MAX_WORK && !r.stopped_by_budget && !r.overflow && r.focused == empty_item(),
    {
        ConsciousReport {
            admitted: 0,
            rejected: 0,
            duplicate: 0,
            workspace_count: 0,
            work_used: 0,
            work_budget: MAX_WORK,
            stopped_by_budget: false,
            overflow: false,
            focused: WorkspaceItem::empty(),
        }
    }
}

pub open spec fn source_rank(s: WorkspaceSource) -> u8 {
    match s {
        WorkspaceSource::Attention => 0,
        WorkspaceSource::Subconscious => 1,
    }
}

/// Ranking of items: higher salience, then lower uncertainty, more
/// support, newer, and then lower identity fields.
pub open spec fn spec_outranks(a: WorkspaceItem, b: WorkspaceItem) -> bool {
    if a.salience_fixed != b.salience_fixed {
        a.salience_fixed > b.salience_fixed
    } else if a.uncertainty_fixed != b.uncertainty_fixed {
        a.uncertainty_fixed < b.uncertainty_fixed
    } else if a.support != b.support {
        a.support > b.support
    } else if a.timestamp != b.timestamp {
        a.timestamp > b.timestamp
    } else if a.object_id != b.object_id {
        a.object_id < b.object_id
    } else if a.semantic_id != b.semantic_id {
        a.semantic_id < b.semantic_id
    } else if a.context != b.context {
        a.context < b.context
    } else if a.previous_state != b.previous_state {
        a.previous_state < b.previous_state
    } else if a.current_state != b.current_state {
        a.current_state < b.current_state
    } else if a.predicted_state != b.predicted_state {
        a.predicted_state < b.predicted_state
    } else {
        source_rank(a.source) < source_rank(b.source)
    }
}

pub fn outranks(a: &WorkspaceItem, b: &WorkspaceItem) -> (r: bool)
    ensures
        r == spec_outranks(*a, *b),
{
    if a.salience_fixed != b.salience_fixed {
        return a.salience_fixed > b.salience_fixed;
    }
    if a.uncertainty_fixed != b.uncertainty_fixed {
        return a.uncertainty_fixed < b.uncertainty_fixed;
    }
    if a.support != b.support {
        return a.support > b.support;
    }
    if a.timestamp != b.timestamp {
        return a.timestamp > b.timestamp;
    }
    if a.object_id != b.object_id {
        return a.object_id < b.object_id;
    }
    if a.semantic_id != b.semantic_id {
        return a.semantic_id < b.semantic_id;
    }
    if a.context != b.context {
        return a.context < b.context;
    }
    if a.previous_state != b.previous_state {
        return a.previous_state < b.previous_state;
    }
    if a.current_state != b.current_state {
        return a.current_state < b.current_state;
    }
    if a.predicted_state != b.predicted_state {
        return a.predicted_state < b.predicted_state;
    }
    let ra: u8 = match a.source { WorkspaceSource::Attention => 0, WorkspaceSource::Subconscious => 1 };
    let rb: u8 = match b.source { WorkspaceSource::Attention => 0, WorkspaceSource::Subconscious => 1 };
    ra < rb
}

/// Salience of a candidate: a weight by kind plus its confidence, capped.
pub open spec fn spec_candidate_salience(c: CandidateRecord) -> u32 {
    let kind_weight: u32 = match c.kind {
        CandidateKind::Anomaly => 10_000,
        CandidateKind::Prediction => 8_000,
        CandidateKind::ResourceTransition => 6_000,
        CandidateKind::RepeatedTransition => 4_000,
    };
    let confidence: u32 = if c.score_fixed < SCALE { c.score_fixed } else { SCALE };
    let base = kind_weight + confidence;
    if base < 20_000 { base as u32 } else { 20_000 }
}

fn candidate_salience(c: &CandidateRecord) -> (r: u32)
    ensures
        r == spec_candidate_salience(*c),
{
    let kind_weight: u32 = match c.kind {
        CandidateKind::Anomaly => 10_000,
        CandidateKind::Prediction => 8_000,
        CandidateKind::ResourceTransition => 6_000,
        CandidateKind::RepeatedTransition => 4_000,
    };
    let confidence: u32 = if c.score_fixed < SCALE { c.score_fixed } else { SCALE };
    let base = kind_weight + confidence;
    if base < 20_000 { base } else { 20_000 }
}

pub open spec fn spec_from_candidate(c: CandidateRecord) -> WorkspaceItem {
    WorkspaceItem {
        object_id: c.origin_object_id,
        semantic_id: c.semantic_id,
        previous_state: c.previous_state,
        current_state: c.observed_state,
        predicted_state: c.predicted_state,
        context: c.context,
        salience_fixed: spec_candidate_salience(c),
        uncertainty_fixed: if c.uncertainty_fixed < SCALE { c.uncertainty_fixed } else { SCALE },
        support: c.support,
        timestamp: c.timestamp,
        provenance: c.provenance,
        source: WorkspaceSource::Subconscious,
    }
}

/// The workspace item a subconscious candidate becomes.
pub fn from_candidate(c: &CandidateRecord) -> (r: WorkspaceItem)
    ensures
        r == spec_from_candidate(*c),
{
    WorkspaceItem {
        object_id: c.origin_object_id,
        semantic_id: c.semantic_id,
        previous_state: c.previous_state,
        current_state: c.observed_state,
        predicted_state: c.predicted_state,
        context: c.context,
        salience_fixed: candidate_salience(c),
        uncertainty_fixed: if c.uncertainty_fixed < SCALE { c.uncertainty_fixed } else { SCALE },
        support: c.support,
        timestamp: c.timestamp,
        provenance: c.provenance,
        source: WorkspaceSource::Subconscious,
    }
}

pub open spec fn spec_from_attention(r: AttentionRecord) -> WorkspaceItem {
    let salience = (r.score as int * 10) as u32;
    WorkspaceItem {
        object_id: r.object_id,
        semantic_id: r.semantic_id,
        previous_state: r.previous_state,
        current_state: r.new_state,
        predicted_state: r.new_state,
        context: r.context,
        salience_fixed: salience,
        uncertainty_fixed: if salience < SCALE { (SCALE - salience) as u32 } else { 0 },
        support: 1,
        timestamp: r.timestamp,
        provenance: r.provenance,
        source: WorkspaceSource::Attention,
    }
}

/// The workspace item an attention record becomes.
pub fn from_attention(r: &AttentionRecord) -> (w: WorkspaceItem)
    ensures
        w == spec_from_attention(*r),
{
    let salience: u32 = (r.score as u32) * 10;
    WorkspaceItem {
        object_id: r.object_id,
        semantic_id: r.semantic_id,
        previous_state: r.previous_state,
        current_state: r.new_state,
        predicted_state: r.new_state,
        context: r.context,
        salience_fixed: salience,
        uncertainty_fixed: if salience < SCALE { SCALE - salience } else { 0 },
        support: 1,
        timestamp: r.timestamp,
        provenance: r.provenance,
        source: WorkspaceSource::Attention,
    }
}

/// The bounded workspace.
pub struct Workspace {
    items: Vec<WorkspaceItem>,
    seen: Vec<SeenKey>,
    cycle: u64,
}

/// Index of the first highest-ranked item among the first `n`.
pub open spec fn focus_index(items: Seq<WorkspaceItem>, n: int) -> int
    decreases n,
{
    if n <= 1 {
        0
    } else {
        let b = focus_index(items, n - 1);
        if spec_outranks(items[n - 1], items[b]) { n - 1 } else { b }
    }
}

/// The focused item: the highest ranked, or the empty item.
pub open spec fn spec_focus(items: Seq<WorkspaceItem>) -> WorkspaceItem {
    if items.len() == 0 { empty_item() } else { items[focus_index(items, items.len() as int)] }
}

proof fn lemma_focus_index(items: Seq<WorkspaceItem>, n: int)
    requires
        1 <= n <= items.len(),
    ensures
        0 <= focus_index(items, n) < n,
    decreases n,
{
    if n > 1 {
        lemma_focus_index(items, n - 1);
    }
}

/// The slot a full workspace gives up: scanning from the first, the later
/// of two items replaces the current choice when the choice outranks it.
pub open spec fn worst_upto(items: Seq<WorkspaceItem>, n: int) -> int
    decreases n,
{
    if n <= 1 {
        0
    } else {
        let w = worst_upto(items, n - 1);
        if spec_outranks(items[w], items[n - 1]) { n - 1 } else { w }
    }
}

proof fn lemma_worst_upto(items: Seq<WorkspaceItem>, n: int)
    requires
        1 <= n,
    ensures
        0 <= worst_upto(items, n) < n,
    decreases n,
{
    if n > 1 {
        lemma_worst_upto(items, n - 1);
    }
}

/// The items after admitting `item`: appended while there is room,
/// otherwise in place of the slot given up when it outranks that item.
pub open spec fn spec_admit(items: Seq<WorkspaceItem>, item: WorkspaceItem) -> Seq<WorkspaceItem> {
    if items.len() < MAX_WORKSPACE {
        items.push(item)
    } else {
        let w = worst_upto(items, MAX_WORKSPACE as int);
        if spec_outranks(item, items[w]) { items.update(w, item) } else { items }
    }
}

/// The seen keys after remembering `key` in cycle `cycle`: appended while
/// there is room, otherwise written over slot `cycle % MAX_SEEN`.
pub open spec fn spec_remember(seen: Seq<SeenKey>, key: SeenKey, cycle: u64) -> Seq<SeenKey> {
    if seen.len() < MAX_SEEN { seen.push(key) } else { seen.update((cycle % 64) as int, key) }
}

/// Items and seen keys after offering the first `n` of `xs` in cycle
/// `cycle`: an item already seen changes nothing, any other is admitted if
/// it can be and its key remembered.
pub open spec fn integrate(items: Seq<WorkspaceItem>, seen: Seq<SeenKey>, cycle: u64, xs: Seq<WorkspaceItem>, n: int) -> (Seq<WorkspaceItem>, Seq<SeenKey>)
    decreases n,
{
    if n <= 0 {
        (items, seen)
    } else {
        let (i0, s0) = integrate(items, seen, cycle, xs, n - 1);
        let x = xs[n - 1];
        if s0.contains(key_of(x)) {
            (i0, s0)
        } else {
            (spec_admit(i0, x), spec_remember(s0, key_of(x), cycle))
        }
    }
}

/// What a processing call offers the workspace: the first `MAX_ATTENTION`
/// attention records, then the first `MAX_CANDIDATES` candidates.
pub open spec fn offered(attention: Seq<AttentionRecord>, candidates: Seq<CandidateRecord>) -> Seq<WorkspaceItem> {
    attention.take(limit(attention.len() as int, 64)).map_values(|a: AttentionRecord| spec_from_attention(a))
        + candidates.take(limit(candidates.len() as int, 16)).map_values(|c: CandidateRecord| spec_from_candidate(c))
}

impl Workspace {
    pub closed spec fn cycle(&self) -> u64 {
        self.cycle
    }

    pub closed spec fn items(&self) -> Seq<WorkspaceItem> {
        self.items@
    }

    pub closed spec fn seen_keys(&self) -> Seq<SeenKey> {
        self.seen@
    }

    pub closed spec fn wf(&self) -> bool {
        self.items@.len() <= MAX_WORKSPACE && self.seen@.len() <= MAX_SEEN
    }

    /// An empty workspace.
    pub fn new() -> (w: Self)
        ensures
            w.wf(),
            w.items().len() == 0,
            w.seen_keys().len() == 0,
    {
        Workspace { items: Vec::new(), seen: Vec::new(), cycle: 0 }
    }

    fn contains_seen(&self, key: &SeenKey) -> (r: bool)
        ensures
            r == self.seen_keys().contains(*key),
    {
        let mut index: usize = 0;
        while index < self.seen.len()
            invariant
                0 <= index <= self.seen@.len(),
                forall|j: int| 0 <= j < index ==> self.seen@[j] != *key,
            decreases self.seen@.len() - index,
        {
            if self.seen[index] == *key {
                assert(self.seen@[index as int] == *key);
                return true;
            }
            index = index + 1;
        }
        false
    }

    /// Remembers a key; when full, the slot `cycle mod MAX_SEEN` is reused.
    fn remember_seen(&mut self, key: SeenKey)
        requires
            old(self).wf(),
        ensures
            final(self).wf(),
            final(self).items() == old(self).items(),
            final(self).seen_keys().contains(key),
            final(self).seen_keys() == spec_remember(old(self).seen_keys(), key, old(self).cycle()),
            final(self).cycle() == old(self).cycle(),
    {
        if self.seen.len() < MAX_SEEN {
            self.seen.push(key);
            assert(self.seen@[self.seen@.len() - 1] == key);
            return;
        }
        let index = (self.cycle % 64) as usize;
        self.seen.set(index, key);
        assert(self.seen@[index as int] == key);
    }

    /// Admits an item: appended while there is room, otherwise it replaces
    /// the lowest-ranked item if it outranks it.
    pub fn admit_item(&mut self, item: WorkspaceItem) -> (r: bool)
        requires
            old(self).wf(),
        ensures
            final(self).wf(),
            final(self).seen_keys() == old(self).seen_keys(),
            final(self).cycle() == old(self).cycle(),
            final(self).items() == spec_admit(old(self).items(), item),
            r == (old(self).items().len() < MAX_WORKSPACE || spec_outranks(
                item,
                old(self).items()[worst_upto(old(self).items(), MAX_WORKSPACE as int)],
            )),
            old(self).items().len() < MAX_WORKSPACE ==> r && final(self).items() == old(self).items().push(item),
            old(self).items().len() >= MAX_WORKSPACE ==> final(self).items().len() == old(self).items().len()
                && (r ==> exists|k: int| 0 <= k < MAX_WORKSPACE && final(self).items() == old(self).items().update(k, item)
                    && #[trigger] spec_outranks(item, old(self).items()[k]))
                && (!r ==> final(self).items() == old(self).items()),
    {
        if self.items.len() < MAX_WORKSPACE {
            self.items.push(item);
            return true;
        }
        let mut worst: usize = 0;
        let mut index: usize = 1;
        while index < MAX_WORKSPACE
            invariant
                1 <= index <= MAX_WORKSPACE,
                worst < index,
                self.items@.len() == MAX_WORKSPACE,
                worst == worst_upto(self.items@, index as int),
            decreases MAX_WORKSPACE - index,
        {
            if outranks(&self.items[worst], &self.items[index]) {
                worst = index;
            }
            index = index + 1;
        }
        if outranks(&item, &self.items[worst]) {
            self.items.set(worst, item);
            true
        } else {
            false
        }
    }

    /// The highest-ranked item, or the empty item.
    pub fn focus(&self) -> (r: WorkspaceItem)
        ensures
            r == spec_focus(self.items()),
    {
        if self.items.len() == 0 {
            return WorkspaceItem::empty();
        }
        let mut best: usize = 0;
        let mut index: usize = 1;
        while index < self.items.len()
            invariant
                1 <= index <= self.items@.len(),
                best == focus_index(self.items@, index as int),
                best < index,
            decreases self.items@.len() - index,
        {
            if outranks(&self.items[index], &self.items[best]) {
                best = index;
            }
            index = index + 1;
        }
        self.items[best]
    }
}

/// Number of items in the workspace.
pub fn count(workspace: &Workspace) -> (n: usize)
    ensures
        n == workspace.items().len(),
{
    workspace.items.len()
}

/// Empties the workspace.
pub fn clear(workspace: &mut Workspace)
    ensures
        final(workspace).wf(),
        final(workspace).items().len() == 0,
        final(workspace).seen_keys().len() == 0,
{
    *workspace = Workspace::new();
}

proof fn lemma_outranks_trans(a: WorkspaceItem, b: WorkspaceItem, c: WorkspaceItem)
    requires
        spec_outranks(a, b),
        spec_outranks(b, c),
    ensures
        spec_outranks(a, c),
{
}

/// The workspace items in ranking order: each item once, and no item
/// outranks one that comes before it.
pub fn for_each(workspace: &Workspace) -> (r: Vec<WorkspaceItem>)
    requires
        workspace.wf(),
    ensures
        r@.len() == workspace.items().len(),
        exists|order: Seq<int>|
            #![trigger order.len()]
            order.len() == r@.len() && order.no_duplicates() && (forall|i: int|
                0 <= i < order.len() ==> 0 <= #[trigger] order[i] < r@.len() && r@[i] == workspace.items()[order[i]]),
        forall|i: int, j: int| 0 <= i < j < r@.len() ==> !spec_outranks(#[trigger] r@[j], #[trigger] r@[i]),
{
    let n = workspace.items.len();
    let ghost items = workspace.items@;
    let mut used: Vec<bool> = Vec::new();
    let mut k: usize = 0;
    while k < n
        invariant
            0 <= k <= n,
            n == workspace.items@.len(),
            used@.len() == k,
            forall|j: int| 0 <= j < k ==> !used@[j],
        decreases n - k,
    {
        used.push(false);
        k = k + 1;
    }
    let mut out: Vec<WorkspaceItem> = Vec::new();
    let ghost mut order: Seq<int> = Seq::empty();
    let mut rank: usize = 0;
    proof {
        lemma_all_false_filter(used@);
    }
    while rank < n
        invariant
            0 <= rank <= n,
            n == workspace.items@.len(),
            items == workspace.items@,
            n <= MAX_WORKSPACE,
            used@.len() == n,
            out@.len() == rank,
            order.len() == rank,
            (used@.filter(|b: bool| b)).len() == rank,
            order.no_duplicates(),
            forall|i: int| 0 <= i < rank ==> 0 <= #[trigger] order[i] < n && out@[i] == items[order[i]],
            forall|j: int| 0 <= j < n ==> (#[trigger] used@[j] <==> order.contains(j)),
            forall|i: int, j: int| 0 <= i < rank && 0 <= j < n && !used@[j] ==> !spec_outranks(#[trigger] items[j], #[trigger] out@[i]),
            forall|i: int, j: int| 0 <= i < j < rank ==> !spec_outranks(#[trigger] out@[j], #[trigger] out@[i]),
        decreases n - rank,
    {
        let mut selected: usize = n;
        let mut index: usize = 0;
        while index < n
            invariant
                0 <= index <= n,
                n == workspace.items@.len(),
                items == workspace.items@,
                used@.len() == n,
                selected == n || (selected < n && !used@[selected as int]),
                selected == n ==> forall|j: int| 0 <= j < index ==> used@[j],
                selected < n ==> forall|j: int| 0 <= j < index && !used@[j] ==> !spec_outranks(#[trigger] items[j], items[selected as int]),
            decreases n - index,
        {
            if !used[index] {
                if selected == n || outranks(&workspace.items[index], &workspace.items[selected]) {
                    proof {
                        if selected < n {
                            assert forall|j: int| 0 <= j < index && !used@[j] implies !spec_outranks(#[trigger] items[j], items[index as int]) by {
                                if spec_outranks(items[j], items[index as int]) {
                                    lemma_outranks_trans(items[j], items[index as int], items[selected as int]);
                                }
                            }
                        }
                    }
                    selected = index;
                }
            }
            index = index + 1;
        }
        proof {
            if selected == n {
                assert(used@ =~= Seq::new(n as nat, |j: int| true));
                lemma_all_true_filter(used@);
            }
        }
        let ghost before = used@;
        let ghost order0 = order;
        used.set(selected, true);
        proof {
            lemma_filter_set_true(before, selected as int);
            order = order.push(selected as int);
            assert(!order0.contains(selected as int));
            assert forall|a: int, b: int| 0 <= a < b < order.len() implies order[a] != order[b] by {
                if b == order0.len() {
                    if order0[a] == selected {
                        assert(order0.contains(selected as int));
                    }
                }
            }
            assert forall|j: int| 0 <= j < n implies (#[trigger] used@[j] <==> order.contains(j)) by {
                if j == selected {
                    assert(order[order0.len() as int] == j);
                } else {
                    if order.contains(j) {
                        let m = choose|m: int| 0 <= m < order.len() && order[m] == j;
                        assert(order0[m] == j);
                    }
                    if order0.contains(j) {
                        let m = choose|m: int| 0 <= m < order0.len() && order0[m] == j;
                        assert(order[m] == j);
                    }
                }
            }
        }
        out.push(workspace.items[selected]);
        rank = rank + 1;
    }
    proof {
        assert(order.len() == out@.len());
    }
    out
}

proof fn lemma_all_false_filter(s: Seq<bool>)
    requires
        forall|j: int| 0 <= j < s.len() ==> !s[j],
    ensures
        s.filter(|b: bool| b).len() == 0,
    decreases s.len(),
{
    reveal(Seq::filter);
    if s.len() > 0 {
        lemma_all_false_filter(s.drop_last());
    }
}

proof fn lemma_all_true_filter(s: Seq<bool>)
    requires
        forall|j: int| 0 <= j < s.len() ==> s[j],
    ensures
        s.filter(|b: bool| b).len() == s.len(),
    decreases s.len(),
{
    reveal(Seq::filter);
    if s.len() > 0 {
        lemma_all_true_filter(s.drop_last());
        assert(s.drop_last().filter(|b: bool| b) == s.filter(|b: bool| b).drop_last()) by {
            assert(s.filter(|b: bool| b) == s.drop_last().filter(|b: bool| b).push(s.last()));
        }
    }
}

proof fn lemma_filter_set_true(s: Seq<bool>, k: int)
    requires
        0 <= k < s.len(),
        !s[k],
    ensures
        s.update(k, true).filter(|b: bool| b).len() == s.filter(|b: bool| b).len() + 1,
    decreases s.len(),
{
    reveal(Seq::filter);
    let t = s.update(k, true);
    if k == s.len() - 1 {
        assert(t.drop_last() =~= s.drop_last());
    } else {
        assert(t.drop_last() =~= s.drop_last().update(k, true));
        lemma_filter_set_true(s.drop_last(), k);
    }
}


fn charge(report: &mut ConsciousReport, amount: usize) -> (ok: bool)
    requires
        old(report).work_used <= old(report).work_budget,
        old(report).work_budget == MAX_WORK,
    ensures
        final(report).work_used <= final(report).work_budget,
        final(report).work_budget == old(report).work_budget,
        final(report).admitted == old(report).admitted,
        final(report).rejected == old(report).rejected,
        final(report).duplicate == old(report).duplicate,
        ok == (old(report).work_used + amount <= old(report).work_budget),
        ok ==> final(report).stopped_by_budget == old(report).stopped_by_budget,
        ok ==> final(report).work_used == old(report).work_used + amount,
        !ok ==> final(report).stopped_by_budget,
{
    let next = report.work_used.saturating_add(amount);
    if next > report.work_budget {
        report.work_used = report.work_budget;
        report.stopped_by_budget = true;
        report.overflow = true;
        return false;
    }
    report.work_used = next;
    true
}

/// The cycle after `c`, saturating.
pub open spec fn next_cycle(c: u64) -> u64 {
    if c == u64::MAX { c } else { (c + 1) as u64 }
}

pub open spec fn limit(n: int, cap: int) -> int {
    if n < cap { n } else { cap }
}

/// Integrates up to `MAX_ATTENTION` attention records (in queue order) and
/// up to `MAX_CANDIDATES` subconscious candidates into the workspace,
/// within the work budget. Items already seen are counted as duplicates.
pub fn process(workspace: &mut Workspace, attention: &[AttentionRecord], candidates: &[CandidateRecord]) -> (r: ConsciousReport)
    requires
        old(workspace).wf(),
    ensures
        final(workspace).wf(),
        r.work_budget == MAX_WORK,
        r.work_used <= MAX_WORK,
        r.workspace_count == final(workspace).items().len(),
        r.workspace_count <= MAX_WORKSPACE,
        r.focused == spec_focus(final(workspace).items()),
        r.admitted + r.rejected + r.duplicate <= limit(attention@.len() as int, 64) + limit(candidates@.len() as int, 16),
        !r.stopped_by_budget ==> r.admitted + r.rejected + r.duplicate == limit(attention@.len() as int, 64) + limit(candidates@.len() as int, 16),
        !r.stopped_by_budget,
        r.work_used == 2 * (limit(attention@.len() as int, 64) + limit(candidates@.len() as int, 16)) + if candidates@.len()
            >= 16 { 1int } else { 0int },
        final(workspace).cycle() == next_cycle(old(workspace).cycle()),
        ({
            let xs = offered(attention@, candidates@);
            let (items, seen) = integrate(old(workspace).items(), old(workspace).seen_keys(), next_cycle(old(workspace).cycle()), xs, xs.len() as int);
            final(workspace).items() == items && final(workspace).seen_keys() == seen
        }),
{
    let mut report = ConsciousReport::empty();
    workspace.cycle = workspace.cycle.saturating_add(1);
    let ghost cyc = workspace.cycle;
    let ghost xs = offered(attention@, candidates@);
    let ghost items0 = old(workspace).items();
    let ghost seen0 = old(workspace).seen_keys();
    proof {
        let na = limit(attention@.len() as int, 64);
        let nc = limit(candidates@.len() as int, 16);
        assert(xs.len() == na + nc);
        assert forall|i: int| 0 <= i < na implies #[trigger] xs[i] == spec_from_attention(attention@[i]) by {}
        assert forall|i: int| 0 <= i < nc implies #[trigger] xs[na + i] == spec_from_candidate(candidates@[i]) by {}
        assert(integrate(items0, seen0, cyc, xs, 0) == (workspace.items(), workspace.seen_keys()));
    }
    let attention_count = if attention.len() < 64 { attention.len() } else { 64 };
    let mut index: usize = 0;
    while index < attention_count
        invariant
            0 <= index <= attention_count,
            attention_count == limit(attention@.len() as int, 64),
            attention_count <= attention@.len(),
            workspace.wf(),
            report.work_budget == MAX_WORK,
            report.work_used <= MAX_WORK,
            !report.stopped_by_budget,
            report.admitted + report.rejected + report.duplicate == index,
            report.work_used == 2 * index,
            workspace.cycle() == cyc,
            xs == offered(attention@, candidates@),
            xs.len() == limit(attention@.len() as int, 64) + limit(candidates@.len() as int, 16),
            forall|i: int| 0 <= i < limit(attention@.len() as int, 64) ==> #[trigger] xs[i] == spec_from_attention(attention@[i]),
            integrate(items0, seen0, cyc, xs, index as int) == (workspace.items(), workspace.seen_keys()),
        decreases attention_count - index,
    {
        if !charge(&mut report, 2) {
            report.workspace_count = workspace.items.len();
            report.focused = workspace.focus();
            return report;
        }
        let item = from_attention(&attention[index]);
        let key = key_from_item(&item);
        if workspace.contains_seen(&key) {
            report.duplicate = report.duplicate + 1;
        } else {
            if workspace.admit_item(item) {
                report.admitted = report.admitted + 1;
            } else {
                report.rejected = report.rejected + 1;
            }
            workspace.remember_seen(key);
        }
        index = index + 1;
    }
    let candidate_count = if candidates.len() < 16 { candidates.len() } else { 16 };
    let mut candidate_index: usize = 0;
    while candidate_index < candidate_count
        invariant
            0 <= candidate_index <= candidate_count,
            candidate_count == limit(candidates@.len() as int, 16),
            candidate_count <= candidates@.len(),
            attention_count == limit(attention@.len() as int, 64),
            workspace.wf(),
            report.work_budget == MAX_WORK,
            report.work_used <= MAX_WORK,
            !report.stopped_by_budget,
            report.admitted + report.rejected + report.duplicate == attention_count + candidate_index,
            report.work_used == 2 * (attention_count + candidate_index),
            workspace.cycle() == cyc,
            xs.len() == attention_count + candidate_count,
            forall|i: int| 0 <= i < candidate_count ==> #[trigger] xs[attention_count + i] == spec_from_candidate(candidates@[i]),
            integrate(items0, seen0, cyc, xs, attention_count + candidate_index) == (workspace.items(), workspace.seen_keys()),
            attention_count <= 64,
        decreases candidate_count - candidate_index,
    {
        if !charge(&mut report, 2) {
            report.workspace_count = workspace.items.len();
            report.focused = workspace.focus();
            return report;
        }
        let item = from_candidate(&candidates[candidate_index]);
        let key = key_from_item(&item);
        if workspace.contains_seen(&key) {
            report.duplicate = report.duplicate + 1;
        } else if workspace.admit_item(item) {
            report.admitted = report.admitted + 1;
            workspace.remember_seen(key);
        } else {
            report.rejected = report.rejected + 1;
            workspace.remember_seen(key);
        }
        candidate_index = candidate_index + 1;
    }
    if candidate_count >= 16 && !charge(&mut report, 1) {
        report.workspace_count = workspace.items.len();
        report.focused = workspace.focus();
        return report;
    }
    report.workspace_count = workspace.items.len();
    report.focused = workspace.focus();
    report
}

/// The focus is the top of the workspace: no item outranks the item at
/// `focus_index`.
pub proof fn lemma_focus_is_top(items: Seq<WorkspaceItem>, n: int)
    requires
        1 <= n <= items.len(),
    ensures
        0 <= focus_index(items, n) < n,
        forall|j: int| 0 <= j < n ==> !spec_outranks(#[trigger] items[j], items[focus_index(items, n)]),
    decreases n,
{
    lemma_focus_index(items, n);
    if n > 1 {
        lemma_focus_is_top(items, n - 1);
        let b = focus_index(items, n - 1);
        if spec_outranks(items[n - 1], items[b]) {
            assert forall|j: int| 0 <= j < n implies !spec_outranks(#[trigger] items[j], items[n - 1]) by {
                if j < n - 1 && spec_outranks(items[j], items[n - 1]) {
                    lemma_outranks_trans(items[j], items[n - 1], items[b]);
                }
            }
        }
    }
}

/// A processing call leaves at most `MAX_WORKSPACE` items and focuses the
/// top one: the empty item for an empty workspace, otherwise an item of
/// the workspace that no item outranks.
pub proof fn law_process_focuses_top(items: Seq<WorkspaceItem>, focused: WorkspaceItem)
    requires
        items.len() <= MAX_WORKSPACE,
        focused == spec_focus(items),
    ensures
        items.len() == 0 ==> focused == empty_item(),
        items.len() > 0 ==> items.contains(focused) && forall|j: int| 0 <= j < items.len() ==> !spec_outranks(#[trigger] items[j], focused),
{
    if items.len() > 0 {
        lemma_focus_is_top(items, items.len() as int);
        assert(items[focus_index(items, items.len() as int)] == focused);
    }
}


/// The workspace on fresh state: an attention item and a stronger anomaly
/// candidate are both admitted and the candidate is focused; the object
/// takes part in an item's identity; on a full tie of the ranking the
/// lower object wins; and a full workspace gives up a slot to a stronger
/// item, which is then focused.
pub fn self_test() -> (ok: bool)
    ensures
        ok,
{
    let attention = AttentionRecord {
        object_id: 10,
        semantic_id: semantic::ACTIVE,
        previous_state: semantic::INACTIVE,
        new_state: semantic::ACTIVE,
        context: 1,
        timestamp: 10,
        provenance: RelationProvenance { origin: 10, source: ProvenanceSource::Local, revision: 1 },
        score: 1000,
    };
    let candidate = CandidateRecord {
        kind: CandidateKind::Anomaly,
        semantic_id: semantic::ACTIVE,
        previous_state: semantic::ACTIVE,
        observed_state: semantic::FAILED,
        predicted_state: semantic::ACTIVE,
        context: 1,
        score_fixed: SCALE,
        uncertainty_fixed: 0,
        support: 3,
        timestamp: 11,
        provenance: RelationProvenance { origin: 11, source: ProvenanceSource::Local, revision: 2 },
        origin_object_id: 10,
    };
    let mut state = Workspace::new();
    let attention_item = from_attention(&attention);
    let candidate_item = from_candidate(&candidate);
    if !state.admit_item(attention_item) || !state.admit_item(candidate_item) {
        return false;
    }
    if count(&state) != 2 {
        return false;
    }
    let selected = state.focus();
    proof {
        assert(attention_item.salience_fixed == 10000);
        assert(candidate_item.salience_fixed == 20000);
        assert(state.items()[0] == attention_item);
        assert(state.items()[1] == candidate_item);
        assert(focus_index(state.items(), 1) == 0);
        assert(spec_outranks(state.items()[1], state.items()[0]));
        assert(focus_index(state.items(), 2) == 1);
    }
    if selected.source != WorkspaceSource::Subconscious || selected.current_state != semantic::FAILED {
        return false;
    }
    // The object is part of an item's identity.
    let mut other_object = candidate_item;
    other_object.object_id = 11;
    if key_from_item(&candidate_item) == key_from_item(&other_object) {
        return false;
    }
    // On a full tie of the ranking the lower object wins.
    let mut tie_state = Workspace::new();
    let mut a = candidate_item;
    let mut b = candidate_item;
    a.object_id = 20;
    b.object_id = 21;
    a.timestamp = 100;
    b.timestamp = 100;
    a.support = 3;
    b.support = 3;
    a.salience_fixed = 5000;
    b.salience_fixed = 5000;
    a.uncertainty_fixed = 5000;
    b.uncertainty_fixed = 5000;
    if !tie_state.admit_item(b) || !tie_state.admit_item(a) {
        return false;
    }
    proof {
        assert(tie_state.items()[0] == b);
        assert(tie_state.items()[1] == a);
        assert(focus_index(tie_state.items(), 1) == 0);
        assert(spec_outranks(a, b));
        assert(focus_index(tie_state.items(), 2) == 1);
    }
    if tie_state.focus().object_id != 20 {
        return false;
    }
    // A full workspace keeps the strongest item.
    let mut full = Workspace::new();
    let mut i: usize = 0;
    while i < MAX_WORKSPACE
        invariant
            i <= MAX_WORKSPACE,
            full.wf(),
            full.items().len() == i,
            forall|j: int| 0 <= j < i ==> #[trigger] full.items()[j].salience_fixed < MAX_WORKSPACE,
        decreases MAX_WORKSPACE - i,
    {
        let mut item = candidate_item;
        item.object_id = i as u64 + 100;
        item.salience_fixed = i as u32;
        item.timestamp = i as u64;
        if !full.admit_item(item) {
            return false;
        }
        i = i + 1;
    }
    let mut strongest = candidate_item;
    strongest.object_id = 999;
    strongest.salience_fixed = SCALE;
    let ghost before = full.items();
    proof {
        lemma_worst_upto(before, MAX_WORKSPACE as int);
    }
    if !full.admit_item(strongest) {
        return false;
    }
    let top = full.focus();
    proof {
        let items = full.items();
        let w = worst_upto(before, MAX_WORKSPACE as int);
        assert(items == before.update(w, strongest));
        lemma_focus_is_top(items, items.len() as int);
        let fi = focus_index(items, items.len() as int);
        assert(!spec_outranks(items[w], items[fi]));
        if fi != w {
            assert(items[fi] == before[fi]);
            assert(before[fi].salience_fixed < MAX_WORKSPACE);
        }
    }
    if top.object_id != 999 {
        return false;
    }
    true
}

} // verus!
