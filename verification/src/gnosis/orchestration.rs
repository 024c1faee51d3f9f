//! GNOSIS cycle orchestration: one bounded pass that stages the canonical
//! delta queue into attention, lets the subconscious consume the deltas and
//! lets the conscious workspace observe the derived state; and the
//! transition transaction seen from the cycle's side.
use vstd::prelude::*;
use crate::gnosis::attention::{self, AttentionError, AttentionQueue, AttentionRecord, MAX_ATTENTION, record_of};
use crate::gnosis::conscious::{self, ConsciousReport, Workspace};
use crate::gnosis::delta::{self, DeltaQueue, SemanticDelta, delta_valid};
use crate::gnosis::objects::{self, KnowledgeObject, ObjectStore};
use crate::gnosis::relation::{ProvenanceSource, RelationProvenance};
use crate::gnosis::semantic::{self, ObjectId, SemanticId};
use crate::gnosis::subconscious::{
    self,
    CandidateRecord,
    SubconsciousEngine,
    SubconsciousReport,
    batch_limit,
    report_inv,
};
use crate::gnosis::transition::{self, Journal, PublishError, TransitionResult, transaction_outcome};
use crate::gnosis::trust::{self, AuthorizationDecision, AuthorizationRequest, TrustRegistry};

verus! {

/// Work units the staging phase may spend: two per delta of a full queue,
/// and two to spare.
pub const MAX_WORK: usize = 130;

/// Deltas staged by one cycle at most.
pub const MAX_DELTAS: usize = 64;

/// What one cycle did.
#[derive(Clone, Copy, Debug, PartialEq, Eq, Structural)]
pub struct GnosisCycleReport {
    pub deltas_observed: usize,
    pub attention_admitted: usize,
    pub attention_rejected: usize,
    pub attention_full: usize,
    pub subconscious: SubconsciousReport,
    pub conscious: ConsciousReport,
    /// Work spent by the staging phase itself.
    pub orchestration_work_used: usize,
    pub orchestration_work_budget: usize,
    pub stopped_by_budget: bool,
}

impl GnosisCycleReport {
    pub fn empty() -> (r: Self)
        ensures
            r.deltas_observed == 0,
            r.attention_admitted == 0,
            r.attention_rejected == 0,
            r.attention_full == 0,
            r.subconscious == subconscious::empty_report(),
            r.orchestration_work_used == 0,
            r.orchestration_work_budget == MAX_WORK,
            !r.stopped_by_budget,
    {
        GnosisCycleReport {
            deltas_observed: 0,
            attention_admitted: 0,
            attention_rejected: 0,
            attention_full: 0,
            subconscious: SubconsciousReport::empty(),
            conscious: ConsciousReport::empty(),
            orchestration_work_used: 0,
            orchestration_work_budget: MAX_WORK,
            stopped_by_budget: false,
        }
    }
}

/// Spends `amount` work units; where that would pass `MAX_WORK` nothing is
/// spent, the report is marked stopped and false comes back.
fn charge(report: &mut GnosisCycleReport, amount: usize) -> (ok: bool)
    ensures
        ok == (old(report).orchestration_work_used + amount <= MAX_WORK),
        ok ==> *final(report) == (GnosisCycleReport {
            orchestration_work_used: (old(report).orchestration_work_used + amount) as usize,
            ..*old(report)
        }),
        !ok ==> *final(report) == (GnosisCycleReport { stopped_by_budget: true, ..*old(report) }),
{
    let next = report.orchestration_work_used.saturating_add(amount);
    if next > MAX_WORK {
        report.stopped_by_budget = true;
        return false;
    }
    report.orchestration_work_used = next;
    true
}

/// The attention queue after the deltas `ds` were pushed in order at time
/// `now`: a valid delta enters while there is room.
pub open spec fn staged(q: Seq<AttentionRecord>, ds: Seq<SemanticDelta>, now: u64) -> Seq<AttentionRecord>
    decreases ds.len(),
{
    if ds.len() == 0 {
        q
    } else {
        let before = staged(q, ds.drop_last(), now);
        let d = ds.last();
        if delta_valid(d) && before.len() < MAX_ATTENTION {
            before.push(record_of(d, now))
        } else {
            before
        }
    }
}

/// How many of the deltas `ds` attention refused as invalid.
pub open spec fn staged_invalid(ds: Seq<SemanticDelta>) -> nat
    decreases ds.len(),
{
    if ds.len() == 0 {
        0
    } else {
        staged_invalid(ds.drop_last()) + (if delta_valid(ds.last()) { 0nat } else { 1nat })
    }
}

/// How many of the deltas `ds` found the attention queue full.
pub open spec fn staged_full(q: Seq<AttentionRecord>, ds: Seq<SemanticDelta>, now: u64) -> nat
    decreases ds.len(),
{
    if ds.len() == 0 {
        0
    } else {
        staged_full(q, ds.drop_last(), now) + (if delta_valid(ds.last()) && staged(
            q,
            ds.drop_last(),
            now,
        ).len() >= MAX_ATTENTION {
            1nat
        } else {
            0nat
        })
    }
}

proof fn lemma_staged_counts(q: Seq<AttentionRecord>, ds: Seq<SemanticDelta>, now: u64)
    ensures
        staged(q, ds, now).len() + staged_invalid(ds) + staged_full(q, ds, now) == q.len()
            + ds.len(),
        q.len() <= staged(q, ds, now).len(),
    decreases ds.len(),
{
    if ds.len() > 0 {
        lemma_staged_counts(q, ds.drop_last(), now);
    }
}

/// Runs one cycle: stages every queued delta, oldest first, into attention
/// at time `now`; lets the subconscious consume the delta queue; lets the
/// workspace observe attention and the subconscious candidates.
pub fn process_cycle(
    deltas: &mut DeltaQueue,
    attention: &mut AttentionQueue,
    engine: &mut SubconsciousEngine,
    workspace: &mut Workspace,
    now: u64,
) -> (r: GnosisCycleReport)
    requires
        old(deltas).wf(),
        old(attention).wf(),
        old(engine).wf(),
        old(workspace).wf(),
    ensures
        final(deltas).wf(),
        final(attention).wf(),
        final(engine).wf(),
        final(workspace).wf(),
        ({
            let ds = old(deltas).contents();
            let q = old(attention).contents();
            let k = if old(deltas).busy() { 0 } else { batch_limit(ds.len() as int) };
            &&& r.deltas_observed == ds.len()
            &&& final(attention).contents() == staged(q, ds, now)
            &&& r.attention_admitted == staged(q, ds, now).len() - q.len()
            &&& r.attention_rejected == staged_invalid(ds)
            &&& r.attention_full == staged_full(q, ds, now)
            &&& r.orchestration_work_used == 2 * ds.len()
            &&& r.orchestration_work_budget == MAX_WORK
            &&& !r.stopped_by_budget
            &&& final(deltas).contents() == ds.skip(k)
            &&& report_inv(r.subconscious)
            &&& r.subconscious.observations_seen <= k
            &&& !r.subconscious.provisional ==> r.subconscious.observations_seen == k
            &&& r.conscious.workspace_count == final(workspace).items().len()
            &&& r.conscious.work_used <= conscious::MAX_WORK
        }),
{
    let mut report = GnosisCycleReport::empty();
    let mut snapshot: [Option<SemanticDelta>; 64] = [None; 64];
    let count = delta::snapshot_fifo_into(deltas, &mut snapshot);
    let ghost ds = deltas.contents();
    let ghost q = attention.contents();
    proof {
        deltas.lemma_len_bound();
        attention.lemma_len_bound();
        lemma_staged_counts(q, ds.subrange(0, 0), now);
        assert(ds.subrange(0, 0) =~= Seq::<SemanticDelta>::empty());
    }
    let mut offset: usize = 0;
    while offset < count
        invariant
            0 <= offset <= count,
            count == ds.len(),
            count <= 64,
            attention.wf(),
            forall|i: int| 0 <= i < count ==> #[trigger] snapshot@[i] == Some(ds[i]),
            attention.contents() == staged(q, ds.subrange(0, offset as int), now),
            report.deltas_observed == offset,
            report.attention_admitted == attention.contents().len() - q.len(),
            report.attention_rejected == staged_invalid(ds.subrange(0, offset as int)),
            report.attention_full == staged_full(q, ds.subrange(0, offset as int), now),
            report.orchestration_work_used == 2 * offset,
            report.orchestration_work_budget == MAX_WORK,
            !report.stopped_by_budget,
            q.len() <= attention.contents().len(),
            attention.contents().len() <= MAX_ATTENTION,
        decreases count - offset,
    {
        let ghost before = ds.subrange(0, offset as int);
        let ghost next = ds.subrange(0, offset + 1);
        proof {
            assert(next.drop_last() =~= before);
            assert(next.last() == ds[offset as int]);
            attention.lemma_len_bound();
            lemma_staged_counts(q, before, now);
        }
        if !charge(&mut report, 1) {
            return report;
        }
        match snapshot[offset] {
            Some(d) => {
                report.deltas_observed = report.deltas_observed + 1;
                if !charge(&mut report, 1) {
                    return report;
                }
                match attention::push(attention, d, now) {
                    Ok(_) => {
                        report.attention_admitted = report.attention_admitted + 1;
                    },
                    Err(AttentionError::Full) => {
                        report.attention_full = report.attention_full + 1;
                    },
                    Err(AttentionError::Invalid) => {
                        report.attention_rejected = report.attention_rejected + 1;
                    },
                }
            },
            None => {},
        }
        proof {
            attention.lemma_len_bound();
        }
        offset = offset + 1;
    }
    proof {
        assert(ds.subrange(0, ds.len() as int) =~= ds);
    }
    report.subconscious = subconscious::process_pending(engine, deltas);
    let records = attention::for_each(attention);
    let mut buffer: Vec<CandidateRecord> = Vec::new();
    let mut fill: usize = 0;
    while fill < subconscious::MAX_CANDIDATES
        invariant
            0 <= fill <= subconscious::MAX_CANDIDATES,
            buffer@.len() == fill,
        decreases subconscious::MAX_CANDIDATES - fill,
    {
        buffer.push(CandidateRecord::empty());
        fill = fill + 1;
    }
    let n = subconscious::latest_candidates(engine, buffer.as_mut_slice());
    let mut candidates: Vec<CandidateRecord> = Vec::new();
    let mut index: usize = 0;
    while index < n
        invariant
            0 <= index <= n,
            n <= buffer@.len(),
            candidates@.len() == index,
        decreases n - index,
    {
        candidates.push(buffer[index]);
        index = index + 1;
    }
    report.conscious = conscious::process(workspace, records.as_slice(), candidates.as_slice());
    report
}

/// What one transition transaction came to.
#[derive(Clone, Copy, Debug, PartialEq, Eq, Structural)]
pub enum TransitionCycleResult {
    Published,
    AlreadyPublished,
    Invalid,
    Full,
    Busy,
}

/// The cycle's reading of a transaction outcome.
pub open spec fn cycle_result(outcome: Result<TransitionResult, PublishError>) -> TransitionCycleResult {
    match outcome {
        Ok(TransitionResult::Published(_)) => TransitionCycleResult::Published,
        Ok(TransitionResult::AlreadyPublished(_)) => TransitionCycleResult::AlreadyPublished,
        Err(PublishError::Invalid) => TransitionCycleResult::Invalid,
        Err(PublishError::Full) => TransitionCycleResult::Full,
        Err(PublishError::Busy) => TransitionCycleResult::Busy,
    }
}

/// The provenance of a local transition.
pub open spec fn local_provenance(origin: u64, revision: u64) -> RelationProvenance {
    RelationProvenance { origin, source: ProvenanceSource::Local, revision }
}

/// Moves object `object_id` to `new_state` and publishes the change with a
/// local provenance. An id of 0, an unknown state or a revision of 0 is
/// refused as invalid before anything is read; otherwise the transaction
/// decides, and the object, the delta queue and the journal change only
/// when it publishes.
pub fn transition_and_publish(
    journal: &mut Journal,
    queue: &mut DeltaQueue,
    store: &mut ObjectStore,
    object_id: ObjectId,
    new_state: SemanticId,
    timestamp: u64,
    origin: u64,
    revision: u64,
) -> (r: TransitionCycleResult)
    requires
        old(journal).wf(),
        old(queue).wf(),
    ensures
        final(journal).wf(),
        final(queue).wf(),
        (object_id == 0 || !semantic::spec_is_valid(new_state) || revision == 0) ==> {
            &&& r == TransitionCycleResult::Invalid
            &&& *final(store) == *old(store)
            &&& *final(queue) == *old(queue)
            &&& *final(journal) == *old(journal)
        },
        !(object_id == 0 || !semantic::spec_is_valid(new_state) || revision == 0) ==> r
            == cycle_result(
            transaction_outcome(
                *old(journal),
                *old(queue),
                *old(store),
                object_id,
                new_state,
                timestamp,
                local_provenance(origin, revision),
            ),
        ),
        r != TransitionCycleResult::Published ==> {
            &&& *final(store) == *old(store)
            &&& final(queue).contents() == old(queue).contents()
            &&& final(journal).records() == old(journal).records()
        },
{
    if object_id == 0 || !semantic::is_valid(new_state) || revision == 0 {
        return TransitionCycleResult::Invalid;
    }
    let provenance = RelationProvenance { origin, source: ProvenanceSource::Local, revision };
    match transition::transition_and_publish(journal, queue, store, object_id, new_state, timestamp, provenance) {
        Ok(TransitionResult::Published(_)) => TransitionCycleResult::Published,
        Ok(TransitionResult::AlreadyPublished(_)) => TransitionCycleResult::AlreadyPublished,
        Err(PublishError::Invalid) => TransitionCycleResult::Invalid,
        Err(PublishError::Full) => TransitionCycleResult::Full,
        Err(PublishError::Busy) => TransitionCycleResult::Busy,
    }
}


/// A state-object delta of `object` from `previous` to `next`, stamped local.
fn state_delta(object: &KnowledgeObject, previous: SemanticId, next: SemanticId, timestamp: u64, revision: u64) -> (d: SemanticDelta) {
    SemanticDelta {
        object_id: object.id,
        semantic_id: semantic::STATE_OBJECT,
        previous_state: previous,
        new_state: next,
        context: object.context,
        timestamp,
        provenance: RelationProvenance { origin: object.id, source: ProvenanceSource::Local, revision },
    }
}

/// The local cognitive loop end to end on fresh state: a canonical object
/// moves READY -> ACTIVE through `transition_and_publish`; the one published
/// delta is read through a detached snapshot and handed to attention and to
/// the subconscious without consuming the queue; the subconscious offers a
/// candidate for it, the workspace admits what it observes, the candidate is
/// fresh until a later transition makes it stale, and an unknown principal
/// is refused authority. Nothing is executed. Returns whether every check held.
pub fn local_cognitive_loop_gtest() -> (ok: bool) {
    let mut store = ObjectStore::new();
    let mut journal = Journal::new();
    let mut deltas = DeltaQueue::new();
    let mut attention_queue = AttentionQueue::new();
    let mut engine = SubconsciousEngine::new();
    let mut workspace = Workspace::new();
    let registry = TrustRegistry::new();
    let object = KnowledgeObject {
        id: 0x7A0,
        semantic_type: semantic::STATE_OBJECT,
        state: semantic::READY,
        context: 77,
        flags: objects::FLAG_ACTIVE,
        version: objects::CURRENT_VERSION,
    };
    // The canonical object begins READY.
    if !objects::insert(&mut store, object) {
        return false;
    }
    let initial_version: u16 = match objects::with_object(&store, object.id) {
        Some(value) => {
            if value.state != semantic::READY || value.version != objects::CURRENT_VERSION {
                return false;
            }
            value.version
        },
        None => {
            return false;
        },
    };
    // Prime the learner with detached training observations.
    let training = vec![
        state_delta(&object, semantic::READY, semantic::ACTIVE, 100, initial_version as u64),
        state_delta(&object, semantic::READY, semantic::ACTIVE, 101, initial_version as u64),
        state_delta(&object, semantic::READY, semantic::ACTIVE, 102, initial_version as u64),
    ];
    let training_report = subconscious::process(&mut engine, training.as_slice());
    if training_report.valid_observations != training.len() {
        return false;
    }
    // A valid canonical READY -> ACTIVE transition.
    let expected_version: u16 = initial_version.saturating_add(1);
    if expected_version == initial_version || expected_version == 0 {
        return false;
    }
    let published = transition_and_publish(&mut journal, &mut deltas, &mut store, object.id, semantic::ACTIVE, 900, object.id, expected_version as u64);
    if published != TransitionCycleResult::Published {
        return false;
    }
    // Exactly one delta and one publication exist.
    if delta::count(&deltas) != 1 || transition::count(&journal) != 1 {
        return false;
    }
    let mut snapshot: [Option<SemanticDelta>; 64] = [None; 64];
    let snapshot_count = delta::snapshot_fifo_into(&deltas, &mut snapshot);
    if snapshot_count != 1 {
        return false;
    }
    let observed = match snapshot[0] {
        Some(value) => value,
        None => {
            return false;
        },
    };
    if !observed.is_valid() || observed.object_id != object.id || observed.previous_state != semantic::READY
        || observed.new_state != semantic::ACTIVE || observed.context != object.context
        || observed.provenance.revision != expected_version as u64
    {
        return false;
    }
    // The same detached delta goes to attention and to the subconscious;
    // the canonical queue keeps it.
    if attention::push(&mut attention_queue, observed, 900).is_err() {
        return false;
    }
    let single = vec![observed];
    let report = subconscious::process(&mut engine, single.as_slice());
    if report.valid_observations != 1 || delta::count(&deltas) != 1 {
        return false;
    }
    // The subconscious offers a candidate for the observed transition.
    let mut buffer: Vec<CandidateRecord> = Vec::new();
    let mut fill: usize = 0;
    while fill < subconscious::MAX_CANDIDATES
        invariant
            0 <= fill <= subconscious::MAX_CANDIDATES,
            buffer@.len() == fill,
        decreases subconscious::MAX_CANDIDATES - fill,
    {
        buffer.push(CandidateRecord::empty());
        fill = fill + 1;
    }
    let candidate_count = subconscious::latest_candidates(&engine, buffer.as_mut_slice());
    let mut offered: Vec<CandidateRecord> = Vec::new();
    let mut found: Option<CandidateRecord> = None;
    let mut index: usize = 0;
    while index < candidate_count
        invariant
            0 <= index <= candidate_count,
            candidate_count <= buffer@.len(),
        decreases candidate_count - index,
    {
        let value = buffer[index];
        offered.push(value);
        if found.is_none() && value.origin_object_id == object.id && value.timestamp == observed.timestamp
            && value.provenance.revision == expected_version as u64
        {
            found = Some(value);
        }
        index = index + 1;
    }
    let candidate = match found {
        Some(value) => value,
        None => {
            return false;
        },
    };
    // Derived processing left the canonical object as published.
    match objects::with_object(&store, object.id) {
        Some(value) => {
            if value.state != semantic::ACTIVE || value.version != expected_version {
                return false;
            }
        },
        None => {
            return false;
        },
    }
    let records = attention::for_each(&attention_queue);
    let conscious_report = conscious::process(&mut workspace, records.as_slice(), offered.as_slice());
    if conscious_report.workspace_count == 0 || delta::count(&deltas) != 1 {
        return false;
    }
    if subconscious::candidate_freshness(&store, &candidate) != subconscious::CandidateFreshness::Fresh {
        return false;
    }
    // A later canonical transition makes the earlier candidate stale.
    let stale_version: u16 = expected_version.saturating_add(1);
    if stale_version == expected_version || stale_version == 0 {
        return false;
    }
    let later = transition_and_publish(&mut journal, &mut deltas, &mut store, object.id, semantic::READY, 901, object.id, stale_version as u64);
    if later != TransitionCycleResult::Published {
        return false;
    }
    if subconscious::candidate_freshness(&store, &candidate) != subconscious::CandidateFreshness::Stale {
        return false;
    }
    // An unknown principal is refused authority.
    let request = AuthorizationRequest { principal_id: 0xFFFF, required_capability: 0, required_authority: 1, minimum_trust_fixed: 1 };
    if trust::authorize(&registry, request, None) != AuthorizationDecision::NoPrincipal {
        return false;
    }
    true
}

/// The orchestration boundary on fresh state: the local cognitive loop; a
/// transition that publishes; a transition refused by a full delta queue
/// before the object changes; and one cycle that stages two queued deltas
/// into attention, lets the subconscious consume the queue and lets the
/// workspace observe both, each layer within its own bound. Returns whether
/// every check held.
pub fn self_test() -> (ok: bool) {
    if !local_cognitive_loop_gtest() {
        return false;
    }
    let object = KnowledgeObject {
        id: 0x700,
        semantic_type: semantic::STATE_OBJECT,
        state: semantic::READY,
        context: 77,
        flags: objects::FLAG_ACTIVE,
        version: objects::CURRENT_VERSION,
    };
    // A transition publishes and advances the object.
    let mut store = ObjectStore::new();
    let mut journal = Journal::new();
    let mut deltas = DeltaQueue::new();
    if !objects::insert(&mut store, object) {
        return false;
    }
    if transition_and_publish(&mut journal, &mut deltas, &mut store, object.id, semantic::ACTIVE, 900, 55, 1) != TransitionCycleResult::Published {
        return false;
    }
    match objects::with_object(&store, object.id) {
        Some(value) => {
            if value.state != semantic::ACTIVE || value.version <= object.version {
                return false;
            }
        },
        None => {
            return false;
        },
    }
    if delta::count(&deltas) != 1 || transition::count(&journal) != 1 {
        return false;
    }
    // A full delta queue refuses before the object changes.
    let mut store = ObjectStore::new();
    let mut journal = Journal::new();
    let mut deltas = DeltaQueue::new();
    if !objects::insert(&mut store, object) {
        return false;
    }
    let mut fill: usize = 0;
    while fill < delta::MAX_DELTAS
        invariant
            deltas.wf(),
            fill <= delta::MAX_DELTAS,
        decreases delta::MAX_DELTAS - fill,
    {
        let record = SemanticDelta {
            object_id: 10_000 + fill as u64,
            semantic_id: semantic::ACTIVE,
            previous_state: semantic::READY,
            new_state: semantic::ACTIVE,
            context: 1,
            timestamp: fill as u64 + 1,
            provenance: RelationProvenance { origin: 1, source: ProvenanceSource::Local, revision: fill as u64 + 1 },
        };
        if delta::push(&mut deltas, record).is_err() {
            return false;
        }
        fill = fill + 1;
    }
    if transition_and_publish(&mut journal, &mut deltas, &mut store, object.id, semantic::ACTIVE, 901, 55, 2) != TransitionCycleResult::Full {
        return false;
    }
    match objects::with_object(&store, object.id) {
        Some(value) => {
            if value.state != object.state {
                return false;
            }
        },
        None => {
            return false;
        },
    }
    // One cycle stages both queued deltas and consumes the queue.
    let mut deltas = DeltaQueue::new();
    let mut attention_queue = AttentionQueue::new();
    let mut engine = SubconsciousEngine::new();
    let mut workspace = Workspace::new();
    let first = SemanticDelta {
        object_id: 0x11,
        semantic_id: semantic::ACTIVE,
        previous_state: semantic::INACTIVE,
        new_state: semantic::ACTIVE,
        context: 1,
        timestamp: 100,
        provenance: RelationProvenance { origin: 1, source: ProvenanceSource::Local, revision: 1 },
    };
    let second = SemanticDelta {
        object_id: 0x22,
        semantic_id: semantic::AVAILABLE,
        previous_state: semantic::UNAVAILABLE,
        new_state: semantic::AVAILABLE,
        context: 2,
        timestamp: 101,
        provenance: RelationProvenance { origin: 2, source: ProvenanceSource::Local, revision: 2 },
    };
    if delta::push(&mut deltas, first).is_err() {
        return false;
    }
    if delta::push(&mut deltas, second).is_err() {
        return false;
    }
    if delta::count(&deltas) != 2 {
        return false;
    }
    let report = process_cycle(&mut deltas, &mut attention_queue, &mut engine, &mut workspace, 0);
    if report.deltas_observed != 2 || report.attention_admitted != 2 || report.attention_rejected != 0 || report.attention_full != 0 {
        return false;
    }
    if delta::count(&deltas) != 0 || attention::count(&attention_queue) != 2 {
        return false;
    }
    let records = attention::for_each(&attention_queue);
    let mut saw_first = false;
    let mut saw_second = false;
    let mut index: usize = 0;
    while index < records.len()
        invariant
            0 <= index <= records@.len(),
        decreases records@.len() - index,
    {
        let record = records[index];
        if record.object_id == first.object_id && record.semantic_id == first.semantic_id
            && record.previous_state == first.previous_state && record.new_state == first.new_state
            && record.context == first.context && record.timestamp == first.timestamp
        {
            saw_first = true;
        }
        if record.object_id == second.object_id && record.semantic_id == second.semantic_id
            && record.previous_state == second.previous_state && record.new_state == second.new_state
            && record.context == second.context && record.timestamp == second.timestamp
        {
            saw_second = true;
        }
        index = index + 1;
    }
    if !saw_first || !saw_second || report.conscious.workspace_count < 2 {
        return false;
    }
    if report.orchestration_work_used > MAX_WORK || report.orchestration_work_budget != MAX_WORK {
        return false;
    }
    if report.subconscious.work_used > subconscious::MAX_WORK || report.conscious.work_used > conscious::MAX_WORK {
        return false;
    }
    true
}

} // verus!
