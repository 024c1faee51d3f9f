//! GNOSIS transition transactions: a canonical object change, its semantic
//! delta and its journal record are committed together or not at all.
use vstd::prelude::*;
use crate::gnosis::delta::{self, DeltaError, DeltaQueue, SemanticDelta, delta_valid};
use crate::gnosis::objects::{self, KnowledgeObject, ObjectStore, StateTransition, spec_prepare, transition_valid};
use crate::gnosis::relation::{ProvenanceSource, RelationProvenance};
use crate::gnosis::semantic::{self, ObjectId, SemanticId};

verus! {

pub const MAX_PUBLISHED: usize = 64;

#[derive(Clone, Copy, Debug, PartialEq, Eq, Structural)]
pub enum PublishError {
    Invalid,
    Full,
    Busy,
}

#[derive(Clone, Copy, Debug, PartialEq, Eq, Structural)]
pub enum PublishResult {
    Published,
    AlreadyPublished,
}

#[derive(Clone, Copy, Debug, PartialEq, Eq, Structural)]
pub enum TransitionResult {
    Published(StateTransition),
    AlreadyPublished(StateTransition),
}

/// One published transition with its provenance.
#[derive(Clone, Copy, Debug, PartialEq, Eq, Structural)]
pub struct PublicationRecord {
    pub transition: StateTransition,
    pub provenance: RelationProvenance,
}

/// The publication journal: every transition published so far, in order.
pub struct Journal {
    records: Vec<PublicationRecord>,
}

impl Journal {
    pub closed spec fn records(&self) -> Seq<PublicationRecord> {
        self.records@
    }

    pub open spec fn wf(&self) -> bool {
        self.records().len() <= MAX_PUBLISHED
    }

    /// Whether the pair was published before.
    pub open spec fn has(&self, transition: StateTransition, provenance: RelationProvenance) -> bool {
        exists|i: int|
            0 <= i < self.records().len() && #[trigger] self.records()[i] == (PublicationRecord {
                transition,
                provenance,
            })
    }

    /// An empty journal.
    pub fn new() -> (j: Self)
        ensures
            j.wf(),
            j.records() == Seq::<PublicationRecord>::empty(),
    {
        Journal { records: Vec::new() }
    }
}

pub open spec fn publication_provenance_valid(p: RelationProvenance) -> bool {
    p.revision != 0
}

fn provenance_ok(provenance: &RelationProvenance) -> (r: bool)
    ensures
        r == publication_provenance_valid(*provenance),
{
    let known = match provenance.source {
        ProvenanceSource::Local => true,
        ProvenanceSource::Remote => true,
        ProvenanceSource::Recovered => true,
    };
    provenance.revision != 0 && known
}

fn transition_ok(transition: &StateTransition) -> (r: bool)
    ensures
        r == transition_valid(*transition),
{
    transition.object_id != 0 && crate::gnosis::semantic::is_valid(transition.semantic_id)
        && crate::gnosis::semantic::is_valid(transition.previous_state) && crate::gnosis::semantic::is_valid(
        transition.new_state,
    ) && transition.previous_state != transition.new_state && transition.version != 0
}

/// The delta that records a transition.
pub open spec fn delta_of(t: StateTransition, provenance: RelationProvenance) -> SemanticDelta {
    SemanticDelta {
        object_id: t.object_id,
        semantic_id: t.semantic_id,
        previous_state: t.previous_state,
        new_state: t.new_state,
        context: t.context,
        timestamp: t.timestamp,
        provenance,
    }
}

fn make_delta(t: &StateTransition, provenance: RelationProvenance) -> (d: SemanticDelta)
    ensures
        d == delta_of(*t, provenance),
{
    SemanticDelta {
        object_id: t.object_id,
        semantic_id: t.semantic_id,
        previous_state: t.previous_state,
        new_state: t.new_state,
        context: t.context,
        timestamp: t.timestamp,
        provenance,
    }
}

fn find_record(journal: &Journal, transition: &StateTransition, provenance: &RelationProvenance) -> (r: bool)
    ensures
        r == journal.has(*transition, *provenance),
{
    let mut index: usize = 0;
    while index < journal.records.len()
        invariant
            0 <= index <= journal.records@.len(),
            forall|i: int|
                0 <= i < index ==> #[trigger] journal.records@[i] != (PublicationRecord {
                    transition: *transition,
                    provenance: *provenance,
                }),
        decreases journal.records@.len() - index,
    {
        let record = journal.records[index];
        if record.transition == *transition && record.provenance == *provenance {
            assert(journal.records@[index as int] == PublicationRecord { transition: *transition, provenance: *provenance });
            return true;
        }
        index = index + 1;
    }
    false
}

/// Number of journal records.
pub fn count(journal: &Journal) -> (n: usize)
    ensures
        n == journal.records().len(),
{
    journal.records.len()
}

/// The journal's fixed capacity.
pub fn capacity() -> (n: usize)
    ensures
        n == MAX_PUBLISHED,
{
    MAX_PUBLISHED
}

/// Forgets every record.
pub fn clear(journal: &mut Journal)
    ensures
        final(journal).wf(),
        final(journal).records() == Seq::<PublicationRecord>::empty(),
{
    journal.records = Vec::new();
}

fn append(journal: &mut Journal, transition: StateTransition, provenance: RelationProvenance)
    requires
        old(journal).records().len() < MAX_PUBLISHED,
    ensures
        final(journal).records() == old(journal).records().push(PublicationRecord { transition, provenance }),
{
    journal.records.push(PublicationRecord { transition, provenance });
}

/// Publishes an already prepared transition: records its delta and its
/// journal entry, or neither.
pub fn publish(
    journal: &mut Journal,
    queue: &mut DeltaQueue,
    transition: StateTransition,
    provenance: RelationProvenance,
) -> (r: Result<PublishResult, PublishError>)
    requires
        old(journal).wf(),
        old(queue).wf(),
    ensures
        final(journal).wf(),
        final(queue).wf(),
        final(queue).is_reserved() == old(queue).is_reserved(),
        final(queue).observer_count() == old(queue).observer_count(),
        final(queue).head_index() == old(queue).head_index(),
        !transition_valid(transition) || !publication_provenance_valid(provenance) ==> r == Err::<
            PublishResult,
            PublishError,
        >(PublishError::Invalid),
        transition_valid(transition) && publication_provenance_valid(provenance) ==> {
            if old(journal).has(transition, provenance) {
                r == Ok::<PublishResult, PublishError>(PublishResult::AlreadyPublished)
            } else if old(journal).records().len() >= MAX_PUBLISHED {
                r == Err::<PublishResult, PublishError>(PublishError::Full)
            } else if old(queue).busy() {
                r == Err::<PublishResult, PublishError>(PublishError::Busy)
            } else if old(queue).contents().len() >= delta::MAX_DELTAS {
                r == Err::<PublishResult, PublishError>(PublishError::Full)
            } else {
                r == Ok::<PublishResult, PublishError>(PublishResult::Published)
            }
        },
        r == Ok::<PublishResult, PublishError>(PublishResult::Published) ==> final(queue).contents() == old(
            queue,
        ).contents().push(delta_of(transition, provenance)) && final(journal).records() == old(
            journal,
        ).records().push(PublicationRecord { transition, provenance }),
        r != Ok::<PublishResult, PublishError>(PublishResult::Published) ==> final(queue).contents() == old(
            queue,
        ).contents() && final(journal).records() == old(journal).records(),
{
    if !transition_ok(&transition) || !provenance_ok(&provenance) {
        return Err(PublishError::Invalid);
    }
    if find_record(journal, &transition, &provenance) {
        return Ok(PublishResult::AlreadyPublished);
    }
    if journal.records.len() >= MAX_PUBLISHED {
        return Err(PublishError::Full);
    }
    let reservation = match delta::reserve(queue) {
        Ok(value) => value,
        Err(DeltaError::Full) => {
            return Err(PublishError::Full);
        },
        Err(DeltaError::Busy) => {
            return Err(PublishError::Busy);
        },
        Err(DeltaError::Invalid) => {
            return Err(PublishError::Invalid);
        },
    };
    let d = make_delta(&transition, provenance);
    match delta::commit_reserved(queue, reservation, d) {
        Ok(_) => {
            append(journal, transition, provenance);
            Ok(PublishResult::Published)
        },
        Err(DeltaError::Invalid) => {
            delta::cancel_reservation(queue, reservation);
            Err(PublishError::Invalid)
        },
        Err(DeltaError::Full) => {
            delta::cancel_reservation(queue, reservation);
            Err(PublishError::Full)
        },
        Err(DeltaError::Busy) => {
            delta::cancel_reservation(queue, reservation);
            Err(PublishError::Busy)
        },
    }
}

/// Publishes with local provenance.
pub fn publish_local(
    journal: &mut Journal,
    queue: &mut DeltaQueue,
    transition: StateTransition,
    origin: u64,
    revision: u64,
) -> (r: Result<PublishResult, PublishError>)
    requires
        old(journal).wf(),
        old(queue).wf(),
    ensures
        final(journal).wf(),
        final(queue).wf(),
        ({
            let p = RelationProvenance { origin, source: ProvenanceSource::Local, revision };
            &&& !transition_valid(transition) || revision == 0 ==> r == Err::<PublishResult, PublishError>(
                PublishError::Invalid,
            )
            &&& transition_valid(transition) && revision != 0 ==> {
                if old(journal).has(transition, p) {
                    r == Ok::<PublishResult, PublishError>(PublishResult::AlreadyPublished)
                } else if old(journal).records().len() >= MAX_PUBLISHED {
                    r == Err::<PublishResult, PublishError>(PublishError::Full)
                } else if old(queue).busy() {
                    r == Err::<PublishResult, PublishError>(PublishError::Busy)
                } else if old(queue).contents().len() >= delta::MAX_DELTAS {
                    r == Err::<PublishResult, PublishError>(PublishError::Full)
                } else {
                    r == Ok::<PublishResult, PublishError>(PublishResult::Published)
                }
            }
            &&& r == Ok::<PublishResult, PublishError>(PublishResult::Published) ==> final(queue).contents()
                == old(queue).contents().push(delta_of(transition, p)) && final(journal).records() == old(
                journal,
            ).records().push(PublicationRecord { transition, provenance: p })
            &&& r != Ok::<PublishResult, PublishError>(PublishResult::Published) ==> final(queue).contents()
                == old(queue).contents() && final(journal).records() == old(journal).records()
        }),
{
    publish(journal, queue, transition, RelationProvenance { origin, source: ProvenanceSource::Local, revision })
}

/// The outcome of a transition transaction, before its effects.
pub open spec fn transaction_outcome(
    journal: Journal,
    queue: DeltaQueue,
    store: ObjectStore,
    object_id: ObjectId,
    new_state: SemanticId,
    timestamp: u64,
    provenance: RelationProvenance,
) -> Result<TransitionResult, PublishError> {
    if !publication_provenance_valid(provenance) {
        Err(PublishError::Invalid)
    } else {
        match spec_prepare(store, object_id, new_state, timestamp) {
            None => Err(PublishError::Invalid),
            Some(t) => if journal.has(t, provenance) {
                Ok(TransitionResult::AlreadyPublished(t))
            } else if journal.records().len() >= MAX_PUBLISHED {
                Err(PublishError::Full)
            } else if queue.busy() {
                Err(PublishError::Busy)
            } else if queue.contents().len() >= delta::MAX_DELTAS {
                Err(PublishError::Full)
            } else if !objects::commit_succeeds(store, t) {
                Err(PublishError::Busy)
            } else {
                Ok(TransitionResult::Published(t))
            },
        }
    }
}

/// Moves object `object_id` to `new_state` and publishes the change. The
/// object, the delta queue and the journal all change, or none does.
pub fn transition_and_publish(
    journal: &mut Journal,
    queue: &mut DeltaQueue,
    store: &mut ObjectStore,
    object_id: ObjectId,
    new_state: SemanticId,
    timestamp: u64,
    provenance: RelationProvenance,
) -> (r: Result<TransitionResult, PublishError>)
    requires
        old(journal).wf(),
        old(queue).wf(),
    ensures
        final(journal).wf(),
        final(queue).wf(),
        final(queue).is_reserved() == old(queue).is_reserved(),
        final(queue).observer_count() == old(queue).observer_count(),
        final(queue).head_index() == old(queue).head_index(),
        r == transaction_outcome(*old(journal), *old(queue), *old(store), object_id, new_state, timestamp, provenance),
        r matches Ok(TransitionResult::Published(t)) ==> {
            &&& objects::committed(*old(store), *final(store), t)
            &&& final(queue).contents() == old(queue).contents().push(delta_of(t, provenance))
            &&& final(journal).records() == old(journal).records().push(PublicationRecord { transition: t, provenance })
        },
        !(r matches Ok(TransitionResult::Published(_))) ==> {
            &&& *final(store) == *old(store)
            &&& final(queue).contents() == old(queue).contents()
            &&& final(journal).records() == old(journal).records()
        },
{
    if !provenance_ok(&provenance) {
        return Err(PublishError::Invalid);
    }
    let prepared = match objects::prepare_transition(store, object_id, new_state, timestamp) {
        Some(value) => value,
        None => {
            return Err(PublishError::Invalid);
        },
    };
    if find_record(journal, &prepared, &provenance) {
        return Ok(TransitionResult::AlreadyPublished(prepared));
    }
    if journal.records.len() >= MAX_PUBLISHED {
        return Err(PublishError::Full);
    }
    let reservation = match delta::reserve(queue) {
        Ok(value) => value,
        Err(DeltaError::Full) => {
            return Err(PublishError::Full);
        },
        Err(DeltaError::Busy) => {
            return Err(PublishError::Busy);
        },
        Err(DeltaError::Invalid) => {
            return Err(PublishError::Invalid);
        },
    };
    if !objects::commit_transition(store, prepared) {
        delta::cancel_reservation(queue, reservation);
        return Err(PublishError::Busy);
    }
    let d = make_delta(&prepared, provenance);
    assert(delta_valid(d));
    match delta::commit_reserved(queue, reservation, d) {
        Ok(_) => {},
        Err(_) => {
            return Err(PublishError::Busy);
        },
    }
    append(journal, prepared, provenance);
    Ok(TransitionResult::Published(prepared))
}

/// Once a transaction has moved an object to a state, the same request
/// again is refused as invalid, whatever the journal and queue hold then:
/// a state change is published once.
pub proof fn law_transaction_not_repeated(
    journal: Journal,
    queue: DeltaQueue,
    store: ObjectStore,
    after: ObjectStore,
    later_journal: Journal,
    later_queue: DeltaQueue,
    object_id: ObjectId,
    new_state: SemanticId,
    timestamp: u64,
    later_timestamp: u64,
    provenance: RelationProvenance,
    t: StateTransition,
)
    requires
        transaction_outcome(journal, queue, store, object_id, new_state, timestamp, provenance) == Ok::<
            TransitionResult,
            PublishError,
        >(TransitionResult::Published(t)),
        objects::committed(store, after, t),
    ensures
        transaction_outcome(later_journal, later_queue, after, object_id, new_state, later_timestamp, provenance)
            == Err::<TransitionResult, PublishError>(PublishError::Invalid),
{
    objects::lemma_object_slot(store.slots(), object_id, 0);
    objects::law_transition_not_repeated(store, after, t, later_timestamp);
}


/// Transactions on fresh state: a valid transition publishes one journal
/// record and one delta and advances the object; repeating it publishes
/// nothing new; an unrevisioned provenance and a transition that does not
/// change state are refused as invalid; the delta carries the transition
/// and its provenance; and a full journal refuses before the object
/// changes. Returns whether every check held.
pub fn self_test() -> (ok: bool) {
    let mut journal = Journal::new();
    let mut queue = DeltaQueue::new();
    let mut store = ObjectStore::new();
    let object = KnowledgeObject {
        id: 7,
        semantic_type: semantic::STATE_OBJECT,
        state: semantic::READY,
        context: 77,
        flags: objects::FLAG_ACTIVE,
        version: objects::CURRENT_VERSION,
    };
    if !objects::insert(&mut store, object) {
        return false;
    }
    let provenance = RelationProvenance { origin: 99, source: ProvenanceSource::Local, revision: 1 };
    let transition = match transition_and_publish(&mut journal, &mut queue, &mut store, object.id, semantic::ACTIVE, 1234, provenance) {
        Ok(TransitionResult::Published(value)) => value,
        _ => {
            return false;
        },
    };
    if transition.previous_state != semantic::READY || transition.new_state != semantic::ACTIVE
        || transition.version as u32 != object.version as u32 + 1 || count(&journal) != 1 || delta::count(&queue) != 1
    {
        return false;
    }
    match objects::with_object(&store, object.id) {
        Some(value) => {
            if value.state != semantic::ACTIVE || value.version != transition.version {
                return false;
            }
        },
        None => {
            return false;
        },
    }
    let duplicate = transition_and_publish(&mut journal, &mut queue, &mut store, object.id, semantic::ACTIVE, 1234, provenance);
    if duplicate.is_ok() {
        return false;
    }
    let invalid_provenance = RelationProvenance { origin: 99, source: ProvenanceSource::Local, revision: 0 };
    match transition_and_publish(&mut journal, &mut queue, &mut store, object.id, semantic::READY, 1235, invalid_provenance) {
        Err(PublishError::Invalid) => {},
        _ => {
            return false;
        },
    }
    let mut invalid = transition;
    invalid.previous_state = transition.new_state;
    match publish(&mut journal, &mut queue, invalid, provenance) {
        Err(PublishError::Invalid) => {},
        _ => {
            return false;
        },
    }
    let queued = delta::for_each(&mut queue);
    let expected = SemanticDelta {
        object_id: transition.object_id,
        semantic_id: transition.semantic_id,
        previous_state: transition.previous_state,
        new_state: transition.new_state,
        context: transition.context,
        timestamp: transition.timestamp,
        provenance,
    };
    if queued.len() != 1 || queued[0] != expected {
        return false;
    }
    // A full journal refuses before the object changes, though the delta
    // queue still has room.
    let mut journal = Journal::new();
    let mut queue = DeltaQueue::new();
    let mut store = ObjectStore::new();
    let fill_provenance = RelationProvenance { origin: 700, source: ProvenanceSource::Local, revision: 1 };
    let mut fill: usize = 0;
    while fill < MAX_PUBLISHED
        invariant
            journal.wf(),
            queue.wf(),
            fill <= MAX_PUBLISHED,
        decreases MAX_PUBLISHED - fill,
    {
        let record = StateTransition {
            object_id: 10_000 + fill as u64,
            semantic_id: semantic::ACTIVE,
            previous_state: semantic::READY,
            new_state: semantic::ACTIVE,
            context: fill as u64,
            timestamp: 2_000 + fill as u64,
            version: 1,
        };
        match publish(&mut journal, &mut queue, record, fill_provenance) {
            Ok(PublishResult::Published) => {},
            _ => {
                return false;
            },
        }
        if delta::pop(&mut queue).is_none() {
            return false;
        }
        fill = fill + 1;
    }
    let blocked = KnowledgeObject {
        id: 77,
        semantic_type: semantic::STATE_OBJECT,
        state: semantic::READY,
        context: 77,
        flags: objects::FLAG_ACTIVE,
        version: objects::CURRENT_VERSION,
    };
    if !objects::insert(&mut store, blocked) {
        return false;
    }
    match transition_and_publish(&mut journal, &mut queue, &mut store, blocked.id, semantic::ACTIVE, 9_999, provenance) {
        Err(PublishError::Full) => {},
        _ => {
            return false;
        },
    }
    match objects::with_object(&store, blocked.id) {
        Some(value) => value.state == semantic::READY && value.version == blocked.version,
        None => false,
    }
}

} // verus!
