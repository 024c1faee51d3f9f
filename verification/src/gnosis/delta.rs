//! GNOSIS semantic delta engine: a fixed-capacity FIFO of derived state
//! transitions, with a single-slot reservation protocol and read-only
//! observation.
use vstd::prelude::*;
use crate::gnosis::relation::{ProvenanceSource, RelationProvenance};
use crate::gnosis::semantic::{self, ContextId, ObjectId, SemanticId, spec_is_valid};

verus! {

#[derive(Clone, Copy, Debug, PartialEq, Eq, Structural)]
pub enum DeltaError {
    Invalid,
    Full,
    Busy,
}

/// One recorded change of an object's semantic state.
#[derive(Clone, Copy, Debug, PartialEq, Eq, Structural)]
pub struct SemanticDelta {
    pub object_id: ObjectId,
    pub semantic_id: SemanticId,
    pub previous_state: SemanticId,
    pub new_state: SemanticId,
    pub context: ContextId,
    pub timestamp: u64,
    pub provenance: RelationProvenance,
}

pub open spec fn delta_valid(d: SemanticDelta) -> bool {
    &&& d.object_id != 0
    &&& spec_is_valid(d.semantic_id)
    &&& spec_is_valid(d.previous_state)
    &&& spec_is_valid(d.new_state)
    &&& d.previous_state != d.new_state
    &&& d.provenance.revision != 0
}

impl SemanticDelta {
    /// A delta names an object, uses known semantic IDs, really changes the
    /// state, and carries a nonzero provenance revision.
    pub fn is_valid(&self) -> (r: bool)
        ensures
            r == delta_valid(*self),
    {
        let known_source = match self.provenance.source {
            ProvenanceSource::Local => true,
            ProvenanceSource::Remote => true,
            ProvenanceSource::Recovered => true,
        };
        self.object_id != 0 && semantic::is_valid(self.semantic_id) && semantic::is_valid(
            self.previous_state,
        ) && semantic::is_valid(self.new_state) && self.previous_state != self.new_state
            && self.provenance.revision != 0 && known_source
    }
}

pub const MAX_DELTAS: usize = 64;
pub const CAPACITY: usize = 64;

/// Proof that the holder owns the single pending slot of the queue.
#[derive(Clone, Copy, Debug, PartialEq, Eq, Structural)]
pub struct DeltaReservation;

/// The delta queue: a ring of `MAX_DELTAS` slots.
pub struct DeltaQueue {
    slots: [Option<SemanticDelta>; 64],
    head: usize,
    count: usize,
    reserved: bool,
    observers: usize,
}

pub open spec fn ring(i: int) -> int {
    i % 64
}

impl DeltaQueue {
    pub closed spec fn raw(&self) -> Seq<Option<SemanticDelta>> {
        self.slots@
    }

    pub closed spec fn head_index(&self) -> nat {
        self.head as nat
    }

    pub closed spec fn is_reserved(&self) -> bool {
        self.reserved
    }

    pub closed spec fn observer_count(&self) -> nat {
        self.observers as nat
    }

    /// The queued deltas, oldest first.
    pub closed spec fn contents(&self) -> Seq<SemanticDelta> {
        Seq::new(self.count as nat, |i: int| self.slots@[ring(self.head + i)]->Some_0)
    }

    /// Producers and consumers are locked out while a slot is reserved or
    /// an observation is running.
    pub open spec fn busy(&self) -> bool {
        self.is_reserved() || self.observer_count() != 0
    }

    /// A well-formed queue holds at most `MAX_DELTAS` deltas.
    pub proof fn lemma_len_bound(&self)
        requires
            self.wf(),
        ensures
            self.contents().len() <= MAX_DELTAS,
    {
    }

    pub closed spec fn wf(&self) -> bool {
        &&& self.head < 64
        &&& self.count <= 64
        &&& forall|i: int| 0 <= i < self.count ==> (#[trigger] self.slots@[ring(self.head + i)]) is Some
    }

    /// An empty, idle queue.
    pub fn new() -> (q: Self)
        ensures
            q.wf(),
            q.contents() == Seq::<SemanticDelta>::empty(),
            q.head_index() == 0,
            !q.is_reserved(),
            q.observer_count() == 0,
            forall|i: int| 0 <= i < 64 ==> #[trigger] q.raw()[i] is None,
            q.raw().len() == 64,
    {
        let q = DeltaQueue { slots: [None; 64], head: 0, count: 0, reserved: false, observers: 0 };
        assert(q.contents() =~= Seq::<SemanticDelta>::empty());
        q
    }
}

proof fn lemma_ring_step(h: int, i: int)
    requires
        0 <= h < 64,
        0 <= i,
    ensures
        ring(ring(h + 1) + i) == ring(h + 1 + i),
{
    vstd::arithmetic::div_mod::lemma_add_mod_noop(h + 1, i, 64);
    vstd::arithmetic::div_mod::lemma_mod_twice(i, 64);
    vstd::arithmetic::div_mod::lemma_add_mod_noop(ring(h + 1), i, 64);
}

/// Number of queued deltas.
pub fn count(queue: &DeltaQueue) -> (n: usize)
    requires
        queue.wf(),
    ensures
        n == queue.contents().len(),
{
    queue.count
}

/// Ring index of the oldest queued delta.
pub fn head(queue: &DeltaQueue) -> (h: usize)
    ensures
        h == queue.head_index(),
{
    queue.head
}

/// The fixed number of slots.
pub fn capacity() -> (n: usize)
    ensures
        n == MAX_DELTAS,
{
    MAX_DELTAS
}

/// Copies the raw ring slots and returns the number of queued deltas.
pub fn snapshot_into(queue: &DeltaQueue, out: &mut [Option<SemanticDelta>; 64]) -> (n: usize)
    requires
        queue.wf(),
    ensures
        final(out)@ == queue.raw(),
        n == queue.contents().len(),
{
    let mut index: usize = 0;
    while index < MAX_DELTAS
        invariant
            0 <= index <= 64,
            out@.len() == 64,
            queue.slots@.len() == 64,
            forall|i: int| 0 <= i < index ==> #[trigger] out@[i] == queue.slots@[i],
        decreases 64 - index,
    {
        out[index] = queue.slots[index];
        index = index + 1;
    }
    assert(out@ =~= queue.raw());
    queue.count
}

/// Copies the queued deltas oldest-first into `out`, clears the rest of
/// `out`, and returns their number.
pub fn snapshot_fifo_into(queue: &DeltaQueue, out: &mut [Option<SemanticDelta>; 64]) -> (n: usize)
    requires
        queue.wf(),
    ensures
        n == queue.contents().len(),
        forall|i: int| 0 <= i < n ==> #[trigger] final(out)@[i] == Some(queue.contents()[i]),
        forall|i: int| n <= i < 64 ==> #[trigger] final(out)@[i] is None,
{
    let count = queue.count;
    let head = queue.head;
    let mut index: usize = 0;
    while index < MAX_DELTAS
        invariant
            0 <= index <= 64,
            out@.len() == 64,
            forall|i: int| 0 <= i < index ==> #[trigger] out@[i] is None,
        decreases 64 - index,
    {
        out[index] = None;
        index = index + 1;
    }
    let mut offset: usize = 0;
    while offset < count
        invariant
            queue.wf(),
            count == queue.count,
            head == queue.head,
            0 <= offset <= count,
            out@.len() == 64,
            forall|i: int| 0 <= i < offset ==> #[trigger] out@[i] == Some(queue.contents()[i]),
            forall|i: int| count <= i < 64 ==> #[trigger] out@[i] is None,
        decreases count - offset,
    {
        let slot = (head + offset) % MAX_DELTAS;
        assert(queue.slots@[ring(head + offset)] is Some);
        out[offset] = queue.slots[slot];
        offset = offset + 1;
    }
    count
}

/// All queued deltas oldest-first, without consuming them; empty while a
/// slot is reserved. The queue is left as it was.
pub fn for_each(queue: &mut DeltaQueue) -> (r: Vec<SemanticDelta>)
    requires
        old(queue).wf(),
    ensures
        final(queue).wf(),
        final(queue).contents() == old(queue).contents(),
        final(queue).head_index() == old(queue).head_index(),
        final(queue).is_reserved() == old(queue).is_reserved(),
        final(queue).raw() == old(queue).raw(),
        old(queue).observer_count() < usize::MAX ==> final(queue).observer_count() == old(queue).observer_count(),
        r@ == (if old(queue).is_reserved() { Seq::<SemanticDelta>::empty() } else { old(queue).contents() }),
{
    let mut out: Vec<SemanticDelta> = Vec::new();
    if queue.reserved {
        return out;
    }
    let count = queue.count;
    let head = queue.head;
    let mut offset: usize = 0;
    while offset < count
        invariant
            queue.wf(),
            count == queue.count,
            head == queue.head,
            0 <= offset <= count,
            out@ == queue.contents().subrange(0, offset as int),
        decreases count - offset,
    {
        let slot = (head + offset) % MAX_DELTAS;
        assert(queue.slots@[ring(head + offset)] is Some);
        match queue.slots[slot] {
            Some(delta) => {
                out.push(delta);
            },
            None => {},
        }
        assert(out@ =~= queue.contents().subrange(0, offset + 1));
        offset = offset + 1;
    }
    assert(out@ =~= queue.contents());
    queue.observers = queue.observers.saturating_add(1);
    queue.observers = queue.observers.saturating_sub(1);
    out
}

/// Empties an idle queue; a busy queue is left untouched.
pub fn clear(queue: &mut DeltaQueue)
    requires
        old(queue).wf(),
    ensures
        final(queue).wf(),
        final(queue).is_reserved() == old(queue).is_reserved(),
        final(queue).observer_count() == old(queue).observer_count(),
        old(queue).busy() ==> final(queue).contents() == old(queue).contents() && final(queue).head_index()
            == old(queue).head_index(),
        !old(queue).busy() ==> final(queue).contents() == Seq::<SemanticDelta>::empty()
            && final(queue).head_index() == 0,
{
    if queue.reserved || queue.observers != 0 {
        return;
    }
    queue.slots = [None; 64];
    queue.head = 0;
    queue.count = 0;
    assert(queue.contents() =~= Seq::<SemanticDelta>::empty());
}

/// Appends at the tail; returns the ring index used.
fn append(queue: &mut DeltaQueue, delta: SemanticDelta) -> (index: usize)
    requires
        old(queue).wf(),
        old(queue).count < 64,
    ensures
        final(queue).wf(),
        final(queue).contents() == old(queue).contents().push(delta),
        final(queue).head_index() == old(queue).head_index(),
        final(queue).is_reserved() == old(queue).is_reserved(),
        final(queue).observer_count() == old(queue).observer_count(),
        index as int == ring(old(queue).head + old(queue).contents().len()),
{
    let index = (queue.head + queue.count) % MAX_DELTAS;
    let ghost before = queue.contents();
    let ghost old_slots = queue.slots@;
    queue.slots[index] = Some(delta);
    queue.count = queue.count + 1;
    assert forall|i: int| 0 <= i < queue.count implies (#[trigger] queue.slots@[ring(queue.head + i)]) is Some by {
        if i < queue.count - 1 {
            assert(ring(queue.head + i) != index);
        }
    }
    assert forall|i: int| 0 <= i < before.len() implies queue.contents()[i] == before[i] by {
        assert(ring(queue.head + i) != index);
        assert(queue.slots@[ring(queue.head + i)] == old_slots[ring(queue.head + i)]);
    }
    assert(queue.contents() =~= before.push(delta));
    index
}

/// Appends a valid delta to an idle, non-full queue.
pub fn push(queue: &mut DeltaQueue, delta: SemanticDelta) -> (r: Result<usize, DeltaError>)
    requires
        old(queue).wf(),
    ensures
        final(queue).wf(),
        final(queue).head_index() == old(queue).head_index(),
        final(queue).is_reserved() == old(queue).is_reserved(),
        final(queue).observer_count() == old(queue).observer_count(),
        !delta_valid(delta) ==> r == Err::<usize, DeltaError>(DeltaError::Invalid),
        delta_valid(delta) && old(queue).busy() ==> r == Err::<usize, DeltaError>(DeltaError::Busy),
        delta_valid(delta) && !old(queue).busy() && old(queue).contents().len() >= 64 ==> r == Err::<
            usize,
            DeltaError,
        >(DeltaError::Full),
        r is Err ==> final(queue).contents() == old(queue).contents(),
        delta_valid(delta) && !old(queue).busy() && old(queue).contents().len() < 64 ==> r == Ok::<
            usize,
            DeltaError,
        >(ring((old(queue).head_index() + old(queue).contents().len()) as int) as usize) && final(queue).contents()
            == old(queue).contents().push(delta),
{
    if !delta.is_valid() {
        return Err(DeltaError::Invalid);
    }
    if queue.reserved || queue.observers != 0 {
        return Err(DeltaError::Busy);
    }
    if queue.count >= MAX_DELTAS {
        return Err(DeltaError::Full);
    }
    let index = append(queue, delta);
    Ok(index)
}

/// Takes the single reservation of an idle, non-full queue.
pub fn reserve(queue: &mut DeltaQueue) -> (r: Result<DeltaReservation, DeltaError>)
    requires
        old(queue).wf(),
    ensures
        final(queue).wf(),
        final(queue).contents() == old(queue).contents(),
        final(queue).head_index() == old(queue).head_index(),
        final(queue).observer_count() == old(queue).observer_count(),
        old(queue).busy() ==> r == Err::<DeltaReservation, DeltaError>(DeltaError::Busy)
            && final(queue).is_reserved() == old(queue).is_reserved(),
        !old(queue).busy() && old(queue).contents().len() >= 64 ==> r == Err::<DeltaReservation, DeltaError>(
            DeltaError::Full,
        ) && !final(queue).is_reserved(),
        !old(queue).busy() && old(queue).contents().len() < 64 ==> r is Ok && final(queue).is_reserved(),
{
    if queue.reserved || queue.observers != 0 {
        return Err(DeltaError::Busy);
    }
    if queue.count >= MAX_DELTAS {
        return Err(DeltaError::Full);
    }
    queue.reserved = true;
    Ok(DeltaReservation)
}

/// Publishes a valid delta into the reserved slot and releases the
/// reservation.
pub fn commit_reserved(queue: &mut DeltaQueue, reservation: DeltaReservation, delta: SemanticDelta) -> (r: Result<
    usize,
    DeltaError,
>)
    requires
        old(queue).wf(),
    ensures
        final(queue).wf(),
        final(queue).head_index() == old(queue).head_index(),
        final(queue).observer_count() == old(queue).observer_count(),
        !old(queue).is_reserved() || old(queue).observer_count() != 0 ==> r == Err::<usize, DeltaError>(
            DeltaError::Busy,
        ),
        old(queue).is_reserved() && old(queue).observer_count() == 0 && !delta_valid(delta) ==> r == Err::<
            usize,
            DeltaError,
        >(DeltaError::Invalid),
        old(queue).is_reserved() && old(queue).observer_count() == 0 && delta_valid(delta) && old(
            queue,
        ).contents().len() >= 64 ==> r == Err::<usize, DeltaError>(DeltaError::Full),
        r is Err ==> final(queue).contents() == old(queue).contents() && final(queue).is_reserved() == old(
            queue,
        ).is_reserved(),
        old(queue).is_reserved() && old(queue).observer_count() == 0 && delta_valid(delta) && old(
            queue,
        ).contents().len() < 64 ==> r == Ok::<usize, DeltaError>(
            ring((old(queue).head_index() + old(queue).contents().len()) as int) as usize,
        ) && final(queue).contents() == old(queue).contents().push(delta) && !final(queue).is_reserved(),
{
    let _ = reservation;
    if !queue.reserved || queue.observers != 0 {
        return Err(DeltaError::Busy);
    }
    if !delta.is_valid() {
        return Err(DeltaError::Invalid);
    }
    if queue.count >= MAX_DELTAS {
        return Err(DeltaError::Full);
    }
    let index = append(queue, delta);
    queue.reserved = false;
    Ok(index)
}

/// Releases a reservation without publishing; false when none was held.
pub fn cancel_reservation(queue: &mut DeltaQueue, reservation: DeltaReservation) -> (r: bool)
    requires
        old(queue).wf(),
    ensures
        final(queue).wf(),
        r == old(queue).is_reserved(),
        !final(queue).is_reserved(),
        final(queue).contents() == old(queue).contents(),
        final(queue).head_index() == old(queue).head_index(),
        final(queue).observer_count() == old(queue).observer_count(),
{
    let _ = reservation;
    if !queue.reserved {
        return false;
    }
    queue.reserved = false;
    true
}

/// Removes and returns the oldest delta of an idle, non-empty queue.
pub fn pop(queue: &mut DeltaQueue) -> (r: Option<SemanticDelta>)
    requires
        old(queue).wf(),
    ensures
        final(queue).wf(),
        final(queue).is_reserved() == old(queue).is_reserved(),
        final(queue).observer_count() == old(queue).observer_count(),
        old(queue).busy() || old(queue).contents().len() == 0 ==> r is None && final(queue).contents() == old(
            queue,
        ).contents() && final(queue).head_index() == old(queue).head_index(),
        !old(queue).busy() && old(queue).contents().len() > 0 ==> r == Some(old(queue).contents()[0])
            && final(queue).contents() == old(queue).contents().drop_first() && final(queue).head_index()
            == ring(old(queue).head_index() + 1int),
{
    if queue.reserved || queue.observers != 0 || queue.count == 0 {
        return None;
    }
    let ghost before = queue.contents();
    let ghost old_head = queue.head as int;
    let ghost old_slots = queue.slots@;
    let value = queue.slots[queue.head];
    queue.slots[queue.head] = None;
    queue.head = (queue.head + 1) % MAX_DELTAS;
    queue.count = queue.count - 1;
    assert forall|i: int| 0 <= i < queue.count implies (#[trigger] queue.slots@[ring(queue.head + i)]) is Some
        && queue.slots@[ring(queue.head + i)] == old_slots[ring(old_head + i + 1)] by {
        lemma_ring_step(old_head, i);
        assert(ring(old_head + 1 + i) != old_head);
        assert(old_slots[ring(old_head + (i + 1))] is Some);
    }
    assert(queue.contents() =~= before.drop_first());
    assert(ring(old_head + 0) == old_head);
    value
}

/// The state a successful push leaves: the delta appended at the tail.
pub open spec fn pushed(contents: Seq<SemanticDelta>, delta: SemanticDelta) -> Seq<SemanticDelta> {
    contents.push(delta)
}

/// What a successful pop hands out: the oldest delta.
pub open spec fn popped(contents: Seq<SemanticDelta>) -> SemanticDelta {
    contents[0]
}

/// First in, first out: pushing onto a queue does not change which delta
/// the next pop hands out, unless the queue was empty, in which case it is
/// the pushed one.
pub proof fn law_fifo_order(contents: Seq<SemanticDelta>, delta: SemanticDelta)
    ensures
        popped(pushed(contents, delta)) == (if contents.len() == 0 { delta } else { popped(contents) }),
        pushed(contents, delta).drop_first() == (if contents.len() == 0 {
            Seq::<SemanticDelta>::empty()
        } else {
            pushed(contents.drop_first(), delta)
        }),
{
    if contents.len() == 0 {
        assert(pushed(contents, delta).drop_first() =~= Seq::<SemanticDelta>::empty());
    } else {
        assert(pushed(contents, delta).drop_first() =~= pushed(contents.drop_first(), delta));
    }
}

fn sample_delta(object_id: ObjectId, semantic_id: SemanticId, previous: SemanticId, new_state: SemanticId, context: ContextId, revision: u64, now: u64) -> (d: SemanticDelta)
    ensures
        d == sample(object_id, semantic_id, previous, new_state, context, revision, now),
{
    SemanticDelta {
        object_id,
        semantic_id,
        previous_state: previous,
        new_state,
        context,
        timestamp: now,
        provenance: RelationProvenance { origin: 0, source: ProvenanceSource::Local, revision },
    }
}

/// A delta of the self-check, stamped `now` with a local provenance of
/// revision `revision`.
pub open spec fn sample(object_id: ObjectId, semantic_id: SemanticId, previous: SemanticId, new_state: SemanticId, context: ContextId, revision: u64, now: u64) -> SemanticDelta {
    SemanticDelta {
        object_id,
        semantic_id,
        previous_state: previous,
        new_state,
        context,
        timestamp: now,
        provenance: RelationProvenance { origin: 0, source: ProvenanceSource::Local, revision },
    }
}

/// The `i`-th delta that fills the queue in the self-check.
pub open spec fn fill(i: int, now: u64) -> SemanticDelta {
    sample((100 + i) as u64, semantic::ACTIVE, semantic::READY, semantic::ACTIVE, (i % 4) as u64, (100 + i) as u64, now)
}

/// The `i`-th delta pushed after the queue wrapped in the self-check.
pub open spec fn wrapped(i: int, now: u64) -> SemanticDelta {
    sample((1000 + i) as u64, semantic::ACTIVE, semantic::READY, semantic::ACTIVE, (i % 4) as u64, (500 + i) as u64, now)
}

fn same_slot(a: Option<SemanticDelta>, b: Option<SemanticDelta>) -> (r: bool)
    ensures
        r == (a == b),
{
    match (a, b) {
        (Some(x), Some(y)) => x == y,
        (None, None) => true,
        _ => false,
    }
}

/// The queue's own check at time `now`: a push lands in slot 0 and is
/// seen by an observation without consuming it and popped first; invalid
/// deltas are refused; deltas come out in the order they went in, also
/// after the ring wrapped; a full queue refuses one more; a reservation
/// blocks pushes, pops and a second reservation until committed, and a
/// cancelled one leaves nothing behind. The queue is left empty.
pub fn self_test(now: u64) -> (ok: bool)
    ensures
        ok,
{
    let mut queue = DeltaQueue::new();
    proof {
        assert(spec_is_valid(semantic::ACTIVE) && spec_is_valid(semantic::READY) && spec_is_valid(semantic::PENDING)
            && spec_is_valid(semantic::COMPLETE) && spec_is_valid(semantic::CONNECTED_TO) && spec_is_valid(semantic::CAUSES));
        assert(!spec_is_valid(0));
    }
    if count(&queue) != 0 || head(&queue) != 0 {
        return false;
    }
    let first = sample_delta(42, semantic::ACTIVE, semantic::READY, semantic::ACTIVE, 9, 1, now);
    if !first.is_valid() {
        return false;
    }
    match push(&mut queue, first) {
        Ok(index) => {
            if index != 0 {
                return false;
            }
        },
        Err(_) => return false,
    }
    if count(&queue) != 1 || head(&queue) != 0 {
        return false;
    }
    let observed = for_each(&mut queue);
    if observed.len() != 1 || observed[0] != first || head(&queue) != 0 || count(&queue) != 1 {
        return false;
    }
    match pop(&mut queue) {
        Some(value) => {
            if value != first {
                return false;
            }
        },
        None => return false,
    }
    if count(&queue) != 0 || head(&queue) != 1 {
        return false;
    }
    let invalid = [
        sample_delta(0, semantic::ACTIVE, semantic::READY, semantic::ACTIVE, 1, 2, now),
        sample_delta(11, 0, semantic::READY, semantic::ACTIVE, 1, 3, now),
        sample_delta(12, semantic::ACTIVE, 0, semantic::ACTIVE, 1, 4, now),
        sample_delta(13, semantic::ACTIVE, semantic::READY, 0, 1, 5, now),
        sample_delta(14, semantic::ACTIVE, semantic::ACTIVE, semantic::ACTIVE, 1, 6, now),
    ];
    let mut r: usize = 0;
    while r < 5
        invariant
            0 <= r <= 5,
            queue.wf(),
            !queue.busy(),
            forall|j: int| 0 <= j < 5 ==> !delta_valid(#[trigger] invalid@[j]),
        decreases 5 - r,
    {
        if invalid[r].is_valid() || push(&mut queue, invalid[r]).is_ok() {
            return false;
        }
        r = r + 1;
    }
    clear(&mut queue);
    let d1 = sample_delta(20, semantic::CONNECTED_TO, semantic::READY, semantic::ACTIVE, 1, 10, now);
    let d2 = sample_delta(21, semantic::CONNECTED_TO, semantic::ACTIVE, semantic::PENDING, 1, 11, now);
    let d3 = sample_delta(22, semantic::CAUSES, semantic::PENDING, semantic::COMPLETE, 2, 12, now);
    if push(&mut queue, d1).is_err() || push(&mut queue, d2).is_err() || push(&mut queue, d3).is_err() {
        return false;
    }
    let mut ordered: [Option<SemanticDelta>; 64] = [None; 64];
    if snapshot_fifo_into(&queue, &mut ordered) != 3 {
        return false;
    }
    if !same_slot(ordered[0], Some(d1)) || !same_slot(ordered[1], Some(d2)) || !same_slot(ordered[2], Some(d3))
        || count(&queue) != 3 {
        return false;
    }
    clear(&mut queue);
    let mut index: usize = 0;
    while index < MAX_DELTAS
        invariant
            0 <= index <= 64,
            queue.wf(),
            !queue.busy(),
            queue.contents() == Seq::new(index as nat, |j: int| fill(j, now)),
        decreases 64 - index,
    {
        let delta = sample_delta(100 + index as u64, semantic::ACTIVE, semantic::READY, semantic::ACTIVE, (index % 4) as u64, 100 + index as u64, now);
        if push(&mut queue, delta).is_err() {
            return false;
        }
        assert(queue.contents() =~= Seq::new((index + 1) as nat, |j: int| fill(j, now)));
        index = index + 1;
    }
    if count(&queue) != MAX_DELTAS {
        return false;
    }
    let mut popped: usize = 0;
    while popped < 8
        invariant
            0 <= popped <= 8,
            queue.wf(),
            !queue.busy(),
            queue.contents() == Seq::new((64 - popped) as nat, |j: int| fill(popped + j, now)),
        decreases 8 - popped,
    {
        if pop(&mut queue).is_none() {
            return false;
        }
        assert(queue.contents() =~= Seq::new((64 - (popped + 1)) as nat, |j: int| fill(popped + 1 + j, now)));
        popped = popped + 1;
    }
    let mut w: usize = 0;
    while w < 8
        invariant
            0 <= w <= 8,
            queue.wf(),
            !queue.busy(),
            queue.contents() == Seq::new(56, |j: int| fill(8 + j, now)) + Seq::new(w as nat, |j: int| wrapped(j, now)),
        decreases 8 - w,
    {
        let delta = sample_delta(1000 + w as u64, semantic::ACTIVE, semantic::READY, semantic::ACTIVE, (w % 4) as u64, 500 + w as u64, now);
        if push(&mut queue, delta).is_err() {
            return false;
        }
        assert(queue.contents() =~= Seq::new(56, |j: int| fill(8 + j, now)) + Seq::new((w + 1) as nat, |j: int| wrapped(j, now)));
        w = w + 1;
    }
    if count(&queue) != MAX_DELTAS {
        return false;
    }
    let mut actual: [Option<SemanticDelta>; 64] = [None; 64];
    if snapshot_fifo_into(&queue, &mut actual) != MAX_DELTAS {
        return false;
    }
    let ghost expected = Seq::new(56, |j: int| fill(8 + j, now)) + Seq::new(8, |j: int| wrapped(j, now));
    let mut c: usize = 0;
    while c < MAX_DELTAS
        invariant
            0 <= c <= 64,
            queue.contents() == expected,
            expected == Seq::new(56, |j: int| fill(8 + j, now)) + Seq::new(8, |j: int| wrapped(j, now)),
            expected.len() == 64,
            forall|i: int| 0 <= i < 64 ==> #[trigger] actual@[i] == Some(queue.contents()[i]),
        decreases 64 - c,
    {
        let want = if c < 56 {
            sample_delta(108 + c as u64, semantic::ACTIVE, semantic::READY, semantic::ACTIVE, ((c + 8) % 4) as u64, 108 + c as u64, now)
        } else {
            sample_delta(1000 + (c - 56) as u64, semantic::ACTIVE, semantic::READY, semantic::ACTIVE, ((c - 56) % 4) as u64, 500 + (c - 56) as u64, now)
        };
        proof {
            if c < 56 {
                assert(expected[c as int] == fill(8 + c, now));
            } else {
                assert(expected[c as int] == wrapped(c - 56, now));
            }
        }
        if !same_slot(actual[c], Some(want)) {
            return false;
        }
        c = c + 1;
    }
    let overflow = sample_delta(500, semantic::ACTIVE, semantic::READY, semantic::ACTIVE, 99, 999, now);
    match push(&mut queue, overflow) {
        Err(DeltaError::Full) => {},
        _ => return false,
    }
    if count(&queue) != MAX_DELTAS {
        return false;
    }
    let snapshot_head = head(&queue);
    let mut fifo: [Option<SemanticDelta>; 64] = [None; 64];
    if snapshot_fifo_into(&queue, &mut fifo) != MAX_DELTAS || head(&queue) != snapshot_head {
        return false;
    }
    let mut k: usize = 0;
    while k < MAX_DELTAS
        invariant
            0 <= k <= 64,
            queue.contents().len() == 64,
            forall|i: int| 0 <= i < 64 ==> #[trigger] fifo@[i] == Some(queue.contents()[i]),
            forall|i: int| 0 <= i < 64 ==> #[trigger] actual@[i] == Some(queue.contents()[i]),
        decreases 64 - k,
    {
        if !same_slot(fifo[k], actual[k]) {
            return false;
        }
        k = k + 1;
    }
    clear(&mut queue);
    let reservation = match reserve(&mut queue) {
        Ok(value) => value,
        Err(_) => return false,
    };
    if count(&queue) != 0 {
        return false;
    }
    match push(&mut queue, first) {
        Err(DeltaError::Busy) => {},
        _ => return false,
    }
    if pop(&mut queue).is_some() || reserve(&mut queue).is_ok() {
        return false;
    }
    if commit_reserved(&mut queue, reservation, first).is_err() || count(&queue) != 1 {
        return false;
    }
    if cancel_reservation(&mut queue, reservation) {
        return false;
    }
    clear(&mut queue);
    let cancellation = match reserve(&mut queue) {
        Ok(value) => value,
        Err(_) => return false,
    };
    if !cancel_reservation(&mut queue, cancellation) || count(&queue) != 0 || head(&queue) != 0 {
        return false;
    }
    if push(&mut queue, first).is_err() || count(&queue) != 1 {
        return false;
    }
    clear(&mut queue);
    count(&queue) == 0 && head(&queue) == 0
}

} // verus!
