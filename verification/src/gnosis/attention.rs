//! GNOSIS attention: scores semantic deltas by how much they matter and
//! keeps the scored records in a fixed-capacity FIFO.
use vstd::prelude::*;
use crate::gnosis::delta::{SemanticDelta, delta_valid};
use crate::gnosis::relation::{ProvenanceSource, RelationProvenance};
use crate::gnosis::semantic::{self, ContextId, ObjectId, SemanticId};
use crate::interrupts::timer::TIMER_FREQUENCY;

verus! {

#[derive(Clone, Copy, Debug, PartialEq, Eq, Structural)]
pub enum AttentionError {
    Invalid,
    Full,
}

/// A delta with its attention score.
#[derive(Clone, Copy, Debug, PartialEq, Eq, Structural)]
pub struct AttentionRecord {
    pub object_id: ObjectId,
    pub semantic_id: SemanticId,
    pub previous_state: SemanticId,
    pub new_state: SemanticId,
    pub context: ContextId,
    pub timestamp: u64,
    pub provenance: RelationProvenance,
    pub score: u16,
}

pub const MAX_ATTENTION: usize = 64;

/// The fixed number of queue slots.
pub fn capacity() -> (n: usize)
    ensures
        n == MAX_ATTENTION,
{
    MAX_ATTENTION
}

/// Weight of the state reached: failures first, then loss of service.
pub open spec fn spec_transition_weight(d: SemanticDelta) -> u16 {
    if d.new_state == semantic::FAILED || d.new_state == semantic::INVALID || d.new_state == semantic::UNAUTHORIZED {
        400
    } else if d.new_state == semantic::EXPIRED || d.new_state == semantic::UNAVAILABLE || d.new_state == semantic::OFFLINE
        || d.new_state == semantic::STOPPED {
        250
    } else {
        100
    }
}

fn transition_weight(d: &SemanticDelta) -> (w: u16)
    ensures
        w == spec_transition_weight(*d),
{
    if d.new_state == semantic::FAILED || d.new_state == semantic::INVALID || d.new_state == semantic::UNAUTHORIZED {
        400
    } else if d.new_state == semantic::EXPIRED || d.new_state == semantic::UNAVAILABLE || d.new_state == semantic::OFFLINE
        || d.new_state == semantic::STOPPED {
        250
    } else {
        100
    }
}

pub open spec fn is_security_semantic(s: SemanticId) -> bool {
    s == semantic::AUTHORIZATION || s == semantic::AUTHENTICATION || s == semantic::PERMISSION || s == semantic::CAPABILITY || s == semantic::TRUST || s == semantic::INTEGRITY || s == semantic::CONFIDENTIALITY || s == semantic::PRIVACY || s == semantic::REVOKE || s == semantic::EXPIRE
}

pub open spec fn is_network_semantic(s: SemanticId) -> bool {
    s == semantic::CONNECT || s == semantic::DISCONNECT || s == semantic::SEND || s == semantic::RECEIVE || s == semantic::RELAY || s == semantic::FORWARD || s == semantic::ROUTES_TO || s == semantic::RECEIVES_FROM || s == semantic::SENDS_TO || s == semantic::CONNECTED_TO || s == semantic::DISCONNECTED_FROM || s == semantic::PACKET || s == semantic::FRAME || s == semantic::ROUTE || s == semantic::CHANNEL || s == semantic::QUEUE || s == semantic::TTL || s == semantic::SEQUENCE
}

/// Weight of the semantic domain: security first, then communication.
pub open spec fn spec_semantic_weight(d: SemanticDelta) -> u16 {
    if is_security_semantic(d.semantic_id) {
        250
    } else if is_network_semantic(d.semantic_id) {
        120
    } else {
        0
    }
}

fn semantic_weight(d: &SemanticDelta) -> (w: u16)
    ensures
        w == spec_semantic_weight(*d),
{
    let s = d.semantic_id;
    if s == semantic::AUTHORIZATION || s == semantic::AUTHENTICATION || s == semantic::PERMISSION || s == semantic::CAPABILITY || s == semantic::TRUST || s == semantic::INTEGRITY || s == semantic::CONFIDENTIALITY || s == semantic::PRIVACY || s == semantic::REVOKE || s == semantic::EXPIRE {
        250
    } else if s == semantic::CONNECT || s == semantic::DISCONNECT || s == semantic::SEND || s == semantic::RECEIVE || s == semantic::RELAY || s == semantic::FORWARD || s == semantic::ROUTES_TO || s == semantic::RECEIVES_FROM || s == semantic::SENDS_TO || s == semantic::CONNECTED_TO || s == semantic::DISCONNECTED_FROM || s == semantic::PACKET || s == semantic::FRAME || s == semantic::ROUTE || s == semantic::CHANNEL || s == semantic::QUEUE || s == semantic::TTL || s == semantic::SEQUENCE {
        120
    } else {
        0
    }
}

/// Weight of how recent the delta is at time `now`.
pub open spec fn spec_freshness_weight(d: SemanticDelta, now: u64) -> u16 {
    let age: int = if now >= d.timestamp { now - d.timestamp } else { 0 };
    if age == 0 {
        250
    } else if age <= TIMER_FREQUENCY / 2 {
        150
    } else if age <= TIMER_FREQUENCY * 5 {
        75
    } else {
        0
    }
}

fn freshness_weight(d: &SemanticDelta, now: u64) -> (w: u16)
    ensures
        w == spec_freshness_weight(*d, now),
{
    let age = now.saturating_sub(d.timestamp);
    let recent: u64 = TIMER_FREQUENCY as u64 / 2;
    let moderate: u64 = TIMER_FREQUENCY as u64 * 5;
    if age == 0 {
        250
    } else if age <= recent {
        150
    } else if age <= moderate {
        75
    } else {
        0
    }
}

/// Weight of the provenance: local first.
pub open spec fn spec_provenance_weight(d: SemanticDelta) -> u16 {
    match d.provenance.source {
        ProvenanceSource::Local => 100,
        ProvenanceSource::Remote => 50,
        ProvenanceSource::Recovered => 25,
    }
}

fn provenance_weight(d: &SemanticDelta) -> (w: u16)
    ensures
        w == spec_provenance_weight(*d),
{
    match d.provenance.source {
        ProvenanceSource::Local => 100,
        ProvenanceSource::Remote => 50,
        ProvenanceSource::Recovered => 25,
    }
}

/// The attention score: the four weights summed, capped at 1000.
pub open spec fn spec_score(d: SemanticDelta, now: u64) -> u16 {
    let s = spec_transition_weight(d) + spec_semantic_weight(d) + spec_freshness_weight(d, now) + spec_provenance_weight(d);
    if s > 1000 { 1000 } else { s as u16 }
}

fn total_score(d: &SemanticDelta, now: u64) -> (s: u16)
    ensures
        s == spec_score(*d, now),
{
    let score: u32 = transition_weight(d) as u32 + semantic_weight(d) as u32 + freshness_weight(d, now) as u32
        + provenance_weight(d) as u32;
    if score > 1000 {
        1000
    } else {
        score as u16
    }
}

pub open spec fn record_of(d: SemanticDelta, now: u64) -> AttentionRecord {
    AttentionRecord {
        object_id: d.object_id,
        semantic_id: d.semantic_id,
        previous_state: d.previous_state,
        new_state: d.new_state,
        context: d.context,
        timestamp: d.timestamp,
        provenance: d.provenance,
        score: spec_score(d, now),
    }
}

/// Scores a valid delta at time `now`; none for an invalid one.
pub fn evaluate(delta: &SemanticDelta, now: u64) -> (r: Option<AttentionRecord>)
    ensures
        r == (if delta_valid(*delta) { Some(record_of(*delta, now)) } else { None }),
{
    if !delta.is_valid() {
        return None;
    }
    let score = total_score(delta, now);
    Some(AttentionRecord {
        object_id: delta.object_id,
        semantic_id: delta.semantic_id,
        previous_state: delta.previous_state,
        new_state: delta.new_state,
        context: delta.context,
        timestamp: delta.timestamp,
        provenance: delta.provenance,
        score,
    })
}

pub open spec fn ring(i: int) -> int {
    i % 64
}

/// The attention queue: a ring of `MAX_ATTENTION` scored records.
pub struct AttentionQueue {
    slots: [Option<AttentionRecord>; 64],
    head: usize,
    count: usize,
}

impl AttentionQueue {
    /// The queued records, oldest first.
    pub closed spec fn contents(&self) -> Seq<AttentionRecord> {
        Seq::new(self.count as nat, |i: int| self.slots@[ring(self.head + i)]->Some_0)
    }

    pub closed spec fn wf(&self) -> bool {
        &&& self.head < 64
        &&& self.count <= 64
        &&& forall|i: int| 0 <= i < self.count ==> (#[trigger] self.slots@[ring(self.head + i)]) is Some
    }

    /// A well-formed queue holds at most `MAX_ATTENTION` records.
    pub proof fn lemma_len_bound(&self)
        requires
            self.wf(),
        ensures
            self.contents().len() <= MAX_ATTENTION,
    {
    }

    /// An empty queue.
    pub fn new() -> (q: Self)
        ensures
            q.wf(),
            q.contents() == Seq::<AttentionRecord>::empty(),
    {
        let q = AttentionQueue { slots: [None; 64], head: 0, count: 0 };
        assert(q.contents() =~= Seq::<AttentionRecord>::empty());
        q
    }
}

/// Number of queued records.
pub fn count(queue: &AttentionQueue) -> (n: usize)
    requires
        queue.wf(),
    ensures
        n == queue.contents().len(),
{
    queue.count
}

/// The queued records oldest first, as a visit meets them.
pub fn for_each(queue: &AttentionQueue) -> (r: Vec<AttentionRecord>)
    requires
        queue.wf(),
    ensures
        r@ == queue.contents(),
{
    let mut out: Vec<AttentionRecord> = Vec::new();
    let mut index: usize = 0;
    while index < queue.count
        invariant
            queue.wf(),
            0 <= index <= queue.count,
            out@ == queue.contents().subrange(0, index as int),
        decreases queue.count - index,
    {
        let slot = (queue.head + index) % MAX_ATTENTION;
        assert(queue.slots@[ring(queue.head + index)] is Some);
        match queue.slots[slot] {
            Some(record) => {
                out.push(record);
            },
            None => {},
        }
        assert(out@ =~= queue.contents().subrange(0, index + 1));
        index = index + 1;
    }
    assert(out@ =~= queue.contents());
    out
}

/// Empties the queue.
pub fn clear(queue: &mut AttentionQueue)
    ensures
        final(queue).wf(),
        final(queue).contents() == Seq::<AttentionRecord>::empty(),
{
    *queue = AttentionQueue::new();
}

proof fn lemma_ring_step(h: int, i: int)
    requires
        0 <= h < 64,
        0 <= i,
    ensures
        ring(ring(h + 1) + i) == ring(h + 1 + i),
{
    vstd::arithmetic::div_mod::lemma_add_mod_noop(h + 1, i, 64);
    vstd::arithmetic::div_mod::lemma_mod_twice(i, 64);
    vstd::arithmetic::div_mod::lemma_add_mod_noop(ring(h + 1), i, 64);
}

/// Scores a valid delta at `now` and queues the record; returns its slot.
pub fn push(queue: &mut AttentionQueue, delta: SemanticDelta, now: u64) -> (r: Result<usize, AttentionError>)
    requires
        old(queue).wf(),
    ensures
        final(queue).wf(),
        !delta_valid(delta) ==> r == Err::<usize, AttentionError>(AttentionError::Invalid),
        delta_valid(delta) && old(queue).contents().len() >= MAX_ATTENTION ==> r == Err::<usize, AttentionError>(AttentionError::Full),
        r is Err ==> final(queue).contents() == old(queue).contents(),
        delta_valid(delta) && old(queue).contents().len() < MAX_ATTENTION ==> r is Ok
            && final(queue).contents() == old(queue).contents().push(record_of(delta, now)),
{
    let record = match evaluate(&delta, now) {
        Some(value) => value,
        None => {
            return Err(AttentionError::Invalid);
        },
    };
    if queue.count >= MAX_ATTENTION {
        return Err(AttentionError::Full);
    }
    let index = (queue.head + queue.count) % MAX_ATTENTION;
    let ghost before = queue.contents();
    let ghost old_slots = queue.slots@;
    queue.slots[index] = Some(record);
    queue.count = queue.count + 1;
    assert forall|i: int| 0 <= i < queue.count implies (#[trigger] queue.slots@[ring(queue.head + i)]) is Some by {
        if i < queue.count - 1 {
            assert(ring(queue.head + i) != index);
        }
    }
    assert forall|i: int| 0 <= i < before.len() implies queue.contents()[i] == before[i] by {
        assert(ring(queue.head + i) != index);
        assert(queue.slots@[ring(queue.head + i)] == old_slots[ring(queue.head + i)]);
    }
    assert(queue.contents() =~= before.push(record));
    Ok(index)
}

/// Removes and returns the oldest record.
pub fn pop(queue: &mut AttentionQueue) -> (r: Option<AttentionRecord>)
    requires
        old(queue).wf(),
    ensures
        final(queue).wf(),
        old(queue).contents().len() == 0 ==> r is None && final(queue).contents() == old(queue).contents(),
        old(queue).contents().len() > 0 ==> r == Some(old(queue).contents()[0])
            && final(queue).contents() == old(queue).contents().drop_first(),
{
    if queue.count == 0 {
        return None;
    }
    let ghost before = queue.contents();
    let ghost old_head = queue.head as int;
    let ghost old_slots = queue.slots@;
    let value = queue.slots[queue.head];
    queue.slots[queue.head] = None;
    queue.head = (queue.head + 1) % MAX_ATTENTION;
    queue.count = queue.count - 1;
    assert forall|i: int| 0 <= i < queue.count implies (#[trigger] queue.slots@[ring(queue.head + i)]) is Some
        && queue.slots@[ring(queue.head + i)] == old_slots[ring(old_head + i + 1)] by {
        lemma_ring_step(old_head, i);
        assert(ring(old_head + 1 + i) != old_head);
        assert(old_slots[ring(old_head + (i + 1))] is Some);
    }
    assert(queue.contents() =~= before.drop_first());
    assert(ring(old_head + 0) == old_head);
    value
}

/// The `i`-th delta of the self-check's fill: authorizations going from
/// ready to failed, expired and offline in turn, alternately local and
/// remote.
pub open spec fn fill_delta(i: int, now: u64) -> SemanticDelta {
    SemanticDelta {
        object_id: (i + 1) as u64,
        semantic_id: semantic::AUTHORIZATION,
        previous_state: semantic::READY,
        new_state: if i % 3 == 0 { semantic::FAILED } else if i % 3 == 1 { semantic::EXPIRED } else { semantic::OFFLINE },
        context: i as u64,
        timestamp: now,
        provenance: RelationProvenance {
            origin: (1000 + i) as u64,
            source: if i % 2 == 0 { ProvenanceSource::Local } else { ProvenanceSource::Remote },
            revision: (i + 1) as u64,
        },
    }
}

fn make_fill_delta(i: usize, now: u64) -> (d: SemanticDelta)
    requires
        i < 64,
    ensures
        d == fill_delta(i as int, now),
        delta_valid(d),
{
    let state = if i % 3 == 0 {
        semantic::FAILED
    } else if i % 3 == 1 {
        semantic::EXPIRED
    } else {
        semantic::OFFLINE
    };
    let source = if i % 2 == 0 { ProvenanceSource::Local } else { ProvenanceSource::Remote };
    proof {
        assert(semantic::spec_is_valid(semantic::AUTHORIZATION) && semantic::spec_is_valid(semantic::READY));
        assert(semantic::spec_is_valid(semantic::FAILED) && semantic::spec_is_valid(semantic::EXPIRED)
            && semantic::spec_is_valid(semantic::OFFLINE));
    }
    SemanticDelta {
        object_id: i as u64 + 1,
        semantic_id: semantic::AUTHORIZATION,
        previous_state: semantic::READY,
        new_state: state,
        context: i as u64,
        timestamp: now,
        provenance: RelationProvenance { origin: 1000 + i as u64, source, revision: i as u64 + 1 },
    }
}

fn delta_of(object_id: u64, semantic_id: SemanticId, previous: SemanticId, new_state: SemanticId, context: u64, now: u64, origin: u64, source: ProvenanceSource, revision: u64) -> (d: SemanticDelta)
    ensures
        d == (SemanticDelta {
            object_id,
            semantic_id,
            previous_state: previous,
            new_state,
            context,
            timestamp: now,
            provenance: RelationProvenance { origin, source, revision },
        }),
{
    SemanticDelta { object_id, semantic_id, previous_state: previous, new_state, context, timestamp: now, provenance: RelationProvenance { origin, source, revision } }
}

/// The queue's own check at the latest tick: a failed local authorization
/// scores 1000 with its fields kept, a remote one 950 and a recovered one
/// 925; deltas with a zero object, an unknown type or state, or no change
/// are refused, while zero context and timestamp are accepted; a queue
/// filled with `MAX_ATTENTION` records refuses one more and gives them
/// back oldest first; it is left empty.
pub fn self_test(queue: &mut AttentionQueue) -> (ok: bool)
    requires
        old(queue).wf(),
    ensures
        ok,
        final(queue).wf(),
        final(queue).contents() == Seq::<AttentionRecord>::empty(),
{
    clear(queue);
    let now = u64::MAX;
    proof {
        assert(semantic::spec_is_valid(semantic::AUTHORIZATION) && semantic::spec_is_valid(semantic::READY));
        assert(semantic::spec_is_valid(semantic::FAILED) && semantic::spec_is_valid(semantic::EXPIRED));
        assert(!semantic::spec_is_valid(0));
    }
    let valid = delta_of(42, semantic::AUTHORIZATION, semantic::READY, semantic::FAILED, 9, now, 77, ProvenanceSource::Local, 2);
    match evaluate(&valid, now) {
        Some(record) => {
            if record.object_id != 42 || record.context != 9 || record.timestamp != now || record.provenance != valid.provenance
                || record.score != 1000 {
                clear(queue);
                return false;
            }
        },
        None => {
            clear(queue);
            return false;
        },
    }
    let refused = [
        delta_of(0, semantic::AUTHORIZATION, semantic::READY, semantic::FAILED, 3, now, 1, ProvenanceSource::Local, 1),
        delta_of(11, 0, semantic::READY, semantic::FAILED, 3, now, 2, ProvenanceSource::Remote, 1),
        delta_of(12, semantic::AUTHORIZATION, 0, semantic::FAILED, 3, now, 3, ProvenanceSource::Recovered, 1),
        delta_of(13, semantic::AUTHORIZATION, semantic::READY, 0, 3, now, 4, ProvenanceSource::Local, 1),
        delta_of(14, semantic::AUTHORIZATION, semantic::READY, semantic::READY, 3, now, 5, ProvenanceSource::Local, 1),
    ];
    let mut r: usize = 0;
    while r < 5
        invariant
            0 <= r <= 5,
            queue.wf(),
            queue.contents() == Seq::<AttentionRecord>::empty(),
            forall|j: int| 0 <= j < 5 ==> !delta_valid(#[trigger] refused@[j]),
        decreases 5 - r,
    {
        if refused[r].is_valid() || evaluate(&refused[r], now).is_some() {
            clear(queue);
            return false;
        }
        r = r + 1;
    }
    let zero_timestamp = delta_of(15, semantic::AUTHORIZATION, semantic::READY, semantic::FAILED, 0, 0, 6, ProvenanceSource::Local, 1);
    let zero_context = delta_of(16, semantic::AUTHORIZATION, semantic::READY, semantic::EXPIRED, 0, now, 7, ProvenanceSource::Local, 1);
    if evaluate(&zero_timestamp, now).is_none() || evaluate(&zero_context, now).is_none() {
        clear(queue);
        return false;
    }
    let remote = delta_of(18, semantic::AUTHORIZATION, semantic::READY, semantic::FAILED, 1, now, 9, ProvenanceSource::Remote, 1);
    let recovered = delta_of(19, semantic::AUTHORIZATION, semantic::READY, semantic::FAILED, 1, now, 10, ProvenanceSource::Recovered, 1);
    let remote_ok = match evaluate(&remote, now) { Some(record) => record.score == 950, None => false };
    let recovered_ok = match evaluate(&recovered, now) { Some(record) => record.score == 925, None => false };
    if !remote_ok || !recovered_ok {
        clear(queue);
        return false;
    }
    let mut i: usize = 0;
    while i < MAX_ATTENTION
        invariant
            0 <= i <= MAX_ATTENTION,
            queue.wf(),
            queue.contents() == Seq::new(i as nat, |j: int| record_of(fill_delta(j, now), now)),
        decreases MAX_ATTENTION - i,
    {
        let d = make_fill_delta(i, now);
        let ghost before = queue.contents();
        if push(queue, d, now).is_err() {
            clear(queue);
            return false;
        }
        assert(queue.contents() =~= Seq::new((i + 1) as nat, |j: int| record_of(fill_delta(j, now), now)));
        i = i + 1;
    }
    if count(queue) != MAX_ATTENTION {
        clear(queue);
        return false;
    }
    let overflow = delta_of(9999, semantic::AUTHORIZATION, semantic::READY, semantic::FAILED, 999, now, 5000, ProvenanceSource::Local, 999);
    match push(queue, overflow, now) {
        Err(AttentionError::Full) => {},
        _ => {
            clear(queue);
            return false;
        },
    }
    let mut seen: usize = 0;
    while seen < MAX_ATTENTION
        invariant
            0 <= seen <= MAX_ATTENTION,
            queue.wf(),
            queue.contents() == Seq::new((MAX_ATTENTION - seen) as nat, |j: int| record_of(fill_delta(seen + j, now), now)),
        decreases MAX_ATTENTION - seen,
    {
        let expected = make_fill_delta(seen, now);
        match pop(queue) {
            Some(record) => {
                if record.object_id != expected.object_id || record.new_state != expected.new_state || record.context
                    != expected.context || record.provenance != expected.provenance || record.object_id == 9999 {
                    clear(queue);
                    return false;
                }
            },
            None => {
                clear(queue);
                return false;
            },
        }
        assert(queue.contents() =~= Seq::new((MAX_ATTENTION - (seen + 1)) as nat, |j: int| record_of(fill_delta(seen + 1 + j, now), now)));
        seen = seen + 1;
    }
    let empty = pop(queue).is_none() && count(queue) == 0;
    clear(queue);
    empty
}

} // verus!
