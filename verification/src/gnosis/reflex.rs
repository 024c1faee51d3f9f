//! GNOSIS reflex observer: recognises one semantic transition, an
//! authorization that went from ready to failed, in attention records. It
//! only observes; no queue or registry is changed.
use vstd::prelude::*;
use crate::gnosis::attention::{self, AttentionQueue, AttentionRecord};
use crate::gnosis::delta::SemanticDelta;
use crate::gnosis::relation::{ProvenanceSource, RelationProvenance};
use crate::gnosis::semantic::{self, ContextId, ObjectId, SemanticId};

verus! {

#[derive(Clone, Copy, Debug, PartialEq, Eq, Structural)]
pub struct ReflexTrigger {
    pub object_id: ObjectId,
    pub semantic_id: SemanticId,
    pub previous_state: SemanticId,
    pub new_state: SemanticId,
    pub context: ContextId,
    pub timestamp: u64,
    pub provenance: RelationProvenance,
}

/// The transition that fires the reflex.
pub open spec fn spec_matches(r: AttentionRecord) -> bool {
    r.semantic_id == semantic::AUTHORIZATION && r.previous_state == semantic::READY && r.new_state
        == semantic::FAILED
}

/// The trigger built from a record: the record without its score.
pub open spec fn trigger_of(r: AttentionRecord) -> ReflexTrigger {
    ReflexTrigger {
        object_id: r.object_id,
        semantic_id: r.semantic_id,
        previous_state: r.previous_state,
        new_state: r.new_state,
        context: r.context,
        timestamp: r.timestamp,
        provenance: r.provenance,
    }
}

fn matches_reflex_condition(record: &AttentionRecord) -> (r: bool)
    ensures
        r == spec_matches(*record),
{
    record.semantic_id == semantic::AUTHORIZATION && record.previous_state == semantic::READY
        && record.new_state == semantic::FAILED
}

/// The trigger for `record`, if it shows the reflex transition.
pub fn evaluate(record: &AttentionRecord) -> (r: Option<ReflexTrigger>)
    ensures
        r == (if spec_matches(*record) { Some(trigger_of(*record)) } else { None }),
{
    if !matches_reflex_condition(record) {
        return None;
    }
    Some(
        ReflexTrigger {
            object_id: record.object_id,
            semantic_id: record.semantic_id,
            previous_state: record.previous_state,
            new_state: record.new_state,
            context: record.context,
            timestamp: record.timestamp,
            provenance: record.provenance,
        },
    )
}

/// The trigger of the first record of `s` that matches, if any.
pub open spec fn first_trigger(s: Seq<AttentionRecord>) -> Option<ReflexTrigger>
    decreases s.len(),
{
    if s.len() == 0 {
        None
    } else if spec_matches(s[0]) {
        Some(trigger_of(s[0]))
    } else {
        first_trigger(s.drop_first())
    }
}

proof fn lemma_first_trigger_step(s: Seq<AttentionRecord>, i: int)
    requires
        0 <= i < s.len(),
        forall|j: int| 0 <= j < i ==> !spec_matches(#[trigger] s[j]),
    ensures
        first_trigger(s) == first_trigger(s.subrange(i, s.len() as int)),
    decreases i,
{
    if i > 0 {
        assert(s.drop_first().subrange(i - 1, s.drop_first().len() as int) =~= s.subrange(
            i,
            s.len() as int,
        ));
        lemma_first_trigger_step(s.drop_first(), i - 1);
    } else {
        assert(s.subrange(0, s.len() as int) =~= s);
    }
}

proof fn lemma_first_trigger_none(s: Seq<AttentionRecord>)
    requires
        forall|j: int| 0 <= j < s.len() ==> !spec_matches(#[trigger] s[j]),
    ensures
        first_trigger(s) is None,
    decreases s.len(),
{
    if s.len() > 0 {
        assert(forall|j: int|
            0 <= j < s.drop_first().len() ==> s.drop_first()[j] == s[j + 1]);
        lemma_first_trigger_none(s.drop_first());
    }
}

/// The trigger of the oldest queued record that shows the reflex
/// transition, if any.
pub fn observe(queue: &AttentionQueue) -> (r: Option<ReflexTrigger>)
    requires
        queue.wf(),
    ensures
        r == first_trigger(queue.contents()),
{
    let records = attention::for_each(queue);
    let ghost s = queue.contents();
    let mut index: usize = 0;
    while index < records.len()
        invariant
            records@ == s,
            s == queue.contents(),
            0 <= index <= s.len(),
            forall|j: int| 0 <= j < index ==> !spec_matches(#[trigger] s[j]),
        decreases s.len() - index,
    {
        let record = records[index];
        if matches_reflex_condition(&record) {
            let t = evaluate(&record);
            proof {
                lemma_first_trigger_step(s, index as int);
                let sub = s.subrange(index as int, s.len() as int);
                assert(sub[0] == s[index as int]);
                assert(records@[index as int] == s[index as int]);
                assert(first_trigger(sub) == Some(trigger_of(sub[0])));
                assert(t == first_trigger(s));
            }
            return t;
        }
        index = index + 1;
    }
    proof {
        lemma_first_trigger_none(s);
    }
    None
}

/// The reflex's own check at time `now`: an authorization that failed
/// fires the reflex with its own fields, the same record fires it again,
/// an authorization that became active does not, and an empty queue shows
/// no trigger.
pub fn self_test(now: u64) -> (ok: bool)
    ensures
        ok,
{
    let queue = AttentionQueue::new();
    let matching_delta = SemanticDelta {
        object_id: 77,
        semantic_id: semantic::AUTHORIZATION,
        previous_state: semantic::READY,
        new_state: semantic::FAILED,
        context: 9,
        timestamp: now,
        provenance: RelationProvenance { origin: 202, source: ProvenanceSource::Local, revision: 7 },
    };
    proof {
        assert(semantic::spec_is_valid(semantic::AUTHORIZATION));
        assert(semantic::spec_is_valid(semantic::READY));
        assert(semantic::spec_is_valid(semantic::FAILED));
        assert(semantic::spec_is_valid(semantic::ACTIVE));
    }
    let matching_record = match attention::evaluate(&matching_delta, now) {
        Some(value) => value,
        None => return false,
    };
    let expected = ReflexTrigger {
        object_id: matching_record.object_id,
        semantic_id: matching_record.semantic_id,
        previous_state: matching_record.previous_state,
        new_state: matching_record.new_state,
        context: matching_record.context,
        timestamp: matching_record.timestamp,
        provenance: matching_record.provenance,
    };
    match evaluate(&matching_record) {
        Some(trigger) => {
            if trigger != expected {
                return false;
            }
        },
        None => return false,
    }
    match evaluate(&matching_record) {
        Some(trigger) => {
            if trigger != expected {
                return false;
            }
        },
        None => return false,
    }
    let non_matching_delta = SemanticDelta {
        object_id: 78,
        semantic_id: semantic::AUTHORIZATION,
        previous_state: semantic::READY,
        new_state: semantic::ACTIVE,
        context: 10,
        timestamp: now,
        provenance: RelationProvenance { origin: 203, source: ProvenanceSource::Remote, revision: 8 },
    };
    let non_matching_record = match attention::evaluate(&non_matching_delta, now) {
        Some(value) => value,
        None => return false,
    };
    if evaluate(&non_matching_record).is_some() {
        return false;
    }
    if attention::count(&queue) != 0 {
        return false;
    }
    observe(&queue).is_none()
}

} // verus!
