//! GNOSIS homeostasis: a derived, read-only summary of the attention queue.
//! It does not consume attention records and makes no decisions.
use vstd::prelude::*;
use crate::gnosis::attention::{self, AttentionQueue, AttentionRecord};
use crate::gnosis::context::SystemState;
use crate::gnosis::delta::SemanticDelta;
use crate::gnosis::relation::{ProvenanceSource, RelationProvenance};
use crate::gnosis::semantic::{self, SemanticId};
use crate::interrupts::timer::TIMER_FREQUENCY;

verus! {

#[derive(Clone, Copy, Debug, PartialEq, Eq, Structural)]
pub struct HomeostaticSummary {
    /// Number of records in the attention queue.
    pub attention_count: usize,
    /// Sum of the records' scores.
    pub total_score: u64,
    /// Highest score, 0 for an empty queue.
    pub max_score: u16,
    pub local_count: usize,
    pub remote_count: usize,
    pub recovered_count: usize,
    /// Records no older than one second of timer ticks.
    pub recent_count: usize,
    /// Records whose new state is a failure or a loss of service.
    pub degraded_count: usize,
}

/// The states that count as degraded.
pub open spec fn spec_is_degraded(state: SemanticId) -> bool {
    state == semantic::FAILED || state == semantic::INVALID || state == semantic::UNAUTHORIZED
        || state == semantic::EXPIRED || state == semantic::UNAVAILABLE || state
        == semantic::OFFLINE || state == semantic::STOPPED
}

fn is_degraded_state(state: SemanticId) -> (r: bool)
    ensures
        r == spec_is_degraded(state),
{
    state == semantic::FAILED || state == semantic::INVALID || state == semantic::UNAUTHORIZED
        || state == semantic::EXPIRED || state == semantic::UNAVAILABLE || state
        == semantic::OFFLINE || state == semantic::STOPPED
}

/// Whether a record is within the recent window at time `now`.
pub open spec fn spec_is_recent(r: AttentionRecord, now: u64) -> bool {
    (if now >= r.timestamp { now - r.timestamp } else { 0int }) <= TIMER_FREQUENCY
}

/// Number of records of `s` that satisfy `p`.
pub open spec fn count_where(s: Seq<AttentionRecord>, p: spec_fn(AttentionRecord) -> bool) -> nat
    decreases s.len(),
{
    if s.len() == 0 {
        0
    } else {
        count_where(s.drop_last(), p) + (if p(s.last()) { 1nat } else { 0nat })
    }
}

/// Sum of the scores of `s`.
pub open spec fn score_total(s: Seq<AttentionRecord>) -> nat
    decreases s.len(),
{
    if s.len() == 0 {
        0
    } else {
        score_total(s.drop_last()) + s.last().score as nat
    }
}

/// Highest score of `s`, 0 when empty.
pub open spec fn score_max(s: Seq<AttentionRecord>) -> u16
    decreases s.len(),
{
    if s.len() == 0 {
        0
    } else if s.last().score > score_max(s.drop_last()) {
        s.last().score
    } else {
        score_max(s.drop_last())
    }
}

pub open spec fn from_source(src: ProvenanceSource) -> spec_fn(AttentionRecord) -> bool {
    |r: AttentionRecord| r.provenance.source == src
}

pub open spec fn recent_at(now: u64) -> spec_fn(AttentionRecord) -> bool {
    |r: AttentionRecord| spec_is_recent(r, now)
}

pub open spec fn degraded() -> spec_fn(AttentionRecord) -> bool {
    |r: AttentionRecord| spec_is_degraded(r.new_state)
}

/// The summary of the records `s` observed at time `now`.
pub open spec fn summary_of(s: Seq<AttentionRecord>, now: u64) -> HomeostaticSummary {
    HomeostaticSummary {
        attention_count: s.len() as usize,
        total_score: score_total(s) as u64,
        max_score: score_max(s),
        local_count: count_where(s, from_source(ProvenanceSource::Local)) as usize,
        remote_count: count_where(s, from_source(ProvenanceSource::Remote)) as usize,
        recovered_count: count_where(s, from_source(ProvenanceSource::Recovered)) as usize,
        recent_count: count_where(s, recent_at(now)) as usize,
        degraded_count: count_where(s, degraded()) as usize,
    }
}

/// No more records satisfy a predicate than there are records.
pub proof fn lemma_count_le(s: Seq<AttentionRecord>, p: spec_fn(AttentionRecord) -> bool)
    ensures
        count_where(s, p) <= s.len(),
    decreases s.len(),
{
    if s.len() > 0 {
        lemma_count_le(s.drop_last(), p);
    }
}

proof fn lemma_total_le(s: Seq<AttentionRecord>)
    ensures
        score_total(s) <= s.len() * 0xffff,
    decreases s.len(),
{
    if s.len() > 0 {
        lemma_total_le(s.drop_last());
    }
}

/// Summarises the attention queue at time `now`, without changing it.
pub fn observe_at(queue: &AttentionQueue, now: u64) -> (summary: HomeostaticSummary)
    requires
        queue.wf(),
    ensures
        summary == summary_of(queue.contents(), now),
{
    let records = attention::for_each(queue);
    let ghost s = queue.contents();
    proof {
        queue.lemma_len_bound();
    }
    let mut summary = HomeostaticSummary {
        attention_count: 0,
        total_score: 0,
        max_score: 0,
        local_count: 0,
        remote_count: 0,
        recovered_count: 0,
        recent_count: 0,
        degraded_count: 0,
    };
    let mut index: usize = 0;
    while index < records.len()
        invariant
            records@ == s,
            s.len() <= 64,
            0 <= index <= s.len(),
            summary == summary_of(s.subrange(0, index as int), now),
        decreases s.len() - index,
    {
        let record = records[index];
        let ghost prefix = s.subrange(0, index as int);
        let ghost next = s.subrange(0, index + 1);
        proof {
            assert(next.drop_last() =~= prefix);
            assert(next.last() == record);
            lemma_total_le(prefix);
            lemma_count_le(prefix, from_source(ProvenanceSource::Local));
            lemma_count_le(prefix, from_source(ProvenanceSource::Remote));
            lemma_count_le(prefix, from_source(ProvenanceSource::Recovered));
            lemma_count_le(prefix, recent_at(now));
            lemma_count_le(prefix, degraded());
            assert(index * 0xffff <= 64 * 0xffff) by (nonlinear_arith)
                requires
                    index <= 64,
            ;
        }
        summary.attention_count = summary.attention_count + 1;
        summary.total_score = summary.total_score.saturating_add(record.score as u64);
        if record.score > summary.max_score {
            summary.max_score = record.score;
        }
        match record.provenance.source {
            ProvenanceSource::Local => summary.local_count = summary.local_count + 1,
            ProvenanceSource::Remote => summary.remote_count = summary.remote_count + 1,
            ProvenanceSource::Recovered => summary.recovered_count = summary.recovered_count + 1,
        }
        let age = now.saturating_sub(record.timestamp);
        if age <= TIMER_FREQUENCY as u64 {
            summary.recent_count = summary.recent_count + 1;
        }
        if is_degraded_state(record.new_state) {
            summary.degraded_count = summary.degraded_count + 1;
        }
        index = index + 1;
    }
    assert(s.subrange(0, s.len() as int) =~= s);
    summary
}

/// Summarises the attention queue at the kernel's current tick count.
pub fn observe(queue: &AttentionQueue, system: &SystemState) -> (summary: HomeostaticSummary)
    requires
        queue.wf(),
    ensures
        summary == summary_of(queue.contents(), system.uptime_ticks),
{
    observe_at(queue, system.uptime_ticks)
}

fn make_delta(
    object_id: u64,
    new_state: SemanticId,
    context: u64,
    now: u64,
    origin: u64,
    source: ProvenanceSource,
    revision: u64,
) -> (d: SemanticDelta)
    ensures
        d == (SemanticDelta {
            object_id,
            semantic_id: semantic::AUTHORIZATION,
            previous_state: semantic::READY,
            new_state,
            context,
            timestamp: now,
            provenance: RelationProvenance { origin, source, revision },
        }),
{
    SemanticDelta {
        object_id,
        semantic_id: semantic::AUTHORIZATION,
        previous_state: semantic::READY,
        new_state,
        context,
        timestamp: now,
        provenance: RelationProvenance { origin, source, revision },
    }
}

/// Homeostasis' own check at time `now`: an empty queue sums to zero; with
/// a failed, an expired and an offline authorization queued, one from each
/// source, the summary counts three degraded and recent records, one per
/// source, and shows their total and highest score. The queue is left
/// empty.
pub fn self_test(queue: &mut AttentionQueue, now: u64) -> (ok: bool)
    requires
        old(queue).wf(),
    ensures
        ok,
        final(queue).wf(),
        final(queue).contents() == Seq::<AttentionRecord>::empty(),
{
    attention::clear(queue);
    let empty = observe_at(queue, now);
    if empty.attention_count != 0 || empty.total_score != 0 || empty.max_score != 0 || empty.local_count
        != 0 || empty.remote_count != 0 || empty.recovered_count != 0 || empty.recent_count != 0
        || empty.degraded_count != 0 {
        attention::clear(queue);
        return false;
    }
    let first = make_delta(11, semantic::FAILED, 1, now, 101, ProvenanceSource::Local, 1);
    let second = make_delta(12, semantic::EXPIRED, 2, now, 102, ProvenanceSource::Remote, 2);
    let third = make_delta(13, semantic::OFFLINE, 3, now, 103, ProvenanceSource::Recovered, 3);
    proof {
        assert(semantic::spec_is_valid(semantic::AUTHORIZATION));
        assert(semantic::spec_is_valid(semantic::READY));
        assert(semantic::spec_is_valid(semantic::FAILED));
        assert(semantic::spec_is_valid(semantic::EXPIRED));
        assert(semantic::spec_is_valid(semantic::OFFLINE));
    }
    let ghost s0 = queue.contents();
    if attention::push(queue, first, now).is_err() || attention::push(queue, second, now).is_err()
        || attention::push(queue, third, now).is_err() {
        attention::clear(queue);
        return false;
    }
    let ghost r1 = attention::record_of(first, now);
    let ghost r2 = attention::record_of(second, now);
    let ghost r3 = attention::record_of(third, now);
    let ghost s1 = s0.push(r1);
    let ghost s2 = s1.push(r2);
    let ghost s3 = s2.push(r3);
    if attention::count(queue) != 3 {
        attention::clear(queue);
        return false;
    }
    let summary = observe_at(queue, now);
    let records = attention::for_each(queue);
    proof {
        assert(queue.contents() == s3);
        assert(s3.drop_last() =~= s2);
        assert(s2.drop_last() =~= s1);
        assert(s1.drop_last() =~= s0);
        assert(score_total(s1) == r1.score);
        assert(score_total(s2) == r1.score + r2.score);
        assert(score_total(s3) == r1.score + r2.score + r3.score);
        assert(score_max(s1) == r1.score);
        assert(score_max(s2) == (if r2.score > r1.score { r2.score } else { r1.score }));
        assert(score_max(s3) == (if r3.score > score_max(s2) { r3.score } else { score_max(s2) }));
        assert(count_where(s1, from_source(ProvenanceSource::Local)) == 1);
        assert(count_where(s2, from_source(ProvenanceSource::Local)) == 1);
        assert(count_where(s3, from_source(ProvenanceSource::Local)) == 1);
        assert(count_where(s1, from_source(ProvenanceSource::Remote)) == 0);
        assert(count_where(s2, from_source(ProvenanceSource::Remote)) == 1);
        assert(count_where(s3, from_source(ProvenanceSource::Remote)) == 1);
        assert(count_where(s1, from_source(ProvenanceSource::Recovered)) == 0);
        assert(count_where(s2, from_source(ProvenanceSource::Recovered)) == 0);
        assert(count_where(s3, from_source(ProvenanceSource::Recovered)) == 1);
        assert(spec_is_recent(r1, now) && spec_is_recent(r2, now) && spec_is_recent(r3, now));
        assert(count_where(s1, recent_at(now)) == 1);
        assert(count_where(s2, recent_at(now)) == 2);
        assert(count_where(s3, recent_at(now)) == 3);
        assert(count_where(s1, degraded()) == 1);
        assert(count_where(s2, degraded()) == 2);
        assert(count_where(s3, degraded()) == 3);
        assert(records@ == s3);
    }
    if summary.attention_count != 3 {
        attention::clear(queue);
        return false;
    }
    let expected_total: u64 = records[0].score as u64 + records[1].score as u64 + records[2].score as u64;
    let mut expected_max: u16 = records[0].score;
    if records[1].score > expected_max {
        expected_max = records[1].score;
    }
    if records[2].score > expected_max {
        expected_max = records[2].score;
    }
    if summary.total_score != expected_total || summary.max_score != expected_max {
        attention::clear(queue);
        return false;
    }
    if summary.local_count != 1 || summary.remote_count != 1 || summary.recovered_count != 1 {
        attention::clear(queue);
        return false;
    }
    let limit = TIMER_FREQUENCY as u64;
    let mut recent_expected: usize = 0;
    if now.saturating_sub(first.timestamp) <= limit {
        recent_expected = recent_expected + 1;
    }
    if now.saturating_sub(second.timestamp) <= limit {
        recent_expected = recent_expected + 1;
    }
    if now.saturating_sub(third.timestamp) <= limit {
        recent_expected = recent_expected + 1;
    }
    if summary.recent_count != recent_expected || summary.degraded_count != 3 {
        attention::clear(queue);
        return false;
    }
    let still = attention::count(queue);
    attention::clear(queue);
    still == 3
}

} // verus!
