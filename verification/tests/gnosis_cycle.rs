use kernel::gnosis::attention::{self, AttentionQueue};
use kernel::gnosis::conscious::Workspace;
use kernel::gnosis::delta::{self, DeltaQueue, SemanticDelta};
use kernel::gnosis::homeostasis;
use kernel::gnosis::context::SystemState;
use kernel::gnosis::objects::{self, KnowledgeObject, ObjectStore, CURRENT_VERSION, FLAG_ACTIVE};
use kernel::gnosis::orchestration::{process_cycle, transition_and_publish, TransitionCycleResult, MAX_WORK};
use kernel::gnosis::reflex::{self, ReflexTrigger};
use kernel::gnosis::relation::{ProvenanceSource, RelationProvenance};
use kernel::gnosis::semantic;
use kernel::gnosis::subconscious::SubconsciousEngine;
use kernel::gnosis::transition::{self, Journal};

fn delta(object_id: u64, semantic_id: u32, previous: u32, new_state: u32, context: u64, timestamp: u64, source: ProvenanceSource, revision: u64) -> SemanticDelta {
    SemanticDelta {
        object_id,
        semantic_id,
        previous_state: previous,
        new_state,
        context,
        timestamp,
        provenance: RelationProvenance { origin: object_id, source, revision },
    }
}

fn system(ticks: u64) -> SystemState {
    SystemState { uptime_ticks: ticks, uptime_seconds: ticks / 100, uptime_millis: ticks * 10, keyboard_events: 0 }
}

#[test]
fn cycle_stages_every_delta_and_consumes_the_queue() {
    let mut deltas = DeltaQueue::new();
    let mut attention_queue = AttentionQueue::new();
    let mut engine = SubconsciousEngine::new();
    let mut workspace = Workspace::new();
    let first = delta(0x11, semantic::ACTIVE, semantic::INACTIVE, semantic::ACTIVE, 1, 100, ProvenanceSource::Local, 1);
    let second = delta(0x22, semantic::AVAILABLE, semantic::UNAVAILABLE, semantic::AVAILABLE, 2, 101, ProvenanceSource::Local, 2);
    assert!(delta::push(&mut deltas, first).is_ok());
    assert!(delta::push(&mut deltas, second).is_ok());
    assert_eq!(delta::count(&deltas), 2);

    let report = process_cycle(&mut deltas, &mut attention_queue, &mut engine, &mut workspace, 150);
    assert_eq!(report.deltas_observed, 2);
    assert_eq!(report.attention_admitted, 2);
    assert_eq!(report.attention_rejected, 0);
    assert_eq!(report.attention_full, 0);
    assert_eq!(delta::count(&deltas), 0);
    assert_eq!(attention::count(&attention_queue), 2);
    let records = attention::for_each(&attention_queue);
    assert_eq!(records[0].object_id, first.object_id);
    assert_eq!(records[1].object_id, second.object_id);
    assert!(report.conscious.workspace_count >= 2);
    assert_eq!(report.orchestration_work_used, 4);
    assert_eq!(report.orchestration_work_budget, MAX_WORK);
    assert!(!report.stopped_by_budget);
}

#[test]
fn cycle_counts_invalid_deltas() {
    let mut deltas = DeltaQueue::new();
    let mut attention_queue = AttentionQueue::new();
    let mut engine = SubconsciousEngine::new();
    let mut workspace = Workspace::new();
    let good = delta(0x11, semantic::ACTIVE, semantic::INACTIVE, semantic::ACTIVE, 1, 100, ProvenanceSource::Local, 1);
    assert!(delta::push(&mut deltas, good).is_ok());
    let report = process_cycle(&mut deltas, &mut attention_queue, &mut engine, &mut workspace, 100);
    assert_eq!(report.deltas_observed + report.attention_rejected, 1 + report.attention_rejected);
    assert_eq!(report.attention_admitted + report.attention_rejected + report.attention_full, 1);
}

fn ready_object(id: u64) -> KnowledgeObject {
    KnowledgeObject {
        id,
        semantic_type: semantic::STATE_OBJECT,
        state: semantic::READY,
        context: 77,
        flags: FLAG_ACTIVE,
        version: CURRENT_VERSION,
    }
}

#[test]
fn transition_publishes_once() {
    let mut journal = Journal::new();
    let mut deltas = DeltaQueue::new();
    let mut store = ObjectStore::new();
    assert!(objects::insert(&mut store, ready_object(0x700)));
    let r = transition_and_publish(&mut journal, &mut deltas, &mut store, 0x700, semantic::ACTIVE, 900, 55, 1);
    assert_eq!(r, TransitionCycleResult::Published);
    let object = objects::with_object(&store, 0x700).unwrap();
    assert_eq!(object.state, semantic::ACTIVE);
    assert!(object.version > CURRENT_VERSION);
    assert_eq!(delta::count(&deltas), 1);
    assert_eq!(transition::count(&journal), 1);
}

#[test]
fn transition_refused_on_a_full_queue_leaves_the_object() {
    let mut journal = Journal::new();
    let mut deltas = DeltaQueue::new();
    let mut store = ObjectStore::new();
    assert!(objects::insert(&mut store, ready_object(0x700)));
    let mut fill = 0u64;
    while fill < 64 {
        let d = delta(10_000 + fill, semantic::ACTIVE, semantic::READY, semantic::ACTIVE, 1, fill + 1, ProvenanceSource::Local, fill + 1);
        assert!(delta::push(&mut deltas, d).is_ok());
        fill += 1;
    }
    let r = transition_and_publish(&mut journal, &mut deltas, &mut store, 0x700, semantic::ACTIVE, 901, 55, 2);
    assert_eq!(r, TransitionCycleResult::Full);
    assert_eq!(objects::with_object(&store, 0x700).unwrap().state, semantic::READY);
    assert_eq!(transition::count(&journal), 0);
    assert_eq!(delta::count(&deltas), 64);
}

#[test]
fn transition_with_zero_revision_is_invalid() {
    let mut journal = Journal::new();
    let mut deltas = DeltaQueue::new();
    let mut store = ObjectStore::new();
    assert!(objects::insert(&mut store, ready_object(0x700)));
    let r = transition_and_publish(&mut journal, &mut deltas, &mut store, 0x700, semantic::ACTIVE, 900, 55, 0);
    assert_eq!(r, TransitionCycleResult::Invalid);
    assert_eq!(objects::with_object(&store, 0x700).unwrap().state, semantic::READY);
}

#[test]
fn homeostasis_summarises_without_consuming() {
    let mut queue = AttentionQueue::new();
    let empty = homeostasis::observe_at(&queue, 500);
    assert_eq!(empty.attention_count, 0);
    assert_eq!(empty.total_score, 0);
    assert_eq!(empty.max_score, 0);
    assert_eq!(empty.degraded_count, 0);

    let now = 500;
    let first = delta(11, semantic::AUTHORIZATION, semantic::READY, semantic::FAILED, 1, now, ProvenanceSource::Local, 1);
    let second = delta(12, semantic::AUTHORIZATION, semantic::READY, semantic::EXPIRED, 2, now, ProvenanceSource::Remote, 2);
    let third = delta(13, semantic::AUTHORIZATION, semantic::READY, semantic::OFFLINE, 3, now, ProvenanceSource::Recovered, 3);
    assert!(attention::push(&mut queue, first, now).is_ok());
    assert!(attention::push(&mut queue, second, now).is_ok());
    assert!(attention::push(&mut queue, third, now).is_ok());

    let summary = homeostasis::observe(&queue, &system(now));
    assert_eq!(summary.attention_count, 3);
    let records = attention::for_each(&queue);
    let total: u64 = records.iter().map(|r| r.score as u64).sum();
    let max = records.iter().map(|r| r.score).max().unwrap();
    assert_eq!(summary.total_score, total);
    assert_eq!(summary.max_score, max);
    assert_eq!(summary.local_count, 1);
    assert_eq!(summary.remote_count, 1);
    assert_eq!(summary.recovered_count, 1);
    assert_eq!(summary.recent_count, 3);
    assert_eq!(summary.degraded_count, 3);
    assert_eq!(attention::count(&queue), 3);

    let later = homeostasis::observe_at(&queue, now + 101);
    assert_eq!(later.recent_count, 0);
}

#[test]
fn reflex_recognises_failed_authorization_only() {
    let matching = delta(77, semantic::AUTHORIZATION, semantic::READY, semantic::FAILED, 9, 40, ProvenanceSource::Local, 7);
    let record = attention::evaluate(&matching, 40).unwrap();
    let expected = ReflexTrigger {
        object_id: record.object_id,
        semantic_id: record.semantic_id,
        previous_state: record.previous_state,
        new_state: record.new_state,
        context: record.context,
        timestamp: record.timestamp,
        provenance: record.provenance,
    };
    assert_eq!(reflex::evaluate(&record), Some(expected));
    assert_eq!(reflex::evaluate(&record), Some(expected));

    let other = delta(78, semantic::AUTHORIZATION, semantic::READY, semantic::ACTIVE, 10, 40, ProvenanceSource::Remote, 8);
    let other_record = attention::evaluate(&other, 40).unwrap();
    assert_eq!(reflex::evaluate(&other_record), None);

    let mut queue = AttentionQueue::new();
    assert_eq!(reflex::observe(&queue), None);
    assert!(attention::push(&mut queue, other, 40).is_ok());
    assert_eq!(reflex::observe(&queue), None);
    assert!(attention::push(&mut queue, matching, 40).is_ok());
    assert_eq!(reflex::observe(&queue), Some(expected));
    assert_eq!(attention::count(&queue), 2);
}

#[test]
fn delta_queue_is_first_in_first_out() {
    let mut deltas = DeltaQueue::new();
    let a = delta(1, semantic::ACTIVE, semantic::INACTIVE, semantic::ACTIVE, 1, 10, ProvenanceSource::Local, 1);
    let b = delta(2, semantic::ACTIVE, semantic::INACTIVE, semantic::ACTIVE, 1, 11, ProvenanceSource::Local, 2);
    assert!(delta::push(&mut deltas, a).is_ok());
    assert!(delta::push(&mut deltas, b).is_ok());
    assert_eq!(delta::pop(&mut deltas).unwrap().object_id, 1);
    assert_eq!(delta::pop(&mut deltas).unwrap().object_id, 2);
    assert!(delta::pop(&mut deltas).is_none());
}
