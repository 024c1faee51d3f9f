//! GNOSIS spirit: a read-only coherence summary over attention, knowledge,
//! the relation registry and its graph. It keeps no state of its own.
use vstd::prelude::*;
use crate::gnosis::attention::AttentionQueue;
use crate::gnosis::context::{self, SystemState};
use crate::gnosis::graph::{
    self,
    contexts_of,
    disconnected_count,
    duplicate_count,
    endpoints,
    invalid_count,
    semantics_of,
};
use crate::gnosis::homeostasis::{self, summary_of};
use crate::gnosis::knowledge::{KnowledgeRegistry, leading_count};
use crate::gnosis::reflex::{self, first_trigger};
use crate::gnosis::relation::{RelationRegistry, fnv1a, listing};

verus! {

#[derive(Clone, Copy, Debug, PartialEq, Eq, Structural)]
pub struct SpiritSnapshot {
    pub active: bool,
    pub generation: u64,
    pub uptime_ticks: u64,
    pub soul_present: bool,
    pub attention_count: usize,
    pub degraded_count: usize,
    pub total_attention_score: u64,
    pub reflex_active: bool,
    pub knowledge_entries: usize,
    pub relation_count: usize,
    pub relation_registry_hash: u64,
    pub graph_valid: bool,
    pub graph_invalid_relations: usize,
    pub graph_duplicate_relations: usize,
    pub graph_disconnected_relations: usize,
    pub graph_node_count: usize,
    pub graph_context_count: usize,
    pub graph_semantic_count: usize,
}

pub const CAPACITY: usize = 1;

/// Whether `s` shows the current state of its sources.
pub open spec fn spirit_matches(
    s: SpiritSnapshot,
    system: SystemState,
    attention: AttentionQueue,
    knowledge: KnowledgeRegistry,
    relations: RelationRegistry,
) -> bool {
    let summary = summary_of(attention.contents(), system.uptime_ticks);
    let list = listing(relations.slots());
    let n = list.len() as int;
    &&& s.active == context::ACTIVE
    &&& s.generation == system.keyboard_events
    &&& s.uptime_ticks == system.uptime_ticks
    &&& s.soul_present
    &&& s.attention_count == summary.attention_count
    &&& s.degraded_count == summary.degraded_count
    &&& s.total_attention_score == summary.total_score
    &&& s.reflex_active == first_trigger(attention.contents()) is Some
    &&& s.knowledge_entries == leading_count(knowledge.entries())
    &&& s.relation_count == relations.spec_count()
    &&& s.relation_registry_hash == fnv1a(relations.serialized())
    &&& s.graph_invalid_relations == invalid_count(relations, list, n)
    &&& s.graph_duplicate_relations == duplicate_count(list, n)
    &&& s.graph_disconnected_relations == disconnected_count(relations, list, n)
    &&& s.graph_valid == (s.graph_invalid_relations == 0 && s.graph_duplicate_relations == 0
        && s.graph_disconnected_relations == 0)
    &&& s.graph_node_count == endpoints(list, n).len()
    &&& s.graph_context_count == contexts_of(list, n).len()
    &&& s.graph_semantic_count == semantics_of(list, n).len()
}

/// The spirit as it stands.
pub fn snapshot(
    system: &SystemState,
    attention: &AttentionQueue,
    knowledge: &KnowledgeRegistry,
    relations: &RelationRegistry,
) -> (s: SpiritSnapshot)
    requires
        attention.wf(),
        knowledge.wf(),
    ensures
        spirit_matches(s, *system, *attention, *knowledge, *relations),
{
    let summary = homeostasis::observe(attention, system);
    let reflex_active = reflex::observe(attention).is_some();
    let report = graph::validate(relations);
    let stats = graph::stats(relations);
    let hash = match relations.hash() {
        Some(value) => value,
        None => 0,
    };
    SpiritSnapshot {
        active: context::is_active(),
        generation: context::generation(system),
        uptime_ticks: context::uptime_ticks(system),
        soul_present: true,
        attention_count: summary.attention_count,
        degraded_count: summary.degraded_count,
        total_attention_score: summary.total_score,
        reflex_active,
        knowledge_entries: knowledge.entry_count(),
        relation_count: relations.count(),
        relation_registry_hash: hash,
        graph_valid: report.valid,
        graph_invalid_relations: report.invalid_relations,
        graph_duplicate_relations: report.duplicate_relations,
        graph_disconnected_relations: report.disconnected_relation_count,
        graph_node_count: stats.node_count,
        graph_context_count: stats.context_count,
        graph_semantic_count: stats.semantic_count,
    }
}

/// Same as `snapshot`.
pub fn observe(
    system: &SystemState,
    attention: &AttentionQueue,
    knowledge: &KnowledgeRegistry,
    relations: &RelationRegistry,
) -> (s: SpiritSnapshot)
    requires
        attention.wf(),
        knowledge.wf(),
    ensures
        spirit_matches(s, *system, *attention, *knowledge, *relations),
{
    snapshot(system, attention, knowledge, relations)
}

/// The spirit's own check: a snapshot shows the homeostatic summary, the
/// reflex, the knowledge and relation counts, the registry hash and the
/// graph's report and statistics as their own observers give them, and a
/// second snapshot shows the same.
pub fn self_test(
    system: &SystemState,
    attention: &AttentionQueue,
    knowledge: &KnowledgeRegistry,
    relations: &RelationRegistry,
) -> (ok: bool)
    requires
        attention.wf(),
        knowledge.wf(),
    ensures
        ok,
{
    if CAPACITY != 1 {
        return false;
    }
    let relations_before = match relations.hash() {
        Some(value) => value,
        None => return false,
    };
    let stats_before = graph::stats(relations);
    let report_before = graph::validate(relations);
    let first = snapshot(system, attention, knowledge, relations);
    if !first.active || !first.soul_present {
        return false;
    }
    let summary = homeostasis::observe(attention, system);
    if first.attention_count != summary.attention_count || first.degraded_count != summary.degraded_count
        || first.total_attention_score != summary.total_score {
        return false;
    }
    if first.reflex_active != reflex::observe(attention).is_some() {
        return false;
    }
    if first.knowledge_entries != knowledge.entry_count() || first.relation_count != relations.count() {
        return false;
    }
    if first.relation_registry_hash != relations_before {
        return false;
    }
    let stats_now = graph::stats(relations);
    let report_now = graph::validate(relations);
    if first.graph_valid != report_now.valid || first.graph_invalid_relations != report_now.invalid_relations
        || first.graph_duplicate_relations != report_now.duplicate_relations
        || first.graph_disconnected_relations != report_now.disconnected_relation_count
        || first.graph_node_count != stats_now.node_count || first.graph_context_count
        != stats_now.context_count || first.graph_semantic_count != stats_now.semantic_count {
        return false;
    }
    if first.generation > context::generation(system) || first.uptime_ticks > context::uptime_ticks(system) {
        return false;
    }
    let second = observe(system, attention, knowledge, relations);
    if second != first {
        return false;
    }
    let relations_after = match relations.hash() {
        Some(value) => value,
        None => return false,
    };
    let stats_after = graph::stats(relations);
    let report_after = graph::validate(relations);
    if relations_after != relations_before {
        return false;
    }
    if stats_after.relation_count != stats_before.relation_count || stats_after.node_count
        != stats_before.node_count || stats_after.source_node_count != stats_before.source_node_count
        || stats_after.sink_node_count != stats_before.sink_node_count
        || stats_after.isolated_node_count != stats_before.isolated_node_count
        || stats_after.self_relation_count != stats_before.self_relation_count
        || stats_after.context_count != stats_before.context_count || stats_after.semantic_count
        != stats_before.semantic_count {
        return false;
    }
    report_after.valid == report_before.valid && report_after.checked_relations
        == report_before.checked_relations && report_after.invalid_relations
        == report_before.invalid_relations && report_after.duplicate_relations
        == report_before.duplicate_relations && report_after.disconnected_relation_count
        == report_before.disconnected_relation_count
}

} // verus!
