use kernel::gnosis::graph::{self, GraphDirection, GraphPattern, MAX_GRAPH_RELATIONS};
use kernel::gnosis::query::{self, GraphQuery, PatternQuery, QueryPath, QueryStep, MAX_QUERY_PATHS};
use kernel::gnosis::relation::{Relation, RelationRegistry};
use kernel::gnosis::semantic;

fn three_relations() -> (RelationRegistry, [u64; 3]) {
    let mut reg = RelationRegistry::new();
    let a = reg.add(Relation { source: 10, relation: semantic::CONNECTED_TO, target: 20, context: 1 }, 1).unwrap();
    let b = reg.add(Relation { source: 20, relation: semantic::CONNECTED_TO, target: 30, context: 1 }, 1).unwrap();
    let c = reg.add(Relation { source: 30, relation: semantic::CAUSES, target: 40, context: 2 }, 1).unwrap();
    (reg, [a, b, c])
}

#[test]
fn graph_views_of_a_chain() {
    let (reg, ids) = three_relations();
    let full = graph::snapshot(&reg).unwrap();
    assert_eq!(full.relation_count, 3);
    assert_eq!(full.node_count, 4);
    assert!(full.is_valid());

    let near = graph::neighborhood(&reg, 20, GraphDirection::Both).unwrap();
    assert_eq!(near.relation_count, 2);
    assert_eq!(near.node_count, 3);

    let mut matches = [0u64; MAX_GRAPH_RELATIONS];
    let matched = graph::match_pattern(
        &reg,
        GraphPattern { source: None, relation: Some(semantic::CONNECTED_TO), target: None, context: Some(1) },
        &mut matches,
    );
    assert_eq!(matched, 2);
    assert_eq!(matches[0], ids[0]);
    assert_eq!(matches[1], ids[1]);

    let s = graph::stats(&reg);
    assert_eq!(s.relation_count, 3);
    assert_eq!(s.node_count, 4);
    assert_eq!(s.self_relation_count, 0);
    assert_eq!(s.context_count, 2);
    assert_eq!(s.semantic_count, 2);
    assert_eq!(s.source_node_count, 3);
    assert_eq!(s.sink_node_count, 3);
    assert_eq!(s.isolated_node_count, 0);

    let report = graph::validate(&reg);
    assert!(report.valid);
    assert_eq!(report.checked_relations, 3);
    assert_eq!(report.invalid_relations, 0);
    assert_eq!(report.duplicate_relations, 0);

    assert_eq!(graph::component_size(&reg, 10, GraphDirection::Outgoing), Some(4));
    assert_eq!(graph::component_size(&reg, 40, GraphDirection::Outgoing), Some(1));
    assert_eq!(graph::component_size(&reg, 30, GraphDirection::Incoming), Some(3));
    assert_eq!(graph::component_size(&reg, 0, GraphDirection::Outgoing), None);
}

#[test]
fn queries_find_the_chain() {
    let (mut reg, ids) = three_relations();
    let q = GraphQuery { source: 10, target: Some(40), direction: GraphDirection::Outgoing, max_depth: 4, relation: None, context: None };
    let mut paths = [QueryPath::empty(0); MAX_QUERY_PATHS];
    let report = query::find_paths(&mut reg, q, &mut paths);
    assert!(report.valid);
    assert_eq!(report.paths_found, 1);
    assert!(query::validate_path(&mut reg, &paths[0]));
    assert_eq!(paths[0].node_count, 4);
    assert_eq!(paths[0].relation_count, 3);
    assert_eq!(paths[0].nodes[0], 10);
    assert_eq!(paths[0].nodes[3], 40);
    assert_eq!(paths[0].relation_ids[0], ids[0]);
    assert_eq!(paths[0].relation_ids[1], ids[1]);
    assert_eq!(paths[0].relation_ids[2], ids[2]);
    assert!(query::best_score(&mut reg, q).is_some());
    assert!(query::reachable(&mut reg, q));

    let mut pattern = PatternQuery::empty(10);
    assert!(pattern.push(QueryStep { relation: Some(semantic::CONNECTED_TO), context: Some(1), target: Some(20) }));
    assert!(pattern.push(QueryStep { relation: Some(semantic::CONNECTED_TO), context: Some(1), target: Some(30) }));
    assert!(pattern.push(QueryStep { relation: Some(semantic::CAUSES), context: Some(2), target: Some(40) }));
    let mut pattern_paths = [QueryPath::empty(0); MAX_QUERY_PATHS];
    let pattern_report = query::match_pattern(&mut reg, pattern, &mut pattern_paths);
    assert!(pattern_report.valid);
    assert_eq!(pattern_report.paths_found, 1);
    assert!(query::validate_path(&mut reg, &pattern_paths[0]));

    let invalid = GraphQuery { source: 0, ..q };
    assert!(!query::validate_query(invalid));
    assert!(!query::reachable(&mut reg, invalid));
}
