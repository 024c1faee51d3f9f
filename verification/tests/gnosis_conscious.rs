use kernel::gnosis::attention::AttentionRecord;
use kernel::gnosis::conscious::{self, from_attention, from_candidate, Workspace, WorkspaceSource, MAX_WORKSPACE};
use kernel::gnosis::relation::{ProvenanceSource, RelationProvenance};
use kernel::gnosis::semantic;
use kernel::gnosis::subconscious::{CandidateKind, CandidateRecord, SCALE};

fn provenance(origin: u64, revision: u64) -> RelationProvenance {
    RelationProvenance { origin, source: ProvenanceSource::Local, revision }
}

fn anomaly() -> CandidateRecord {
    CandidateRecord {
        kind: CandidateKind::Anomaly,
        semantic_id: semantic::ACTIVE,
        previous_state: semantic::ACTIVE,
        observed_state: semantic::FAILED,
        predicted_state: semantic::ACTIVE,
        context: 1,
        score_fixed: SCALE,
        uncertainty_fixed: 0,
        support: 3,
        timestamp: 11,
        provenance: provenance(11, 2),
        origin_object_id: 10,
    }
}

#[test]
fn workspace_focuses_the_most_salient_item() {
    let attention = AttentionRecord {
        object_id: 10,
        semantic_id: semantic::ACTIVE,
        previous_state: semantic::INACTIVE,
        new_state: semantic::ACTIVE,
        context: 1,
        timestamp: 10,
        provenance: provenance(10, 1),
        score: 1000,
    };
    let mut workspace = Workspace::new();
    let attention_item = from_attention(&attention);
    let candidate_item = from_candidate(&anomaly());
    assert!(workspace.admit_item(attention_item));
    assert!(workspace.admit_item(candidate_item));
    assert_eq!(conscious::count(&workspace), 2);
    let selected = workspace.focus();
    assert_eq!(selected.source, WorkspaceSource::Subconscious);
    assert_eq!(selected.current_state, semantic::FAILED);
}

#[test]
fn workspace_ties_go_to_the_lower_object() {
    let base = from_candidate(&anomaly());
    let mut a = base;
    let mut b = base;
    a.object_id = 20;
    b.object_id = 21;
    a.timestamp = 100;
    b.timestamp = 100;
    a.salience_fixed = 5000;
    b.salience_fixed = 5000;
    a.uncertainty_fixed = 5000;
    b.uncertainty_fixed = 5000;
    let mut workspace = Workspace::new();
    assert!(workspace.admit_item(b));
    assert!(workspace.admit_item(a));
    assert_eq!(workspace.focus().object_id, 20);
}

#[test]
fn a_full_workspace_keeps_the_strongest() {
    let base = from_candidate(&anomaly());
    let mut workspace = Workspace::new();
    let mut i = 0usize;
    while i < MAX_WORKSPACE {
        let mut item = base;
        item.object_id = i as u64 + 100;
        item.salience_fixed = i as u32;
        item.timestamp = i as u64;
        assert!(workspace.admit_item(item));
        i += 1;
    }
    let mut strongest = base;
    strongest.object_id = 999;
    strongest.salience_fixed = SCALE;
    assert!(workspace.admit_item(strongest));
    assert_eq!(workspace.focus().object_id, 999);
    assert_eq!(conscious::count(&workspace), MAX_WORKSPACE);
}

#[test]
fn workspace_is_visited_in_ranking_order() {
    let base = from_candidate(&anomaly());
    let mut workspace = Workspace::new();
    for (id, salience) in [(1u64, 1u32), (2, 5), (3, 3)] {
        let mut item = base;
        item.object_id = id;
        item.salience_fixed = salience;
        assert!(workspace.admit_item(item));
    }
    let visited = conscious::for_each(&workspace);
    let ids: Vec<u64> = visited.iter().map(|i| i.object_id).collect();
    assert_eq!(ids, vec![2, 3, 1]);
}
