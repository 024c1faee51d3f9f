use kernel::gnosis::delta::SemanticDelta;
use kernel::gnosis::relation::{ProvenanceSource, RelationProvenance};
use kernel::gnosis::semantic;
use kernel::gnosis::subconscious::{
    self, confidence_fixed, information_surprisal_bits, uncertainty_fixed, AnomalyState, CandidateKind,
    SubconsciousEngine, MAX_SURPRISAL_BITS, MIN_EVIDENCE, SCALE,
};

fn make_delta(object_id: u64, semantic_id: u32, previous: u32, new_state: u32, context: u64, timestamp: u64, revision: u64) -> SemanticDelta {
    SemanticDelta {
        object_id,
        semantic_id,
        previous_state: previous,
        new_state,
        context,
        timestamp,
        provenance: RelationProvenance { origin: object_id, source: ProvenanceSource::Local, revision },
    }
}

#[test]
fn confidence_and_uncertainty_in_fixed_point() {
    assert_eq!(confidence_fixed(0, 0), 0);
    assert_eq!(confidence_fixed(1, 0), 0);
    assert_eq!(confidence_fixed(1, 5), 2000);
    assert_eq!(confidence_fixed(2, 5), 4000);
    assert_eq!(confidence_fixed(5, 5), SCALE);
    assert_eq!(confidence_fixed(u32::MAX, 1), SCALE);
    assert_eq!(uncertainty_fixed(0), SCALE);
    assert_eq!(uncertainty_fixed(SCALE), 0);
    assert_eq!(uncertainty_fixed(2500), 7500);
}

#[test]
fn surprisal_grows_as_events_get_rarer() {
    let s1 = information_surprisal_bits(5, 5);
    let s2 = information_surprisal_bits(1, 5);
    let s3 = information_surprisal_bits(1, 1000);
    assert!(s1 <= s2 && s2 <= s3 && s3 <= MAX_SURPRISAL_BITS);
    assert_eq!(s1, 0);
}

#[test]
fn one_observation_predicts_nothing() {
    let mut engine = SubconsciousEngine::new();
    let single = [make_delta(10, semantic::CONNECTED_TO, semantic::READY, semantic::ACTIVE, 1, 1, 1)];
    let report = subconscious::process(&mut engine, &single);
    assert_eq!(report.prediction_count, 0);
    assert_eq!(report.latest_anomaly.state, AnomalyState::Unknown);
    assert_eq!(report.valid_observations, 1);
}

#[test]
fn repeated_transitions_are_learned() {
    let mut engine = SubconsciousEngine::new();
    let train = [
        make_delta(20, semantic::CAUSES, semantic::PENDING, semantic::COMPLETE, 9, 10, 10),
        make_delta(20, semantic::CAUSES, semantic::PENDING, semantic::COMPLETE, 9, 11, 11),
        make_delta(20, semantic::CAUSES, semantic::PENDING, semantic::COMPLETE, 9, 12, 12),
    ];
    let learned = subconscious::process(&mut engine, &train);
    assert_eq!(learned.valid_observations, 3);
    assert!(learned.prediction_count > 0);
    assert!(learned.latest_prediction.support >= MIN_EVIDENCE);
    assert_eq!(learned.latest_prediction.uncertainty_fixed, SCALE);
    assert!(
        learned.latest_candidate.kind == CandidateKind::Prediction
            || learned.latest_candidate.kind == CandidateKind::RepeatedTransition
    );
    assert!(learned.work_used <= subconscious::MAX_WORK);
}
