//! GNOSIS subconscious engine: bounded, integer-only learning over semantic
//! deltas. It learns transition statistics, detects recurrent patterns,
//! issues one-step predictions and flags anomalies, all as provisional,
//! derived records; it never touches canonical state.
use vstd::prelude::*;
use vstd::arithmetic::power2::pow2;
use crate::gnosis::delta::{self, DeltaQueue, SemanticDelta, delta_valid};
use crate::gnosis::objects::{self, ObjectStore};
use crate::gnosis::relation::{ProvenanceSource, RelationProvenance};
use crate::gnosis::semantic::{self, ContextId, ObjectId, SemanticId};

verus! {

/// Fixed-point scale of confidence and uncertainty.
pub const SCALE: u32 = 10_000;
pub const MAX_TRANSITIONS: usize = 32;
pub const MAX_STATE_COUNTS: usize = 32;
pub const MAX_PREDICTIONS: usize = 16;
pub const MAX_ANOMALIES: usize = 16;
pub const MAX_CANDIDATES: usize = 16;
pub const MAX_PATTERNS: usize = 16;
/// Observations accepted by one processing call.
pub const MAX_OBSERVATIONS: usize = 64;
/// Size of the duplicate-suppression window.
pub const MAX_SEEN: usize = 128;
/// Work units one processing call may spend.
pub const MAX_WORK: usize = 4096;
/// Most work units learning one observation can take: its charge, a scan
/// of the duplicate window and the learning steps.
pub const OBSERVATION_WORK: usize = 248;
/// Transition evidence needed before a prediction is issued.
pub const MIN_EVIDENCE: u32 = 3;
pub const MAX_PERCENT: u32 = 100;
pub const MAX_SURPRISAL_BITS: u8 = 63;
/// Observations after which a transition counts as a recurrent pattern.
pub const MIN_PATTERN_EVIDENCE: u32 = 3;

/// Kinds of signal the engine produces; never commands.
#[derive(Clone, Copy, Debug, PartialEq, Eq, Structural)]
pub enum CandidateKind {
    RepeatedTransition,
    Prediction,
    Anomaly,
    ResourceTransition,
}

#[derive(Clone, Copy, Debug, PartialEq, Eq, Structural)]
pub enum PredictionOutcome {
    Unresolved,
    Hit,
    Miss,
}

#[derive(Clone, Copy, Debug, PartialEq, Eq, Structural)]
pub enum AnomalyState {
    Unknown,
    Expected,
    Anomalous,
}

pub open spec fn no_provenance() -> RelationProvenance {
    RelationProvenance { origin: 0, source: ProvenanceSource::Local, revision: 0 }
}

fn empty_provenance() -> (p: RelationProvenance)
    ensures
        p == no_provenance(),
{
    RelationProvenance { origin: 0, source: ProvenanceSource::Local, revision: 0 }
}

/// Learned statistics of one transition of one object.
#[derive(Clone, Copy, Debug, PartialEq, Eq, Structural)]
pub struct TransitionStats {
    pub object_id: ObjectId,
    pub semantic_id: SemanticId,
    pub previous_state: SemanticId,
    pub next_state: SemanticId,
    pub context: ContextId,
    pub count: u32,
    pub prediction_attempts: u32,
    pub prediction_hits: u32,
    pub prediction_misses: u32,
    pub last_seen: u64,
    pub provenance: RelationProvenance,
}

impl TransitionStats {
    pub fn empty() -> (r: Self)
        ensures
            r.object_id == 0 && r.count == 0 && r.prediction_attempts == 0 && r.provenance == no_provenance(),
    {
        TransitionStats {
            object_id: 0,
            semantic_id: 0,
            previous_state: 0,
            next_state: 0,
            context: 0,
            count: 0,
            prediction_attempts: 0,
            prediction_hits: 0,
            prediction_misses: 0,
            last_seen: 0,
            provenance: empty_provenance(),
        }
    }
}

/// How often an object was seen in a state.
#[derive(Clone, Copy, Debug, PartialEq, Eq, Structural)]
pub struct StateCount {
    pub object_id: ObjectId,
    pub semantic_id: SemanticId,
    pub state: SemanticId,
    pub context: ContextId,
    pub count: u32,
}

impl StateCount {
    pub fn empty() -> (r: Self)
        ensures
            r == (StateCount { object_id: 0, semantic_id: 0, state: 0, context: 0, count: 0 }),
    {
        StateCount { object_id: 0, semantic_id: 0, state: 0, context: 0, count: 0 }
    }
}

/// A recurrent transition: a statistical observation, not a fact.
#[derive(Clone, Copy, Debug, PartialEq, Eq, Structural)]
pub struct PatternRecord {
    pub object_id: ObjectId,
    pub semantic_id: SemanticId,
    pub previous_state: SemanticId,
    pub next_state: SemanticId,
    pub context: ContextId,
    pub support: u32,
    pub first_seen: u64,
    pub last_seen: u64,
    pub recurrence: u32,
    pub provenance: RelationProvenance,
}

impl PatternRecord {
    pub fn empty() -> (r: Self)
        ensures
            r.object_id == 0 && r.support == 0 && r.recurrence == 0 && r.provenance == no_provenance(),
    {
        PatternRecord {
            object_id: 0,
            semantic_id: 0,
            previous_state: 0,
            next_state: 0,
            context: 0,
            support: 0,
            first_seen: 0,
            last_seen: 0,
            recurrence: 0,
            provenance: empty_provenance(),
        }
    }
}

/// A provisional one-step prediction.
#[derive(Clone, Copy, Debug, PartialEq, Eq, Structural)]
pub struct PredictionRecord {
    pub semantic_id: SemanticId,
    pub source_state: SemanticId,
    pub target_state: SemanticId,
    pub context: ContextId,
    pub support: u32,
    pub total_outgoing: u32,
    pub confidence_fixed: u32,
    pub uncertainty_fixed: u32,
    pub created_at: u64,
    pub outcome: PredictionOutcome,
    pub error: u32,
    pub provenance: RelationProvenance,
    pub origin_object_id: ObjectId,
}

pub open spec fn empty_prediction() -> PredictionRecord {
    PredictionRecord {
        semantic_id: 0,
        source_state: 0,
        target_state: 0,
        context: 0,
        support: 0,
        total_outgoing: 0,
        confidence_fixed: 0,
        uncertainty_fixed: SCALE,
        created_at: 0,
        outcome: PredictionOutcome::Unresolved,
        error: 0,
        provenance: no_provenance(),
        origin_object_id: 0,
    }
}

impl PredictionRecord {
    pub fn empty() -> (r: Self)
        ensures
            r == empty_prediction(),
    {
        PredictionRecord {
            semantic_id: 0,
            source_state: 0,
            target_state: 0,
            context: 0,
            support: 0,
            total_outgoing: 0,
            confidence_fixed: 0,
            uncertainty_fixed: SCALE,
            created_at: 0,
            outcome: PredictionOutcome::Unresolved,
            error: 0,
            provenance: empty_provenance(),
            origin_object_id: 0,
        }
    }
}

/// A statistical anomaly observation; not a verdict.
#[derive(Clone, Copy, Debug, PartialEq, Eq, Structural)]
pub struct AnomalyRecord {
    pub semantic_id: SemanticId,
    pub source_state: SemanticId,
    pub actual_state: SemanticId,
    pub expected_state: SemanticId,
    pub context: ContextId,
    pub score_fixed: u32,
    pub baseline: u32,
    pub state: AnomalyState,
    pub provenance: RelationProvenance,
    pub origin_object_id: ObjectId,
}

pub open spec fn empty_anomaly() -> AnomalyRecord {
    AnomalyRecord {
        semantic_id: 0,
        source_state: 0,
        actual_state: 0,
        expected_state: 0,
        context: 0,
        score_fixed: 0,
        baseline: 0,
        state: AnomalyState::Unknown,
        provenance: no_provenance(),
        origin_object_id: 0,
    }
}

impl AnomalyRecord {
    pub fn empty() -> (r: Self)
        ensures
            r == empty_anomaly(),
    {
        AnomalyRecord {
            semantic_id: 0,
            source_state: 0,
            actual_state: 0,
            expected_state: 0,
            context: 0,
            score_fixed: 0,
            baseline: 0,
            state: AnomalyState::Unknown,
            provenance: empty_provenance(),
            origin_object_id: 0,
        }
    }
}

/// A provisional signal derived from the observations.
#[derive(Clone, Copy, Debug, PartialEq, Eq, Structural)]
pub struct CandidateRecord {
    pub kind: CandidateKind,
    pub semantic_id: SemanticId,
    pub previous_state: SemanticId,
    pub observed_state: SemanticId,
    pub predicted_state: SemanticId,
    pub context: ContextId,
    pub score_fixed: u32,
    pub uncertainty_fixed: u32,
    pub support: u32,
    pub timestamp: u64,
    pub provenance: RelationProvenance,
    pub origin_object_id: ObjectId,
}

pub open spec fn empty_candidate() -> CandidateRecord {
    CandidateRecord {
        kind: CandidateKind::RepeatedTransition,
        semantic_id: 0,
        previous_state: 0,
        observed_state: 0,
        predicted_state: 0,
        context: 0,
        score_fixed: 0,
        uncertainty_fixed: SCALE,
        support: 0,
        timestamp: 0,
        provenance: no_provenance(),
        origin_object_id: 0,
    }
}

impl CandidateRecord {
    pub fn empty() -> (r: Self)
        ensures
            r == empty_candidate(),
    {
        CandidateRecord {
            kind: CandidateKind::RepeatedTransition,
            semantic_id: 0,
            previous_state: 0,
            observed_state: 0,
            predicted_state: 0,
            context: 0,
            score_fixed: 0,
            uncertainty_fixed: SCALE,
            support: 0,
            timestamp: 0,
            provenance: empty_provenance(),
            origin_object_id: 0,
        }
    }
}

#[derive(Clone, Copy, Debug, PartialEq, Eq, Structural)]
pub enum CandidateFreshness {
    Fresh,
    Stale,
    MissingCanonical,
    InvalidProvenance,
}

/// Freshness of a candidate against the canonical store: its provenance
/// revision is the object version it was derived from.
pub open spec fn spec_freshness(store: ObjectStore, c: CandidateRecord) -> CandidateFreshness {
    if c.origin_object_id == 0 || c.provenance.revision == 0 {
        CandidateFreshness::InvalidProvenance
    } else {
        match store.get(c.origin_object_id) {
            None => CandidateFreshness::MissingCanonical,
            Some(o) => if o.version as u64 == c.provenance.revision {
                CandidateFreshness::Fresh
            } else {
                CandidateFreshness::Stale
            },
        }
    }
}

/// Checks a candidate against the current canonical object version; reads
/// the store only.
pub fn candidate_freshness(store: &ObjectStore, candidate: &CandidateRecord) -> (r: CandidateFreshness)
    ensures
        r == spec_freshness(*store, *candidate),
{
    if candidate.origin_object_id == 0 || candidate.provenance.revision == 0 {
        return CandidateFreshness::InvalidProvenance;
    }
    match objects::with_object(store, candidate.origin_object_id) {
        None => CandidateFreshness::MissingCanonical,
        Some(object) => {
            if object.version as u64 == candidate.provenance.revision {
                CandidateFreshness::Fresh
            } else {
                CandidateFreshness::Stale
            }
        },
    }
}

/// Fixed-point hit rate: `min(successes, attempts) * SCALE / attempts`, and
/// 0 without attempts.
pub open spec fn spec_confidence(successes: u32, attempts: u32) -> u32 {
    if attempts == 0 {
        0
    } else {
        let capped = if successes < attempts { successes } else { attempts };
        ((capped as int * SCALE as int) / attempts as int) as u32
    }
}

pub fn confidence_fixed(successes: u32, attempts: u32) -> (r: u32)
    ensures
        r == spec_confidence(successes, attempts),
        r <= SCALE,
{
    if attempts == 0 {
        return 0;
    }
    let capped = if successes < attempts { successes } else { attempts };
    assert(capped as int * 10000 <= attempts as int * 10000) by (nonlinear_arith)
        requires
            capped <= attempts,
    ;
    assert((capped as int * 10000) / attempts as int <= 10000) by (nonlinear_arith)
        requires
            capped <= attempts,
            attempts > 0,
            capped as int * 10000 <= attempts as int * 10000,
    ;
    let numerator: u64 = (capped as u64) * (SCALE as u64);
    (numerator / (attempts as u64)) as u32
}

/// Complement of a confidence, clamped at 0.
pub open spec fn spec_uncertainty(confidence: u32) -> u32 {
    if confidence >= SCALE {
        0
    } else {
        (SCALE - confidence) as u32
    }
}

pub fn uncertainty_fixed(confidence: u32) -> (r: u32)
    ensures
        r == spec_uncertainty(confidence),
{
    let c = if confidence < SCALE { confidence } else { SCALE };
    SCALE - c
}

/// 0 for a correct categorical prediction, 1 otherwise.
pub fn categorical_error(expected: SemanticId, actual: SemanticId) -> (r: u32)
    ensures
        r == (if expected == actual { 0u32 } else { 1u32 }),
{
    if expected == actual {
        0
    } else {
        1
    }
}

/// The least `b` from `b0` on with `2^b >= ratio`, capped at 63.
pub open spec fn bits_for(ratio: int, b: nat) -> nat
    decreases 63 - b,
{
    if b >= 63 || pow2(b) >= ratio {
        b
    } else {
        bits_for(ratio, b + 1)
    }
}

/// Surprisal bucket of an event seen `count` times out of `total`: the bits
/// needed for the rounded-up ratio `total / count`.
pub open spec fn spec_surprisal(count: u32, total: u32) -> u8 {
    if count == 0 || total == 0 {
        MAX_SURPRISAL_BITS
    } else {
        let ratio = (total as int + count as int - 1) / count as int;
        if ratio <= 1 {
            0
        } else {
            bits_for(ratio, 0) as u8
        }
    }
}

proof fn lemma_bits_for_bound(ratio: int, b: nat)
    requires
        b <= 63,
    ensures
        b <= bits_for(ratio, b) <= 63,
    decreases 63 - b,
{
    if !(b >= 63 || pow2(b) >= ratio) {
        lemma_bits_for_bound(ratio, b + 1);
    }
}

pub fn information_surprisal_bits(count: u32, total: u32) -> (r: u8)
    ensures
        r == spec_surprisal(count, total),
        r <= MAX_SURPRISAL_BITS,
{
    if count == 0 || total == 0 {
        return MAX_SURPRISAL_BITS;
    }
    let mut ratio: u64 = (total as u64) / (count as u64);
    if (total as u64) % (count as u64) != 0 {
        ratio = ratio + 1;
    }
    proof {
        vstd::arithmetic::div_mod::lemma_fundamental_div_mod(total as int, count as int);
        assert((total as int + count as int - 1) / count as int == ratio) by {
            let q = total as int / count as int;
            let m = total as int % count as int;
            if m == 0 {
                assert(total as int + count as int - 1 == q * count as int + (count as int - 1)) by (nonlinear_arith)
                    requires
                        total as int == count as int * q + m,
                        m == 0,
                ;
                vstd::arithmetic::div_mod::lemma_fundamental_div_mod_converse(
                    total as int + count as int - 1,
                    count as int,
                    q,
                    count as int - 1,
                );
            } else {
                assert(total as int + count as int - 1 == (q + 1) * count as int + (m - 1)) by (nonlinear_arith)
                    requires
                        total as int == count as int * q + m,
                ;
                vstd::arithmetic::div_mod::lemma_fundamental_div_mod_converse(
                    total as int + count as int - 1,
                    count as int,
                    q + 1,
                    m - 1,
                );
            }
        }
    }
    proof {
        let q = total as int / count as int;
        let m = total as int % count as int;
        assert(q <= total as int) by (nonlinear_arith)
            requires
                q * count as int + m == total as int,
                0 <= m,
                count >= 1,
                q >= 0,
        ;
        assert(m != 0 ==> q + 1 <= total as int) by (nonlinear_arith)
            requires
                q * count as int + m == total as int,
                0 <= m,
                count >= 1,
                q >= 0,
        ;
        vstd::arithmetic::div_mod::lemma_div_pos_is_pos(total as int, count as int);
    }
    if ratio <= 1 {
        return 0;
    }
    let mut bits: u8 = 0;
    let mut threshold: u64 = 1;
    proof {
        vstd::arithmetic::power2::lemma2_to64();
    }
    while threshold < ratio && bits < MAX_SURPRISAL_BITS
        invariant
            bits <= 63,
            threshold == pow2(bits as nat),
            1 < ratio <= u32::MAX,
            bits_for(ratio as int, 0) == bits_for(ratio as int, bits as nat),
            bits <= 32,
        decreases 63 - bits,
    {
        proof {
            vstd::arithmetic::power2::lemma_pow2_adds(bits as nat, 1);
            vstd::arithmetic::power2::lemma2_to64();
            if bits > 32 {
                vstd::arithmetic::power2::lemma_pow2_strictly_increases(32, bits as nat);
            }
        }
        threshold = threshold * 2;
        bits = bits + 1;
    }
    proof {
        lemma_bits_for_bound(ratio as int, 0);
    }
    bits
}


/// Aggregate report of one processing call; every field is derived.
#[derive(Clone, Copy, Debug, PartialEq, Eq, Structural)]
pub struct SubconsciousReport {
    pub observations_seen: usize,
    pub valid_observations: usize,
    pub invalid_observations: usize,
    pub duplicate_observations: usize,
    pub transition_count: usize,
    pub state_count: usize,
    pub pattern_count: usize,
    pub prediction_count: usize,
    pub hit_count: usize,
    pub miss_count: usize,
    pub anomaly_count: usize,
    pub candidate_count: usize,
    pub raw_units: u32,
    pub summary_units: u32,
    pub compression_x100: u32,
    pub information_available: bool,
    pub latest_surprisal_bits: u8,
    pub work_used: usize,
    pub work_budget: usize,
    pub overflow: bool,
    pub stopped_by_budget: bool,
    pub provisional: bool,
    pub latest_prediction: PredictionRecord,
    pub latest_anomaly: AnomalyRecord,
    pub latest_candidate: CandidateRecord,
}

pub open spec fn empty_report() -> SubconsciousReport {
    SubconsciousReport {
        observations_seen: 0,
        valid_observations: 0,
        invalid_observations: 0,
        duplicate_observations: 0,
        transition_count: 0,
        state_count: 0,
        pattern_count: 0,
        prediction_count: 0,
        hit_count: 0,
        miss_count: 0,
        anomaly_count: 0,
        candidate_count: 0,
        raw_units: 0,
        summary_units: 0,
        compression_x100: 0,
        information_available: false,
        latest_surprisal_bits: 0,
        work_used: 0,
        work_budget: MAX_WORK,
        overflow: false,
        stopped_by_budget: false,
        provisional: true,
        latest_prediction: empty_prediction(),
        latest_anomaly: empty_anomaly(),
        latest_candidate: empty_candidate(),
    }
}

impl SubconsciousReport {
    pub fn empty() -> (r: Self)
        ensures
            r == empty_report(),
    {
        SubconsciousReport {
            observations_seen: 0,
            valid_observations: 0,
            invalid_observations: 0,
            duplicate_observations: 0,
            transition_count: 0,
            state_count: 0,
            pattern_count: 0,
            prediction_count: 0,
            hit_count: 0,
            miss_count: 0,
            anomaly_count: 0,
            candidate_count: 0,
            raw_units: 0,
            summary_units: 0,
            compression_x100: 0,
            information_available: false,
            latest_surprisal_bits: 0,
            work_used: 0,
            work_budget: MAX_WORK,
            overflow: false,
            stopped_by_budget: false,
            provisional: true,
            latest_prediction: PredictionRecord::empty(),
            latest_anomaly: AnomalyRecord::empty(),
            latest_candidate: CandidateRecord::empty(),
        }
    }
}

/// Confidence and uncertainty of a prediction are complementary.
pub open spec fn prediction_ok(p: PredictionRecord) -> bool {
    p.confidence_fixed <= SCALE && p.uncertainty_fixed == SCALE - p.confidence_fixed
}

/// The work accounting of a report: within budget, and a stop leaves the
/// budget exhausted.
pub open spec fn budget_ok(r: SubconsciousReport) -> bool {
    &&& r.work_budget == MAX_WORK
    &&& r.work_used <= r.work_budget
    &&& r.stopped_by_budget ==> r.work_used == r.work_budget
    &&& r.stopped_by_budget ==> r.overflow
}

/// `b` differs from `a` in its work accounting only, and only forward.
pub open spec fn work_only(a: SubconsciousReport, b: SubconsciousReport) -> bool {
    &&& b == SubconsciousReport {
        work_used: b.work_used,
        overflow: b.overflow,
        stopped_by_budget: b.stopped_by_budget,
        ..a
    }
    &&& b.work_used >= a.work_used
    &&& a.overflow ==> b.overflow
    &&& a.stopped_by_budget ==> b.stopped_by_budget
    &&& budget_ok(a) ==> budget_ok(b)
}

/// Spends one unit of work, or marks the report stopped when the budget is
/// exhausted.
fn charge(report: &mut SubconsciousReport) -> (ok: bool)
    requires
        budget_ok(*old(report)),
    ensures
        work_only(*old(report), *final(report)),
        ok ==> final(report).work_used == old(report).work_used + 1 && !final(report).stopped_by_budget
            == !old(report).stopped_by_budget,
        !ok ==> final(report).stopped_by_budget && final(report).overflow && final(report).work_used == old(
            report,
        ).work_used,
        ok <==> old(report).work_used + 1 <= old(report).work_budget,
{
    let next = report.work_used.saturating_add(1);
    if next > report.work_budget {
        report.overflow = true;
        report.stopped_by_budget = true;
        return false;
    }
    report.work_used = next;
    true
}

/// Exact identity of an observed delta, for duplicate suppression.
#[derive(Clone, Copy, PartialEq, Eq, Structural)]
pub struct DeltaEventKey {
    pub object_id: ObjectId,
    pub semantic_id: SemanticId,
    pub previous_state: SemanticId,
    pub new_state: SemanticId,
    pub context: ContextId,
    pub timestamp: u64,
    pub provenance_origin: ObjectId,
    pub provenance_source: ProvenanceSource,
    pub provenance_revision: u64,
}

pub open spec fn key_of(d: SemanticDelta) -> DeltaEventKey {
    DeltaEventKey {
        object_id: d.object_id,
        semantic_id: d.semantic_id,
        previous_state: d.previous_state,
        new_state: d.new_state,
        context: d.context,
        timestamp: d.timestamp,
        provenance_origin: d.provenance.origin,
        provenance_source: d.provenance.source,
        provenance_revision: d.provenance.revision,
    }
}

fn key_from_delta(d: &SemanticDelta) -> (k: DeltaEventKey)
    ensures
        k == key_of(*d),
{
    DeltaEventKey {
        object_id: d.object_id,
        semantic_id: d.semantic_id,
        previous_state: d.previous_state,
        new_state: d.new_state,
        context: d.context,
        timestamp: d.timestamp,
        provenance_origin: d.provenance.origin,
        provenance_source: d.provenance.source,
        provenance_revision: d.provenance.revision,
    }
}

/// The derived state of the engine.
pub struct SubconsciousEngine {
    transitions: Vec<TransitionStats>,
    state_counts: Vec<StateCount>,
    patterns: Vec<PatternRecord>,
    predictions: Vec<PredictionRecord>,
    anomalies: Vec<AnomalyRecord>,
    candidates: Vec<CandidateRecord>,
    seen_keys: Vec<DeltaEventKey>,
    observation_counter: u64,
}

impl SubconsciousEngine {
    pub closed spec fn transitions(&self) -> Seq<TransitionStats> {
        self.transitions@
    }

    pub closed spec fn patterns(&self) -> Seq<PatternRecord> {
        self.patterns@
    }

    pub closed spec fn predictions(&self) -> Seq<PredictionRecord> {
        self.predictions@
    }

    pub closed spec fn candidates(&self) -> Seq<CandidateRecord> {
        self.candidates@
    }

    pub closed spec fn seen(&self) -> Seq<DeltaEventKey> {
        self.seen_keys@
    }

    pub closed spec fn state_counts(&self) -> Seq<StateCount> {
        self.state_counts@
    }

    pub closed spec fn state_count_len(&self) -> nat {
        self.state_counts@.len()
    }

    pub closed spec fn anomaly_len(&self) -> nat {
        self.anomalies@.len()
    }

    pub closed spec fn anomalies(&self) -> Seq<AnomalyRecord> {
        self.anomalies@
    }

    /// Number of observations learned so far; stamps new predictions.
    pub closed spec fn counter(&self) -> u64 {
        self.observation_counter
    }

    pub closed spec fn wf(&self) -> bool {
        &&& self.transitions@.len() <= MAX_TRANSITIONS
        &&& self.state_counts@.len() <= MAX_STATE_COUNTS
        &&& self.patterns@.len() <= MAX_PATTERNS
        &&& self.predictions@.len() <= MAX_PREDICTIONS
        &&& self.anomalies@.len() <= MAX_ANOMALIES
        &&& self.candidates@.len() <= MAX_CANDIDATES
        &&& self.seen_keys@.len() <= MAX_SEEN
        &&& forall|i: int| 0 <= i < self.predictions@.len() ==> prediction_ok(#[trigger] self.predictions@[i])
    }

    /// An engine that has learned nothing.
    pub fn new() -> (e: Self)
        ensures
            e.wf(),
            e.transitions().len() == 0,
            e.patterns().len() == 0,
            e.predictions().len() == 0,
            e.candidates().len() == 0,
            e.seen().len() == 0,
            e.state_counts().len() == 0,
            e.anomalies().len() == 0,
            e.counter() == 0,
    {
        SubconsciousEngine {
            transitions: Vec::new(),
            state_counts: Vec::new(),
            patterns: Vec::new(),
            predictions: Vec::new(),
            anomalies: Vec::new(),
            candidates: Vec::new(),
            seen_keys: Vec::new(),
            observation_counter: 0,
        }
    }
}

/// Forgets everything learned; canonical state is not involved.
pub fn clear(engine: &mut SubconsciousEngine)
    ensures
        final(engine).wf(),
        final(engine).transitions().len() == 0,
        final(engine).patterns().len() == 0,
        final(engine).predictions().len() == 0,
        final(engine).candidates().len() == 0,
        final(engine).seen().len() == 0,
{
    *engine = SubconsciousEngine::new();
}

/// Copies the retained candidates, as many as fit, into `output`.
pub fn latest_candidates(engine: &SubconsciousEngine, output: &mut [CandidateRecord]) -> (n: usize)
    ensures
        n == (if old(output)@.len() < engine.candidates().len() {
            old(output)@.len()
        } else {
            engine.candidates().len()
        }),
        final(output)@.len() == old(output)@.len(),
        forall|i: int| 0 <= i < n ==> #[trigger] final(output)@[i] == engine.candidates()[i],
        forall|i: int| n <= i < old(output)@.len() ==> #[trigger] final(output)@[i] == old(output)@[i],
{
    let limit = if output.len() < engine.candidates.len() {
        output.len()
    } else {
        engine.candidates.len()
    };
    let mut index: usize = 0;
    while index < limit
        invariant
            0 <= index <= limit,
            limit <= output@.len(),
            limit <= engine.candidates@.len(),
            output@.len() == old(output)@.len(),
            forall|i: int| 0 <= i < index ==> #[trigger] output@[i] == engine.candidates@[i],
            forall|i: int| index <= i < output@.len() ==> #[trigger] output@[i] == old(output)@[i],
        decreases limit - index,
    {
        output[index] = engine.candidates[index];
        index = index + 1;
    }
    limit
}


pub open spec fn report_inv(r: SubconsciousReport) -> bool {
    budget_ok(r) && prediction_ok(r.latest_prediction)
}

/// The observation counters of two reports agree.
pub open spec fn counts_same(a: SubconsciousReport, b: SubconsciousReport) -> bool {
    &&& a.observations_seen == b.observations_seen
    &&& a.valid_observations == b.valid_observations
    &&& a.invalid_observations == b.invalid_observations
    &&& a.duplicate_observations == b.duplicate_observations
    &&& a.work_budget == b.work_budget
}

pub open spec fn transition_is(t: TransitionStats, o: ObjectId, sid: SemanticId, ps: SemanticId, ns: SemanticId, ctx: ContextId) -> bool {
    t.object_id == o && t.semantic_id == sid && t.previous_state == ps && t.next_state == ns && t.context == ctx
}

pub open spec fn transition_from(t: TransitionStats, o: ObjectId, sid: SemanticId, ps: SemanticId, ctx: ContextId) -> bool {
    t.object_id == o && t.semantic_id == sid && t.previous_state == ps && t.context == ctx
}

pub open spec fn pattern_is(p: PatternRecord, o: ObjectId, sid: SemanticId, ps: SemanticId, ns: SemanticId, ctx: ContextId) -> bool {
    p.object_id == o && p.semantic_id == sid && p.previous_state == ps && p.next_state == ns && p.context == ctx
}

pub open spec fn prediction_is(p: PredictionRecord, o: ObjectId, sid: SemanticId, ss: SemanticId, ctx: ContextId) -> bool {
    p.origin_object_id == o && p.semantic_id == sid && p.source_state == ss && p.context == ctx
}

pub open spec fn state_is(c: StateCount, o: ObjectId, sid: SemanticId, st: SemanticId, ctx: ContextId) -> bool {
    c.object_id == o && c.semantic_id == sid && c.state == st && c.context == ctx
}

/// Adds without wrapping, stopping at `u32::MAX`.
pub open spec fn sat_add(a: u32, b: u32) -> u32 {
    if a + b > u32::MAX { u32::MAX } else { (a + b) as u32 }
}

/// Total support of the transitions leaving a source, over the first `n`.
pub open spec fn outgoing_upto(s: Seq<TransitionStats>, o: ObjectId, sid: SemanticId, ps: SemanticId, ctx: ContextId, n: int) -> u32
    decreases n,
{
    if n <= 0 {
        0
    } else {
        let rest = outgoing_upto(s, o, sid, ps, ctx, n - 1);
        if transition_from(s[n - 1], o, sid, ps, ctx) { sat_add(rest, s[n - 1].count) } else { rest }
    }
}

/// The dominant transition leaving a source among the first `n`: highest
/// count, ties to the lower target state, earliest slot first.
pub open spec fn dominant_upto(s: Seq<TransitionStats>, o: ObjectId, sid: SemanticId, ps: SemanticId, ctx: ContextId, n: int) -> (Option<TransitionStats>, u32, u32)
    decreases n,
{
    if n <= 0 {
        (None, 0u32, u32::MAX)
    } else {
        let prev = dominant_upto(s, o, sid, ps, ctx, n - 1);
        let e = s[n - 1];
        if transition_from(e, o, sid, ps, ctx) && (e.count > prev.1 || (e.count == prev.1 && e.next_state < prev.2)) {
            (Some(e), e.count, e.next_state)
        } else {
            prev
        }
    }
}

fn find_seen_key(engine: &SubconsciousEngine, key: &DeltaEventKey, report: &mut SubconsciousReport) -> (r: Option<bool>)
    requires
        budget_ok(*old(report)),
    ensures
        work_only(*old(report), *final(report)),
        r matches Some(b) ==> b == engine.seen().contains(*key),
        r is None ==> final(report).stopped_by_budget,
        final(report).work_used <= old(report).work_used + engine.seen().len(),
        final(report).stopped_by_budget ==> old(report).stopped_by_budget || old(report).work_used + engine.seen().len() > old(report).work_budget,
{
    let mut index: usize = 0;
    while index < engine.seen_keys.len()
        invariant
            report.work_used == old(report).work_used + index,
            report.stopped_by_budget == old(report).stopped_by_budget,
            0 <= index <= engine.seen_keys@.len(),
            work_only(*old(report), *report),
            budget_ok(*old(report)),
            forall|j: int| 0 <= j < index ==> engine.seen_keys@[j] != *key,
        decreases engine.seen_keys@.len() - index,
    {
        if !charge(report) {
            return None;
        }
        if engine.seen_keys[index] == *key {
            assert(engine.seen_keys@[index as int] == *key);
            return Some(true);
        }
        index = index + 1;
    }
    Some(false)
}

/// Remembers a key; when the window is full the oldest is forgotten.
fn insert_seen_key(engine: &mut SubconsciousEngine, key: DeltaEventKey)
    requires
        old(engine).wf(),
    ensures
        final(engine).counter() == old(engine).counter(),
        final(engine).wf(),
        final(engine).transitions() == old(engine).transitions(),
        final(engine).patterns() == old(engine).patterns(),
        final(engine).predictions() == old(engine).predictions(),
        final(engine).candidates() == old(engine).candidates(),
        old(engine).seen().len() < MAX_SEEN ==> final(engine).seen() == old(engine).seen().push(key),
        old(engine).seen().len() >= MAX_SEEN ==> final(engine).seen() == old(engine).seen().drop_first().push(key),
{
    if engine.seen_keys.len() < MAX_SEEN {
        engine.seen_keys.push(key);
        return;
    }
    let ghost before = engine.seen_keys@;
    let mut index: usize = 1;
    while index < MAX_SEEN
        invariant
            1 <= index <= MAX_SEEN,
            engine.seen_keys@.len() == MAX_SEEN,
            before.len() == MAX_SEEN,
            forall|j: int| 0 <= j < index - 1 ==> #[trigger] engine.seen_keys@[j] == before[j + 1],
            forall|j: int| index - 1 <= j < MAX_SEEN ==> #[trigger] engine.seen_keys@[j] == before[j],
            engine.transitions@ == old(engine).transitions@,
            engine.state_counts@ == old(engine).state_counts@,
            engine.patterns@ == old(engine).patterns@,
            engine.predictions@ == old(engine).predictions@,
            engine.anomalies@ == old(engine).anomalies@,
            engine.candidates@ == old(engine).candidates@,
            engine.observation_counter == old(engine).observation_counter,
            old(engine).wf(),
        decreases MAX_SEEN - index,
    {
        let moved = engine.seen_keys[index];
        engine.seen_keys[index - 1] = moved;
        index = index + 1;
    }
    engine.seen_keys[MAX_SEEN - 1] = key;
    assert(engine.seen_keys@ =~= before.drop_first().push(key));
}

fn find_transition_slot(
    engine: &SubconsciousEngine,
    o: ObjectId,
    sid: SemanticId,
    ps: SemanticId,
    ns: SemanticId,
    ctx: ContextId,
    report: &mut SubconsciousReport,
) -> (r: Option<usize>)
    requires
        budget_ok(*old(report)),
    ensures
        work_only(*old(report), *final(report)),
        r matches Some(k) ==> k < engine.transitions().len() && transition_is(engine.transitions()[k as int], o, sid, ps, ns, ctx),
        r is None ==> final(report).stopped_by_budget || forall|j: int| 0 <= j < engine.transitions().len() ==> !transition_is(#[trigger] engine.transitions()[j], o, sid, ps, ns, ctx),
{
    let mut index: usize = 0;
    while index < engine.transitions.len()
        invariant
            0 <= index <= engine.transitions@.len(),
            work_only(*old(report), *report),
            budget_ok(*old(report)),
            forall|j: int| 0 <= j < index ==> !transition_is(#[trigger] engine.transitions@[j], o, sid, ps, ns, ctx),
        decreases engine.transitions@.len() - index,
    {
        if !charge(report) {
            return None;
        }
        let e = engine.transitions[index];
        if e.object_id == o && e.semantic_id == sid && e.previous_state == ps && e.next_state == ns && e.context == ctx {
            return Some(index);
        }
        index = index + 1;
    }
    None
}

fn find_transition_slot_unbudgeted(
    engine: &SubconsciousEngine,
    o: ObjectId,
    sid: SemanticId,
    ps: SemanticId,
    ns: SemanticId,
    ctx: ContextId,
) -> (r: Option<usize>)
    ensures
        r matches Some(k) ==> k < engine.transitions().len() && transition_is(engine.transitions()[k as int], o, sid, ps, ns, ctx)
            && forall|j: int| 0 <= j < k ==> !transition_is(#[trigger] engine.transitions()[j], o, sid, ps, ns, ctx),
        r is None ==> forall|j: int| 0 <= j < engine.transitions().len() ==> !transition_is(#[trigger] engine.transitions()[j], o, sid, ps, ns, ctx),
        r matches Some(k) ==> transition_slot(engine.transitions(), o, sid, ps, ns, ctx, 0) == Some(k as int),
        r is None ==> transition_slot(engine.transitions(), o, sid, ps, ns, ctx, 0) is None,
{
    let mut index: usize = 0;
    while index < engine.transitions.len()
        invariant
            0 <= index <= engine.transitions@.len(),
            forall|j: int| 0 <= j < index ==> !transition_is(#[trigger] engine.transitions@[j], o, sid, ps, ns, ctx),
            transition_slot(engine.transitions@, o, sid, ps, ns, ctx, 0) == transition_slot(engine.transitions@, o, sid, ps, ns, ctx, index as int),
        decreases engine.transitions@.len() - index,
    {
        let e = engine.transitions[index];
        if e.object_id == o && e.semantic_id == sid && e.previous_state == ps && e.next_state == ns && e.context == ctx {
            return Some(index);
        }
        index = index + 1;
    }
    None
}

/// First slot from `i` on holding transition `ps -> ns` of object `o`.
pub open spec fn transition_slot(s: Seq<TransitionStats>, o: ObjectId, sid: SemanticId, ps: SemanticId, ns: SemanticId, ctx: ContextId, i: int) -> Option<int>
    decreases s.len() - i,
{
    if i < 0 || i >= s.len() {
        None
    } else if transition_is(s[i], o, sid, ps, ns, ctx) {
        Some(i)
    } else {
        transition_slot(s, o, sid, ps, ns, ctx, i + 1)
    }
}

/// Orders transitions for eviction: lower count first, then older.
pub open spec fn transition_evicts_before(a: TransitionStats, b: TransitionStats) -> bool {
    a.count < b.count || (a.count == b.count && a.last_seen < b.last_seen)
}

/// Stores a new transition, evicting the least-supported (then oldest, then
/// lowest) slot when full.
fn insert_transition_slot(engine: &mut SubconsciousEngine, entry: TransitionStats) -> (k: usize)
    requires
        old(engine).wf(),
    ensures
        final(engine).counter() == old(engine).counter(),
        final(engine).wf(),
        final(engine).patterns() == old(engine).patterns(),
        final(engine).predictions() == old(engine).predictions(),
        final(engine).candidates() == old(engine).candidates(),
        final(engine).seen() == old(engine).seen(),
        final(engine).state_count_len() == old(engine).state_count_len(),
        final(engine).anomaly_len() == old(engine).anomaly_len(),
        k < final(engine).transitions().len(),
        final(engine).transitions()[k as int] == entry,
        old(engine).transitions().len() < MAX_TRANSITIONS ==> final(engine).transitions() == old(engine).transitions().push(entry),
        old(engine).transitions().len() >= MAX_TRANSITIONS ==> final(engine).transitions() == old(engine).transitions().update(k as int, entry)
            && (forall|j: int| 0 <= j < MAX_TRANSITIONS ==> !transition_evicts_before(#[trigger] old(engine).transitions()[j], old(engine).transitions()[k as int]))
            && (forall|j: int| 0 <= j < k ==> transition_evicts_before(old(engine).transitions()[k as int], #[trigger] old(engine).transitions()[j])),
{
    if engine.transitions.len() < MAX_TRANSITIONS {
        let index = engine.transitions.len();
        engine.transitions.push(entry);
        return index;
    }
    let mut replace: usize = 0;
    let mut index: usize = 1;
    while index < MAX_TRANSITIONS
        invariant
            1 <= index <= MAX_TRANSITIONS,
            replace < index,
            engine.transitions@.len() == MAX_TRANSITIONS,
            forall|j: int| 0 <= j < index ==> !transition_evicts_before(#[trigger] engine.transitions@[j], engine.transitions@[replace as int]),
            forall|j: int| 0 <= j < replace ==> transition_evicts_before(engine.transitions@[replace as int], #[trigger] engine.transitions@[j]),
        decreases MAX_TRANSITIONS - index,
    {
        let current = engine.transitions[index];
        let selected = engine.transitions[replace];
        if current.count < selected.count || (current.count == selected.count && current.last_seen < selected.last_seen) {
            replace = index;
        }
        index = index + 1;
    }
    engine.transitions.set(replace, entry);
    replace
}


pub open spec fn state_evicts_before(a: StateCount, b: StateCount) -> bool {
    a.count < b.count
}

pub open spec fn pattern_evicts_before(a: PatternRecord, b: PatternRecord) -> bool {
    a.support < b.support || (a.support == b.support && a.last_seen < b.last_seen)
}

pub open spec fn prediction_evicts_before(a: PredictionRecord, b: PredictionRecord) -> bool {
    a.created_at < b.created_at
}

pub open spec fn anomaly_evicts_before(a: AnomalyRecord, b: AnomalyRecord) -> bool {
    a.origin_object_id < b.origin_object_id
}

pub open spec fn candidate_evicts_before(a: CandidateRecord, b: CandidateRecord) -> bool {
    a.score_fixed < b.score_fixed
}

fn insert_state_slot(engine: &mut SubconsciousEngine, entry: StateCount) -> (k: usize)
    requires
        old(engine).wf(),
    ensures
        final(engine).wf(),
        final(engine).transitions() == old(engine).transitions(),
        final(engine).patterns() == old(engine).patterns(),
        final(engine).predictions() == old(engine).predictions(),
        final(engine).candidates() == old(engine).candidates(),
        final(engine).seen() == old(engine).seen(),
        final(engine).anomaly_len() == old(engine).anomaly_len(),
        k < final(engine).state_count_len(),
        old(engine).state_count_len() < MAX_STATE_COUNTS ==> final(engine).state_count_len() == old(engine).state_count_len() + 1,
        old(engine).state_count_len() >= MAX_STATE_COUNTS ==> final(engine).state_count_len() == old(engine).state_count_len(),
        final(engine).anomalies() == old(engine).anomalies(),
        final(engine).counter() == old(engine).counter(),
        old(engine).state_counts().len() < MAX_STATE_COUNTS ==> final(engine).state_counts() == old(engine).state_counts().push(entry),
        old(engine).state_counts().len() >= MAX_STATE_COUNTS ==> final(engine).state_counts() == old(engine).state_counts().update(k as int, entry)
            && (forall|j: int| 0 <= j < MAX_STATE_COUNTS ==> !state_evicts_before(#[trigger] old(engine).state_counts()[j], old(engine).state_counts()[k as int]))
            && (forall|j: int| 0 <= j < k ==> state_evicts_before(old(engine).state_counts()[k as int], #[trigger] old(engine).state_counts()[j])),
{
    if engine.state_counts.len() < MAX_STATE_COUNTS {
        let index = engine.state_counts.len();
        engine.state_counts.push(entry);
        return index;
    }
    let mut replace: usize = 0;
    let mut index: usize = 1;
    while index < MAX_STATE_COUNTS
        invariant
            1 <= index <= MAX_STATE_COUNTS,
            replace < index,
            engine.state_counts@.len() == MAX_STATE_COUNTS,
            forall|j: int| 0 <= j < index ==> !state_evicts_before(#[trigger] engine.state_counts@[j], engine.state_counts@[replace as int]),
            forall|j: int| 0 <= j < replace ==> state_evicts_before(engine.state_counts@[replace as int], #[trigger] engine.state_counts@[j]),
        decreases MAX_STATE_COUNTS - index,
    {
        let current = engine.state_counts[index];
        let selected = engine.state_counts[replace];
        if current.count < selected.count {
            replace = index;
        }
        index = index + 1;
    }
    engine.state_counts.set(replace, entry);
    replace
}

fn insert_pattern_slot(engine: &mut SubconsciousEngine, entry: PatternRecord) -> (k: usize)
    requires
        old(engine).wf(),
    ensures
        final(engine).counter() == old(engine).counter(),
        final(engine).wf(),
        final(engine).transitions() == old(engine).transitions(),
        final(engine).predictions() == old(engine).predictions(),
        final(engine).candidates() == old(engine).candidates(),
        final(engine).seen() == old(engine).seen(),
        final(engine).state_count_len() == old(engine).state_count_len(),
        final(engine).anomaly_len() == old(engine).anomaly_len(),
        k < final(engine).patterns().len(),
        final(engine).patterns()[k as int] == entry,
        old(engine).patterns().len() < MAX_PATTERNS ==> final(engine).patterns() == old(engine).patterns().push(entry),
        old(engine).patterns().len() >= MAX_PATTERNS ==> final(engine).patterns() == old(engine).patterns().update(k as int, entry)
            && (forall|j: int| 0 <= j < MAX_PATTERNS ==> !pattern_evicts_before(#[trigger] old(engine).patterns()[j], old(engine).patterns()[k as int]))
            && (forall|j: int| 0 <= j < k ==> pattern_evicts_before(old(engine).patterns()[k as int], #[trigger] old(engine).patterns()[j])),
{
    if engine.patterns.len() < MAX_PATTERNS {
        let index = engine.patterns.len();
        engine.patterns.push(entry);
        return index;
    }
    let mut replace: usize = 0;
    let mut index: usize = 1;
    while index < MAX_PATTERNS
        invariant
            1 <= index <= MAX_PATTERNS,
            replace < index,
            engine.patterns@.len() == MAX_PATTERNS,
            forall|j: int| 0 <= j < index ==> !pattern_evicts_before(#[trigger] engine.patterns@[j], engine.patterns@[replace as int]),
            forall|j: int| 0 <= j < replace ==> pattern_evicts_before(engine.patterns@[replace as int], #[trigger] engine.patterns@[j]),
        decreases MAX_PATTERNS - index,
    {
        let current = engine.patterns[index];
        let selected = engine.patterns[replace];
        if current.support < selected.support || (current.support == selected.support && current.last_seen < selected.last_seen) {
            replace = index;
        }
        index = index + 1;
    }
    engine.patterns.set(replace, entry);
    replace
}

fn insert_prediction_slot(engine: &mut SubconsciousEngine, entry: PredictionRecord) -> (k: usize)
    requires
        old(engine).wf(),
        prediction_ok(entry),
    ensures
        final(engine).wf(),
        final(engine).transitions() == old(engine).transitions(),
        final(engine).patterns() == old(engine).patterns(),
        final(engine).candidates() == old(engine).candidates(),
        final(engine).seen() == old(engine).seen(),
        final(engine).state_counts() == old(engine).state_counts(),
        final(engine).anomalies() == old(engine).anomalies(),
        final(engine).counter() == old(engine).counter(),
        final(engine).state_count_len() == old(engine).state_count_len(),
        final(engine).anomaly_len() == old(engine).anomaly_len(),
        k < final(engine).predictions().len(),
        final(engine).predictions()[k as int] == entry,
        old(engine).predictions().len() < MAX_PREDICTIONS ==> final(engine).predictions() == old(engine).predictions().push(entry),
        old(engine).predictions().len() >= MAX_PREDICTIONS ==> final(engine).predictions() == old(engine).predictions().update(k as int, entry)
            && (forall|j: int| 0 <= j < MAX_PREDICTIONS ==> !prediction_evicts_before(#[trigger] old(engine).predictions()[j], old(engine).predictions()[k as int]))
            && (forall|j: int| 0 <= j < k ==> prediction_evicts_before(old(engine).predictions()[k as int], #[trigger] old(engine).predictions()[j])),
{
    if engine.predictions.len() < MAX_PREDICTIONS {
        let index = engine.predictions.len();
        engine.predictions.push(entry);
        return index;
    }
    let mut replace: usize = 0;
    let mut index: usize = 1;
    while index < MAX_PREDICTIONS
        invariant
            1 <= index <= MAX_PREDICTIONS,
            replace < index,
            engine.predictions@.len() == MAX_PREDICTIONS,
            forall|j: int| 0 <= j < index ==> !prediction_evicts_before(#[trigger] engine.predictions@[j], engine.predictions@[replace as int]),
            forall|j: int| 0 <= j < replace ==> prediction_evicts_before(engine.predictions@[replace as int], #[trigger] engine.predictions@[j]),
        decreases MAX_PREDICTIONS - index,
    {
        let current = engine.predictions[index];
        let selected = engine.predictions[replace];
        if current.created_at < selected.created_at {
            replace = index;
        }
        index = index + 1;
    }
    engine.predictions.set(replace, entry);
    replace
}

fn insert_anomaly_slot(engine: &mut SubconsciousEngine, entry: AnomalyRecord) -> (k: usize)
    requires
        old(engine).wf(),
    ensures
        final(engine).counter() == old(engine).counter(),
        final(engine).wf(),
        final(engine).transitions() == old(engine).transitions(),
        final(engine).patterns() == old(engine).patterns(),
        final(engine).predictions() == old(engine).predictions(),
        final(engine).candidates() == old(engine).candidates(),
        final(engine).seen() == old(engine).seen(),
        final(engine).state_count_len() == old(engine).state_count_len(),
        k < final(engine).anomaly_len(),
        old(engine).anomaly_len() < MAX_ANOMALIES ==> final(engine).anomaly_len() == old(engine).anomaly_len() + 1,
        old(engine).anomaly_len() >= MAX_ANOMALIES ==> final(engine).anomaly_len() == old(engine).anomaly_len(),
{
    if engine.anomalies.len() < MAX_ANOMALIES {
        let index = engine.anomalies.len();
        engine.anomalies.push(entry);
        return index;
    }
    let mut replace: usize = 0;
    let mut index: usize = 1;
    while index < MAX_ANOMALIES
        invariant
            1 <= index <= MAX_ANOMALIES,
            replace < index,
            engine.anomalies@.len() == MAX_ANOMALIES,
            forall|j: int| 0 <= j < index ==> !anomaly_evicts_before(#[trigger] engine.anomalies@[j], engine.anomalies@[replace as int]),
            forall|j: int| 0 <= j < replace ==> anomaly_evicts_before(engine.anomalies@[replace as int], #[trigger] engine.anomalies@[j]),
        decreases MAX_ANOMALIES - index,
    {
        let current = engine.anomalies[index];
        let selected = engine.anomalies[replace];
        if current.origin_object_id < selected.origin_object_id {
            replace = index;
        }
        index = index + 1;
    }
    engine.anomalies.set(replace, entry);
    replace
}

fn insert_candidate_slot(engine: &mut SubconsciousEngine, entry: CandidateRecord) -> (k: usize)
    requires
        old(engine).wf(),
    ensures
        final(engine).wf(),
        final(engine).transitions() == old(engine).transitions(),
        final(engine).patterns() == old(engine).patterns(),
        final(engine).predictions() == old(engine).predictions(),
        final(engine).seen() == old(engine).seen(),
        final(engine).state_counts() == old(engine).state_counts(),
        final(engine).anomalies() == old(engine).anomalies(),
        final(engine).counter() == old(engine).counter(),
        final(engine).state_count_len() == old(engine).state_count_len(),
        final(engine).anomaly_len() == old(engine).anomaly_len(),
        k < final(engine).candidates().len(),
        final(engine).candidates()[k as int] == entry,
        old(engine).candidates().len() < MAX_CANDIDATES ==> final(engine).candidates() == old(engine).candidates().push(entry),
        old(engine).candidates().len() >= MAX_CANDIDATES ==> final(engine).candidates() == old(engine).candidates().update(k as int, entry)
            && (forall|j: int| 0 <= j < MAX_CANDIDATES ==> !candidate_evicts_before(#[trigger] old(engine).candidates()[j], old(engine).candidates()[k as int]))
            && (forall|j: int| 0 <= j < k ==> candidate_evicts_before(old(engine).candidates()[k as int], #[trigger] old(engine).candidates()[j])),
{
    if engine.candidates.len() < MAX_CANDIDATES {
        let index = engine.candidates.len();
        engine.candidates.push(entry);
        return index;
    }
    let mut replace: usize = 0;
    let mut index: usize = 1;
    while index < MAX_CANDIDATES
        invariant
            1 <= index <= MAX_CANDIDATES,
            replace < index,
            engine.candidates@.len() == MAX_CANDIDATES,
            forall|j: int| 0 <= j < index ==> !candidate_evicts_before(#[trigger] engine.candidates@[j], engine.candidates@[replace as int]),
            forall|j: int| 0 <= j < replace ==> candidate_evicts_before(engine.candidates@[replace as int], #[trigger] engine.candidates@[j]),
        decreases MAX_CANDIDATES - index,
    {
        let current = engine.candidates[index];
        let selected = engine.candidates[replace];
        if current.score_fixed < selected.score_fixed {
            replace = index;
        }
        index = index + 1;
    }
    engine.candidates.set(replace, entry);
    replace
}


fn find_state_slot(engine: &SubconsciousEngine, o: ObjectId, sid: SemanticId, st: SemanticId, ctx: ContextId, report: &mut SubconsciousReport) -> (r: Option<usize>)
    requires
        budget_ok(*old(report)),
    ensures
        work_only(*old(report), *final(report)),
        r matches Some(k) ==> k < engine.state_counts().len() && state_is(engine.state_counts()[k as int], o, sid, st, ctx)
            && forall|j: int| 0 <= j < k ==> !state_is(#[trigger] engine.state_counts()[j], o, sid, st, ctx),
        r matches Some(k) ==> !final(report).stopped_by_budget || old(report).stopped_by_budget,
        r is None ==> final(report).stopped_by_budget || forall|j: int| 0 <= j < engine.state_counts().len() ==> !state_is(#[trigger] engine.state_counts()[j], o, sid, st, ctx),
        final(report).work_used <= old(report).work_used + engine.state_counts().len(),
        final(report).stopped_by_budget ==> old(report).stopped_by_budget || old(report).work_used + engine.state_counts().len() > old(report).work_budget,
{
    let mut index: usize = 0;
    while index < engine.state_counts.len()
        invariant
            report.work_used == old(report).work_used + index,
            report.stopped_by_budget == old(report).stopped_by_budget,
            0 <= index <= engine.state_counts@.len(),
            work_only(*old(report), *report),
            budget_ok(*old(report)),
            forall|j: int| 0 <= j < index ==> !state_is(#[trigger] engine.state_counts@[j], o, sid, st, ctx),
        decreases engine.state_counts@.len() - index,
    {
        if !charge(report) {
            return None;
        }
        let e = engine.state_counts[index];
        if e.object_id == o && e.semantic_id == sid && e.state == st && e.context == ctx {
            return Some(index);
        }
        index = index + 1;
    }
    None
}

fn find_pattern_slot(engine: &SubconsciousEngine, o: ObjectId, sid: SemanticId, ps: SemanticId, ns: SemanticId, ctx: ContextId, report: &mut SubconsciousReport) -> (r: Option<usize>)
    requires
        budget_ok(*old(report)),
    ensures
        work_only(*old(report), *final(report)),
        r matches Some(k) ==> k < engine.patterns().len() && pattern_is(engine.patterns()[k as int], o, sid, ps, ns, ctx),
        r is None ==> final(report).stopped_by_budget || forall|j: int| 0 <= j < engine.patterns().len() ==> !pattern_is(#[trigger] engine.patterns()[j], o, sid, ps, ns, ctx),
        final(report).work_used <= old(report).work_used + engine.patterns().len(),
        final(report).stopped_by_budget ==> old(report).stopped_by_budget || old(report).work_used + engine.patterns().len() > old(report).work_budget,
{
    let mut index: usize = 0;
    while index < engine.patterns.len()
        invariant
            report.work_used == old(report).work_used + index,
            report.stopped_by_budget == old(report).stopped_by_budget,
            0 <= index <= engine.patterns@.len(),
            work_only(*old(report), *report),
            budget_ok(*old(report)),
            forall|j: int| 0 <= j < index ==> !pattern_is(#[trigger] engine.patterns@[j], o, sid, ps, ns, ctx),
        decreases engine.patterns@.len() - index,
    {
        if !charge(report) {
            return None;
        }
        let e = engine.patterns[index];
        if e.object_id == o && e.semantic_id == sid && e.previous_state == ps && e.next_state == ns && e.context == ctx {
            return Some(index);
        }
        index = index + 1;
    }
    None
}

fn find_pattern_slot_unbudgeted(engine: &SubconsciousEngine, o: ObjectId, sid: SemanticId, ps: SemanticId, ns: SemanticId, ctx: ContextId) -> (r: Option<usize>)
    ensures
        r matches Some(k) ==> k < engine.patterns().len() && pattern_is(engine.patterns()[k as int], o, sid, ps, ns, ctx)
            && forall|j: int| 0 <= j < k ==> !pattern_is(#[trigger] engine.patterns()[j], o, sid, ps, ns, ctx),
        r is None ==> forall|j: int| 0 <= j < engine.patterns().len() ==> !pattern_is(#[trigger] engine.patterns()[j], o, sid, ps, ns, ctx),
{
    let mut index: usize = 0;
    while index < engine.patterns.len()
        invariant
            0 <= index <= engine.patterns@.len(),
            forall|j: int| 0 <= j < index ==> !pattern_is(#[trigger] engine.patterns@[j], o, sid, ps, ns, ctx),
        decreases engine.patterns@.len() - index,
    {
        let e = engine.patterns[index];
        if e.object_id == o && e.semantic_id == sid && e.previous_state == ps && e.next_state == ns && e.context == ctx {
            return Some(index);
        }
        index = index + 1;
    }
    None
}

/// First slot from `i` on holding the prediction of source `ss` of object
/// `o`.
pub open spec fn prediction_slot(s: Seq<PredictionRecord>, o: ObjectId, sid: SemanticId, ss: SemanticId, ctx: ContextId, i: int) -> Option<int>
    decreases s.len() - i,
{
    if i < 0 || i >= s.len() {
        None
    } else if prediction_is(s[i], o, sid, ss, ctx) {
        Some(i)
    } else {
        prediction_slot(s, o, sid, ss, ctx, i + 1)
    }
}

fn find_prediction_slot(engine: &SubconsciousEngine, o: ObjectId, sid: SemanticId, ss: SemanticId, ctx: ContextId, report: &mut SubconsciousReport) -> (r: Option<usize>)
    requires
        budget_ok(*old(report)),
    ensures
        work_only(*old(report), *final(report)),
        r matches Some(k) ==> k < engine.predictions().len() && prediction_is(engine.predictions()[k as int], o, sid, ss, ctx),
        r is None ==> final(report).stopped_by_budget || forall|j: int| 0 <= j < engine.predictions().len() ==> !prediction_is(#[trigger] engine.predictions()[j], o, sid, ss, ctx),
        r matches Some(k) ==> prediction_slot(engine.predictions(), o, sid, ss, ctx, 0) == Some(k as int),
        r is Some ==> !final(report).stopped_by_budget,
        r is None && !final(report).stopped_by_budget ==> prediction_slot(engine.predictions(), o, sid, ss, ctx, 0) is None,
        final(report).stopped_by_budget == (old(report).stopped_by_budget || old(report).work_used + slot_cost(
            engine.predictions(),
            o,
            sid,
            ss,
            ctx,
        ) > old(report).work_budget),
        !final(report).stopped_by_budget ==> final(report).work_used == old(report).work_used + slot_cost(engine.predictions(), o, sid, ss, ctx),
        final(report).work_used <= old(report).work_used + engine.predictions().len(),
        final(report).stopped_by_budget ==> old(report).stopped_by_budget || old(report).work_used + engine.predictions().len() > old(report).work_budget,
{
    let mut index: usize = 0;
    while index < engine.predictions.len()
        invariant
            0 <= index <= engine.predictions@.len(),
            work_only(*old(report), *report),
            budget_ok(*old(report)),
            report.work_used == old(report).work_used + index,
            report.stopped_by_budget == old(report).stopped_by_budget,
            !report.stopped_by_budget ==> old(report).work_used + index <= old(report).work_budget,
            prediction_slot(engine.predictions@, o, sid, ss, ctx, 0) == prediction_slot(engine.predictions@, o, sid, ss, ctx, index as int),
            index > 0 ==> !report.stopped_by_budget,
            forall|j: int| 0 <= j < index ==> !prediction_is(#[trigger] engine.predictions@[j], o, sid, ss, ctx),
        decreases engine.predictions@.len() - index,
    {
        proof {
            lemma_prediction_slot_from(engine.predictions@, o, sid, ss, ctx, index as int);
        }
        if !charge(report) {
            return None;
        }
        let e = engine.predictions[index];
        if e.origin_object_id == o && e.semantic_id == sid && e.source_state == ss && e.context == ctx {
            return Some(index);
        }
        index = index + 1;
    }
    None
}

/// Units of work a scan for the prediction of a source spends: one per
/// slot up to and including the first match, or one per slot.
pub open spec fn slot_cost(s: Seq<PredictionRecord>, o: ObjectId, sid: SemanticId, ss: SemanticId, ctx: ContextId) -> int {
    match prediction_slot(s, o, sid, ss, ctx, 0) {
        Some(k) => k + 1,
        None => s.len() as int,
    }
}

proof fn lemma_prediction_slot_from(s: Seq<PredictionRecord>, o: ObjectId, sid: SemanticId, ss: SemanticId, ctx: ContextId, i: int)
    requires
        0 <= i,
    ensures
        prediction_slot(s, o, sid, ss, ctx, i) matches Some(k) ==> i <= k < s.len(),
    decreases s.len() - i,
{
    if i < s.len() && !prediction_is(s[i], o, sid, ss, ctx) {
        lemma_prediction_slot_from(s, o, sid, ss, ctx, i + 1);
    }
}


/// The dominant transition leaving a source.
fn dominant_transition(engine: &SubconsciousEngine, o: ObjectId, sid: SemanticId, ps: SemanticId, ctx: ContextId) -> (r: Option<TransitionStats>)
    ensures
        r == dominant_upto(engine.transitions(), o, sid, ps, ctx, engine.transitions().len() as int).0,
        r matches Some(t) ==> engine.transitions().contains(t) && transition_from(t, o, sid, ps, ctx),
{
    let mut best: Option<TransitionStats> = None;
    let mut best_count: u32 = 0;
    let mut best_target: u32 = u32::MAX;
    let mut index: usize = 0;
    while index < engine.transitions.len()
        invariant
            0 <= index <= engine.transitions@.len(),
            (best, best_count, best_target) == dominant_upto(engine.transitions@, o, sid, ps, ctx, index as int),
            best matches Some(t) ==> engine.transitions@.contains(t) && transition_from(t, o, sid, ps, ctx),
        decreases engine.transitions@.len() - index,
    {
        let e = engine.transitions[index];
        if e.object_id == o && e.semantic_id == sid && e.previous_state == ps && e.context == ctx {
            if e.count > best_count || (e.count == best_count && e.next_state < best_target) {
                best = Some(e);
                best_count = e.count;
                best_target = e.next_state;
            }
        }
        index = index + 1;
    }
    best
}

/// Total support of the transitions leaving a source, saturating.
fn total_outgoing_support(engine: &SubconsciousEngine, o: ObjectId, sid: SemanticId, ps: SemanticId, ctx: ContextId) -> (r: u32)
    ensures
        r == outgoing_upto(engine.transitions(), o, sid, ps, ctx, engine.transitions().len() as int),
{
    let mut total: u32 = 0;
    let mut index: usize = 0;
    while index < engine.transitions.len()
        invariant
            0 <= index <= engine.transitions@.len(),
            total == outgoing_upto(engine.transitions@, o, sid, ps, ctx, index as int),
        decreases engine.transitions@.len() - index,
    {
        let e = engine.transitions[index];
        if e.object_id == o && e.semantic_id == sid && e.previous_state == ps && e.context == ctx {
            total = total.saturating_add(e.count);
        }
        index = index + 1;
    }
    total
}

/// Support of one exact transition: that of its first slot, or 0.
pub open spec fn transition_count_of(s: Seq<TransitionStats>, o: ObjectId, sid: SemanticId, ps: SemanticId, ns: SemanticId, ctx: ContextId) -> u32 {
    if exists|k: int| 0 <= k < s.len() && transition_is(#[trigger] s[k], o, sid, ps, ns, ctx) {
        let k = choose|k: int| 0 <= k < s.len() && transition_is(#[trigger] s[k], o, sid, ps, ns, ctx) && forall|j: int| 0 <= j < k ==> !transition_is(#[trigger] s[j], o, sid, ps, ns, ctx);
        s[k].count
    } else {
        0
    }
}

fn count_transition(engine: &SubconsciousEngine, o: ObjectId, sid: SemanticId, ps: SemanticId, ns: SemanticId, ctx: ContextId) -> (r: u32)
    ensures
        r == transition_count_of(engine.transitions(), o, sid, ps, ns, ctx),
{
    match find_transition_slot_unbudgeted(engine, o, sid, ps, ns, ctx) {
        Some(k) => {
            proof {
                let s = engine.transitions();
                let p = |k2: int| 0 <= k2 < s.len() && transition_is(s[k2], o, sid, ps, ns, ctx) && forall|j: int| 0 <= j < k2 ==> !transition_is(#[trigger] s[j], o, sid, ps, ns, ctx);
                assert(p(k as int));
                let c = choose|k2: int| 0 <= k2 < s.len() && transition_is(#[trigger] s[k2], o, sid, ps, ns, ctx) && forall|j: int| 0 <= j < k2 ==> !transition_is(#[trigger] s[j], o, sid, ps, ns, ctx);
                assert(c == k as int) by {
                    if c < k as int {
                        assert(!transition_is(s[c], o, sid, ps, ns, ctx));
                    } else if c > k as int {
                        assert(!transition_is(s[k as int], o, sid, ps, ns, ctx));
                    }
                }
            }
            engine.transitions[k].count
        },
        None => 0,
    }
}


/// The anomaly classification of an observation against what was learned
/// before it.
pub open spec fn spec_anomaly(ts: Seq<TransitionStats>, d: SemanticDelta) -> AnomalyRecord {
    let base = AnomalyRecord {
        semantic_id: d.semantic_id,
        source_state: d.previous_state,
        actual_state: d.new_state,
        expected_state: 0,
        context: d.context,
        score_fixed: 0,
        baseline: 0,
        state: AnomalyState::Unknown,
        provenance: d.provenance,
        origin_object_id: d.object_id,
    };
    match dominant_upto(ts, d.object_id, d.semantic_id, d.previous_state, d.context, ts.len() as int).0 {
        None => base,
        Some(e) => if e.count < MIN_EVIDENCE {
            AnomalyRecord { expected_state: e.next_state, baseline: e.count, ..base }
        } else {
            let total = outgoing_upto(ts, d.object_id, d.semantic_id, d.previous_state, d.context, ts.len() as int);
            let actual = transition_count_of(ts, d.object_id, d.semantic_id, d.previous_state, d.new_state, d.context);
            let expected = e.next_state == d.new_state;
            let share = (actual as int * SCALE as int) / total as int;
            let score: u32 = if expected || total == 0 {
                0
            } else if share >= SCALE {
                0
            } else {
                (SCALE - share) as u32
            };
            AnomalyRecord {
                expected_state: e.next_state,
                baseline: e.count,
                score_fixed: score,
                state: if expected { AnomalyState::Expected } else { AnomalyState::Anomalous },
                ..base
            }
        },
    }
}

/// Classifies the observation against the distribution learned so far,
/// before the observation itself is learned.
fn evaluate_anomaly(engine: &SubconsciousEngine, d: &SemanticDelta) -> (r: AnomalyRecord)
    ensures
        r == spec_anomaly(engine.transitions(), *d),
{
    let dominant = dominant_transition(engine, d.object_id, d.semantic_id, d.previous_state, d.context);
    let expected = match dominant {
        None => {
            return AnomalyRecord {
                semantic_id: d.semantic_id,
                source_state: d.previous_state,
                actual_state: d.new_state,
                expected_state: 0,
                context: d.context,
                score_fixed: 0,
                baseline: 0,
                state: AnomalyState::Unknown,
                provenance: d.provenance,
                origin_object_id: d.object_id,
            };
        },
        Some(e) => e,
    };
    if expected.count < MIN_EVIDENCE {
        return AnomalyRecord {
            semantic_id: d.semantic_id,
            source_state: d.previous_state,
            actual_state: d.new_state,
            expected_state: expected.next_state,
            context: d.context,
            score_fixed: 0,
            baseline: expected.count,
            state: AnomalyState::Unknown,
            provenance: d.provenance,
            origin_object_id: d.object_id,
        };
    }
    let total = total_outgoing_support(engine, d.object_id, d.semantic_id, d.previous_state, d.context);
    let actual_count = count_transition(engine, d.object_id, d.semantic_id, d.previous_state, d.new_state, d.context);
    let is_expected = expected.next_state == d.new_state;
    let score: u32 = if is_expected || total == 0 {
        0
    } else {
        assert(actual_count as int * 10000 <= u32::MAX as int * 10000) by (nonlinear_arith)
            requires
                actual_count <= u32::MAX,
        ;
        let share: u64 = (actual_count as u64) * (SCALE as u64) / (total as u64);
        if share >= SCALE as u64 {
            0
        } else {
            SCALE - (share as u32)
        }
    };
    AnomalyRecord {
        semantic_id: d.semantic_id,
        source_state: d.previous_state,
        actual_state: d.new_state,
        expected_state: expected.next_state,
        context: d.context,
        score_fixed: score,
        baseline: expected.count,
        state: if is_expected { AnomalyState::Expected } else { AnomalyState::Anomalous },
        provenance: d.provenance,
        origin_object_id: d.object_id,
    }
}

/// The statistics of a newly learned transition.
pub open spec fn fresh_transition(d: SemanticDelta) -> TransitionStats {
    TransitionStats {
        object_id: d.object_id,
        semantic_id: d.semantic_id,
        previous_state: d.previous_state,
        next_state: d.new_state,
        context: d.context,
        count: 1,
        prediction_attempts: 0,
        prediction_hits: 0,
        prediction_misses: 0,
        last_seen: d.timestamp,
        provenance: d.provenance,
    }
}

/// Learns one observed transition: bumps its support, or stores it fresh.
fn update_transition(engine: &mut SubconsciousEngine, d: &SemanticDelta) -> (r: TransitionStats)
    requires
        old(engine).wf(),
    ensures
        final(engine).counter() == old(engine).counter(),
        final(engine).wf(),
        final(engine).patterns() == old(engine).patterns(),
        final(engine).predictions() == old(engine).predictions(),
        final(engine).candidates() == old(engine).candidates(),
        final(engine).seen() == old(engine).seen(),
        final(engine).state_count_len() == old(engine).state_count_len(),
        final(engine).anomaly_len() == old(engine).anomaly_len(),
        transition_is(r, d.object_id, d.semantic_id, d.previous_state, d.new_state, d.context),
        r.count >= 1,
        final(engine).transitions().contains(r),
{
    match find_transition_slot_unbudgeted(engine, d.object_id, d.semantic_id, d.previous_state, d.new_state, d.context) {
        Some(slot) => {
            let mut entry = engine.transitions[slot];
            entry.count = entry.count.saturating_add(1);
            entry.last_seen = d.timestamp;
            entry.provenance = d.provenance;
            engine.transitions.set(slot, entry);
            assert(engine.transitions@[slot as int] == entry);
            entry
        },
        None => {
            let entry = TransitionStats {
                object_id: d.object_id,
                semantic_id: d.semantic_id,
                previous_state: d.previous_state,
                next_state: d.new_state,
                context: d.context,
                count: 1,
                prediction_attempts: 0,
                prediction_hits: 0,
                prediction_misses: 0,
                last_seen: d.timestamp,
                provenance: d.provenance,
            };
            let k = insert_transition_slot(engine, entry);
            engine.transitions[k]
        },
    }
}

/// The state counts after one more observation of state `st`: the first
/// matching entry counts one more (saturating), or a new entry with count 1
/// is appended, or, when the table is full, replaces the least-counted
/// (then lowest) entry.
pub open spec fn state_counted(s: Seq<StateCount>, o: ObjectId, sid: SemanticId, st: SemanticId, ctx: ContextId, t: Seq<StateCount>) -> bool {
    let fresh = StateCount { object_id: o, semantic_id: sid, state: st, context: ctx, count: 1 };
    if exists|k: int| 0 <= k < s.len() && #[trigger] state_is(s[k], o, sid, st, ctx) {
        exists|k: int|
            0 <= k < s.len() && #[trigger] state_is(s[k], o, sid, st, ctx) && (forall|j: int| 0 <= j < k ==> !state_is(#[trigger] s[j], o, sid, st, ctx))
                && t == s.update(k, StateCount { count: sat_add(s[k].count, 1), ..s[k] })
    } else if s.len() < MAX_STATE_COUNTS {
        t == s.push(fresh)
    } else {
        exists|k: int|
            0 <= k < s.len() && t == #[trigger] s.update(k, fresh) && (forall|j: int| 0 <= j < s.len() ==> !state_evicts_before(#[trigger] s[j], s[k]))
                && (forall|j: int| 0 <= j < k ==> state_evicts_before(s[k], #[trigger] s[j]))
    }
}

/// Counts one state of one object; false, with the counts unchanged, when
/// the budget ran out while looking for its entry.
fn count_state(engine: &mut SubconsciousEngine, o: ObjectId, sid: SemanticId, st: SemanticId, ctx: ContextId, report: &mut SubconsciousReport) -> (ok: bool)
    requires
        old(engine).wf(),
        budget_ok(*old(report)),
    ensures
        final(engine).wf(),
        final(engine).transitions() == old(engine).transitions(),
        final(engine).patterns() == old(engine).patterns(),
        final(engine).predictions() == old(engine).predictions(),
        final(engine).candidates() == old(engine).candidates(),
        final(engine).seen() == old(engine).seen(),
        final(engine).anomalies() == old(engine).anomalies(),
        final(engine).counter() == old(engine).counter(),
        work_only(*old(report), *final(report)),
        ok == !final(report).stopped_by_budget,
        ok ==> state_counted(old(engine).state_counts(), o, sid, st, ctx, final(engine).state_counts()),
        !ok ==> final(engine).state_counts() == old(engine).state_counts(),
        final(report).work_used <= old(report).work_used + 32,
        final(report).stopped_by_budget ==> old(report).stopped_by_budget || old(report).work_used + 32 > old(report).work_budget,
{
    let slot = find_state_slot(engine, o, sid, st, ctx, report);
    if report.stopped_by_budget {
        return false;
    }
    let ghost s = engine.state_counts();
    match slot {
        Some(k) => {
            let mut entry = engine.state_counts[k];
            entry.count = entry.count.saturating_add(1);
            engine.state_counts.set(k, entry);
            assert(state_is(s[k as int], o, sid, st, ctx));
            assert(engine.state_counts() == s.update(k as int, StateCount { count: sat_add(s[k as int].count, 1), ..s[k as int] }));
        },
        None => {
            let entry = StateCount { object_id: o, semantic_id: sid, state: st, context: ctx, count: 1 };
            let k = insert_state_slot(engine, entry);
            proof {
                if s.len() >= MAX_STATE_COUNTS {
                    assert(engine.state_counts() == s.update(k as int, entry));
                }
            }
        },
    }
    true
}

/// Counts the observation's source and target states.
fn update_state_counts(engine: &mut SubconsciousEngine, d: &SemanticDelta, report: &mut SubconsciousReport) -> (ok: bool)
    requires
        old(engine).wf(),
        budget_ok(*old(report)),
    ensures
        final(engine).wf(),
        final(engine).transitions() == old(engine).transitions(),
        final(engine).patterns() == old(engine).patterns(),
        final(engine).predictions() == old(engine).predictions(),
        final(engine).candidates() == old(engine).candidates(),
        final(engine).seen() == old(engine).seen(),
        final(engine).anomalies() == old(engine).anomalies(),
        final(engine).counter() == old(engine).counter(),
        work_only(*old(report), *final(report)),
        !ok ==> final(report).stopped_by_budget,
        ok ==> !final(report).stopped_by_budget && exists|mid: Seq<StateCount>|
            state_counted(old(engine).state_counts(), d.object_id, d.semantic_id, d.previous_state, d.context, mid)
                && #[trigger] state_counted(mid, d.object_id, d.semantic_id, d.new_state, d.context, final(engine).state_counts()),
        !ok ==> final(engine).state_counts() == old(engine).state_counts() || state_counted(
            old(engine).state_counts(),
            d.object_id,
            d.semantic_id,
            d.previous_state,
            d.context,
            final(engine).state_counts(),
        ),
        final(report).work_used <= old(report).work_used + 64,
        final(report).stopped_by_budget ==> old(report).stopped_by_budget || old(report).work_used + 64 > old(report).work_budget,
{
    if !count_state(engine, d.object_id, d.semantic_id, d.previous_state, d.context, report) {
        return false;
    }
    let ghost mid = engine.state_counts();
    let ok = count_state(engine, d.object_id, d.semantic_id, d.new_state, d.context, report);
    proof {
        if ok {
            assert(state_counted(mid, d.object_id, d.semantic_id, d.new_state, d.context, engine.state_counts()));
        }
    }
    ok
}

/// Learns the observation as a pattern occurrence.
fn update_pattern(engine: &mut SubconsciousEngine, d: &SemanticDelta, report: &mut SubconsciousReport) -> (r: Option<PatternRecord>)
    requires
        old(engine).wf(),
        budget_ok(*old(report)),
    ensures
        final(engine).counter() == old(engine).counter(),
        final(engine).wf(),
        final(engine).transitions() == old(engine).transitions(),
        final(engine).predictions() == old(engine).predictions(),
        final(engine).candidates() == old(engine).candidates(),
        final(engine).seen() == old(engine).seen(),
        final(engine).state_count_len() == old(engine).state_count_len(),
        final(engine).anomaly_len() == old(engine).anomaly_len(),
        work_only(*old(report), *final(report)),
        r is None <==> final(report).stopped_by_budget,
        r matches Some(p) ==> pattern_is(p, d.object_id, d.semantic_id, d.previous_state, d.new_state, d.context)
            && final(engine).patterns().contains(p),
        final(report).work_used <= old(report).work_used + 16,
        final(report).stopped_by_budget ==> old(report).stopped_by_budget || old(report).work_used + 16 > old(report).work_budget,
{
    let slot = find_pattern_slot(engine, d.object_id, d.semantic_id, d.previous_state, d.new_state, d.context, report);
    if report.stopped_by_budget {
        return None;
    }
    match slot {
        Some(k) => {
            let mut pattern = engine.patterns[k];
            pattern.support = pattern.support.saturating_add(1);
            pattern.recurrence = pattern.recurrence.saturating_add(1);
            pattern.last_seen = d.timestamp;
            pattern.provenance = d.provenance;
            engine.patterns.set(k, pattern);
            assert(engine.patterns@[k as int] == pattern);
            Some(pattern)
        },
        None => {
            let pattern = PatternRecord {
                object_id: d.object_id,
                semantic_id: d.semantic_id,
                previous_state: d.previous_state,
                next_state: d.new_state,
                context: d.context,
                support: 1,
                first_seen: d.timestamp,
                last_seen: d.timestamp,
                recurrence: 1,
                provenance: d.provenance,
            };
            let k = insert_pattern_slot(engine, pattern);
            Some(engine.patterns[k])
        },
    }
}


/// What a learning step may do to a report: counters of observations stay,
/// work only grows, and the report invariant is kept.
pub open spec fn report_step(a: SubconsciousReport, b: SubconsciousReport) -> bool {
    &&& counts_same(a, b)
    &&& b.work_used >= a.work_used
    &&& a.overflow ==> b.overflow
    &&& a.stopped_by_budget ==> b.stopped_by_budget
    &&& report_inv(a) ==> report_inv(b)
}

/// A waiting prediction closed by observation `d`: a hit when `d` reached
/// the forecast state, a miss otherwise, now carrying `d`'s provenance.
pub open spec fn resolved(p: PredictionRecord, d: SemanticDelta) -> PredictionRecord {
    PredictionRecord {
        outcome: if p.target_state == d.new_state { PredictionOutcome::Hit } else { PredictionOutcome::Miss },
        error: if p.target_state == d.new_state { 0 } else { 1 },
        provenance: d.provenance,
        origin_object_id: d.object_id,
        ..p
    }
}

/// The transition statistics credited with one more attempt, and one more
/// hit or miss (saturating).
pub open spec fn credited(t: TransitionStats, hit: bool) -> TransitionStats {
    TransitionStats {
        prediction_attempts: sat_add(t.prediction_attempts, 1),
        prediction_hits: if hit { sat_add(t.prediction_hits, 1) } else { t.prediction_hits },
        prediction_misses: if hit { t.prediction_misses } else { sat_add(t.prediction_misses, 1) },
        ..t
    }
}

/// The closed prediction re-scored from its credited transition among `ts`.
pub open spec fn rescored(r: PredictionRecord, t: TransitionStats, ts: Seq<TransitionStats>) -> PredictionRecord {
    let c = spec_confidence(t.prediction_hits, t.prediction_attempts);
    PredictionRecord {
        support: t.count,
        total_outgoing: outgoing_upto(ts, r.origin_object_id, r.semantic_id, r.source_state, r.context, ts.len() as int),
        confidence_fixed: c,
        uncertainty_fixed: spec_uncertainty(c),
        ..r
    }
}

/// The candidate a closed, re-scored prediction offers to the workspace.
pub open spec fn prediction_candidate(p: PredictionRecord, d: SemanticDelta) -> CandidateRecord {
    CandidateRecord {
        kind: CandidateKind::Prediction,
        semantic_id: p.semantic_id,
        previous_state: p.source_state,
        observed_state: d.new_state,
        predicted_state: p.target_state,
        context: p.context,
        score_fixed: p.confidence_fixed,
        uncertainty_fixed: p.uncertainty_fixed,
        support: p.support,
        timestamp: d.timestamp,
        provenance: d.provenance,
        origin_object_id: d.object_id,
    }
}

/// `t` is `s` with `c` stored: appended while there is room, otherwise in
/// place of the lowest-scored (then lowest) candidate.
pub open spec fn candidate_inserted(s: Seq<CandidateRecord>, c: CandidateRecord, t: Seq<CandidateRecord>) -> bool {
    if s.len() < MAX_CANDIDATES {
        t == s.push(c)
    } else {
        exists|k: int|
            0 <= k < s.len() && t == #[trigger] s.update(k, c) && (forall|j: int| 0 <= j < s.len() ==> !candidate_evicts_before(#[trigger] s[j], s[k]))
                && (forall|j: int| 0 <= j < k ==> candidate_evicts_before(s[k], #[trigger] s[j]))
    }
}

/// What closing the prediction waiting for `d` does to the engine's
/// transitions, predictions and candidates and to the report, when the
/// search for it was not cut short by the budget.
pub open spec fn pending_closed(
    d: SemanticDelta,
    ts: Seq<TransitionStats>,
    ps: Seq<PredictionRecord>,
    cs: Seq<CandidateRecord>,
    a: SubconsciousReport,
    ts2: Seq<TransitionStats>,
    ps2: Seq<PredictionRecord>,
    cs2: Seq<CandidateRecord>,
    b: SubconsciousReport,
) -> bool {
    let work = SubconsciousReport { work_used: b.work_used, overflow: b.overflow, stopped_by_budget: b.stopped_by_budget, ..a };
    let unchanged = ts2 == ts && ps2 == ps && cs2 == cs && b == work;
    match prediction_slot(ps, d.object_id, d.semantic_id, d.previous_state, d.context, 0) {
        None => unchanged,
        Some(k) => if ps[k].outcome != PredictionOutcome::Unresolved {
            unchanged
        } else {
            let r = resolved(ps[k], d);
            let hit = ps[k].target_state == d.new_state;
            match transition_slot(ts, r.origin_object_id, r.semantic_id, r.source_state, r.target_state, r.context, 0) {
                None => ts2 == ts && cs2 == cs && ps2 == ps.update(k, r) && b == SubconsciousReport { latest_prediction: r, ..work },
                Some(t) => {
                    let st = credited(ts[t], hit);
                    let ts1 = ts.update(t, st);
                    let r2 = rescored(r, st, ts1);
                    let c = prediction_candidate(r2, d);
                    &&& ts2 == ts1
                    &&& ps2 == ps.update(k, r2)
                    &&& candidate_inserted(cs, c, cs2)
                    &&& b == SubconsciousReport {
                        hit_count: if hit { bump(a.hit_count) } else { a.hit_count },
                        miss_count: if hit { a.miss_count } else { bump(a.miss_count) },
                        latest_prediction: r2,
                        candidate_count: bump(a.candidate_count),
                        latest_candidate: c,
                        ..work
                    }
                },
            }
        },
    }
}

/// Closes the prediction that was waiting for this observation, before the
/// observation is learned, and credits its transition with a hit or miss.
fn evaluate_pending_prediction(engine: &mut SubconsciousEngine, d: &SemanticDelta, report: &mut SubconsciousReport)
    requires
        old(engine).wf(),
        report_inv(*old(report)),
    ensures
        final(engine).wf(),
        final(engine).seen() == old(engine).seen(),
        final(engine).patterns() == old(engine).patterns(),
        final(engine).state_counts() == old(engine).state_counts(),
        final(engine).anomalies() == old(engine).anomalies(),
        final(engine).counter() == old(engine).counter(),
        report_step(*old(report), *final(report)),
        final(report).stopped_by_budget == (old(report).stopped_by_budget || old(report).work_used + slot_cost(
            old(engine).predictions(),
            d.object_id,
            d.semantic_id,
            d.previous_state,
            d.context,
        ) > old(report).work_budget),
        final(report).stopped_by_budget ==> final(engine).transitions() == old(engine).transitions()
            && final(engine).predictions() == old(engine).predictions() && final(engine).candidates() == old(engine).candidates()
            && work_only(*old(report), *final(report)),
        !final(report).stopped_by_budget ==> pending_closed(
            *d,
            old(engine).transitions(),
            old(engine).predictions(),
            old(engine).candidates(),
            *old(report),
            final(engine).transitions(),
            final(engine).predictions(),
            final(engine).candidates(),
            *final(report),
        ),
        final(report).work_used <= old(report).work_used + 16,
        final(report).stopped_by_budget ==> old(report).stopped_by_budget || old(report).work_used + 16 > old(report).work_budget,
{
    let slot = match find_prediction_slot(engine, d.object_id, d.semantic_id, d.previous_state, d.context, report) {
        None => {
            return;
        },
        Some(k) => k,
    };
    let mut pending = engine.predictions[slot];
    assert(prediction_ok(engine.predictions@[slot as int]));
    if pending.outcome != PredictionOutcome::Unresolved {
        return;
    }
    let is_hit = pending.target_state == d.new_state;
    pending.outcome = if is_hit { PredictionOutcome::Hit } else { PredictionOutcome::Miss };
    pending.error = categorical_error(pending.target_state, d.new_state);
    pending.provenance = d.provenance;
    pending.origin_object_id = d.object_id;
    let transition_slot = find_transition_slot_unbudgeted(
        engine,
        pending.origin_object_id,
        pending.semantic_id,
        pending.source_state,
        pending.target_state,
        pending.context,
    );
    match transition_slot {
        Some(t) => {
            let mut stats = engine.transitions[t];
            stats.prediction_attempts = stats.prediction_attempts.saturating_add(1);
            if is_hit {
                stats.prediction_hits = stats.prediction_hits.saturating_add(1);
                report.hit_count = report.hit_count.saturating_add(1);
            } else {
                stats.prediction_misses = stats.prediction_misses.saturating_add(1);
                report.miss_count = report.miss_count.saturating_add(1);
            }
            engine.transitions.set(t, stats);
            pending.support = stats.count;
            pending.total_outgoing = total_outgoing_support(
                engine,
                pending.origin_object_id,
                pending.semantic_id,
                pending.source_state,
                pending.context,
            );
            pending.confidence_fixed = confidence_fixed(stats.prediction_hits, stats.prediction_attempts);
            pending.uncertainty_fixed = uncertainty_fixed(pending.confidence_fixed);
            engine.predictions.set(slot, pending);
            report.latest_prediction = pending;
            let candidate = CandidateRecord {
                kind: CandidateKind::Prediction,
                semantic_id: pending.semantic_id,
                previous_state: pending.source_state,
                observed_state: d.new_state,
                predicted_state: pending.target_state,
                context: pending.context,
                score_fixed: pending.confidence_fixed,
                uncertainty_fixed: pending.uncertainty_fixed,
                support: pending.support,
                timestamp: d.timestamp,
                provenance: d.provenance,
                origin_object_id: d.object_id,
            };
            let ghost cs = engine.candidates();
            let ck = insert_candidate_slot(engine, candidate);
            proof {
                if cs.len() >= MAX_CANDIDATES {
                    assert(engine.candidates() == cs.update(ck as int, candidate));
                }
            }
            report.candidate_count = report.candidate_count.saturating_add(1);
            report.latest_candidate = candidate;
        },
        None => {
            engine.predictions.set(slot, pending);
            report.latest_prediction = pending;
        },
    }
}

/// The prediction the engine would issue for the source of `d`: its
/// dominant transition, once seen `MIN_EVIDENCE` times and with outgoing
/// support, as an unresolved forecast stamped with the observation counter.
pub open spec fn issued_prediction(e: SubconsciousEngine, d: SemanticDelta) -> Option<PredictionRecord> {
    let ts = e.transitions();
    let n = ts.len() as int;
    match dominant_upto(ts, d.object_id, d.semantic_id, d.previous_state, d.context, n).0 {
        None => None,
        Some(t) => if t.count < MIN_EVIDENCE {
            None
        } else {
            let total = outgoing_upto(ts, d.object_id, t.semantic_id, t.previous_state, t.context, n);
            if total == 0 {
                None
            } else {
                let c = spec_confidence(t.prediction_hits, t.prediction_attempts);
                Some(
                    PredictionRecord {
                        semantic_id: t.semantic_id,
                        source_state: t.previous_state,
                        target_state: t.next_state,
                        context: t.context,
                        support: t.count,
                        total_outgoing: total,
                        confidence_fixed: c,
                        uncertainty_fixed: spec_uncertainty(c),
                        created_at: e.counter(),
                        outcome: PredictionOutcome::Unresolved,
                        error: 0,
                        provenance: t.provenance,
                        origin_object_id: d.object_id,
                    },
                )
            }
        },
    }
}

/// `t` is `s` with `p` stored: appended while there is room, otherwise in
/// place of the oldest (then lowest) prediction.
pub open spec fn prediction_inserted(s: Seq<PredictionRecord>, p: PredictionRecord, t: Seq<PredictionRecord>) -> bool {
    if s.len() < MAX_PREDICTIONS {
        t == s.push(p)
    } else {
        exists|k: int|
            0 <= k < s.len() && t == #[trigger] s.update(k, p) && (forall|j: int| 0 <= j < s.len() ==> !prediction_evicts_before(#[trigger] s[j], s[k]))
                && (forall|j: int| 0 <= j < k ==> prediction_evicts_before(s[k], #[trigger] s[j]))
    }
}

/// One more, saturating.
pub open spec fn bump(n: usize) -> usize {
    if n == usize::MAX { n } else { (n + 1) as usize }
}

/// `b` is `a` with only its work accounting, prediction count and latest
/// prediction changed.
pub open spec fn prediction_report(a: SubconsciousReport, b: SubconsciousReport, count: usize, latest: PredictionRecord) -> bool {
    b == SubconsciousReport {
        work_used: b.work_used,
        overflow: b.overflow,
        stopped_by_budget: b.stopped_by_budget,
        prediction_count: count,
        latest_prediction: latest,
        ..a
    }
}

/// Issues a prediction for the observation's source once its dominant
/// transition has enough evidence; an unresolved forecast is never replaced.
fn emit_prediction_if_eligible(engine: &mut SubconsciousEngine, d: &SemanticDelta, report: &mut SubconsciousReport) -> (ok: bool)
    requires
        old(engine).wf(),
        report_inv(*old(report)),
    ensures
        final(engine).wf(),
        final(engine).seen() == old(engine).seen(),
        final(engine).transitions() == old(engine).transitions(),
        final(engine).patterns() == old(engine).patterns(),
        final(engine).candidates() == old(engine).candidates(),
        final(engine).state_counts() == old(engine).state_counts(),
        final(engine).anomalies() == old(engine).anomalies(),
        final(engine).counter() == old(engine).counter(),
        report_step(*old(report), *final(report)),
        !ok ==> final(report).stopped_by_budget,
        ok == !final(report).stopped_by_budget || issued_prediction(*old(engine), *d) is None,
        match issued_prediction(*old(engine), *d) {
            None => final(engine).predictions() == old(engine).predictions() && *final(report) == *old(report),
            Some(p) => if !ok {
                final(engine).predictions() == old(engine).predictions() && work_only(*old(report), *final(report))
            } else {
                match prediction_slot(old(engine).predictions(), d.object_id, p.semantic_id, p.source_state, p.context, 0) {
                    Some(k) => if old(engine).predictions()[k].outcome == PredictionOutcome::Unresolved {
                        final(engine).predictions() == old(engine).predictions() && prediction_report(
                            *old(report),
                            *final(report),
                            old(report).prediction_count,
                            old(engine).predictions()[k],
                        )
                    } else {
                        final(engine).predictions() == old(engine).predictions().update(k, p) && prediction_report(
                            *old(report),
                            *final(report),
                            bump(old(report).prediction_count),
                            p,
                        )
                    },
                    None => prediction_inserted(old(engine).predictions(), p, final(engine).predictions())
                        && prediction_report(*old(report), *final(report), bump(old(report).prediction_count), p),
                }
            },
        },
        final(report).work_used <= old(report).work_used + 16,
        final(report).stopped_by_budget ==> old(report).stopped_by_budget || old(report).work_used + 16 > old(report).work_budget,
{
    let dominant = match dominant_transition(engine, d.object_id, d.semantic_id, d.previous_state, d.context) {
        None => {
            return true;
        },
        Some(t) => t,
    };
    if dominant.count < MIN_EVIDENCE {
        return true;
    }
    let total = total_outgoing_support(engine, d.object_id, dominant.semantic_id, dominant.previous_state, dominant.context);
    if total == 0 {
        return true;
    }
    let confidence = confidence_fixed(dominant.prediction_hits, dominant.prediction_attempts);
    let prediction = PredictionRecord {
        semantic_id: dominant.semantic_id,
        source_state: dominant.previous_state,
        target_state: dominant.next_state,
        context: dominant.context,
        support: dominant.count,
        total_outgoing: total,
        confidence_fixed: confidence,
        uncertainty_fixed: uncertainty_fixed(confidence),
        created_at: engine.observation_counter,
        outcome: PredictionOutcome::Unresolved,
        error: 0,
        provenance: dominant.provenance,
        origin_object_id: d.object_id,
    };
    let existing_slot = find_prediction_slot(
        engine,
        prediction.origin_object_id,
        prediction.semantic_id,
        prediction.source_state,
        prediction.context,
        report,
    );
    if report.stopped_by_budget {
        return false;
    }
    match existing_slot {
        Some(k) => {
            let existing = engine.predictions[k];
            assert(prediction_ok(engine.predictions@[k as int]));
            if existing.outcome == PredictionOutcome::Unresolved {
                report.latest_prediction = existing;
                return true;
            }
            engine.predictions.set(k, prediction);
        },
        None => {
            let ghost before = engine.predictions();
            let k = insert_prediction_slot(engine, prediction);
            proof {
                if before.len() >= MAX_PREDICTIONS {
                    assert(engine.predictions() == before.update(k as int, prediction));
                }
            }
        },
    }
    report.prediction_count = report.prediction_count.saturating_add(1);
    report.latest_prediction = prediction;
    true
}

pub open spec fn clamp_u32(v: int) -> u32 {
    if v > u32::MAX { u32::MAX } else { v as u32 }
}

/// Fills the summary fields of a report from the engine.
fn finalize_report(engine: &SubconsciousEngine, report: &mut SubconsciousReport, completed_normally: bool)
    requires
        engine.wf(),
    ensures
        *final(report) == (SubconsciousReport {
            transition_count: engine.transitions().len() as usize,
            state_count: engine.state_count_len() as usize,
            pattern_count: engine.patterns().len() as usize,
            raw_units: clamp_u32(old(report).valid_observations as int),
            summary_units: (engine.transitions().len() + engine.patterns().len() + engine.predictions().len()) as u32,
            compression_x100: if engine.transitions().len() + engine.patterns().len() + engine.predictions().len() == 0 {
                0u32
            } else {
                (clamp_u32(clamp_u32(old(report).valid_observations as int) as int * 100) as int
                    / (engine.transitions().len() + engine.patterns().len() + engine.predictions().len()) as int) as u32
            },
            provisional: !completed_normally,
            ..*old(report)
        }),
{
    report.transition_count = engine.transitions.len();
    report.state_count = engine.state_counts.len();
    report.pattern_count = engine.patterns.len();
    report.raw_units = if report.valid_observations > u32::MAX as usize {
        u32::MAX
    } else {
        report.valid_observations as u32
    };
    let summary = engine.transitions.len() + engine.patterns.len() + engine.predictions.len();
    report.summary_units = summary as u32;
    if report.summary_units == 0 {
        report.compression_x100 = 0;
    } else {
        let scaled: u32 = if report.raw_units > u32::MAX / 100 {
            u32::MAX
        } else {
            report.raw_units * 100
        };
        report.compression_x100 = scaled / report.summary_units;
    }
    report.provisional = !completed_normally;
}

/// Learns one valid, not yet seen observation; false when the budget ran
/// out on the way.
#[verifier::rlimit(60)]
fn learn_observation(engine: &mut SubconsciousEngine, d: &SemanticDelta, key: DeltaEventKey, report: &mut SubconsciousReport) -> (ok: bool)
    requires
        old(engine).wf(),
        report_inv(*old(report)),
    ensures
        final(engine).wf(),
        report_step(*old(report), *final(report)),
        !ok ==> final(report).stopped_by_budget,
        ok ==> final(engine).seen() == remember(old(engine).seen(), key),
        !ok ==> final(engine).seen() == old(engine).seen(),
        ok ==> judged(final(report).latest_anomaly, *d),
        ok ==> final(engine).counter() == bump_counter(old(engine).counter()),
        ok ==> represented(final(engine).transitions(), *d),
        final(report).work_used <= old(report).work_used + 119,
        final(report).stopped_by_budget ==> old(report).stopped_by_budget || old(report).work_used + 119 > old(report).work_budget,
{
    evaluate_pending_prediction(engine, d, report);
    if !charge(report) {
        return false;
    }
    let anomaly = evaluate_anomaly(engine, d);
    proof {
        assert(spec_anomaly(engine.transitions(), *d) == anomaly);
    }
    insert_anomaly_slot(engine, anomaly);
    report.anomaly_count = report.anomaly_count.saturating_add(1);
    report.latest_anomaly = anomaly;
    if anomaly.state == AnomalyState::Anomalous {
        let candidate = CandidateRecord {
            kind: CandidateKind::Anomaly,
            semantic_id: anomaly.semantic_id,
            previous_state: anomaly.source_state,
            observed_state: anomaly.actual_state,
            predicted_state: anomaly.expected_state,
            context: anomaly.context,
            score_fixed: anomaly.score_fixed,
            uncertainty_fixed: uncertainty_fixed(SCALE.saturating_sub(anomaly.score_fixed)),
            support: anomaly.baseline,
            timestamp: d.timestamp,
            provenance: anomaly.provenance,
            origin_object_id: anomaly.origin_object_id,
        };
        insert_candidate_slot(engine, candidate);
        report.candidate_count = report.candidate_count.saturating_add(1);
        report.latest_candidate = candidate;
    }
    if !charge(report) {
        return false;
    }
    engine.observation_counter = engine.observation_counter.saturating_add(1);
    if !charge(report) {
        return false;
    }
    let updated_transition = update_transition(engine, d);
    proof {
        let k = choose|k: int| 0 <= k < engine.transitions().len() && engine.transitions()[k] == updated_transition;
        assert(transition_is(engine.transitions()[k], d.object_id, d.semantic_id, d.previous_state, d.new_state, d.context));
    }
    if !charge(report) {
        return false;
    }
    if !update_state_counts(engine, d, report) {
        return false;
    }
    if !charge(report) {
        return false;
    }
    let pattern = update_pattern(engine, d, report);
    if report.stopped_by_budget {
        return false;
    }
    match pattern {
        Some(pattern) => {
            if pattern.support >= MIN_PATTERN_EVIDENCE {
                let support_capped = if pattern.support < SCALE { pattern.support } else { SCALE };
                let support_floor = if pattern.support > 1 { pattern.support } else { 1 };
                let confidence = confidence_fixed(support_capped, support_floor);
                let resource = d.semantic_id == semantic::ACTIVE || d.semantic_id == semantic::AVAILABLE;
                let candidate = CandidateRecord {
                    kind: if resource { CandidateKind::ResourceTransition } else { CandidateKind::RepeatedTransition },
                    semantic_id: pattern.semantic_id,
                    previous_state: pattern.previous_state,
                    observed_state: pattern.next_state,
                    predicted_state: pattern.next_state,
                    context: pattern.context,
                    score_fixed: confidence,
                    uncertainty_fixed: uncertainty_fixed(confidence),
                    support: pattern.support,
                    timestamp: d.timestamp,
                    provenance: pattern.provenance,
                    origin_object_id: d.object_id,
                };
                insert_candidate_slot(engine, candidate);
                report.candidate_count = report.candidate_count.saturating_add(1);
                report.latest_candidate = candidate;
            }
        },
        None => {},
    }
    if !charge(report) {
        return false;
    }
    let evaluated_prediction = report.latest_prediction;
    let evaluated_candidate = report.latest_candidate;
    if !emit_prediction_if_eligible(engine, d, report) {
        return false;
    }
    if evaluated_prediction.outcome != PredictionOutcome::Unresolved {
        report.latest_prediction = evaluated_prediction;
        if evaluated_candidate.kind == CandidateKind::Anomaly {
            report.latest_candidate = evaluated_candidate;
        }
    }
    if !charge(report) {
        return false;
    }
    let total = total_outgoing_support(engine, d.object_id, d.semantic_id, d.previous_state, d.context);
    report.latest_surprisal_bits = information_surprisal_bits(updated_transition.count, total);
    report.information_available = true;
    insert_seen_key(engine, key);
    true
}


/// The window of remembered keys after remembering `k`: appended, and the
/// oldest forgotten when the window is full.
pub open spec fn remember(s: Seq<DeltaEventKey>, k: DeltaEventKey) -> Seq<DeltaEventKey> {
    if s.len() < MAX_SEEN { s.push(k) } else { s.drop_first().push(k) }
}

/// The remembered window after the first `n` of `obs` went through the
/// engine: invalid deltas and deltas whose key is still remembered are
/// skipped, every other one is learned and its key remembered.
pub open spec fn seen_after(s: Seq<DeltaEventKey>, obs: Seq<SemanticDelta>, n: int) -> Seq<DeltaEventKey>
    decreases n,
{
    if n <= 0 {
        s
    } else {
        let p = seen_after(s, obs, n - 1);
        let d = obs[n - 1];
        if !delta_valid(d) || p.contains(key_of(d)) { p } else { remember(p, key_of(d)) }
    }
}

/// How many of the first `n` of `obs` are valid repeats of a remembered delta.
pub open spec fn duplicates_after(s: Seq<DeltaEventKey>, obs: Seq<SemanticDelta>, n: int) -> nat
    decreases n,
{
    if n <= 0 {
        0
    } else {
        duplicates_after(s, obs, n - 1) + if delta_valid(obs[n - 1]) && seen_after(s, obs, n - 1).contains(key_of(obs[n - 1])) {
            1nat
        } else {
            0nat
        }
    }
}

/// Some transition of `ts` with support is the transition `d` made.
pub open spec fn represented(ts: Seq<TransitionStats>, d: SemanticDelta) -> bool {
    exists|k: int| 0 <= k < ts.len() && #[trigger] transition_is(ts[k], d.object_id, d.semantic_id, d.previous_state, d.new_state, d.context)
        && ts[k].count >= 1
}

/// The learned-observation counter after one more, saturating.
pub open spec fn bump_counter(c: u64) -> u64 {
    if c == u64::MAX { c } else { (c + 1) as u64 }
}

/// The counter after learning from the first `n` of `obs`: one more for
/// each delta that is valid and not remembered at the time.
pub open spec fn counter_after(c: u64, s: Seq<DeltaEventKey>, obs: Seq<SemanticDelta>, n: int) -> u64
    decreases n,
{
    if n <= 0 {
        c
    } else if !delta_valid(obs[n - 1]) || seen_after(s, obs, n - 1).contains(key_of(obs[n - 1])) {
        counter_after(c, s, obs, n - 1)
    } else {
        bump_counter(counter_after(c, s, obs, n - 1))
    }
}

/// The last of the first `n` of `obs` that the engine learned: valid and
/// not remembered at the time.
pub open spec fn last_learned(s: Seq<DeltaEventKey>, obs: Seq<SemanticDelta>, n: int) -> Option<SemanticDelta>
    decreases n,
{
    if n <= 0 {
        None
    } else if !delta_valid(obs[n - 1]) || seen_after(s, obs, n - 1).contains(key_of(obs[n - 1])) {
        last_learned(s, obs, n - 1)
    } else {
        Some(obs[n - 1])
    }
}

/// `a` is the anomaly judgement of `d` against some table of transitions:
/// it describes `d`, and its expectation and score follow the dominant
/// transition of that table.
pub open spec fn judged(a: AnomalyRecord, d: SemanticDelta) -> bool {
    exists|ts: Seq<TransitionStats>| #[trigger] spec_anomaly(ts, d) == a
}

/// The report's latest anomaly after the first `n` of `obs`: none before
/// anything was learned, else the judgement of the last learned delta.
pub open spec fn latest_anomaly_after(a: AnomalyRecord, s: Seq<DeltaEventKey>, obs: Seq<SemanticDelta>, n: int) -> bool {
    match last_learned(s, obs, n) {
        None => a == empty_anomaly(),
        Some(d) => judged(a, d),
    }
}

/// Duplicate suppression: once a valid delta has gone through the engine,
/// handing it over again counts one duplicate and leaves the remembered
/// window as it was, so nothing is learned twice.
pub proof fn law_duplicate_not_learned_twice(s: Seq<DeltaEventKey>, d: SemanticDelta)
    requires
        delta_valid(d),
    ensures
        seen_after(s, seq![d], 1).contains(key_of(d)),
        seen_after(seen_after(s, seq![d], 1), seq![d], 1) == seen_after(s, seq![d], 1),
        duplicates_after(seen_after(s, seq![d], 1), seq![d], 1) == 1,
{
    let s1 = seen_after(s, seq![d], 1);
    assert(seen_after(s, seq![d], 0) == s);
    if !s.contains(key_of(d)) {
        let r = remember(s, key_of(d));
        assert(r[r.len() - 1] == key_of(d));
        assert(r.contains(key_of(d)));
    }
    assert(seen_after(s1, seq![d], 0) == s1);
    assert(duplicates_after(s1, seq![d], 0) == 0);
}

pub open spec fn batch_limit(n: int) -> int {
    if n < MAX_OBSERVATIONS { n } else { MAX_OBSERVATIONS as int }
}

/// What every processing report satisfies.
pub open spec fn report_sound(r: SubconsciousReport, n: int) -> bool {
    &&& report_inv(r)
    &&& r.observations_seen == r.valid_observations + r.invalid_observations
    &&& r.duplicate_observations <= r.valid_observations
    &&& r.observations_seen <= batch_limit(n)
    &&& n > MAX_OBSERVATIONS ==> r.overflow
    &&& r.provisional == r.stopped_by_budget
    &&& !r.provisional ==> r.observations_seen == batch_limit(n)
    &&& r.raw_units == r.valid_observations
}

/// Number of invalid deltas among the first `k` of `obs`.
pub open spec fn invalid_prefix(obs: Seq<SemanticDelta>, k: int) -> nat
    decreases k,
{
    if k <= 0 {
        0
    } else {
        invalid_prefix(obs, k - 1) + if delta_valid(obs[k - 1]) { 0nat } else { 1nat }
    }
}

/// Learns from a batch of at most `MAX_OBSERVATIONS` deltas within the work
/// budget. Invalid deltas are counted and skipped, repeats of a remembered
/// delta are counted as duplicates and not learned again. The input is only
/// read.
pub fn process(engine: &mut SubconsciousEngine, observations: &[SemanticDelta]) -> (r: SubconsciousReport)
    requires
        old(engine).wf(),
    ensures
        final(engine).wf(),
        report_sound(r, observations@.len() as int),
        r.invalid_observations == invalid_prefix(observations@, r.observations_seen as int),
        r.transition_count == final(engine).transitions().len(),
        r.pattern_count == final(engine).patterns().len(),
        r.state_count == final(engine).state_count_len(),
        r.summary_units == final(engine).transitions().len() + final(engine).patterns().len() + final(engine).predictions().len(),
        r.compression_x100 == (if r.summary_units == 0 { 0 } else { clamp_u32(r.raw_units as int * 100) as int / r.summary_units as int }),
        batch_limit(observations@.len() as int) * OBSERVATION_WORK + 1 <= MAX_WORK ==> !r.stopped_by_budget
            && r.observations_seen == batch_limit(observations@.len() as int) && !r.provisional,
        !r.stopped_by_budget ==> final(engine).seen() == seen_after(old(engine).seen(), observations@, r.observations_seen as int)
            && r.duplicate_observations == duplicates_after(old(engine).seen(), observations@, r.observations_seen as int),
        r.stopped_by_budget ==> final(engine).seen() == seen_after(old(engine).seen(), observations@, r.observations_seen as int)
            || final(engine).seen() == seen_after(old(engine).seen(), observations@, r.observations_seen - 1),
        !r.stopped_by_budget ==> latest_anomaly_after(r.latest_anomaly, old(engine).seen(), observations@, r.observations_seen as int),
        !r.stopped_by_budget ==> final(engine).counter() == counter_after(old(engine).counter(), old(engine).seen(), observations@, r.observations_seen as int),
        !r.stopped_by_budget ==> (last_learned(old(engine).seen(), observations@, r.observations_seen as int) matches Some(d)
            ==> represented(final(engine).transitions(), d)),
{
    let ghost s0 = engine.seen();
    let ghost c0 = engine.counter();
    let mut report = SubconsciousReport::empty();
    let limit = if observations.len() < MAX_OBSERVATIONS { observations.len() } else { MAX_OBSERVATIONS };
    if observations.len() > MAX_OBSERVATIONS {
        report.overflow = true;
    }
    let mut index: usize = 0;
    while index < limit
        invariant
            0 <= index <= limit,
            limit == batch_limit(observations@.len() as int),
            engine.wf(),
            report_inv(report),
            report.observations_seen == index,
            report.invalid_observations == invalid_prefix(observations@, index as int),
            report.observations_seen == report.valid_observations + report.invalid_observations,
            report.duplicate_observations <= report.valid_observations,
            observations@.len() > MAX_OBSERVATIONS ==> report.overflow,
            limit * OBSERVATION_WORK + 1 <= MAX_WORK ==> !report.stopped_by_budget && report.work_used <= OBSERVATION_WORK * index,
            engine.seen() == seen_after(s0, observations@, index as int),
            report.duplicate_observations == duplicates_after(s0, observations@, index as int),
            latest_anomaly_after(report.latest_anomaly, s0, observations@, index as int),
            engine.counter() == counter_after(c0, s0, observations@, index as int),
            last_learned(s0, observations@, index as int) matches Some(d) ==> represented(engine.transitions(), d),
            c0 == old(engine).counter(),
            s0 == old(engine).seen(),
        decreases limit - index,
    {
        if !charge(&mut report) {
            finalize_report(engine, &mut report, false);
            return report;
        }
        let observation = observations[index];
        report.observations_seen = report.observations_seen + 1;
        if !observation.is_valid() {
            report.invalid_observations = report.invalid_observations + 1;
            index = index + 1;
        } else {
            report.valid_observations = report.valid_observations + 1;
            let key = key_from_delta(&observation);
            let already_seen = match find_seen_key(engine, &key, &mut report) {
                None => {
                    finalize_report(engine, &mut report, false);
                    return report;
                },
                Some(b) => b,
            };
            if already_seen {
                report.duplicate_observations = report.duplicate_observations + 1;
                index = index + 1;
            } else {
                if !learn_observation(engine, &observation, key, &mut report) {
                    finalize_report(engine, &mut report, false);
                    return report;
                }
                index = index + 1;
            }
        }
    }
    if !charge(&mut report) {
        finalize_report(engine, &mut report, false);
        return report;
    }
    finalize_report(engine, &mut report, true);
    report
}

/// Takes up to `MAX_OBSERVATIONS` deltas from the queue, oldest first, and
/// learns from them; the queue is consumed only by `pop`.
pub fn process_pending(engine: &mut SubconsciousEngine, queue: &mut DeltaQueue) -> (r: SubconsciousReport)
    requires
        old(engine).wf(),
        old(queue).wf(),
    ensures
        final(engine).wf(),
        final(queue).wf(),
        final(queue).is_reserved() == old(queue).is_reserved(),
        final(queue).observer_count() == old(queue).observer_count(),
        ({
            let n = if old(queue).busy() { 0 } else { batch_limit(old(queue).contents().len() as int) };
            &&& final(queue).contents() == old(queue).contents().skip(n)
            &&& n == 0 ==> r.observations_seen == 0 && r.provisional
            &&& report_inv(r)
            &&& r.observations_seen == r.valid_observations + r.invalid_observations
            &&& r.observations_seen <= n
            &&& !r.provisional ==> r.observations_seen == n
            &&& !r.stopped_by_budget ==> final(engine).seen() == seen_after(old(engine).seen(), old(queue).contents().take(n), r.observations_seen as int)
                && r.duplicate_observations == duplicates_after(old(engine).seen(), old(queue).contents().take(n), r.observations_seen as int)
                && latest_anomaly_after(r.latest_anomaly, old(engine).seen(), old(queue).contents().take(n), r.observations_seen as int)
                && final(engine).counter() == counter_after(old(engine).counter(), old(engine).seen(), old(queue).contents().take(n), r.observations_seen as int)
        }),
{
    let mut report = SubconsciousReport::empty();
    let mut observations: Vec<SemanticDelta> = Vec::new();
    let mut count: usize = 0;
    let mut more = true;
    while more && count < MAX_OBSERVATIONS
        invariant
            0 <= count <= MAX_OBSERVATIONS,
            queue.wf(),
            queue.is_reserved() == old(queue).is_reserved(),
            queue.observer_count() == old(queue).observer_count(),
            observations@ == old(queue).contents().take(count as int),
            queue.contents() == old(queue).contents().skip(count as int),
            count <= old(queue).contents().len(),
            old(queue).busy() ==> count == 0,
            !more ==> old(queue).busy() || count == old(queue).contents().len(),
            report_inv(report),
            report.work_used == count + (if more { 0int } else { 1int }),
            report.observations_seen == 0 && report.valid_observations == 0 && report.invalid_observations == 0,
            report.duplicate_observations == 0,
            report.latest_anomaly == empty_anomaly(),
            report.provisional && !report.stopped_by_budget,
        decreases MAX_OBSERVATIONS - count + (if more { 1int } else { 0int }),
    {
        if !charge(&mut report) {
            report.provisional = true;
            return report;
        }
        match delta::pop(queue) {
            None => {
                more = false;
            },
            Some(d) => {
                proof {
                    assert(old(queue).contents().take(count + 1) =~= old(queue).contents().take(count as int).push(d));
                    assert(old(queue).contents().skip(count + 1) =~= old(queue).contents().skip(count as int).drop_first());
                }
                observations.push(d);
                count = count + 1;
            },
        }
    }
    if count == 0 {
        return report;
    }
    let mut processed = process(engine, observations.as_slice());
    processed.work_used = processed.work_used.saturating_add(report.work_used);
    if processed.work_used > MAX_WORK {
        processed.work_used = MAX_WORK;
        processed.overflow = true;
        processed.stopped_by_budget = true;
        processed.provisional = true;
    }
    processed
}


/// A local delta whose provenance names the object itself.
fn make_delta(object_id: u64, semantic_id: SemanticId, previous_state: SemanticId, new_state: SemanticId, context: ContextId, timestamp: u64, revision: u64) -> (d: SemanticDelta)
    ensures
        d.object_id == object_id && d.semantic_id == semantic_id && d.previous_state == previous_state
            && d.new_state == new_state && d.context == context && d.timestamp == timestamp
            && d.provenance == (RelationProvenance { origin: object_id, source: ProvenanceSource::Local, revision }),
{
    SemanticDelta {
        object_id,
        semantic_id,
        previous_state,
        new_state,
        context,
        timestamp,
        provenance: RelationProvenance { origin: object_id, source: ProvenanceSource::Local, revision },
    }
}

/// Three repeats of one transition of `object_id` at timestamps `t`, `t + 1`, `t + 2`.
fn repeated(object_id: u64, new_state: SemanticId, context: ContextId, t: u64) -> (v: Vec<SemanticDelta>)
    requires
        t <= 1000,
{
    vec![
        make_delta(object_id, semantic::CAUSES, semantic::PENDING, new_state, context, t, t),
        make_delta(object_id, semantic::CAUSES, semantic::PENDING, new_state, context, t + 1, t + 1),
        make_delta(object_id, semantic::CAUSES, semantic::PENDING, new_state, context, t + 2, t + 2),
    ]
}

/// Whether the dominant successor of PENDING under CAUSES for `o` in `ctx` is `expected`.
fn dominant_is(engine: &SubconsciousEngine, o: ObjectId, ctx: ContextId, expected: SemanticId) -> bool {
    match dominant_transition(engine, o, semantic::CAUSES, semantic::PENDING, ctx) {
        Some(entry) => entry.next_state == expected,
        None => false,
    }
}

/// Runs the engine through its documented behaviour on a fresh engine and
/// queue: fixed-point confidence and uncertainty, bounded surprisal, no
/// prediction from a single event, learning of repeated transitions into a
/// pattern and a prediction, closing it as a hit and as a miss with an
/// anomaly candidate, isolation between objects, duplicate suppression,
/// bounded work, deterministic replay, consumption of the delta queue by
/// `process_pending`, and a clean reset. Returns whether every check held.
pub fn self_test() -> (ok: bool) {
    if confidence_fixed(0, 0) != 0 || confidence_fixed(1, 0) != 0 || confidence_fixed(1, 5) != 2000
        || confidence_fixed(2, 5) != 4000 || confidence_fixed(5, 5) != SCALE || confidence_fixed(u32::MAX, 1) != SCALE
        || uncertainty_fixed(0) != SCALE || uncertainty_fixed(SCALE) != 0 || uncertainty_fixed(2500) != 7500
    {
        return false;
    }
    let s1 = information_surprisal_bits(5, 5);
    let s2 = information_surprisal_bits(1, 5);
    let s3 = information_surprisal_bits(1, 1000);
    if s1 > s2 || s2 > s3 || s3 > MAX_SURPRISAL_BITS {
        return false;
    }

    let mut engine = SubconsciousEngine::new();
    // One observation cannot establish a learned prediction.
    let single = vec![make_delta(10, semantic::CONNECTED_TO, semantic::READY, semantic::ACTIVE, 1, 1, 1)];
    let single_report = process(&mut engine, single.as_slice());
    if single_report.prediction_count != 0 || single_report.latest_anomaly.state != AnomalyState::Unknown {
        return false;
    }
    // Three repeated observations create defensible transition evidence.
    let train = repeated(20, semantic::COMPLETE, 9, 10);
    let learned = process(&mut engine, train.as_slice());
    if learned.prediction_count == 0 || learned.latest_prediction.support < MIN_EVIDENCE
        || learned.latest_prediction.uncertainty_fixed != SCALE
    {
        return false;
    }
    if learned.latest_candidate.kind != CandidateKind::Prediction && learned.latest_candidate.kind != CandidateKind::RepeatedTransition {
        return false;
    }
    // The repeated transition is represented as a pattern.
    match find_pattern_slot_unbudgeted(&engine, 20, semantic::CAUSES, semantic::PENDING, semantic::COMPLETE, 9) {
        Some(slot) => {
            if engine.patterns[slot].support < MIN_PATTERN_EVIDENCE {
                return false;
            }
        },
        None => {
            return false;
        },
    }
    // A matching observation closes the prediction as a hit.
    let hit = vec![make_delta(20, semantic::CAUSES, semantic::PENDING, semantic::COMPLETE, 9, 13, 13)];
    let hit_report = process(&mut engine, hit.as_slice());
    if hit_report.hit_count == 0 || hit_report.latest_anomaly.state != AnomalyState::Expected || hit_report.latest_anomaly.score_fixed != 0 {
        return false;
    }
    // A divergent transition closes it as a miss and is anomalous.
    let miss = vec![make_delta(20, semantic::CAUSES, semantic::PENDING, semantic::FAILED, 9, 14, 14)];
    let miss_report = process(&mut engine, miss.as_slice());
    if miss_report.miss_count == 0 || miss_report.latest_prediction.error == 0
        || miss_report.latest_prediction.outcome != PredictionOutcome::Miss
        || miss_report.latest_anomaly.state != AnomalyState::Anomalous || miss_report.latest_anomaly.score_fixed == 0
        || miss_report.latest_candidate.kind != CandidateKind::Anomaly
    {
        return false;
    }
    // Learning persists, and confidence reflects the prediction history.
    let stats = match find_transition_slot_unbudgeted(&engine, 20, semantic::CAUSES, semantic::PENDING, semantic::COMPLETE, 9) {
        Some(slot) => engine.transitions[slot],
        None => {
            return false;
        },
    };
    if stats.prediction_attempts == 0 || stats.prediction_hits == 0 || stats.prediction_misses == 0 {
        return false;
    }
    let confidence = confidence_fixed(stats.prediction_hits, stats.prediction_attempts);
    if confidence >= SCALE || uncertainty_fixed(confidence) == 0 {
        return false;
    }
    // Opposing distributions of two objects never contaminate one another.
    clear(&mut engine);
    let object_a = repeated(400, semantic::COMPLETE, 21, 40);
    let object_b = repeated(401, semantic::FAILED, 21, 50);
    let _ = process(&mut engine, object_a.as_slice());
    let _ = process(&mut engine, object_b.as_slice());
    let a_complete = find_transition_slot_unbudgeted(&engine, 400, semantic::CAUSES, semantic::PENDING, semantic::COMPLETE, 21);
    let a_failed = find_transition_slot_unbudgeted(&engine, 400, semantic::CAUSES, semantic::PENDING, semantic::FAILED, 21);
    let b_complete = find_transition_slot_unbudgeted(&engine, 401, semantic::CAUSES, semantic::PENDING, semantic::COMPLETE, 21);
    let b_failed = find_transition_slot_unbudgeted(&engine, 401, semantic::CAUSES, semantic::PENDING, semantic::FAILED, 21);
    match (a_complete, a_failed, b_complete, b_failed) {
        (Some(a), None, None, Some(b)) => {
            if engine.transitions[a].count != 3 || engine.transitions[b].count != 3 {
                return false;
            }
        },
        _ => {
            return false;
        },
    }
    if !dominant_is(&engine, 400, 21, semantic::COMPLETE) || !dominant_is(&engine, 401, 21, semantic::FAILED) {
        return false;
    }
    let a_next = vec![make_delta(400, semantic::CAUSES, semantic::PENDING, semantic::COMPLETE, 21, 60, 60)];
    let a_prediction = process(&mut engine, a_next.as_slice());
    if a_prediction.latest_prediction.origin_object_id != 400 || a_prediction.latest_prediction.target_state != semantic::COMPLETE
        || a_prediction.latest_prediction.outcome != PredictionOutcome::Hit
    {
        return false;
    }
    let b_next = vec![make_delta(401, semantic::CAUSES, semantic::PENDING, semantic::FAILED, 21, 61, 61)];
    let b_prediction = process(&mut engine, b_next.as_slice());
    if b_prediction.latest_prediction.origin_object_id != 401 || b_prediction.latest_prediction.target_state != semantic::FAILED
        || b_prediction.latest_prediction.outcome != PredictionOutcome::Hit
    {
        return false;
    }
    // Duplicate input is not learned twice.
    clear(&mut engine);
    let duplicate = vec![make_delta(300, semantic::CAUSES, semantic::PENDING, semantic::COMPLETE, 15, 30, 30)];
    let first = process(&mut engine, duplicate.as_slice());
    let second = process(&mut engine, duplicate.as_slice());
    if first.valid_observations != 1 || second.duplicate_observations != 1 {
        return false;
    }
    match find_transition_slot_unbudgeted(&engine, 300, semantic::CAUSES, semantic::PENDING, semantic::COMPLETE, 15) {
        Some(slot) => {
            if engine.transitions[slot].count != 1 {
                return false;
            }
        },
        None => {
            return false;
        },
    }
    // Bounded processing never exceeds the declared work budget.
    clear(&mut engine);
    let mut flood: Vec<SemanticDelta> = Vec::new();
    let mut index: usize = 0;
    while index < MAX_OBSERVATIONS
        invariant
            index <= MAX_OBSERVATIONS,
        decreases MAX_OBSERVATIONS - index,
    {
        let stamp: u64 = 1000 + index as u64;
        flood.push(make_delta(stamp, semantic::CONNECTED_TO, semantic::READY, semantic::ACTIVE, 77, stamp, stamp));
        index = index + 1;
    }
    let flood_report = process(&mut engine, flood.as_slice());
    if flood_report.work_used > MAX_WORK {
        return false;
    }
    // Replaying a sequence on a cleared engine gives the same report.
    let sequence = vec![
        make_delta(700, semantic::CAUSES, semantic::PENDING, semantic::COMPLETE, 12, 1, 1),
        make_delta(701, semantic::CAUSES, semantic::PENDING, semantic::COMPLETE, 12, 2, 2),
        make_delta(702, semantic::CAUSES, semantic::PENDING, semantic::COMPLETE, 12, 3, 3),
        make_delta(703, semantic::CAUSES, semantic::PENDING, semantic::FAILED, 12, 4, 4),
    ];
    clear(&mut engine);
    let replay_a = process(&mut engine, sequence.as_slice());
    clear(&mut engine);
    let replay_b = process(&mut engine, sequence.as_slice());
    if replay_a != replay_b {
        return false;
    }
    // process_pending consumes exactly what was queued.
    clear(&mut engine);
    let mut queue = DeltaQueue::new();
    let before = delta::count(&queue);
    let queued = make_delta(800, semantic::CAUSES, semantic::PENDING, semantic::COMPLETE, 13, 50, 50);
    if delta::push(&mut queue, queued).is_err() {
        return false;
    }
    if delta::count(&queue) != before + 1 {
        return false;
    }
    let pending_report = process_pending(&mut engine, &mut queue);
    if pending_report.valid_observations == 0 || delta::count(&queue) != before {
        return false;
    }
    // A reset leaves nothing derived behind.
    clear(&mut engine);
    let nothing: Vec<SemanticDelta> = Vec::new();
    let after_reset = process(&mut engine, nothing.as_slice());
    if after_reset.transition_count != 0 || after_reset.state_count != 0 || after_reset.pattern_count != 0
        || after_reset.prediction_count != 0 || after_reset.anomaly_count != 0 || after_reset.candidate_count != 0
    {
        return false;
    }
    true
}

} // verus!
