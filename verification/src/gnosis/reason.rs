//! GNOSIS reasoning: a bounded, three-valued-plus classification of each
//! workspace item (true, false, unknown, conflicting, stale) with a
//! confidence, under a work budget chosen by the reasoning mode.
use vstd::prelude::*;
use crate::gnosis::conscious::WorkspaceItem;
use crate::gnosis::relation::{ProvenanceSource, RelationProvenance};
use crate::gnosis::semantic::{ContextId, ObjectId, SemanticId};

verus! {

pub const SCALE: u32 = 10_000;
pub const MAX_INFERENCES: usize = 16;
pub const MAX_WORK: usize = 64;

#[derive(Clone, Copy, Debug, PartialEq, Eq, Structural)]
pub enum ReasonMode {
    Fast,
    Normal,
    Deep,
}

pub open spec fn spec_work_budget(mode: ReasonMode) -> usize {
    match mode {
        ReasonMode::Fast => 8,
        ReasonMode::Normal => 32,
        ReasonMode::Deep => MAX_WORK,
    }
}

impl ReasonMode {
    /// Work units the mode may spend.
    pub fn work_budget(self) -> (n: usize)
        ensures
            n == spec_work_budget(self),
    {
        match self {
            ReasonMode::Fast => 8,
            ReasonMode::Normal => 32,
            ReasonMode::Deep => MAX_WORK,
        }
    }
}

#[derive(Clone, Copy, Debug, PartialEq, Eq, Structural)]
pub enum TruthState {
    True,
    False,
    Unknown,
    Conflicting,
    Stale,
}

#[derive(Clone, Copy, Debug, PartialEq, Eq, Structural)]
pub enum InferenceKind {
    Transition,
    PredictionConsistent,
    PredictionMismatch,
    Observation,
}

#[derive(Clone, Copy, Debug, PartialEq, Eq, Structural)]
pub struct InferenceRecord {
    pub object_id: ObjectId,
    pub semantic_id: SemanticId,
    pub previous_state: SemanticId,
    pub current_state: SemanticId,
    pub predicted_state: SemanticId,
    pub context: ContextId,
    pub kind: InferenceKind,
    pub truth: TruthState,
    pub confidence_fixed: u32,
    pub uncertainty_fixed: u32,
    pub timestamp: u64,
    pub provenance: RelationProvenance,
}

pub open spec fn empty_inference() -> InferenceRecord {
    InferenceRecord {
        object_id: 0,
        semantic_id: 0,
        previous_state: 0,
        current_state: 0,
        predicted_state: 0,
        context: 0,
        kind: InferenceKind::Observation,
        truth: TruthState::Unknown,
        confidence_fixed: 0,
        uncertainty_fixed: SCALE,
        timestamp: 0,
        provenance: RelationProvenance { origin: 0, source: ProvenanceSource::Local, revision: 0 },
    }
}

impl InferenceRecord {
    pub fn empty() -> (r: Self)
        ensures
            r == empty_inference(),
    {
        InferenceRecord {
            object_id: 0,
            semantic_id: 0,
            previous_state: 0,
            current_state: 0,
            predicted_state: 0,
            context: 0,
            kind: InferenceKind::Observation,
            truth: TruthState::Unknown,
            confidence_fixed: 0,
            uncertainty_fixed: SCALE,
            timestamp: 0,
            provenance: RelationProvenance { origin: 0, source: ProvenanceSource::Local, revision: 0 },
        }
    }
}

#[derive(Clone, Copy, Debug, PartialEq, Eq, Structural)]
pub struct ReasonReport {
    pub observed: usize,
    pub inferred: usize,
    pub unknown: usize,
    pub conflicting: usize,
    pub stale: usize,
    pub work_used: usize,
    pub work_budget: usize,
    pub stopped_by_budget: bool,
    pub provisional: bool,
}

impl ReasonReport {
    pub fn empty(mode: ReasonMode) -> (r: Self)
        ensures
            r == (ReasonReport {
                observed: 0,
                inferred: 0,
                unknown: 0,
                conflicting: 0,
                stale: 0,
                work_used: 0,
                work_budget: spec_work_budget(mode),
                stopped_by_budget: false,
                provisional: false,
            }),
    {
        ReasonReport {
            observed: 0,
            inferred: 0,
            unknown: 0,
            conflicting: 0,
            stale: 0,
            work_used: 0,
            work_budget: mode.work_budget(),
            stopped_by_budget: false,
            provisional: false,
        }
    }
}

pub open spec fn cap(v: u32) -> u32 {
    if v < SCALE { v } else { SCALE }
}

/// Confidence: salience times certainty, both capped, in fixed point.
pub open spec fn spec_confidence(item: WorkspaceItem) -> u32 {
    ((cap(item.salience_fixed) as int * (SCALE - cap(item.uncertainty_fixed)) as int) / SCALE as int) as u32
}

fn confidence(item: &WorkspaceItem) -> (r: u32)
    ensures
        r == spec_confidence(*item),
{
    let salience = if item.salience_fixed < SCALE { item.salience_fixed } else { SCALE };
    let u = if item.uncertainty_fixed < SCALE { item.uncertainty_fixed } else { SCALE };
    let certainty = SCALE - u;
    assert(salience as int * certainty as int <= 10000 * 10000) by (nonlinear_arith)
        requires
            salience <= 10000,
            certainty <= 10000,
    ;
    (salience * certainty) / SCALE
}

/// What an item supports: a transition, a prediction that held, a
/// prediction contradicted by an unchanged state, or a conflict.
pub open spec fn spec_infer(item: WorkspaceItem) -> InferenceRecord {
    let base = InferenceRecord {
        object_id: item.object_id,
        semantic_id: item.semantic_id,
        previous_state: item.previous_state,
        current_state: item.current_state,
        predicted_state: item.predicted_state,
        context: item.context,
        kind: InferenceKind::Observation,
        truth: TruthState::Unknown,
        confidence_fixed: 0,
        uncertainty_fixed: SCALE,
        timestamp: item.timestamp,
        provenance: item.provenance,
    };
    if item.provenance.revision == 0 || item.object_id == 0 || item.semantic_id == 0 {
        base
    } else {
        let (kind, truth) = if item.predicted_state != 0 {
            if item.predicted_state == item.current_state {
                (InferenceKind::PredictionConsistent, TruthState::True)
            } else if item.previous_state != 0 && item.previous_state == item.current_state {
                (InferenceKind::PredictionMismatch, TruthState::False)
            } else {
                (InferenceKind::PredictionMismatch, TruthState::Conflicting)
            }
        } else if item.previous_state != 0 && item.previous_state != item.current_state {
            (InferenceKind::Transition, TruthState::True)
        } else {
            (InferenceKind::Observation, TruthState::Unknown)
        };
        InferenceRecord {
            kind,
            truth,
            confidence_fixed: spec_confidence(item),
            uncertainty_fixed: cap(item.uncertainty_fixed),
            ..base
        }
    }
}

pub fn infer_item(item: WorkspaceItem) -> (r: InferenceRecord)
    ensures
        r == spec_infer(item),
{
    let certainty = confidence(&item);
    let mut kind = InferenceKind::Observation;
    let mut truth = TruthState::Unknown;
    if item.provenance.revision == 0 || item.object_id == 0 || item.semantic_id == 0 {
        return InferenceRecord {
            object_id: item.object_id,
            semantic_id: item.semantic_id,
            previous_state: item.previous_state,
            current_state: item.current_state,
            predicted_state: item.predicted_state,
            context: item.context,
            kind,
            truth,
            confidence_fixed: 0,
            uncertainty_fixed: SCALE,
            timestamp: item.timestamp,
            provenance: item.provenance,
        };
    }
    if item.previous_state != 0 && item.previous_state != item.current_state {
        kind = InferenceKind::Transition;
        truth = TruthState::True;
    }
    if item.predicted_state != 0 {
        if item.predicted_state == item.current_state {
            kind = InferenceKind::PredictionConsistent;
            truth = TruthState::True;
        } else if item.previous_state != 0 && item.previous_state == item.current_state {
            kind = InferenceKind::PredictionMismatch;
            truth = TruthState::False;
        } else {
            kind = InferenceKind::PredictionMismatch;
            truth = TruthState::Conflicting;
        }
    }
    InferenceRecord {
        object_id: item.object_id,
        semantic_id: item.semantic_id,
        previous_state: item.previous_state,
        current_state: item.current_state,
        predicted_state: item.predicted_state,
        context: item.context,
        kind,
        truth,
        confidence_fixed: certainty,
        uncertainty_fixed: if item.uncertainty_fixed < SCALE { item.uncertainty_fixed } else { SCALE },
        timestamp: item.timestamp,
        provenance: item.provenance,
    }
}

/// Counts of the truth values among the first `n` inferences.
pub open spec fn truth_count(items: Seq<WorkspaceItem>, t: TruthState, n: int) -> nat
    decreases n,
{
    if n <= 0 { 0 } else { truth_count(items, t, n - 1) + if spec_infer(items[n - 1]).truth == t { 1nat } else { 0nat } }
}

pub open spec fn min3(a: int, b: int, c: int) -> int {
    let ab = if a < b { a } else { b };
    if ab < c { ab } else { c }
}

/// Infers from up to `MAX_INFERENCES` items, as many as fit in `output` and
/// in the mode's work budget (one unit per item).
pub fn evaluate(items: &[WorkspaceItem], mode: ReasonMode, output: &mut [InferenceRecord]) -> (r: ReasonReport)
    ensures
        ({
            let limit = min3(items@.len() as int, MAX_INFERENCES as int, old(output)@.len() as int);
            let n = if limit < spec_work_budget(mode) { limit } else { spec_work_budget(mode) as int };
            &&& r.work_budget == spec_work_budget(mode)
            &&& r.observed == n && r.inferred == n && r.work_used == n
            &&& r.unknown == truth_count(items@, TruthState::Unknown, n)
            &&& r.conflicting == truth_count(items@, TruthState::Conflicting, n)
            &&& r.stale == 0
            &&& r.stopped_by_budget == (n < limit)
            &&& r.provisional == (n < limit || items@.len() > limit)
            &&& final(output)@.len() == old(output)@.len()
            &&& forall|i: int| 0 <= i < n ==> #[trigger] final(output)@[i] == spec_infer(items@[i])
            &&& forall|i: int| n <= i < old(output)@.len() ==> #[trigger] final(output)@[i] == old(output)@[i]
        }),
{
    let mut report = ReasonReport::empty(mode);
    let a = if items.len() < MAX_INFERENCES { items.len() } else { MAX_INFERENCES };
    let limit = if a < output.len() { a } else { output.len() };
    let mut index: usize = 0;
    while index < limit
        invariant_except_break
            !report.stopped_by_budget,
        invariant
            0 <= index <= limit,
            limit == min3(items@.len() as int, MAX_INFERENCES as int, old(output)@.len() as int),
            limit <= output@.len(),
            output@.len() == old(output)@.len(),
            report.work_budget == spec_work_budget(mode),
            report.observed == index && report.inferred == index && report.work_used == index,
            index <= report.work_budget,
            report.unknown == truth_count(items@, TruthState::Unknown, index as int),
            report.conflicting == truth_count(items@, TruthState::Conflicting, index as int),
            report.stale == 0,
            report.unknown <= index && report.conflicting <= index,
            !report.provisional || report.stopped_by_budget,
            forall|i: int| 0 <= i < index ==> #[trigger] output@[i] == spec_infer(items@[i]),
            forall|i: int| index <= i < output@.len() ==> #[trigger] output@[i] == old(output)@[i],
        ensures
            report.stopped_by_budget ==> index == report.work_budget && index < limit && report.provisional,
            !report.stopped_by_budget ==> index == limit && !report.provisional,
        decreases limit - index,
    {
        if report.work_used >= report.work_budget {
            report.stopped_by_budget = true;
            report.provisional = true;
            break;
        }
        report.observed = report.observed + 1;
        report.work_used = report.work_used + 1;
        let inference = infer_item(items[index]);
        output[index] = inference;
        report.inferred = report.inferred + 1;
        match inference.truth {
            TruthState::Unknown => {
                report.unknown = report.unknown + 1;
            },
            TruthState::Conflicting => {
                report.conflicting = report.conflicting + 1;
            },
            TruthState::Stale => {
                report.stale = report.stale + 1;
            },
            TruthState::True => {},
            TruthState::False => {},
        }
        index = index + 1;
    }
    if items.len() > limit {
        report.provisional = true;
    }
    report
}

/// Infers over the ranked workspace items, as far as output and budget
/// allow.
pub fn process(mode: ReasonMode, items: &[WorkspaceItem], output: &mut [InferenceRecord]) -> (r: ReasonReport)
    ensures
        ({
            let capacity = if old(output)@.len() < MAX_INFERENCES { old(output)@.len() as int } else { MAX_INFERENCES as int };
            let m = if items@.len() < capacity { items@.len() as int } else { capacity };
            let n = if m < spec_work_budget(mode) { m } else { spec_work_budget(mode) as int };
            &&& r.work_budget == spec_work_budget(mode)
            &&& r.observed == n && r.inferred == n && r.work_used == n
            &&& r.unknown == truth_count(items@, TruthState::Unknown, n)
            &&& r.conflicting == truth_count(items@, TruthState::Conflicting, n)
            &&& r.stale == 0
            &&& (capacity == 0 || items@.len() > n) <==> r.provisional
            &&& final(output)@.len() == old(output)@.len()
            &&& forall|i: int| 0 <= i < n ==> #[trigger] final(output)@[i] == spec_infer(items@[i])
            &&& forall|i: int| n <= i < old(output)@.len() ==> #[trigger] final(output)@[i] == old(output)@[i]
        }),
{
    let mut report = ReasonReport::empty(mode);
    let capacity = if output.len() < MAX_INFERENCES { output.len() } else { MAX_INFERENCES };
    if capacity == 0 {
        report.provisional = true;
        return report;
    }
    let mut used: usize = 0;
    let mut index: usize = 0;
    while index < items.len()
        invariant
            0 <= index <= items@.len(),
            0 < capacity <= output@.len(),
            capacity <= MAX_INFERENCES,
            output@.len() == old(output)@.len(),
            report.work_budget == spec_work_budget(mode),
            used <= index,
            used <= capacity,
            used <= report.work_budget,
            report.observed == used && report.inferred == used && report.work_used == used,
            used == (if index < capacity { if (index as int) < spec_work_budget(mode) { index as int } else { spec_work_budget(mode) as int } } else { if (capacity as int) < spec_work_budget(mode) { capacity as int } else { spec_work_budget(mode) as int } }),
            report.unknown == truth_count(items@, TruthState::Unknown, used as int),
            report.conflicting == truth_count(items@, TruthState::Conflicting, used as int),
            report.stale == 0,
            report.unknown <= used && report.conflicting <= used,
            report.provisional == (index > used),
            report.stopped_by_budget == (index > used),
            forall|i: int| 0 <= i < used ==> #[trigger] output@[i] == spec_infer(items@[i]),
            forall|i: int| used <= i < output@.len() ==> #[trigger] output@[i] == old(output)@[i],
        decreases items@.len() - index,
    {
        if used >= capacity || report.work_used >= report.work_budget {
            report.stopped_by_budget = true;
            report.provisional = true;
        } else {
            report.observed = report.observed + 1;
            report.work_used = report.work_used + 1;
            let inference = infer_item(items[index]);
            output[used] = inference;
            used = used + 1;
            report.inferred = report.inferred + 1;
            match inference.truth {
                TruthState::Unknown => {
                    report.unknown = report.unknown + 1;
                },
                TruthState::Conflicting => {
                    report.conflicting = report.conflicting + 1;
                },
                TruthState::Stale => {
                    report.stale = report.stale + 1;
                },
                TruthState::True => {},
                TruthState::False => {},
            }
        }
        index = index + 1;
    }
    report
}

/// Reasoning's own check: a confident, consistent prediction in the
/// workspace is inferred true.
pub fn self_test() -> (ok: bool)
    ensures
        ok,
{
    let provenance = RelationProvenance { origin: 1, source: ProvenanceSource::Local, revision: 1 };
    let items = [WorkspaceItem {
        object_id: 1,
        semantic_id: crate::gnosis::semantic::STATE_OBJECT,
        previous_state: crate::gnosis::semantic::READY,
        current_state: crate::gnosis::semantic::ACTIVE,
        predicted_state: crate::gnosis::semantic::ACTIVE,
        context: 7,
        salience_fixed: 8_000,
        uncertainty_fixed: 1_000,
        support: 3,
        timestamp: 10,
        provenance,
        source: crate::gnosis::conscious::WorkspaceSource::Subconscious,
    }];
    let mut output: Vec<InferenceRecord> = Vec::new();
    let mut i: usize = 0;
    while i < MAX_INFERENCES
        invariant
            0 <= i <= MAX_INFERENCES,
            output@.len() == i,
        decreases MAX_INFERENCES - i,
    {
        output.push(InferenceRecord::empty());
        i = i + 1;
    }
    let report = evaluate(&items, ReasonMode::Fast, output.as_mut_slice());
    proof {
        assert(items@.len() == 1);
        assert(min3(items@.len() as int, MAX_INFERENCES as int, 16) == 1);
        assert(output@[0] == spec_infer(items@[0]));
        assert(truth_count(items@, TruthState::Unknown, 0) == 0);
        assert(truth_count(items@, TruthState::Unknown, 1) == 0);
        assert((8000int * 9000int) / 10000int == 7200);
        assert(spec_confidence(items@[0]) == 7200);
    }
    report.inferred == 1 && report.unknown == 0 && output[0].truth == TruthState::True
        && output[0].kind == InferenceKind::PredictionConsistent && output[0].confidence_fixed > 0
}

} // verus!
