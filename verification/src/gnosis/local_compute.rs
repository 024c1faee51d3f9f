//! GNOSIS local computation: a fixed-cost evaluation of a speculative
//! branch (how far it moves the state, discounted by uncertainty). It writes
//! nothing.
use vstd::prelude::*;
use crate::gnosis::relation::{ProvenanceSource, RelationProvenance};
use crate::gnosis::conscious::WorkspaceItem;
use crate::gnosis::speculation::{SpeculationKind, SpeculativeScenario};

verus! {

pub const SCALE: u32 = 10_000;
pub const MAX_WORK: usize = 256;

#[derive(Clone, Copy, Debug, PartialEq, Eq, Structural)]
pub enum ComputeDisposition {
    Evaluated,
    Rejected,
    BudgetExhausted,
}

#[derive(Clone, Copy, Debug, PartialEq, Eq, Structural)]
pub struct LocalComputeResult {
    pub disposition: ComputeDisposition,
    pub object_id: u64,
    pub semantic_id: u32,
    pub baseline_state: u32,
    pub hypothetical_state: u32,
    pub delta: u32,
    pub confidence_fixed: u32,
    pub utility_fixed: u32,
    pub work_used: usize,
}

pub open spec fn empty_result() -> LocalComputeResult {
    LocalComputeResult {
        disposition: ComputeDisposition::Rejected,
        object_id: 0,
        semantic_id: 0,
        baseline_state: 0,
        hypothetical_state: 0,
        delta: 0,
        confidence_fixed: 0,
        utility_fixed: 0,
        work_used: 0,
    }
}

impl LocalComputeResult {
    pub fn empty() -> (r: Self)
        ensures
            r == empty_result(),
    {
        LocalComputeResult {
            disposition: ComputeDisposition::Rejected,
            object_id: 0,
            semantic_id: 0,
            baseline_state: 0,
            hypothetical_state: 0,
            delta: 0,
            confidence_fixed: 0,
            utility_fixed: 0,
            work_used: 0,
        }
    }
}

#[derive(Clone, Copy, Debug, PartialEq, Eq, Structural)]
pub struct LocalComputeReport {
    pub evaluated: usize,
    pub rejected: usize,
    pub work_used: usize,
    pub work_budget: usize,
    pub stopped_by_budget: bool,
    pub latest: LocalComputeResult,
}

impl LocalComputeReport {
    pub fn empty() -> (r: Self)
        ensures
            r == (LocalComputeReport {
                evaluated: 0,
                rejected: 0,
                work_used: 0,
                work_budget: MAX_WORK,
                stopped_by_budget: false,
                latest: empty_result(),
            }),
    {
        LocalComputeReport {
            evaluated: 0,
            rejected: 0,
            work_used: 0,
            work_budget: MAX_WORK,
            stopped_by_budget: false,
            latest: LocalComputeResult::empty(),
        }
    }
}

/// The evaluation of a branch: rejected unless it names an object and a
/// type, really changes the state, has evidence and a one-step horizon;
/// otherwise the state distance and its uncertainty-discounted utility.
pub open spec fn spec_evaluate(s: SpeculativeScenario) -> LocalComputeResult {
    let base = LocalComputeResult {
        object_id: s.object_id,
        semantic_id: s.semantic_id,
        baseline_state: s.baseline_state,
        hypothetical_state: s.hypothetical_state,
        ..empty_result()
    };
    if s.object_id == 0 || s.semantic_id == 0 || s.hypothetical_state == s.baseline_state || s.support == 0 || s.horizon > 1 {
        base
    } else {
        let delta: u32 = if s.hypothetical_state >= s.baseline_state {
            (s.hypothetical_state - s.baseline_state) as u32
        } else {
            (s.baseline_state - s.hypothetical_state) as u32
        };
        let confidence: u32 = if s.confidence_fixed < SCALE { s.confidence_fixed } else { SCALE };
        LocalComputeResult {
            disposition: ComputeDisposition::Evaluated,
            delta,
            confidence_fixed: confidence,
            utility_fixed: ((delta as int * confidence as int) / SCALE as int) as u32,
            work_used: 4,
            ..base
        }
    }
}

/// Evaluates one branch.
pub fn evaluate(scenario: SpeculativeScenario) -> (r: LocalComputeResult)
    ensures
        r == spec_evaluate(scenario),
{
    let mut result = LocalComputeResult::empty();
    result.object_id = scenario.object_id;
    result.semantic_id = scenario.semantic_id;
    result.baseline_state = scenario.baseline_state;
    result.hypothetical_state = scenario.hypothetical_state;
    if scenario.object_id == 0 || scenario.semantic_id == 0 || scenario.hypothetical_state == scenario.baseline_state
        || scenario.support == 0 || scenario.horizon > 1 {
        return result;
    }
    let delta = if scenario.hypothetical_state >= scenario.baseline_state {
        scenario.hypothetical_state - scenario.baseline_state
    } else {
        scenario.baseline_state - scenario.hypothetical_state
    };
    let confidence = if scenario.confidence_fixed < SCALE { scenario.confidence_fixed } else { SCALE };
    assert(delta as int * confidence as int <= u32::MAX as int * 10000) by (nonlinear_arith)
        requires
            delta <= u32::MAX,
            confidence <= 10000,
    ;
    assert((delta as int * confidence as int) / 10000 <= u32::MAX) by (nonlinear_arith)
        requires
            delta as int * confidence as int <= u32::MAX as int * 10000,
            delta as int * confidence as int >= 0,
    ;
    let utility = ((delta as u64 * confidence as u64) / SCALE as u64) as u32;
    result.disposition = ComputeDisposition::Evaluated;
    result.delta = delta;
    result.confidence_fixed = confidence;
    result.utility_fixed = utility;
    result.work_used = 4;
    result
}

/// The branch a workspace item describes, scored by its uncertainty.
pub open spec fn workspace_scenario(item: WorkspaceItem) -> SpeculativeScenario {
    let u: u32 = if item.uncertainty_fixed < SCALE { item.uncertainty_fixed } else { SCALE };
    SpeculativeScenario {
        kind: SpeculationKind::PredictedAlternative,
        object_id: item.object_id,
        semantic_id: item.semantic_id,
        context: item.context,
        baseline_state: item.current_state,
        hypothetical_state: item.predicted_state,
        previous_state: item.previous_state,
        support: item.support,
        confidence_fixed: (SCALE - u) as u32,
        uncertainty_fixed: u,
        horizon: 1,
        timestamp: item.timestamp,
        provenance: item.provenance,
    }
}

/// Evaluates the predicted transition of a workspace item.
pub fn evaluate_workspace(item: WorkspaceItem) -> (r: LocalComputeResult)
    ensures
        r == spec_evaluate(workspace_scenario(item)),
{
    let u: u32 = if item.uncertainty_fixed < SCALE { item.uncertainty_fixed } else { SCALE };
    let scenario = SpeculativeScenario {
        kind: SpeculationKind::PredictedAlternative,
        object_id: item.object_id,
        semantic_id: item.semantic_id,
        context: item.context,
        baseline_state: item.current_state,
        hypothetical_state: item.predicted_state,
        previous_state: item.previous_state,
        support: item.support,
        confidence_fixed: SCALE - u,
        uncertainty_fixed: u,
        horizon: 1,
        timestamp: item.timestamp,
        provenance: item.provenance,
    };
    evaluate(scenario)
}

/// Branches evaluated from the first `n`.
pub open spec fn evaluated_upto(s: Seq<SpeculativeScenario>, n: int) -> nat
    decreases n,
{
    if n <= 0 {
        0
    } else {
        evaluated_upto(s, n - 1) + if spec_evaluate(s[n - 1]).disposition == ComputeDisposition::Evaluated { 1nat } else { 0nat }
    }
}

/// Evaluates branches in order while the budget (4 units each) lasts.
pub fn process(scenarios: &[SpeculativeScenario]) -> (r: LocalComputeReport)
    ensures
        ({
            let n: int = if scenarios@.len() <= 64 { scenarios@.len() as int } else { 64 };
            &&& r.work_budget == MAX_WORK
            &&& r.work_used == 4 * n
            &&& r.stopped_by_budget == (scenarios@.len() > 64)
            &&& r.evaluated == evaluated_upto(scenarios@, n)
            &&& r.evaluated + r.rejected == n
        }),
{
    let mut report = LocalComputeReport::empty();
    let mut index: usize = 0;
    while index < scenarios.len()
        invariant_except_break
            !report.stopped_by_budget,
        invariant
            0 <= index <= scenarios@.len(),
            index <= 64,
            report.work_used == 4 * index,
            report.work_budget == MAX_WORK,
            report.evaluated == evaluated_upto(scenarios@, index as int),
            report.evaluated + report.rejected == index,
        ensures
            report.stopped_by_budget ==> index == 64 && index < scenarios@.len(),
            !report.stopped_by_budget ==> index == scenarios@.len(),
        decreases scenarios@.len() - index,
    {
        if report.work_used + 4 > MAX_WORK {
            report.stopped_by_budget = true;
            break;
        }
        let result = evaluate(scenarios[index]);
        report.work_used = report.work_used + 4;
        match result.disposition {
            ComputeDisposition::Evaluated => {
                report.evaluated = report.evaluated + 1;
                report.latest = result;
            },
            ComputeDisposition::Rejected => {
                report.rejected = report.rejected + 1;
            },
            ComputeDisposition::BudgetExhausted => {
                report.rejected = report.rejected + 1;
            },
        }
        index = index + 1;
    }
    report
}

/// Local evaluation's own check: a predicted alternative is evaluated with
/// its state delta, utility and work.
pub fn self_test() -> (ok: bool)
    ensures
        ok,
{
    let scenario = SpeculativeScenario {
        kind: SpeculationKind::PredictedAlternative,
        object_id: 1,
        semantic_id: 2,
        context: 3,
        baseline_state: 10,
        hypothetical_state: 20,
        previous_state: 9,
        support: 3,
        confidence_fixed: 8_000,
        uncertainty_fixed: 2_000,
        horizon: 1,
        timestamp: 100,
        provenance: RelationProvenance { origin: 1, source: ProvenanceSource::Local, revision: 1 },
    };
    let result = evaluate(scenario);
    proof {
        assert((10int * 8000int) / 10000int == 8);
    }
    result.disposition == ComputeDisposition::Evaluated && result.delta == 10 && result.utility_fixed == 8
        && result.work_used == 4
}

} // verus!
