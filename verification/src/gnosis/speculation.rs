//! GNOSIS speculation: bounded one-step counterfactual branches derived
//! from workspace items whose predicted state differs from the observed one.
//! No branch ever becomes canonical state.
use vstd::prelude::*;
use crate::gnosis::conscious::{WorkspaceItem, WorkspaceSource};
use crate::gnosis::relation::{ProvenanceSource, RelationProvenance};
use crate::gnosis::semantic::{self, ContextId, ObjectId, SemanticId};

verus! {

pub const SCALE: u32 = 10_000;
pub const MAX_SCENARIOS: usize = 16;
pub const MAX_WORK: usize = 256;
pub const MAX_HORIZON: u8 = 1;

#[derive(Clone, Copy, Debug, PartialEq, Eq, Structural)]
pub enum SpeculationKind {
    PredictedAlternative,
}

/// A hypothetical substitution of the predicted state for the observed one.
#[derive(Clone, Copy, Debug, PartialEq, Eq, Structural)]
pub struct SpeculativeScenario {
    pub kind: SpeculationKind,
    pub object_id: ObjectId,
    pub semantic_id: SemanticId,
    pub context: ContextId,
    pub baseline_state: SemanticId,
    pub hypothetical_state: SemanticId,
    pub previous_state: SemanticId,
    pub support: u32,
    pub confidence_fixed: u32,
    pub uncertainty_fixed: u32,
    pub horizon: u8,
    pub timestamp: u64,
    pub provenance: RelationProvenance,
}

pub open spec fn empty_scenario() -> SpeculativeScenario {
    SpeculativeScenario {
        kind: SpeculationKind::PredictedAlternative,
        object_id: 0,
        semantic_id: 0,
        context: 0,
        baseline_state: 0,
        hypothetical_state: 0,
        previous_state: 0,
        support: 0,
        confidence_fixed: 0,
        uncertainty_fixed: SCALE,
        horizon: 0,
        timestamp: 0,
        provenance: RelationProvenance { origin: 0, source: ProvenanceSource::Local, revision: 0 },
    }
}

impl SpeculativeScenario {
    pub fn empty() -> (r: Self)
        ensures
            r == empty_scenario(),
    {
        SpeculativeScenario {
            kind: SpeculationKind::PredictedAlternative,
            object_id: 0,
            semantic_id: 0,
            context: 0,
            baseline_state: 0,
            hypothetical_state: 0,
            previous_state: 0,
            support: 0,
            confidence_fixed: 0,
            uncertainty_fixed: SCALE,
            horizon: 0,
            timestamp: 0,
            provenance: RelationProvenance { origin: 0, source: ProvenanceSource::Local, revision: 0 },
        }
    }
}

#[derive(Clone, Copy, Debug, PartialEq, Eq, Structural)]
pub struct SpeculationReport {
    pub workspace_observed: usize,
    pub scenarios_generated: usize,
    pub scenarios_rejected: usize,
    pub duplicates: usize,
    pub work_used: usize,
    pub work_budget: usize,
    pub stopped_by_budget: bool,
    pub overflow: bool,
    pub latest: SpeculativeScenario,
}

impl SpeculationReport {
    fn empty() -> (r: Self)
        ensures
            r.workspace_observed == 0 && r.scenarios_generated == 0 && r.scenarios_rejected == 0 && r.duplicates == 0,
            r.work_used == 0 && r.work_budget == MAX_WORK && !r.stopped_by_budget && !r.overflow,
            r.latest == empty_scenario(),
    {
        SpeculationReport {
            workspace_observed: 0,
            scenarios_generated: 0,
            scenarios_rejected: 0,
            duplicates: 0,
            work_used: 0,
            work_budget: MAX_WORK,
            stopped_by_budget: false,
            overflow: false,
            latest: SpeculativeScenario::empty(),
        }
    }
}

fn charge(report: &mut SpeculationReport, amount: usize) -> (ok: bool)
    requires
        old(report).work_used <= old(report).work_budget,
        old(report).work_budget == MAX_WORK,
    ensures
        final(report).work_budget == old(report).work_budget,
        final(report).work_used <= final(report).work_budget,
        final(report).scenarios_generated == old(report).scenarios_generated,
        final(report).scenarios_rejected == old(report).scenarios_rejected,
        final(report).duplicates == old(report).duplicates,
        final(report).workspace_observed == old(report).workspace_observed,
        final(report).latest == old(report).latest,
        ok == (old(report).work_used + amount <= old(report).work_budget),
        ok ==> final(report).work_used == old(report).work_used + amount && final(report).stopped_by_budget == old(report).stopped_by_budget,
        !ok ==> final(report).work_used == final(report).work_budget && final(report).stopped_by_budget && final(report).overflow,
{
    let next = report.work_used.saturating_add(amount);
    if next > report.work_budget {
        report.work_used = report.work_budget;
        report.stopped_by_budget = true;
        report.overflow = true;
        return false;
    }
    report.work_used = next;
    true
}

/// Ranking of scenarios: higher confidence, lower uncertainty, more
/// support, newer, then lower identity fields.
pub open spec fn spec_outranks(a: SpeculativeScenario, b: SpeculativeScenario) -> bool {
    if a.confidence_fixed != b.confidence_fixed {
        a.confidence_fixed > b.confidence_fixed
    } else     if a.uncertainty_fixed != b.uncertainty_fixed {
        a.uncertainty_fixed < b.uncertainty_fixed
    } else     if a.support != b.support {
        a.support > b.support
    } else     if a.timestamp != b.timestamp {
        a.timestamp > b.timestamp
    } else     if a.object_id != b.object_id {
        a.object_id < b.object_id
    } else     if a.semantic_id != b.semantic_id {
        a.semantic_id < b.semantic_id
    } else     if a.context != b.context {
        a.context < b.context
    } else     if a.baseline_state != b.baseline_state {
        a.baseline_state < b.baseline_state
    } else     if a.hypothetical_state != b.hypothetical_state {
        a.hypothetical_state < b.hypothetical_state
    } else {
        a.previous_state < b.previous_state
    }
}

pub fn outranks(a: &SpeculativeScenario, b: &SpeculativeScenario) -> (r: bool)
    ensures
        r == spec_outranks(*a, *b),
{
    if a.confidence_fixed != b.confidence_fixed {
        return a.confidence_fixed > b.confidence_fixed;
    }
    if a.uncertainty_fixed != b.uncertainty_fixed {
        return a.uncertainty_fixed < b.uncertainty_fixed;
    }
    if a.support != b.support {
        return a.support > b.support;
    }
    if a.timestamp != b.timestamp {
        return a.timestamp > b.timestamp;
    }
    if a.object_id != b.object_id {
        return a.object_id < b.object_id;
    }
    if a.semantic_id != b.semantic_id {
        return a.semantic_id < b.semantic_id;
    }
    if a.context != b.context {
        return a.context < b.context;
    }
    if a.baseline_state != b.baseline_state {
        return a.baseline_state < b.baseline_state;
    }
    if a.hypothetical_state != b.hypothetical_state {
        return a.hypothetical_state < b.hypothetical_state;
    }
    a.previous_state < b.previous_state
}

/// Scenarios are the same branch: same kind, object, states, time and
/// provenance.
pub open spec fn same_scenario(a: SpeculativeScenario, b: SpeculativeScenario) -> bool {
    a.kind == b.kind && a.object_id == b.object_id && a.semantic_id == b.semantic_id && a.context == b.context
        && a.baseline_state == b.baseline_state && a.hypothetical_state == b.hypothetical_state
        && a.previous_state == b.previous_state && a.timestamp == b.timestamp && a.provenance == b.provenance
}

fn same_scenario_exec(a: &SpeculativeScenario, b: &SpeculativeScenario) -> (r: bool)
    ensures
        r == same_scenario(*a, *b),
{
    a.kind == b.kind && a.object_id == b.object_id && a.semantic_id == b.semantic_id && a.context == b.context
        && a.baseline_state == b.baseline_state && a.hypothetical_state == b.hypothetical_state
        && a.previous_state == b.previous_state && a.timestamp == b.timestamp && a.provenance == b.provenance
}

/// The branch a workspace item supports, if it predicts a different,
/// nonzero state with some evidence.
pub open spec fn spec_from_workspace(item: WorkspaceItem) -> Option<SpeculativeScenario> {
    if item.object_id == 0 || item.semantic_id == 0 || item.predicted_state == 0 || item.predicted_state == item.current_state
        || item.support == 0 {
        None
    } else {
        let u: u32 = if item.uncertainty_fixed < SCALE { item.uncertainty_fixed } else { SCALE };
        Some(SpeculativeScenario {
            kind: SpeculationKind::PredictedAlternative,
            object_id: item.object_id,
            semantic_id: item.semantic_id,
            context: item.context,
            baseline_state: item.current_state,
            hypothetical_state: item.predicted_state,
            previous_state: item.previous_state,
            support: item.support,
            confidence_fixed: (SCALE - u) as u32,
            uncertainty_fixed: u,
            horizon: MAX_HORIZON,
            timestamp: item.timestamp,
            provenance: item.provenance,
        })
    }
}

pub fn from_workspace(item: &WorkspaceItem) -> (r: Option<SpeculativeScenario>)
    ensures
        r == spec_from_workspace(*item),
{
    if item.object_id == 0 || item.semantic_id == 0 || item.predicted_state == 0 || item.predicted_state == item.current_state
        || item.support == 0 {
        return None;
    }
    let u: u32 = if item.uncertainty_fixed < SCALE { item.uncertainty_fixed } else { SCALE };
    Some(SpeculativeScenario {
        kind: SpeculationKind::PredictedAlternative,
        object_id: item.object_id,
        semantic_id: item.semantic_id,
        context: item.context,
        baseline_state: item.current_state,
        hypothetical_state: item.predicted_state,
        previous_state: item.previous_state,
        support: item.support,
        confidence_fixed: SCALE - u,
        uncertainty_fixed: u,
        horizon: MAX_HORIZON,
        timestamp: item.timestamp,
        provenance: item.provenance,
    })
}

/// `s` is the branch some workspace item supports.
pub open spec fn derived_from(workspace: Seq<WorkspaceItem>, s: SpeculativeScenario) -> bool {
    exists|k: int| 0 <= k < workspace.len() && spec_from_workspace(#[trigger] workspace[k]) == Some(s)
}

/// Slot `i` of `now` still holds what it held in `before`, or holds a branch
/// derived from the workspace.
pub open spec fn kept_or_derived(before: Seq<SpeculativeScenario>, now: Seq<SpeculativeScenario>, workspace: Seq<WorkspaceItem>, i: int) -> bool {
    (i < before.len() && now[i] == before[i]) || derived_from(workspace, now[i])
}

/// The retained scenarios.
pub struct SpeculationEngine {
    scenarios: Vec<SpeculativeScenario>,
    cycle: u64,
}

/// Index of the first highest-ranked scenario among the first `n`.
pub open spec fn focus_index(s: Seq<SpeculativeScenario>, n: int) -> int
    decreases n,
{
    if n <= 1 {
        0
    } else {
        let b = focus_index(s, n - 1);
        if spec_outranks(s[n - 1], s[b]) { n - 1 } else { b }
    }
}

pub open spec fn spec_focus(s: Seq<SpeculativeScenario>) -> SpeculativeScenario {
    if s.len() == 0 { empty_scenario() } else { s[focus_index(s, s.len() as int)] }
}

impl SpeculationEngine {
    pub closed spec fn scenarios(&self) -> Seq<SpeculativeScenario> {
        self.scenarios@
    }

    pub closed spec fn wf(&self) -> bool {
        self.scenarios@.len() <= MAX_SCENARIOS
    }

    pub fn new() -> (e: Self)
        ensures
            e.wf(),
            e.scenarios().len() == 0,
    {
        SpeculationEngine { scenarios: Vec::new(), cycle: 0 }
    }

    fn contains_scenario(&self, s: &SpeculativeScenario) -> (r: bool)
        ensures
            r == exists|k: int| 0 <= k < self.scenarios().len() && #[trigger] same_scenario(self.scenarios()[k], *s),
    {
        let mut index: usize = 0;
        while index < self.scenarios.len()
            invariant
                0 <= index <= self.scenarios@.len(),
                forall|k: int| 0 <= k < index ==> !#[trigger] same_scenario(self.scenarios@[k], *s),
            decreases self.scenarios@.len() - index,
        {
            if same_scenario_exec(&self.scenarios[index], s) {
                assert(same_scenario(self.scenarios()[index as int], *s));
                return true;
            }
            index = index + 1;
        }
        false
    }

    /// Retains a scenario: appended while there is room, otherwise it
    /// replaces the lowest-ranked one if it outranks it.
    pub fn admit_scenario(&mut self, s: SpeculativeScenario) -> (r: bool)
        requires
            old(self).wf(),
        ensures
            final(self).wf(),
            final(self).scenarios() == spec_admit(old(self).scenarios(), s),
            old(self).scenarios().len() < MAX_SCENARIOS ==> r && final(self).scenarios() == old(self).scenarios().push(s),
            old(self).scenarios().len() >= MAX_SCENARIOS ==> final(self).scenarios().len() == old(self).scenarios().len()
                && (r ==> exists|k: int| 0 <= k < MAX_SCENARIOS && final(self).scenarios() == old(self).scenarios().update(k, s)
                    && #[trigger] spec_outranks(s, old(self).scenarios()[k]))
                && (!r ==> final(self).scenarios() == old(self).scenarios()),
    {
        if self.scenarios.len() < MAX_SCENARIOS {
            self.scenarios.push(s);
            return true;
        }
        let mut worst: usize = 0;
        let mut index: usize = 1;
        while index < MAX_SCENARIOS
            invariant
                1 <= index <= MAX_SCENARIOS,
                worst < index,
                self.scenarios@.len() == MAX_SCENARIOS,
                worst == worst_upto(self.scenarios@, index as int),
            decreases MAX_SCENARIOS - index,
        {
            if outranks(&self.scenarios[worst], &self.scenarios[index]) {
                worst = index;
            }
            index = index + 1;
        }
        if outranks(&s, &self.scenarios[worst]) {
            self.scenarios.set(worst, s);
            true
        } else {
            false
        }
    }
}

/// The slot a full engine gives up: scanning from the first, the later of
/// two scenarios replaces the current choice when the choice outranks it.
pub open spec fn worst_upto(s: Seq<SpeculativeScenario>, n: int) -> int
    decreases n,
{
    if n <= 1 {
        0
    } else {
        let w = worst_upto(s, n - 1);
        if spec_outranks(s[w], s[n - 1]) { n - 1 } else { w }
    }
}

/// The scenarios after retaining `x`: appended while there is room,
/// otherwise in place of the slot given up when it outranks that one.
pub open spec fn spec_admit(s: Seq<SpeculativeScenario>, x: SpeculativeScenario) -> Seq<SpeculativeScenario> {
    if s.len() < MAX_SCENARIOS {
        s.push(x)
    } else {
        let w = worst_upto(s, MAX_SCENARIOS as int);
        if spec_outranks(x, s[w]) { s.update(w, x) } else { s }
    }
}

/// The scenarios after deriving from the first `n` workspace items: an item
/// that yields no scenario, or one already held, changes nothing; any other
/// scenario is retained if it can be.
pub open spec fn speculated(s: Seq<SpeculativeScenario>, items: Seq<WorkspaceItem>, n: int) -> Seq<SpeculativeScenario>
    decreases n,
{
    if n <= 0 {
        s
    } else {
        let prev = speculated(s, items, n - 1);
        match spec_from_workspace(items[n - 1]) {
            None => prev,
            Some(x) => if exists|k: int| 0 <= k < prev.len() && #[trigger] same_scenario(prev[k], x) {
                prev
            } else {
                spec_admit(prev, x)
            },
        }
    }
}

/// Derives branches from the workspace items (at most `MAX_WORKSPACE`, in
/// the order given), within the work budget, and retains the new ones.
pub fn process(engine: &mut SpeculationEngine, workspace: &[WorkspaceItem]) -> (r: SpeculationReport)
    requires
        old(engine).wf(),
    ensures
        final(engine).wf(),
        r.work_budget == MAX_WORK,
        r.work_used <= MAX_WORK,
        r.workspace_observed == (if workspace@.len() < 16 { workspace@.len() as int } else { 16 }),
        r.scenarios_generated + r.scenarios_rejected + r.duplicates <= r.workspace_observed,
        !r.stopped_by_budget ==> r.scenarios_generated + r.scenarios_rejected + r.duplicates == r.workspace_observed,
        r.scenarios_generated == 0 ==> r.latest == empty_scenario(),
        forall|i: int| 0 <= i < final(engine).scenarios().len() ==> #[trigger] kept_or_derived(old(engine).scenarios(), final(engine).scenarios(), workspace@, i),
        !r.stopped_by_budget,
        r.work_used == 4 * r.workspace_observed,
        final(engine).scenarios() == speculated(old(engine).scenarios(), workspace@, r.workspace_observed as int),
{
    let mut report = SpeculationReport::empty();
    engine.cycle = engine.cycle.saturating_add(1);
    let count = if workspace.len() < 16 { workspace.len() } else { 16 };
    report.workspace_observed = count;
    let ghost initial = engine.scenarios();
    let mut index: usize = 0;
    while index < count
        invariant
            0 <= index <= count <= 16,
            count <= workspace@.len(),
            count == (if workspace@.len() < 16 { workspace@.len() as int } else { 16 }),
            engine.wf(),
            report.work_budget == MAX_WORK,
            report.work_used <= MAX_WORK,
            report.workspace_observed == count,
            !report.stopped_by_budget,
            report.scenarios_generated + report.scenarios_rejected + report.duplicates == index,
            report.scenarios_generated == 0 ==> report.latest == empty_scenario(),
            initial == old(engine).scenarios(),
            forall|i: int| 0 <= i < engine.scenarios().len() ==> #[trigger] kept_or_derived(initial, engine.scenarios(), workspace@, i),
            report.work_used == 4 * index,
            engine.scenarios() == speculated(initial, workspace@, index as int),
        decreases count - index,
    {
        if !charge(&mut report, 4) {
            return report;
        }
        let item = workspace[index];
        let ghost before_iter = engine.scenarios();
        match from_workspace(&item) {
            None => {
                report.scenarios_rejected = report.scenarios_rejected + 1;
            },
            Some(scenario) => {
                if engine.contains_scenario(&scenario) {
                    report.duplicates = report.duplicates + 1;
                } else {
                    let ghost before = engine.scenarios();
                    if engine.admit_scenario(scenario) {
                        report.scenarios_generated = report.scenarios_generated + 1;
                        report.latest = scenario;
                    } else {
                        report.scenarios_rejected = report.scenarios_rejected + 1;
                    }
                    proof {
                        assert(spec_from_workspace(workspace@[index as int]) == Some(scenario));
                        assert(derived_from(workspace@, scenario));
                        assert forall|i: int| 0 <= i < engine.scenarios().len() implies #[trigger] kept_or_derived(initial, engine.scenarios(), workspace@, i) by {
                            if engine.scenarios()[i] == scenario {
                            } else {
                                assert(engine.scenarios()[i] == before[i]);
                                assert(kept_or_derived(initial, before, workspace@, i));
                            }
                        }
                    }
                }
            },
        }
        index = index + 1;
    }
    report
}

/// Number of retained scenarios.
pub fn count(engine: &SpeculationEngine) -> (n: usize)
    ensures
        n == engine.scenarios().len(),
{
    engine.scenarios.len()
}

/// The highest-ranked scenario, or the empty one.
pub fn focus(engine: &SpeculationEngine) -> (r: SpeculativeScenario)
    ensures
        r == spec_focus(engine.scenarios()),
{
    if engine.scenarios.len() == 0 {
        return SpeculativeScenario::empty();
    }
    let mut best: usize = 0;
    let mut index: usize = 1;
    while index < engine.scenarios.len()
        invariant
            1 <= index <= engine.scenarios@.len(),
            best == focus_index(engine.scenarios@, index as int),
            best < index,
        decreases engine.scenarios@.len() - index,
    {
        if outranks(&engine.scenarios[index], &engine.scenarios[best]) {
            best = index;
        }
        index = index + 1;
    }
    engine.scenarios[best]
}

/// Forgets every scenario.
pub fn clear(engine: &mut SpeculationEngine)
    ensures
        final(engine).wf(),
        final(engine).scenarios().len() == 0,
{
    *engine = SpeculationEngine::new();
}


/// Speculation on fresh state: a subconscious item that predicts another
/// state yields exactly its one-step branch; an item predicting what it
/// observes, one without support and one without identity yield nothing; a
/// retained branch is found again; ranking prefers confidence; the work
/// charge stops at its bound; and an empty workspace yields nothing.
pub fn self_test() -> (ok: bool)
    ensures
        ok,
{
    let item = WorkspaceItem {
        object_id: 42,
        semantic_id: semantic::ACTIVE,
        previous_state: semantic::READY,
        current_state: semantic::FAILED,
        predicted_state: semantic::ACTIVE,
        context: 7,
        salience_fixed: 9000,
        uncertainty_fixed: 2500,
        support: 3,
        timestamp: 100,
        provenance: RelationProvenance { origin: 42, source: ProvenanceSource::Local, revision: 9 },
        source: WorkspaceSource::Subconscious,
    };
    let scenario = match from_workspace(&item) {
        Some(value) => value,
        None => {
            return false;
        },
    };
    if scenario.object_id != 42 || scenario.baseline_state != semantic::FAILED || scenario.hypothetical_state != semantic::ACTIVE
        || scenario.previous_state != semantic::READY || scenario.support != 3 || scenario.confidence_fixed != 7500
        || scenario.uncertainty_fixed != 2500 || scenario.horizon != 1
    {
        return false;
    }
    // Predicting the observed state, no support, or no identity: no branch.
    let mut non_branching = item;
    non_branching.predicted_state = semantic::FAILED;
    if from_workspace(&non_branching).is_some() {
        return false;
    }
    let mut no_support = item;
    no_support.support = 0;
    if from_workspace(&no_support).is_some() {
        return false;
    }
    let mut invalid = item;
    invalid.object_id = 0;
    if from_workspace(&invalid).is_some() {
        return false;
    }
    let mut engine = SpeculationEngine::new();
    if !engine.admit_scenario(scenario) {
        return false;
    }
    proof {
        assert(engine.scenarios()[0] == scenario);
        assert(same_scenario(engine.scenarios()[0], scenario));
    }
    if count(&engine) != 1 || !engine.contains_scenario(&scenario) {
        return false;
    }
    // Ranking prefers confidence.
    let mut lower_confidence = scenario;
    lower_confidence.confidence_fixed = 1000;
    lower_confidence.uncertainty_fixed = 9000;
    lower_confidence.support = 100;
    if !engine.admit_scenario(lower_confidence) {
        return false;
    }
    if outranks(&lower_confidence, &scenario) {
        return false;
    }
    // The work charge never passes its bound.
    let mut report = SpeculationReport::empty();
    if !charge(&mut report, MAX_WORK) {
        return false;
    }
    if report.work_used != MAX_WORK {
        return false;
    }
    if charge(&mut report, 1) {
        return false;
    }
    if report.work_used != MAX_WORK || !report.stopped_by_budget {
        return false;
    }
    // Nothing is made up from an empty workspace.
    clear(&mut engine);
    let nothing: Vec<WorkspaceItem> = Vec::new();
    let empty_report = process(&mut engine, nothing.as_slice());
    proof {
        assert(engine.scenarios() == speculated(Seq::<SpeculativeScenario>::empty(), nothing@, 0));
    }
    if empty_report.workspace_observed != 0 || empty_report.scenarios_generated != 0 || count(&engine) != 0 {
        return false;
    }
    true
}

} // verus!
