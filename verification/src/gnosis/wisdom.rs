//! GNOSIS wisdom: screens candidate actions against hard constraints
//! (valid, fresh, safe, authorized) and ranks the remaining ones by utility.
use vstd::prelude::*;
use crate::gnosis::mesh::{MeshNode, node_ok};
use crate::gnosis::reason::{InferenceKind, InferenceRecord, TruthState};
use crate::gnosis::relation::{ProvenanceSource, RelationProvenance};
use crate::gnosis::semantic::{self, SemanticId, spec_is_valid};
use crate::gnosis::trust::{self, AuthorizationDecision, AuthorizationRequest, TrustPrincipal, TrustRegistry, spec_authorize};

verus! {

pub const SCALE: u32 = 10_000;
pub const MAX_CANDIDATES: usize = 16;
pub const MAX_WORK: usize = 16;

#[derive(Clone, Copy, Debug, PartialEq, Eq)]
pub struct WisdomCandidate {
    pub action: SemanticId,
    pub goal_alignment_fixed: u32,
    pub confidence_fixed: u32,
    pub expected_outcome_fixed: u32,
    pub reversibility_fixed: u32,
    pub experience_fixed: u32,
    pub cost_fixed: u32,
    pub stale: bool,
    pub safe: bool,
    pub authorization: AuthorizationRequest,
    pub node: Option<MeshNode>,
}

impl WisdomCandidate {
    pub fn empty() -> (r: Self)
        ensures
            r.action == 0 && r.cost_fixed == SCALE && r.stale && !r.safe && r.node is None,
    {
        WisdomCandidate {
            action: 0,
            goal_alignment_fixed: 0,
            confidence_fixed: 0,
            expected_outcome_fixed: 0,
            reversibility_fixed: 0,
            experience_fixed: 0,
            cost_fixed: SCALE,
            stale: true,
            safe: false,
            authorization: AuthorizationRequest { principal_id: 0, required_capability: 0, required_authority: 0, minimum_trust_fixed: SCALE },
            node: None,
        }
    }
}

#[derive(Clone, Copy, Debug, PartialEq, Eq, Structural)]
pub enum WisdomDenial {
    InvalidAction,
    Stale,
    Unsafe,
    Authority,
    Trust,
    Capability,
}

#[derive(Clone, Copy, Debug, PartialEq, Eq, Structural)]
pub enum WisdomDisposition {
    Eligible,
    Denied(WisdomDenial),
}

#[derive(Clone, Copy, Debug, PartialEq, Eq, Structural)]
pub struct WisdomEvaluation {
    pub action: SemanticId,
    pub disposition: WisdomDisposition,
    pub utility_fixed: u32,
    pub confidence_fixed: u32,
    pub cost_fixed: u32,
    pub source_inference: InferenceRecord,
}

/// The evaluation that fills unused output slots.
pub open spec fn empty_evaluation() -> WisdomEvaluation {
    WisdomEvaluation {
        action: 0,
        disposition: WisdomDisposition::Denied(WisdomDenial::InvalidAction),
        utility_fixed: 0,
        confidence_fixed: 0,
        cost_fixed: 0,
        source_inference: crate::gnosis::reason::empty_inference(),
    }
}

impl WisdomEvaluation {
    pub fn empty() -> (r: Self)
        ensures
            r == empty_evaluation(),
    {
        WisdomEvaluation {
            action: 0,
            disposition: WisdomDisposition::Denied(WisdomDenial::InvalidAction),
            utility_fixed: 0,
            confidence_fixed: 0,
            cost_fixed: 0,
            source_inference: InferenceRecord::empty(),
        }
    }

    /// Whether the action passed every constraint.
    pub fn eligible(&self) -> (r: bool)
        ensures
            r == (self.disposition == WisdomDisposition::Eligible),
    {
        match self.disposition {
            WisdomDisposition::Eligible => true,
            WisdomDisposition::Denied(_) => false,
        }
    }
}

#[derive(Clone, Copy, Debug, PartialEq, Eq, Structural)]
pub struct WisdomReport {
    pub evaluated: usize,
    pub eligible: usize,
    pub denied: usize,
    pub selected_index: Option<usize>,
    pub work_used: usize,
    pub work_budget: usize,
    pub stopped_by_budget: bool,
    pub provisional: bool,
}

/// The report of an evaluation that did not run.
pub open spec fn empty_report() -> WisdomReport {
    WisdomReport {
        evaluated: 0,
        eligible: 0,
        denied: 0,
        selected_index: None,
        work_used: 0,
        work_budget: MAX_WORK,
        stopped_by_budget: false,
        provisional: false,
    }
}

impl WisdomReport {
    pub fn empty() -> (r: Self)
        ensures
            r == empty_report(),
    {
        WisdomReport {
            evaluated: 0,
            eligible: 0,
            denied: 0,
            selected_index: None,
            work_used: 0,
            work_budget: MAX_WORK,
            stopped_by_budget: false,
            provisional: false,
        }
    }
}

pub open spec fn cap(v: u32) -> u32 {
    if v < SCALE { v } else { SCALE }
}

/// Utility: the mean of the five (capped) benefit scores, less the
/// (capped) cost, not below 0.
pub open spec fn spec_utility(c: WisdomCandidate) -> u32 {
    let sum = cap(c.goal_alignment_fixed) + cap(c.confidence_fixed) + cap(c.expected_outcome_fixed) + cap(c.reversibility_fixed)
        + cap(c.experience_fixed);
    let benefit = sum / 5;
    if benefit >= cap(c.cost_fixed) { (benefit - cap(c.cost_fixed)) as u32 } else { 0 }
}

fn utility(c: &WisdomCandidate) -> (r: u32)
    ensures
        r == spec_utility(*c),
{
    let a = if c.goal_alignment_fixed < SCALE { c.goal_alignment_fixed } else { SCALE };
    let b = if c.confidence_fixed < SCALE { c.confidence_fixed } else { SCALE };
    let d = if c.expected_outcome_fixed < SCALE { c.expected_outcome_fixed } else { SCALE };
    let e = if c.reversibility_fixed < SCALE { c.reversibility_fixed } else { SCALE };
    let f = if c.experience_fixed < SCALE { c.experience_fixed } else { SCALE };
    let sum = a + b + d + e + f;
    let benefit = sum / 5;
    let cost = if c.cost_fixed < SCALE { c.cost_fixed } else { SCALE };
    benefit.saturating_sub(cost)
}

pub open spec fn denial_of(d: AuthorizationDecision) -> Option<WisdomDenial> {
    match d {
        AuthorizationDecision::Authorized => None,
        AuthorizationDecision::NoPrincipal => Some(WisdomDenial::Authority),
        AuthorizationDecision::MissingCapability => Some(WisdomDenial::Capability),
        AuthorizationDecision::MissingAuthority => Some(WisdomDenial::Authority),
        AuthorizationDecision::InsufficientTrust => Some(WisdomDenial::Trust),
    }
}

pub open spec fn candidate_ok(c: WisdomCandidate) -> bool {
    c.node matches Some(n) ==> node_ok(n)
}

/// The evaluation of one candidate: the first failed constraint denies it;
/// otherwise it is eligible with its utility.
pub open spec fn spec_evaluate_candidate(principals: Seq<trust::TrustPrincipal>, c: WisdomCandidate, inference: InferenceRecord) -> WisdomEvaluation {
    let denied = |d: WisdomDenial| WisdomEvaluation {
        action: c.action,
        disposition: WisdomDisposition::Denied(d),
        utility_fixed: 0,
        confidence_fixed: 0,
        cost_fixed: cap(c.cost_fixed),
        source_inference: inference,
    };
    if c.action == 0 || !spec_is_valid(c.action) {
        denied(WisdomDenial::InvalidAction)
    } else if c.stale {
        denied(WisdomDenial::Stale)
    } else if !c.safe {
        denied(WisdomDenial::Unsafe)
    } else {
        match denial_of(spec_authorize(principals, c.authorization, c.node)) {
            Some(d) => denied(d),
            None => WisdomEvaluation {
                action: c.action,
                disposition: WisdomDisposition::Eligible,
                utility_fixed: spec_utility(c),
                confidence_fixed: cap(c.confidence_fixed),
                cost_fixed: cap(c.cost_fixed),
                source_inference: inference,
            },
        }
    }
}

fn evaluate_candidate(registry: &TrustRegistry, c: WisdomCandidate, inference: InferenceRecord) -> (r: WisdomEvaluation)
    requires
        candidate_ok(c),
    ensures
        r == spec_evaluate_candidate(registry.principals(), c, inference),
{
    let cost = if c.cost_fixed < SCALE { c.cost_fixed } else { SCALE };
    if c.action == 0 || !semantic::is_valid(c.action) {
        return WisdomEvaluation { action: c.action, disposition: WisdomDisposition::Denied(WisdomDenial::InvalidAction), utility_fixed: 0, confidence_fixed: 0, cost_fixed: cost, source_inference: inference };
    }
    if c.stale {
        return WisdomEvaluation { action: c.action, disposition: WisdomDisposition::Denied(WisdomDenial::Stale), utility_fixed: 0, confidence_fixed: 0, cost_fixed: cost, source_inference: inference };
    }
    if !c.safe {
        return WisdomEvaluation { action: c.action, disposition: WisdomDisposition::Denied(WisdomDenial::Unsafe), utility_fixed: 0, confidence_fixed: 0, cost_fixed: cost, source_inference: inference };
    }
    let denial = match trust::authorize(registry, c.authorization, c.node) {
        AuthorizationDecision::Authorized => None,
        AuthorizationDecision::NoPrincipal => Some(WisdomDenial::Authority),
        AuthorizationDecision::MissingCapability => Some(WisdomDenial::Capability),
        AuthorizationDecision::MissingAuthority => Some(WisdomDenial::Authority),
        AuthorizationDecision::InsufficientTrust => Some(WisdomDenial::Trust),
    };
    match denial {
        Some(d) => WisdomEvaluation { action: c.action, disposition: WisdomDisposition::Denied(d), utility_fixed: 0, confidence_fixed: 0, cost_fixed: cost, source_inference: inference },
        None => {
            let score = utility(&c);
            WisdomEvaluation {
                action: c.action,
                disposition: WisdomDisposition::Eligible,
                utility_fixed: score,
                confidence_fixed: if c.confidence_fixed < SCALE { c.confidence_fixed } else { SCALE },
                cost_fixed: cost,
                source_inference: inference,
            }
        },
    }
}

/// The first eligible evaluation of highest utility among the first `n`.
pub open spec fn best_upto(evals: Seq<WisdomEvaluation>, n: int) -> Option<int>
    decreases n,
{
    if n <= 0 {
        None
    } else {
        let prev = best_upto(evals, n - 1);
        if evals[n - 1].disposition == WisdomDisposition::Eligible && (prev is None || evals[n - 1].utility_fixed > evals[prev->0].utility_fixed) {
            Some(n - 1)
        } else {
            prev
        }
    }
}

pub proof fn lemma_best_upto(evals: Seq<WisdomEvaluation>, n: int)
    requires
        0 <= n <= evals.len(),
    ensures
        best_upto(evals, n) matches Some(k) ==> 0 <= k < n && evals[k].disposition == WisdomDisposition::Eligible,
    decreases n,
{
    if n > 0 {
        lemma_best_upto(evals, n - 1);
    }
}

pub open spec fn eligible_count(evals: Seq<WisdomEvaluation>, n: int) -> nat
    decreases n,
{
    if n <= 0 { 0 } else { eligible_count(evals, n - 1) + if evals[n - 1].disposition == WisdomDisposition::Eligible { 1nat } else { 0nat } }
}

/// Evaluates up to `MAX_CANDIDATES` candidates (as many as fit in `output`)
/// and selects the first eligible one of highest utility.
pub fn evaluate(registry: &TrustRegistry, candidates: &[WisdomCandidate], inference: InferenceRecord, output: &mut [WisdomEvaluation]) -> (r: WisdomReport)
    requires
        forall|i: int| 0 <= i < candidates@.len() ==> candidate_ok(#[trigger] candidates@[i]),
    ensures
        ({
            let a = if candidates@.len() < MAX_CANDIDATES { candidates@.len() as int } else { MAX_CANDIDATES as int };
            let n = if a < old(output)@.len() { a } else { old(output)@.len() as int };
            &&& r.evaluated == n && r.work_used == n && r.work_budget == MAX_WORK
            &&& r.eligible == eligible_count(final(output)@, n)
            &&& r.eligible + r.denied == n
            &&& !r.stopped_by_budget
            &&& r.provisional == (candidates@.len() > n)
            &&& final(output)@.len() == old(output)@.len()
            &&& forall|i: int| 0 <= i < n ==> #[trigger] final(output)@[i] == spec_evaluate_candidate(registry.principals(), candidates@[i], inference)
            &&& forall|i: int| n <= i < old(output)@.len() ==> #[trigger] final(output)@[i] == old(output)@[i]
            &&& r.selected_index matches Some(k) ==> best_upto(final(output)@, n) == Some(k as int)
            &&& r.selected_index is None ==> best_upto(final(output)@, n) is None
        }),
{
    let mut report = WisdomReport::empty();
    let a = if candidates.len() < MAX_CANDIDATES { candidates.len() } else { MAX_CANDIDATES };
    let limit = if a < output.len() { a } else { output.len() };
    if candidates.len() > limit {
        report.provisional = true;
    }
    let mut index: usize = 0;
    let mut best_score: u32 = 0;
    let mut best_index: Option<usize> = None;
    while index < limit
        invariant
            0 <= index <= limit <= MAX_WORK,
            limit <= output@.len(),
            limit <= candidates@.len(),
            limit == (if a < old(output)@.len() { a as int } else { old(output)@.len() as int }),
            a == (if candidates@.len() < MAX_CANDIDATES { candidates@.len() as int } else { MAX_CANDIDATES as int }),
            forall|i: int| 0 <= i < candidates@.len() ==> candidate_ok(#[trigger] candidates@[i]),
            output@.len() == old(output)@.len(),
            report.work_budget == MAX_WORK,
            report.evaluated == index && report.work_used == index,
            report.eligible == eligible_count(output@, index as int),
            report.eligible + report.denied == index,
            !report.stopped_by_budget,
            report.provisional == (candidates@.len() > limit),
            forall|i: int| 0 <= i < index ==> #[trigger] output@[i] == spec_evaluate_candidate(registry.principals(), candidates@[i], inference),
            forall|i: int| index <= i < output@.len() ==> #[trigger] output@[i] == old(output)@[i],
            best_index == (match best_upto(output@, index as int) { Some(k) => Some(k as usize), None => None::<usize> }),
            best_index matches Some(k) ==> best_score == output@[k as int].utility_fixed,
        decreases limit - index,
    {
        let ghost before = output@;
        report.work_used = report.work_used + 1;
        report.evaluated = report.evaluated + 1;
        let evaluation = evaluate_candidate(registry, candidates[index], inference);
        output[index] = evaluation;
        proof {
            assert(output@.subrange(0, index as int) =~= before.subrange(0, index as int));
            lemma_prefix_folds(before, output@, index as int);
            lemma_best_upto(output@, index as int);
        }
        if evaluation.eligible() {
            report.eligible = report.eligible + 1;
            if best_index.is_none() || evaluation.utility_fixed > best_score {
                best_score = evaluation.utility_fixed;
                best_index = Some(index);
            }
        } else {
            report.denied = report.denied + 1;
        }
        index = index + 1;
    }
    report.selected_index = best_index;
    proof {
        lemma_best_upto(output@, limit as int);
    }
    report
}

/// A selection exists only among eligible evaluations.
pub proof fn lemma_best_implies_eligible(evals: Seq<WisdomEvaluation>, n: int)
    requires
        0 <= n <= evals.len(),
        best_upto(evals, n) is Some,
    ensures
        eligible_count(evals, n) > 0,
    decreases n,
{
    if n > 0 && best_upto(evals, n - 1) is Some {
        lemma_best_implies_eligible(evals, n - 1);
    }
}

proof fn lemma_prefix_folds(a: Seq<WisdomEvaluation>, b: Seq<WisdomEvaluation>, n: int)
    requires
        0 <= n <= a.len(),
        n <= b.len(),
        forall|i: int| 0 <= i < n ==> a[i] == b[i],
    ensures
        best_upto(a, n) == best_upto(b, n),
        eligible_count(a, n) == eligible_count(b, n),
    decreases n,
{
    if n > 0 {
        lemma_prefix_folds(a, b, n - 1);
        lemma_best_upto(a, n - 1);
    }
}

/// An eligible action is valid, fresh, safe and authorized.
pub proof fn law_eligible_means_permitted(principals: Seq<trust::TrustPrincipal>, c: WisdomCandidate, inference: InferenceRecord)
    requires
        spec_evaluate_candidate(principals, c, inference).disposition == WisdomDisposition::Eligible,
    ensures
        c.action != 0 && spec_is_valid(c.action) && !c.stale && c.safe,
        spec_authorize(principals, c.authorization, c.node) == AuthorizationDecision::Authorized,
{
}

/// Wisdom's own check: with principal 7 trusted at 9000 and holding
/// authority bit 0, a fresh, safe verification it may authorize is the one
/// eligible candidate and is selected; the same candidate gone stale is
/// denied as stale, and one asking for an unknown principal is denied for
/// authority.
pub fn self_test() -> (ok: bool)
    ensures
        ok,
{
    let mut registry = TrustRegistry::new();
    let provenance = RelationProvenance { origin: 1, source: ProvenanceSource::Local, revision: 1 };
    if !trust::upsert(
        &mut registry,
        TrustPrincipal { principal_id: 7, trust_fixed: 9_000, authority_mask: 1, revision: 1, provenance },
    ) {
        return false;
    }
    let inference = InferenceRecord {
        object_id: 1,
        semantic_id: semantic::STATE_OBJECT,
        previous_state: semantic::READY,
        current_state: semantic::ACTIVE,
        predicted_state: semantic::ACTIVE,
        context: 1,
        kind: InferenceKind::PredictionConsistent,
        truth: TruthState::True,
        confidence_fixed: 9_000,
        uncertainty_fixed: 1_000,
        timestamp: 1,
        provenance,
    };
    let candidate = WisdomCandidate {
        action: semantic::VERIFY,
        goal_alignment_fixed: 9_000,
        confidence_fixed: 9_000,
        expected_outcome_fixed: 9_000,
        reversibility_fixed: 9_000,
        experience_fixed: 9_000,
        cost_fixed: 1_000,
        stale: false,
        safe: true,
        authorization: AuthorizationRequest {
            principal_id: 7,
            required_capability: 0,
            required_authority: 1,
            minimum_trust_fixed: 8_000,
        },
        node: None,
    };
    let mut output = [WisdomEvaluation::empty(); MAX_CANDIDATES];
    let candidates = [candidate];
    proof {
        assert(1u32 & 1u32 == 1u32) by (bit_vector);
        let ps = registry.principals();
        assert(ps.len() == 1 && ps[0].principal_id == 7);
        assert(trust::principal_slot(ps, 7, 0) == Some(0int));
        assert(spec_is_valid(semantic::VERIFY));
        assert(candidates@[0] == candidate);
    }
    let report = evaluate(&registry, &candidates, inference, &mut output);
    let stale = evaluate_candidate(&registry, WisdomCandidate { stale: true, ..candidate }, inference);
    let unknown = evaluate_candidate(
        &registry,
        WisdomCandidate {
            authorization: AuthorizationRequest {
                principal_id: 0xFFFF,
                required_capability: 0,
                required_authority: 1,
                minimum_trust_fixed: 1,
            },
            ..candidate
        },
        inference,
    );
    proof {
        let ps = registry.principals();
        assert(trust::principal_slot(ps, 0xFFFF, 1) is None);
        assert(trust::principal_slot(ps, 0xFFFF, 0) is None);
        assert(output@[0].disposition == WisdomDisposition::Eligible);
        assert(eligible_count(output@, 1) == 1);
        assert(best_upto(output@, 0) is None);
        assert(best_upto(output@, 1) == Some(0int));
    }
    report.eligible == 1 && report.selected_index == Some(0usize) && output[0].eligible()
        && stale.disposition == WisdomDisposition::Denied(WisdomDenial::Stale) && unknown.disposition
        == WisdomDisposition::Denied(WisdomDenial::Authority)
}

} // verus!
