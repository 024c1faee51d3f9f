//! GNOSIS experience: a ring of the most recent prediction outcomes, with
//! categorical error, used to measure how well predictions hold up.
use vstd::prelude::*;
use crate::gnosis::relation::{ProvenanceSource, RelationProvenance};
use crate::gnosis::semantic::{self, ContextId, ObjectId, SemanticId, spec_is_valid};

verus! {

pub const SCALE: u32 = 10_000;
pub const MAX_EXPERIENCES: usize = 32;
pub const MAX_WORK: usize = 512;

#[derive(Clone, Copy, Debug, PartialEq, Eq, Structural)]
pub struct ExperienceRecord {
    pub object_id: ObjectId,
    pub semantic_id: SemanticId,
    pub context: ContextId,
    pub predicted_state: SemanticId,
    pub actual_state: SemanticId,
    pub error_fixed: u32,
    pub confidence_fixed: u32,
    pub support: u32,
    pub timestamp: u64,
    pub provenance: RelationProvenance,
}

pub open spec fn empty_record() -> ExperienceRecord {
    ExperienceRecord {
        object_id: 0,
        semantic_id: 0,
        context: 0,
        predicted_state: 0,
        actual_state: 0,
        error_fixed: SCALE,
        confidence_fixed: 0,
        support: 0,
        timestamp: 0,
        provenance: RelationProvenance { origin: 0, source: ProvenanceSource::Local, revision: 0 },
    }
}

impl ExperienceRecord {
    pub fn empty() -> (r: Self)
        ensures
            r == empty_record(),
    {
        ExperienceRecord {
            object_id: 0,
            semantic_id: 0,
            context: 0,
            predicted_state: 0,
            actual_state: 0,
            error_fixed: SCALE,
            confidence_fixed: 0,
            support: 0,
            timestamp: 0,
            provenance: RelationProvenance { origin: 0, source: ProvenanceSource::Local, revision: 0 },
        }
    }
}

#[derive(Clone, Copy, Debug, PartialEq, Eq, Structural)]
pub struct ExperienceReport {
    pub recorded: usize,
    pub rejected: usize,
    pub work_used: usize,
    pub work_budget: usize,
    pub stopped_by_budget: bool,
    pub latest: ExperienceRecord,
}

impl ExperienceReport {
    pub fn empty() -> (r: Self)
        ensures
            r == (ExperienceReport {
                recorded: 0,
                rejected: 0,
                work_used: 0,
                work_budget: MAX_WORK,
                stopped_by_budget: false,
                latest: empty_record(),
            }),
    {
        ExperienceReport {
            recorded: 0,
            rejected: 0,
            work_used: 0,
            work_budget: MAX_WORK,
            stopped_by_budget: false,
            latest: ExperienceRecord::empty(),
        }
    }
}

/// The ring of experiences. `cursor` is the next slot to write.
pub struct ExperienceLog {
    records: [ExperienceRecord; 32],
    used: usize,
    cursor: usize,
}

impl ExperienceLog {
    pub closed spec fn records(&self) -> Seq<ExperienceRecord> {
        self.records@
    }

    pub closed spec fn used(&self) -> nat {
        self.used as nat
    }

    pub closed spec fn cursor(&self) -> nat {
        self.cursor as nat
    }

    pub closed spec fn wf(&self) -> bool {
        &&& self.used <= MAX_EXPERIENCES
        &&& self.cursor < MAX_EXPERIENCES
        &&& forall|i: int| 0 <= i < 32 ==> (#[trigger] self.records@[i]).error_fixed <= SCALE
    }

    /// An empty log.
    pub fn new() -> (l: Self)
        ensures
            l.wf(),
            l.used() == 0,
            l.cursor() == 0,
            forall|i: int| 0 <= i < 32 ==> #[trigger] l.records()[i] == empty_record(),
    {
        ExperienceLog { records: [ExperienceRecord::empty(); 32], used: 0, cursor: 0 }
    }
}

/// Whether an outcome can be recorded.
pub open spec fn observation_valid(object_id: ObjectId, semantic_id: SemanticId, predicted: SemanticId, actual: SemanticId, p: RelationProvenance) -> bool {
    object_id != 0 && spec_is_valid(semantic_id) && spec_is_valid(predicted) && spec_is_valid(actual) && p.revision != 0
}

pub open spec fn record_of(
    object_id: ObjectId,
    semantic_id: SemanticId,
    context: ContextId,
    predicted_state: SemanticId,
    actual_state: SemanticId,
    confidence_fixed: u32,
    support: u32,
    timestamp: u64,
    provenance: RelationProvenance,
) -> ExperienceRecord {
    ExperienceRecord {
        object_id,
        semantic_id,
        context,
        predicted_state,
        actual_state,
        error_fixed: if predicted_state == actual_state { 0 } else { SCALE },
        confidence_fixed: if confidence_fixed < SCALE { confidence_fixed } else { SCALE },
        support,
        timestamp,
        provenance,
    }
}

/// Records the outcome of a prediction in the next ring slot, overwriting
/// the oldest once the ring is full.
pub fn observe(
    log: &mut ExperienceLog,
    object_id: ObjectId,
    semantic_id: SemanticId,
    context: ContextId,
    predicted_state: SemanticId,
    actual_state: SemanticId,
    confidence_fixed: u32,
    support: u32,
    timestamp: u64,
    provenance: RelationProvenance,
) -> (r: Option<ExperienceRecord>)
    requires
        old(log).wf(),
    ensures
        final(log).wf(),
        !observation_valid(object_id, semantic_id, predicted_state, actual_state, provenance) ==> r is None && final(log).records() == old(log).records()
            && final(log).used() == old(log).used() && final(log).cursor() == old(log).cursor(),
        observation_valid(object_id, semantic_id, predicted_state, actual_state, provenance) ==> {
            let rec = record_of(object_id, semantic_id, context, predicted_state, actual_state, confidence_fixed, support, timestamp, provenance);
            &&& r == Some(rec)
            &&& final(log).records() == old(log).records().update(old(log).cursor() as int, rec)
            &&& final(log).used() == (if old(log).used() < MAX_EXPERIENCES { old(log).used() + 1 } else { old(log).used() })
            &&& final(log).cursor() == (old(log).cursor() + 1) % 32
        },
{
    let known = match provenance.source {
        ProvenanceSource::Local => true,
        ProvenanceSource::Remote => true,
        ProvenanceSource::Recovered => true,
    };
    if object_id == 0 || !semantic::is_valid(semantic_id) || !semantic::is_valid(predicted_state) || !semantic::is_valid(
        actual_state,
    ) || provenance.revision == 0 || !known {
        return None;
    }
    let record = ExperienceRecord {
        object_id,
        semantic_id,
        context,
        predicted_state,
        actual_state,
        error_fixed: if predicted_state == actual_state { 0 } else { SCALE },
        confidence_fixed: if confidence_fixed < SCALE { confidence_fixed } else { SCALE },
        support,
        timestamp,
        provenance,
    };
    let index = log.cursor;
    log.records[index] = record;
    if log.used < MAX_EXPERIENCES {
        log.used = log.used + 1;
    }
    log.cursor = (log.cursor + 1) % MAX_EXPERIENCES;
    Some(record)
}

/// Number of recorded outcomes, at most `MAX_EXPERIENCES`.
pub fn count(log: &ExperienceLog) -> (n: usize)
    ensures
        n == log.used(),
{
    log.used
}

/// The most recently recorded outcome, or the empty record.
pub fn latest(log: &ExperienceLog) -> (r: ExperienceRecord)
    requires
        log.wf(),
    ensures
        r == (if log.used() == 0 { empty_record() } else { log.records()[((log.cursor() + 31) % 32) as int] }),
{
    if log.used == 0 {
        return ExperienceRecord::empty();
    }
    log.records[(log.cursor + MAX_EXPERIENCES - 1) % MAX_EXPERIENCES]
}

/// Sum of the errors of the first `n` slots.
pub open spec fn error_sum(records: Seq<ExperienceRecord>, n: int) -> int
    decreases n,
{
    if n <= 0 { 0 } else { error_sum(records, n - 1) + records[n - 1].error_fixed }
}

proof fn lemma_error_sum_bound(records: Seq<ExperienceRecord>, n: int)
    requires
        0 <= n <= records.len(),
        forall|i: int| 0 <= i < records.len() ==> (#[trigger] records[i]).error_fixed <= SCALE,
    ensures
        0 <= error_sum(records, n) <= n * SCALE,
    decreases n,
{
    if n > 0 {
        lemma_error_sum_bound(records, n - 1);
    }
}

/// The mean error of the recorded slots, rounded down; 0 when empty.
pub open spec fn spec_mean_error(log: ExperienceLog) -> u32 {
    if log.used() == 0 { 0 } else { (error_sum(log.records(), log.used() as int) / log.used() as int) as u32 }
}

pub fn mean_error_fixed(log: &ExperienceLog) -> (r: u32)
    requires
        log.wf(),
    ensures
        r == spec_mean_error(*log),
        r <= SCALE,
{
    if log.used == 0 {
        return 0;
    }
    let mut total: u64 = 0;
    let mut index: usize = 0;
    while index < log.used
        invariant
            0 <= index <= log.used <= 32,
            log.wf(),
            total == error_sum(log.records@, index as int),
        decreases log.used - index,
    {
        proof {
            lemma_error_sum_bound(log.records@, index as int);
        }
        total = total + log.records[index].error_fixed as u64;
        index = index + 1;
    }
    proof {
        lemma_error_sum_bound(log.records@, log.used as int);
        assert(error_sum(log.records@, log.used as int) / log.used as int <= SCALE) by (nonlinear_arith)
            requires
                error_sum(log.records@, log.used as int) <= log.used as int * 10000,
                log.used > 0,
                error_sum(log.records@, log.used as int) >= 0,
        ;
    }
    (total / log.used as u64) as u32
}

/// Forgets every outcome.
pub fn clear(log: &mut ExperienceLog)
    ensures
        final(log).wf(),
        final(log).used() == 0,
        final(log).cursor() == 0,
{
    *log = ExperienceLog::new();
}

/// The recorded slots in slot order, as a visit meets them.
pub fn for_each(log: &ExperienceLog) -> (r: Vec<ExperienceRecord>)
    requires
        log.wf(),
    ensures
        r@ == log.records().subrange(0, log.used() as int),
{
    let mut out: Vec<ExperienceRecord> = Vec::new();
    let mut index: usize = 0;
    while index < log.used
        invariant
            0 <= index <= log.used <= 32,
            out@ == log.records@.subrange(0, index as int),
        decreases log.used - index,
    {
        out.push(log.records[index]);
        assert(out@ =~= log.records@.subrange(0, index + 1));
        index = index + 1;
    }
    out
}

/// The experience log's own check: a hit and a miss give the latest error
/// at full scale and a mean of half.
pub fn self_test() -> (ok: bool)
    ensures
        ok,
{
    let mut log = ExperienceLog::new();
    let provenance = RelationProvenance { origin: 1, source: ProvenanceSource::Local, revision: 1 };
    let first = observe(&mut log, 1, 2, 3, 10, 10, 9_000, 3, 100, provenance);
    proof {
        assert(spec_is_valid(2) && spec_is_valid(10) && spec_is_valid(20));
        assert(observation_valid(1, 2, 10, 10, provenance));
        assert(observation_valid(1, 2, 10, 20, provenance));
    }
    let ghost after_first = log;
    let second = observe(&mut log, 1, 2, 3, 10, 20, 9_000, 3, 101, provenance);
    proof {
        let r = log.records();
        assert(after_first.cursor() == 1 && after_first.used() == 1);
        assert(log.cursor() == 2 && log.used() == 2);
        assert(r[0].error_fixed == 0);
        assert(r[1].error_fixed == SCALE);
        assert(error_sum(r, 0) == 0);
        assert(error_sum(r, 1) == 0);
        assert(error_sum(r, 2) == SCALE);
        assert(spec_mean_error(log) == SCALE / 2);
    }
    if first.is_none() || second.is_none() || count(&log) != 2 {
        return false;
    }
    if latest(&log).error_fixed != SCALE || mean_error_fixed(&log) != SCALE / 2 {
        return false;
    }
    for_each(&log).len() == 2
}

} // verus!
