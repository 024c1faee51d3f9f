//! GNOSIS world model: the last known state of each observed object and a
//! bounded list of predictions about them.
use vstd::prelude::*;
use crate::gnosis::delta::{SemanticDelta, delta_valid};
use crate::gnosis::experience::ExperienceRecord;
use crate::gnosis::relation::{ProvenanceSource, RelationProvenance};
use crate::gnosis::semantic::{self, ContextId, ObjectId, SemanticId, spec_is_valid};

verus! {

pub const MAX_WORLD_OBJECTS: usize = 32;
pub const MAX_WORK: usize = 256;
pub const SCALE: u32 = 10_000;

#[derive(Clone, Copy, Debug, PartialEq, Eq, Structural)]
pub struct WorldFact {
    pub object_id: ObjectId,
    pub semantic_id: SemanticId,
    pub state: SemanticId,
    pub context: ContextId,
    pub confidence_fixed: u32,
    pub timestamp: u64,
}

impl WorldFact {
    pub fn empty() -> (r: Self)
        ensures
            r == (WorldFact { object_id: 0, semantic_id: 0, state: 0, context: 0, confidence_fixed: 0, timestamp: 0 }),
    {
        WorldFact { object_id: 0, semantic_id: 0, state: 0, context: 0, confidence_fixed: 0, timestamp: 0 }
    }
}

#[derive(Clone, Copy, Debug, PartialEq, Eq, Structural)]
pub struct WorldPrediction {
    pub object_id: ObjectId,
    pub semantic_id: SemanticId,
    pub predicted_state: SemanticId,
    pub confidence_fixed: u32,
    pub timestamp: u64,
    pub provenance: RelationProvenance,
}

impl WorldPrediction {
    pub fn empty() -> (r: Self)
        ensures
            r.object_id == 0 && r.predicted_state == 0 && r.confidence_fixed == 0 && r.provenance.revision == 0,
    {
        WorldPrediction {
            object_id: 0,
            semantic_id: 0,
            predicted_state: 0,
            confidence_fixed: 0,
            timestamp: 0,
            provenance: RelationProvenance { origin: 0, source: ProvenanceSource::Local, revision: 0 },
        }
    }
}

/// Known facts and pending predictions.
pub struct WorldModel {
    facts: Vec<WorldFact>,
    predictions: Vec<WorldPrediction>,
}

/// First fact from `i` on about `object_id` under `semantic_id`.
pub open spec fn fact_slot(facts: Seq<WorldFact>, object_id: ObjectId, semantic_id: SemanticId, i: int) -> Option<int>
    decreases facts.len() - i,
{
    if i < 0 || i >= facts.len() {
        None
    } else if facts[i].object_id == object_id && facts[i].semantic_id == semantic_id {
        Some(i)
    } else {
        fact_slot(facts, object_id, semantic_id, i + 1)
    }
}

/// First fact from `i` on about `object_id`.
pub open spec fn object_fact(facts: Seq<WorldFact>, object_id: ObjectId, i: int) -> Option<WorldFact>
    decreases facts.len() - i,
{
    if i < 0 || i >= facts.len() {
        None
    } else if facts[i].object_id == object_id {
        Some(facts[i])
    } else {
        object_fact(facts, object_id, i + 1)
    }
}

impl WorldModel {
    pub closed spec fn facts(&self) -> Seq<WorldFact> {
        self.facts@
    }

    pub closed spec fn predictions(&self) -> Seq<WorldPrediction> {
        self.predictions@
    }

    pub closed spec fn wf(&self) -> bool {
        self.facts@.len() <= MAX_WORLD_OBJECTS && self.predictions@.len() <= MAX_WORLD_OBJECTS
    }

    pub fn new() -> (w: Self)
        ensures
            w.wf(),
            w.facts().len() == 0,
            w.predictions().len() == 0,
    {
        WorldModel { facts: Vec::new(), predictions: Vec::new() }
    }
}

/// Forgets every fact and prediction.
pub fn clear(world: &mut WorldModel)
    ensures
        final(world).wf(),
        final(world).facts().len() == 0,
        final(world).predictions().len() == 0,
{
    *world = WorldModel::new();
}

/// Learns the state a valid delta reports: updates the object's fact for
/// that semantic type, or adds one while there is room.
pub fn observe_delta(world: &mut WorldModel, delta: SemanticDelta) -> (r: bool)
    requires
        old(world).wf(),
    ensures
        final(world).wf(),
        final(world).predictions() == old(world).predictions(),
        !r ==> final(world).facts() == old(world).facts(),
        !delta_valid(delta) ==> !r,
        delta_valid(delta) ==> match fact_slot(old(world).facts(), delta.object_id, delta.semantic_id, 0) {
            Some(k) => r && final(world).facts() == old(world).facts().update(
                k,
                WorldFact {
                    state: delta.new_state,
                    context: delta.context,
                    timestamp: delta.timestamp,
                    confidence_fixed: SCALE,
                    ..old(world).facts()[k]
                },
            ),
            None => r == (old(world).facts().len() < MAX_WORLD_OBJECTS) && (r ==> final(world).facts() == old(world).facts().push(
                WorldFact {
                    object_id: delta.object_id,
                    semantic_id: delta.semantic_id,
                    state: delta.new_state,
                    context: delta.context,
                    confidence_fixed: SCALE,
                    timestamp: delta.timestamp,
                },
            )),
        },
{
    if !delta.is_valid() {
        return false;
    }
    let mut i: usize = 0;
    while i < world.facts.len()
        invariant
            0 <= i <= world.facts@.len(),
            world.facts@ == old(world).facts@,
            world.predictions@ == old(world).predictions@,
            old(world).wf(),
            delta_valid(delta),
            fact_slot(world.facts@, delta.object_id, delta.semantic_id, 0) == fact_slot(world.facts@, delta.object_id, delta.semantic_id, i as int),
        decreases world.facts@.len() - i,
    {
        if world.facts[i].object_id == delta.object_id && world.facts[i].semantic_id == delta.semantic_id {
            let mut f = world.facts[i];
            f.state = delta.new_state;
            f.context = delta.context;
            f.timestamp = delta.timestamp;
            f.confidence_fixed = SCALE;
            world.facts.set(i, f);
            return true;
        }
        i = i + 1;
    }
    if world.facts.len() >= MAX_WORLD_OBJECTS {
        return false;
    }
    world.facts.push(
        WorldFact {
            object_id: delta.object_id,
            semantic_id: delta.semantic_id,
            state: delta.new_state,
            context: delta.context,
            confidence_fixed: SCALE,
            timestamp: delta.timestamp,
        },
    );
    true
}

/// Records a prediction while there is room.
pub fn predict(
    world: &mut WorldModel,
    object_id: ObjectId,
    semantic_id: SemanticId,
    state: SemanticId,
    confidence_fixed: u32,
    timestamp: u64,
    provenance: RelationProvenance,
) -> (r: bool)
    requires
        old(world).wf(),
    ensures
        final(world).wf(),
        final(world).facts() == old(world).facts(),
        r == (object_id != 0 && spec_is_valid(semantic_id) && spec_is_valid(state) && provenance.revision != 0
            && old(world).predictions().len() < MAX_WORLD_OBJECTS),
        r ==> final(world).predictions() == old(world).predictions().push(
            WorldPrediction {
                object_id,
                semantic_id,
                predicted_state: state,
                confidence_fixed: if confidence_fixed < SCALE { confidence_fixed } else { SCALE },
                timestamp,
                provenance,
            },
        ),
        !r ==> final(world).predictions() == old(world).predictions(),
{
    let known = match provenance.source {
        ProvenanceSource::Local => true,
        ProvenanceSource::Remote => true,
        ProvenanceSource::Recovered => true,
    };
    if object_id == 0 || !semantic::is_valid(semantic_id) || !semantic::is_valid(state) || provenance.revision == 0 || !known {
        return false;
    }
    if world.predictions.len() >= MAX_WORLD_OBJECTS {
        return false;
    }
    world.predictions.push(
        WorldPrediction {
            object_id,
            semantic_id,
            predicted_state: state,
            confidence_fixed: if confidence_fixed < SCALE { confidence_fixed } else { SCALE },
            timestamp,
            provenance,
        },
    );
    true
}

/// 0 when the prediction held, `SCALE` otherwise.
pub fn prediction_error(actual: &ExperienceRecord) -> (r: u32)
    ensures
        r == (if actual.predicted_state == actual.actual_state { 0 } else { SCALE }),
{
    if actual.predicted_state == actual.actual_state {
        0
    } else {
        SCALE
    }
}

/// The first fact about `object_id`.
pub fn fact(world: &WorldModel, object_id: ObjectId) -> (r: Option<WorldFact>)
    ensures
        r == object_fact(world.facts(), object_id, 0),
{
    let mut i: usize = 0;
    while i < world.facts.len()
        invariant
            0 <= i <= world.facts@.len(),
            object_fact(world.facts@, object_id, 0) == object_fact(world.facts@, object_id, i as int),
        decreases world.facts@.len() - i,
    {
        if world.facts[i].object_id == object_id {
            return Some(world.facts[i]);
        }
        i = i + 1;
    }
    None
}

/// Number of known facts.
pub fn count(world: &WorldModel) -> (n: usize)
    ensures
        n == world.facts().len(),
{
    world.facts.len()
}

/// The world model's own check: an observed delta becomes a fact, a
/// prediction is accepted, and clearing empties the model.
pub fn self_test() -> (ok: bool)
    ensures
        ok,
{
    let mut world = WorldModel::new();
    let p = RelationProvenance { origin: 1, source: ProvenanceSource::Local, revision: 1 };
    let d = SemanticDelta {
        object_id: 1,
        semantic_id: semantic::STATE_OBJECT,
        previous_state: semantic::READY,
        new_state: semantic::ACTIVE,
        context: 2,
        timestamp: 3,
        provenance: p,
    };
    if !observe_delta(&mut world, d) {
        return false;
    }
    match fact(&world, 1) {
        Some(f) => {
            if f.state != semantic::ACTIVE {
                return false;
            }
        },
        None => {
            return false;
        },
    }
    if !predict(&mut world, 1, semantic::STATE_OBJECT, semantic::COMPLETE, 8000, 4, p) {
        return false;
    }
    clear(&mut world);
    count(&world) == 0
}

} // verus!
