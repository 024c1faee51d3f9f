//! GNOSIS knowledge objects: a fixed-capacity store of typed, versioned objects.
use vstd::prelude::*;
use crate::gnosis::semantic::{self, ContextId, ObjectId, SemanticId, spec_is_valid};

verus! {

#[derive(Clone, Copy, Debug, PartialEq, Eq, Structural)]
pub struct KnowledgeObject {
    pub id: ObjectId,
    pub semantic_type: SemanticId,
    pub state: SemanticId,
    pub context: ContextId,
    pub flags: u16,
    pub version: u16,
}

pub const FLAG_ACTIVE: u16 = 1;
pub const FLAG_IMMUTABLE: u16 = 2;
pub const FLAG_DERIVED: u16 = 4;
pub const FLAG_VERIFIED: u16 = 8;
pub const FLAG_PRIVATE: u16 = 16;
pub const FLAG_REMOTE: u16 = 32;
pub const CURRENT_VERSION: u16 = 1;
pub const MAX_OBJECTS: usize = 64;
pub const CAPACITY: usize = 64;

/// A proposed change of one object's state.
#[derive(Clone, Copy, Debug, PartialEq, Eq, Structural)]
pub struct StateTransition {
    pub object_id: ObjectId,
    pub semantic_id: SemanticId,
    pub previous_state: SemanticId,
    pub new_state: SemanticId,
    pub context: ContextId,
    pub timestamp: u64,
    pub version: u16,
}

#[derive(Clone, Copy)]
pub struct ObjectEntry {
    pub object: KnowledgeObject,
    pub occupied: bool,
}

pub open spec fn empty_object() -> KnowledgeObject {
    KnowledgeObject { id: 0, semantic_type: 0, state: 0, context: 0, flags: 0, version: 0 }
}

pub open spec fn empty_object_entry() -> ObjectEntry {
    ObjectEntry { object: empty_object(), occupied: false }
}

impl ObjectEntry {
    pub fn empty() -> (e: Self)
        ensures
            e == empty_object_entry(),
    {
        ObjectEntry {
            object: KnowledgeObject { id: 0, semantic_type: 0, state: 0, context: 0, flags: 0, version: 0 },
            occupied: false,
        }
    }
}

pub open spec fn object_valid(o: KnowledgeObject) -> bool {
    o.id != 0 && spec_is_valid(o.semantic_type) && spec_is_valid(o.state) && o.version != 0
}

/// An object is valid with a nonzero ID, known type and state, and a nonzero version.
pub fn is_valid(object: &KnowledgeObject) -> (r: bool)
    ensures
        r == object_valid(*object),
{
    object.id != 0 && semantic::is_valid(object.semantic_type) && semantic::is_valid(object.state) && object.version != 0
}

/// Whether the immutable flag is set.
pub open spec fn is_immutable(flags: u16) -> bool {
    flags & FLAG_IMMUTABLE != 0
}

/// First occupied slot holding object `id`, from `i` on.
pub open spec fn object_slot(slots: Seq<ObjectEntry>, id: ObjectId, i: int) -> Option<int>
    decreases slots.len() - i,
{
    if i < 0 || i >= slots.len() {
        None
    } else if slots[i].occupied && slots[i].object.id == id {
        Some(i)
    } else {
        object_slot(slots, id, i + 1)
    }
}

/// First free slot from `i` on.
pub open spec fn object_free_slot(slots: Seq<ObjectEntry>, i: int) -> Option<int>
    decreases slots.len() - i,
{
    if i < 0 || i >= slots.len() {
        None
    } else if !slots[i].occupied {
        Some(i)
    } else {
        object_free_slot(slots, i + 1)
    }
}

/// Number of occupied slots among the first `n`.
pub open spec fn objects_upto(slots: Seq<ObjectEntry>, n: int) -> nat
    decreases n,
{
    if n <= 0 { 0 } else { objects_upto(slots, n - 1) + if slots[n - 1].occupied { 1nat } else { 0nat } }
}

/// The stored objects among the first `n` slots, in slot order.
pub open spec fn objects_in_order(slots: Seq<ObjectEntry>, n: int) -> Seq<KnowledgeObject>
    decreases n,
{
    if n <= 0 {
        Seq::empty()
    } else {
        objects_in_order(slots, n - 1) + if slots[n - 1].occupied { seq![slots[n - 1].object] } else { Seq::empty() }
    }
}

pub proof fn lemma_object_slot(slots: Seq<ObjectEntry>, id: ObjectId, i: int)
    requires
        0 <= i,
    ensures
        object_slot(slots, id, i) matches Some(k) ==> i <= k < slots.len() && slots[k].occupied && slots[k].object.id == id,
    decreases slots.len() - i,
{
    if i < slots.len() && !(slots[i].occupied && slots[i].object.id == id) {
        lemma_object_slot(slots, id, i + 1);
    }
}

pub proof fn lemma_object_free_slot(slots: Seq<ObjectEntry>, i: int)
    requires
        0 <= i,
    ensures
        object_free_slot(slots, i) matches Some(k) ==> i <= k < slots.len() && !slots[k].occupied,
    decreases slots.len() - i,
{
    if i < slots.len() && slots[i].occupied {
        lemma_object_free_slot(slots, i + 1);
    }
}

/// The object store.
pub struct ObjectStore {
    objects: [ObjectEntry; 64],
}

impl ObjectStore {
    pub closed spec fn slots(&self) -> Seq<ObjectEntry> {
        self.objects@
    }

    /// The object with ID `id`, if stored.
    pub open spec fn get(&self, id: ObjectId) -> Option<KnowledgeObject> {
        if id == 0 {
            None
        } else {
            match object_slot(self.slots(), id, 0) {
                Some(k) => Some(self.slots()[k].object),
                None => None,
            }
        }
    }

    /// An empty store.
    pub fn new() -> (s: Self)
        ensures
            s.slots().len() == 64,
            forall|i: int| 0 <= i < 64 ==> #[trigger] s.slots()[i] == empty_object_entry(),
    {
        ObjectStore { objects: [ObjectEntry::empty(); 64] }
    }

    fn find_slot(&self, id: ObjectId) -> (r: Option<usize>)
        ensures
            r matches Some(k) ==> k < 64 && object_slot(self.slots(), id, 0) == Some(k as int),
            r is None ==> object_slot(self.slots(), id, 0) is None,
    {
        let mut index: usize = 0;
        while index < 64
            invariant
                0 <= index <= 64,
                object_slot(self.objects@, id, 0) == object_slot(self.objects@, id, index as int),
            decreases 64 - index,
        {
            if self.objects[index].occupied && self.objects[index].object.id == id {
                return Some(index);
            }
            index = index + 1;
        }
        None
    }
}

/// Number of stored objects.
pub fn count(store: &ObjectStore) -> (n: usize)
    ensures
        n == objects_upto(store.slots(), 64),
{
    let mut n: usize = 0;
    let mut index: usize = 0;
    while index < 64
        invariant
            0 <= index <= 64,
            n == objects_upto(store.objects@, index as int),
            n <= index,
        decreases 64 - index,
    {
        if store.objects[index].occupied {
            n = n + 1;
        }
        index = index + 1;
    }
    n
}

/// Whether object `id` is stored; ID 0 never is.
pub fn contains(store: &ObjectStore, id: ObjectId) -> (r: bool)
    ensures
        r == (store.get(id) is Some),
{
    if id == 0 {
        return false;
    }
    store.find_slot(id).is_some()
}

/// Inserts a valid object whose ID is not stored yet into the first free slot.
pub fn insert(store: &mut ObjectStore, object: KnowledgeObject) -> (r: bool)
    ensures
        insert_result(*old(store), *final(store), object, r),
        r == (object_valid(object) && object_slot(old(store).slots(), object.id, 0) is None
            && object_free_slot(old(store).slots(), 0) is Some),
        r ==> final(store).slots() == old(store).slots().update(
            object_free_slot(old(store).slots(), 0)->0,
            ObjectEntry { object, occupied: true },
        ),
        !r ==> *final(store) == *old(store),
{
    if !is_valid(&object) {
        return false;
    }
    if store.find_slot(object.id).is_some() {
        return false;
    }
    let mut index: usize = 0;
    while index < 64
        invariant
            0 <= index <= 64,
            *store == *old(store),
            object_valid(object),
            object_slot(store.objects@, object.id, 0) is None,
            object_free_slot(store.objects@, 0) == object_free_slot(store.objects@, index as int),
        decreases 64 - index,
    {
        if !store.objects[index].occupied {
            store.objects[index] = ObjectEntry { object, occupied: true };
            return true;
        }
        index = index + 1;
    }
    false
}

/// The stored object `id`, as a callback would see it.
pub fn with_object(store: &ObjectStore, id: ObjectId) -> (r: Option<KnowledgeObject>)
    ensures
        r == store.get(id),
{
    if id == 0 {
        return None;
    }
    match store.find_slot(id) {
        Some(k) => Some(store.objects[k].object),
        None => None,
    }
}

/// The stored objects in slot order: the sequence a visit of the store meets.
pub fn for_each(store: &ObjectStore) -> (r: Vec<KnowledgeObject>)
    ensures
        r@ == objects_in_order(store.slots(), 64),
{
    let mut values: Vec<KnowledgeObject> = Vec::new();
    let mut index: usize = 0;
    while index < 64
        invariant
            0 <= index <= 64,
            values@ == objects_in_order(store.objects@, index as int),
        decreases 64 - index,
    {
        if store.objects[index].occupied {
            values.push(store.objects[index].object);
        }
        proof {
            assert(values@ =~= objects_in_order(store.objects@, index + 1));
        }
        index = index + 1;
    }
    values
}

/// The transition of object `id` to `new_state` at `timestamp`, if it may happen: the object
/// is stored, mutable, in another state and its version can still grow.
pub open spec fn spec_prepare(store: ObjectStore, id: ObjectId, new_state: SemanticId, timestamp: u64) -> Option<StateTransition> {
    if id == 0 || !spec_is_valid(new_state) {
        None
    } else {
        match store.get(id) {
            Some(o) => if is_immutable(o.flags) || o.state == new_state || o.version == u16::MAX {
                None
            } else {
                Some(
                    StateTransition {
                        object_id: o.id,
                        semantic_id: o.semantic_type,
                        previous_state: o.state,
                        new_state,
                        context: o.context,
                        timestamp,
                        version: (o.version + 1) as u16,
                    },
                )
            },
            None => None,
        }
    }
}

/// Prepares a state transition of object `id`.
pub fn prepare_transition(store: &ObjectStore, id: ObjectId, new_state: SemanticId, timestamp: u64) -> (r: Option<StateTransition>)
    ensures
        r == spec_prepare(*store, id, new_state, timestamp),
{
    if id == 0 || !semantic::is_valid(new_state) {
        return None;
    }
    match store.find_slot(id) {
        None => None,
        Some(k) => {
            let object = store.objects[k].object;
            if (object.flags & FLAG_IMMUTABLE) != 0 || object.state == new_state {
                return None;
            }
            if object.version == u16::MAX {
                return None;
            }
            Some(
                StateTransition {
                    object_id: object.id,
                    semantic_id: object.semantic_type,
                    previous_state: object.state,
                    new_state,
                    context: object.context,
                    timestamp,
                    version: object.version + 1,
                },
            )
        },
    }
}

/// A transition is well formed.
pub open spec fn transition_valid(t: StateTransition) -> bool {
    t.object_id != 0 && spec_is_valid(t.semantic_id) && spec_is_valid(t.previous_state) && spec_is_valid(t.new_state)
        && t.previous_state != t.new_state && t.version != 0
}

/// A transition applies to the stored object: it is mutable and the transition starts from
/// its current type, state, context and version.
pub open spec fn transition_applies(o: KnowledgeObject, t: StateTransition) -> bool {
    !is_immutable(o.flags) && o.semantic_type == t.semantic_id && o.state == t.previous_state && o.context
        == t.context && o.version != u16::MAX && o.version + 1 == t.version
}

/// Whether `commit_transition` accepts `t` on `store`.
pub open spec fn commit_succeeds(store: ObjectStore, t: StateTransition) -> bool {
    transition_valid(t) && match store.get(t.object_id) {
        Some(o) => transition_applies(o, t),
        None => false,
    }
}

/// `after` is `before` with transition `t` applied to its object.
pub open spec fn committed(before: ObjectStore, after: ObjectStore, t: StateTransition) -> bool {
    let k = object_slot(before.slots(), t.object_id, 0)->0;
    let o = before.slots()[k].object;
    after.slots() == before.slots().update(
        k,
        ObjectEntry { object: KnowledgeObject { state: t.new_state, version: t.version, ..o }, occupied: true },
    )
}

/// Commits a transition: the object takes the new state and version.
pub fn commit_transition(store: &mut ObjectStore, transition: StateTransition) -> (r: bool)
    ensures
        r == commit_succeeds(*old(store), transition),
        !r ==> *final(store) == *old(store),
        r ==> committed(*old(store), *final(store), transition),
{
    if transition.object_id == 0 || !semantic::is_valid(transition.semantic_id) || !semantic::is_valid(
        transition.previous_state,
    ) || !semantic::is_valid(transition.new_state) || transition.previous_state == transition.new_state
        || transition.version == 0 {
        return false;
    }
    match store.find_slot(transition.object_id) {
        None => false,
        Some(k) => {
            proof {
                lemma_object_slot(store.objects@, transition.object_id, 0);
            }
            let object = store.objects[k].object;
            if (object.flags & FLAG_IMMUTABLE) != 0 {
                return false;
            }
            if object.semantic_type != transition.semantic_id || object.state != transition.previous_state
                || object.context != transition.context || object.version == u16::MAX || object.version + 1
                != transition.version {
                return false;
            }
            store.objects[k].object.state = transition.new_state;
            store.objects[k].object.version = transition.version;
            assert(store.slots() =~= old(store).slots().update(
                k as int,
                ObjectEntry { object: KnowledgeObject { state: transition.new_state, version: transition.version, ..object }, occupied: true },
            ));
            true
        },
    }
}

/// Removes object `id`.
pub fn remove(store: &mut ObjectStore, id: ObjectId) -> (r: bool)
    ensures
        r == (old(store).get(id) is Some),
        !r ==> *final(store) == *old(store),
        r ==> final(store).slots() == old(store).slots().update(object_slot(old(store).slots(), id, 0)->0, empty_object_entry()),
{
    if id == 0 {
        return false;
    }
    match store.find_slot(id) {
        None => false,
        Some(k) => {
            store.objects[k] = ObjectEntry::empty();
            true
        },
    }
}

/// Empties the store.
pub fn clear(store: &mut ObjectStore)
    ensures
        forall|i: int| 0 <= i < 64 ==> #[trigger] final(store).slots()[i] == empty_object_entry(),
        final(store).slots().len() == 64,
{
    store.objects = [ObjectEntry::empty(); 64];
}

/// Writing an entry that keeps object `id` in its slot leaves that slot the
/// one where `id` is found.
pub proof fn lemma_object_slot_update(slots: Seq<ObjectEntry>, id: ObjectId, i: int, k: int, e: ObjectEntry)
    requires
        0 <= i <= k,
        object_slot(slots, id, i) == Some(k),
        e.occupied,
        e.object.id == id,
    ensures
        object_slot(slots.update(k, e), id, i) == Some(k),
    decreases k - i,
{
    lemma_object_slot(slots, id, i);
    if i < k {
        lemma_object_slot_update(slots, id, i + 1, k, e);
    }
}

/// After a committed transition the object holds the new state, so asking
/// for the same state again is refused.
pub proof fn law_transition_not_repeated(
    before: ObjectStore,
    after: ObjectStore,
    t: StateTransition,
    timestamp: u64,
)
    requires
        commit_succeeds(before, t),
        committed(before, after, t),
    ensures
        after.get(t.object_id) matches Some(o) && o.state == t.new_state && o.version == t.version,
        spec_prepare(after, t.object_id, t.new_state, timestamp) is None,
{
    let k = object_slot(before.slots(), t.object_id, 0)->0;
    lemma_object_slot(before.slots(), t.object_id, 0);
    let o = before.slots()[k].object;
    let e = ObjectEntry { object: KnowledgeObject { state: t.new_state, version: t.version, ..o }, occupied: true };
    lemma_object_slot_update(before.slots(), t.object_id, 0, k, e);
}

/// Every stored object is valid.
pub open spec fn objects_valid(store: ObjectStore) -> bool {
    forall|i: int| 0 <= i < store.slots().len() && store.slots()[i].occupied ==> object_valid(#[trigger] store.slots()[i].object)
}

/// No two stored objects share an ID.
pub open spec fn ids_distinct(slots: Seq<ObjectEntry>) -> bool {
    forall|a: int, b: int|
        0 <= a < slots.len() && 0 <= b < slots.len() && a != b && slots[a].occupied && slots[b].occupied
            ==> #[trigger] slots[a].object.id != #[trigger] slots[b].object.id
}

/// What `insert` promises: its answer, and the store after it.
pub open spec fn insert_result(before: ObjectStore, after: ObjectStore, object: KnowledgeObject, r: bool) -> bool {
    &&& r == (object_valid(object) && object_slot(before.slots(), object.id, 0) is None && object_free_slot(before.slots(), 0) is Some)
    &&& r ==> after.slots() == before.slots().update(object_free_slot(before.slots(), 0)->0, ObjectEntry { object, occupied: true })
    &&& !r ==> after == before
}

proof fn lemma_slot_none(slots: Seq<ObjectEntry>, id: ObjectId, i: int)
    requires
        0 <= i,
        object_slot(slots, id, i) is None,
    ensures
        forall|j: int| i <= j < slots.len() ==> !(#[trigger] slots[j].occupied && slots[j].object.id == id),
    decreases slots.len() - i,
{
    if i < slots.len() {
        lemma_slot_none(slots, id, i + 1);
    }
}

proof fn lemma_slot_first(slots: Seq<ObjectEntry>, id: ObjectId, i: int, k: int)
    requires
        0 <= i <= k < slots.len(),
        slots[k].occupied && slots[k].object.id == id,
        forall|j: int| i <= j < k ==> !(#[trigger] slots[j].occupied && slots[j].object.id == id),
    ensures
        object_slot(slots, id, i) == Some(k),
    decreases k - i,
{
    if i < k {
        lemma_slot_first(slots, id, i + 1, k);
    }
}

proof fn lemma_free_none(slots: Seq<ObjectEntry>, i: int)
    requires
        0 <= i,
    ensures
        object_free_slot(slots, i) is None <==> forall|j: int| i <= j < slots.len() ==> #[trigger] slots[j].occupied,
    decreases slots.len() - i,
{
    if i < slots.len() {
        lemma_free_none(slots, i + 1);
    }
}

proof fn lemma_upto_full(slots: Seq<ObjectEntry>, n: int)
    requires
        0 <= n <= slots.len(),
    ensures
        objects_upto(slots, n) <= n,
        objects_upto(slots, n) == n <==> forall|j: int| 0 <= j < n ==> #[trigger] slots[j].occupied,
    decreases n,
{
    if n > 0 {
        lemma_upto_full(slots, n - 1);
    }
}

proof fn lemma_upto_update(slots: Seq<ObjectEntry>, k: int, e: ObjectEntry, n: int)
    requires
        0 <= k < slots.len(),
        0 <= n <= slots.len(),
        !slots[k].occupied,
        e.occupied,
    ensures
        objects_upto(slots.update(k, e), n) == objects_upto(slots, n) + if k < n { 1nat } else { 0nat },
    decreases n,
{
    if n > 0 {
        lemma_upto_update(slots, k, e, n - 1);
    }
}

/// Inserting counts and finds: an insert succeeds exactly for a valid
/// object whose ID is not stored while fewer than `CAPACITY` objects are;
/// then one more object is stored, it is found under its ID, and IDs stay
/// distinct; otherwise nothing changes.
pub proof fn law_insert_counts(before: ObjectStore, after: ObjectStore, object: KnowledgeObject, r: bool)
    requires
        insert_result(before, after, object, r),
        ids_distinct(before.slots()),
        before.slots().len() == 64,
    ensures
        r == (object_valid(object) && before.get(object.id) is None && objects_upto(before.slots(), 64) < 64),
        r ==> objects_upto(after.slots(), 64) == objects_upto(before.slots(), 64) + 1 && after.get(object.id) == Some(object)
            && ids_distinct(after.slots()),
        !r ==> after == before,
{
    let s = before.slots();
    lemma_upto_full(s, 64);
    lemma_free_none(s, 0);
    if object_free_slot(s, 0) is None {
        assert(objects_upto(s, 64) == 64);
    } else {
        lemma_object_free_slot(s, 0);
        let k = object_free_slot(s, 0)->0;
        assert(!s[k].occupied);
        assert(objects_upto(s, 64) < 64);
    }
    if r {
        let k = object_free_slot(s, 0)->0;
        lemma_object_free_slot(s, 0);
        let e = ObjectEntry { object, occupied: true };
        let t = s.update(k, e);
        lemma_upto_update(s, k, e, 64);
        lemma_slot_none(s, object.id, 0);
        lemma_slot_first(t, object.id, 0, k);
        assert(after.slots() == t);
        assert forall|a: int, b: int|
            0 <= a < t.len() && 0 <= b < t.len() && a != b && t[a].occupied && t[b].occupied implies #[trigger] t[a].object.id
            != #[trigger] t[b].object.id by {
            if a != k && b != k {
                assert(s[a].object.id != s[b].object.id);
            }
        }
    }
}

/// A committed transition cannot be committed again: the object's version
/// has moved past the one the transition starts from.
pub proof fn law_stale_commit_refused(before: ObjectStore, after: ObjectStore, t: StateTransition)
    requires
        commit_succeeds(before, t),
        committed(before, after, t),
    ensures
        !commit_succeeds(after, t),
{
    law_transition_not_repeated(before, after, t, 0);
}

/// A prepared transition starts from the object's state and next version
/// and commits; asking for the state the object already has prepares
/// nothing.
pub proof fn law_prepared_commits(store: ObjectStore, id: ObjectId, new_state: SemanticId, timestamp: u64)
    requires
        objects_valid(store),
        spec_prepare(store, id, new_state, timestamp) is Some,
    ensures
        ({
            let t = spec_prepare(store, id, new_state, timestamp)->0;
            let o = store.get(id)->0;
            &&& store.get(id) is Some
            &&& t.previous_state == o.state && t.new_state == new_state && t.version == o.version + 1
            &&& commit_succeeds(store, t)
            &&& spec_prepare(store, id, o.state, timestamp) is None
        }),
{
    lemma_object_slot(store.slots(), id, 0);
    let k = object_slot(store.slots(), id, 0)->0;
    assert(store.slots()[k].occupied);
    assert(object_valid(store.slots()[k].object));
}

proof fn lemma_slot_absent(slots: Seq<ObjectEntry>, id: ObjectId, i: int)
    requires
        0 <= i,
        forall|j: int| i <= j < slots.len() ==> !(#[trigger] slots[j].occupied && slots[j].object.id == id),
    ensures
        object_slot(slots, id, i) is None,
    decreases slots.len() - i,
{
    if i < slots.len() {
        lemma_slot_absent(slots, id, i + 1);
    }
}

proof fn lemma_upto_none(slots: Seq<ObjectEntry>, n: int)
    requires
        0 <= n <= slots.len(),
        forall|j: int| 0 <= j < n ==> !(#[trigger] slots[j].occupied),
    ensures
        objects_upto(slots, n) == 0,
    decreases n,
{
    if n > 0 {
        lemma_upto_none(slots, n - 1);
    }
}

proof fn lemma_upto_remove(slots: Seq<ObjectEntry>, k: int, e: ObjectEntry, n: int)
    requires
        0 <= k < slots.len(),
        0 <= n <= slots.len(),
        slots[k].occupied,
        !e.occupied,
    ensures
        objects_upto(slots.update(k, e), n) + (if k < n { 1nat } else { 0nat }) == objects_upto(slots, n),
    decreases n,
{
    if n > 0 {
        lemma_upto_remove(slots, k, e, n - 1);
    }
}

/// The store's own check: a valid object is inserted once and found; a
/// transition to its own state is refused, one to another state commits
/// once and moves its state and version; an immutable object takes no
/// transition; a stale transition is refused; after a removal one object
/// is left, and after a clear none.
pub fn self_test() -> (ok: bool)
    ensures
        ok,
{
    let mut store = ObjectStore::new();
    let object = KnowledgeObject {
        id: 1,
        semantic_type: semantic::STATE_OBJECT,
        state: semantic::READY,
        context: 7,
        flags: FLAG_ACTIVE,
        version: CURRENT_VERSION,
    };
    proof {
        assert(spec_is_valid(semantic::STATE_OBJECT) && spec_is_valid(semantic::READY) && spec_is_valid(semantic::ACTIVE));
        let s0 = store.slots();
        lemma_slot_absent(s0, 1, 0);
        lemma_upto_none(s0, 64);
        assert(ids_distinct(s0));
    }
    let ghost st0 = store;
    if !is_valid(&object) {
        return false;
    }
    let first = insert(&mut store, object);
    proof {
        law_insert_counts(st0, store, object, first);
    }
    if !first || count(&store) != 1 || !contains(&store, object.id) {
        return false;
    }
    let ghost st1 = store;
    let again = insert(&mut store, object);
    proof {
        law_insert_counts(st1, store, object, again);
    }
    if again {
        return false;
    }
    match with_object(&store, object.id) {
        Some(found) => {
            if found != object {
                return false;
            }
        },
        None => return false,
    }
    if prepare_transition(&store, object.id, object.state, 10).is_some() {
        return false;
    }
    proof {
        lemma_object_slot(store.slots(), 1, 0);
        assert forall|i: int| 0 <= i < store.slots().len() && store.slots()[i].occupied implies object_valid(#[trigger] store.slots()[i].object) by {
            let k = object_free_slot(st0.slots(), 0)->0;
            lemma_object_free_slot(st0.slots(), 0);
            if i != k {
                assert(st0.slots()[i] == empty_object_entry());
            }
        }
        assert(1u16 & 2u16 == 0u16) by (bit_vector);
        assert(!is_immutable(object.flags));
        assert(store.get(1) == Some(object));
        law_prepared_commits(store, 1, semantic::ACTIVE, 11);
    }
    let prepared = match prepare_transition(&store, object.id, semantic::ACTIVE, 11) {
        Some(value) => value,
        None => return false,
    };
    if prepared.object_id != object.id || prepared.semantic_id != object.semantic_type || prepared.previous_state
        != object.state || prepared.new_state != semantic::ACTIVE || prepared.context != object.context
        || prepared.timestamp != 11 || prepared.version != object.version + 1 {
        return false;
    }
    let ghost st2 = store;
    if !commit_transition(&mut store, prepared) {
        return false;
    }
    proof {
        law_transition_not_repeated(st2, store, prepared, 0);
        law_stale_commit_refused(st2, store, prepared);
    }
    match with_object(&store, object.id) {
        Some(updated) => {
            if updated.state != semantic::ACTIVE || updated.version != prepared.version {
                return false;
            }
        },
        None => return false,
    }
    if commit_transition(&mut store, prepared) {
        return false;
    }
    let immutable = KnowledgeObject {
        id: 2,
        semantic_type: semantic::STATE_OBJECT,
        state: semantic::READY,
        context: 8,
        flags: FLAG_IMMUTABLE,
        version: CURRENT_VERSION,
    };
    let ghost st3 = store;
    proof {
        let k = object_slot(st2.slots(), 1, 0)->0;
        lemma_object_slot(st2.slots(), 1, 0);
        assert forall|j: int| 0 <= j < st3.slots().len() implies !(#[trigger] st3.slots()[j].occupied && st3.slots()[j].object.id == 2) by {
            if j != k {
                assert(st3.slots()[j] == st2.slots()[j]);
            }
        }
        lemma_slot_absent(st3.slots(), 2, 0);
        assert(ids_distinct(st3.slots())) by {
            assert forall|a: int, b: int|
                0 <= a < st3.slots().len() && 0 <= b < st3.slots().len() && a != b && st3.slots()[a].occupied
                    && st3.slots()[b].occupied implies #[trigger] st3.slots()[a].object.id != #[trigger] st3.slots()[b].object.id by {
                assert(st3.slots()[a].object.id == st2.slots()[a].object.id);
                assert(st3.slots()[b].object.id == st2.slots()[b].object.id);
            }
        }
        assert(objects_upto(st3.slots(), 64) == 1) by {
            lemma_upto_same(st2.slots(), st3.slots(), 64);
        }
    }
    let inserted = insert(&mut store, immutable);
    proof {
        law_insert_counts(st3, store, immutable, inserted);
        assert(FLAG_IMMUTABLE & FLAG_IMMUTABLE != 0) by (bit_vector);
    }
    if !inserted || prepare_transition(&store, immutable.id, semantic::ACTIVE, 12).is_some() {
        return false;
    }
    let stale = StateTransition {
        object_id: object.id,
        semantic_id: object.semantic_type,
        previous_state: semantic::READY,
        new_state: semantic::ACTIVE,
        context: object.context,
        timestamp: 99,
        version: prepared.version + 1,
    };
    let ghost st4 = store;
    proof {
        let k = object_free_slot(st3.slots(), 0)->0;
        lemma_object_free_slot(st3.slots(), 0);
        let k1 = object_slot(st3.slots(), 1, 0)->0;
        lemma_object_slot(st3.slots(), 1, 0);
        assert(k1 != k);
        lemma_object_slot_update(st3.slots(), 1, 0, k1, st3.slots()[k1]);
        assert(st3.slots().update(k1, st3.slots()[k1]) =~= st3.slots());
        assert(object_slot(st4.slots(), 1, 0) == Some(k1)) by {
            lemma_slot_keep(st3.slots(), 1, 0, k1, k, ObjectEntry { object: immutable, occupied: true });
        }
    }
    if commit_transition(&mut store, stale) {
        return false;
    }
    let ghost st5 = store;
    if !remove(&mut store, object.id) {
        return false;
    }
    proof {
        let k1 = object_slot(st5.slots(), 1, 0)->0;
        lemma_object_slot(st5.slots(), 1, 0);
        assert forall|j: int| 0 <= j < store.slots().len() implies !(#[trigger] store.slots()[j].occupied && store.slots()[j].object.id == 1) by {
            if j != k1 && st5.slots()[j].occupied {
                assert(st5.slots()[j].object.id != st5.slots()[k1].object.id);
            }
        }
        lemma_slot_absent(store.slots(), 1, 0);
        lemma_upto_remove(st5.slots(), k1, empty_object_entry(), 64);
    }
    if contains(&store, object.id) || count(&store) != 1 {
        return false;
    }
    clear(&mut store);
    proof {
        lemma_slot_absent(store.slots(), 1, 0);
        lemma_upto_none(store.slots(), 64);
    }
    count(&store) == 0 && !contains(&store, 1)
}

proof fn lemma_upto_same(a: Seq<ObjectEntry>, b: Seq<ObjectEntry>, n: int)
    requires
        0 <= n <= a.len(),
        a.len() == b.len(),
        forall|j: int| 0 <= j < a.len() ==> #[trigger] a[j].occupied == b[j].occupied,
    ensures
        objects_upto(a, n) == objects_upto(b, n),
    decreases n,
{
    if n > 0 {
        lemma_upto_same(a, b, n - 1);
    }
}

proof fn lemma_slot_keep(slots: Seq<ObjectEntry>, id: ObjectId, i: int, k1: int, k: int, e: ObjectEntry)
    requires
        0 <= i <= k1,
        object_slot(slots, id, i) == Some(k1),
        0 <= k < slots.len(),
        !slots[k].occupied,
        e.object.id != id,
    ensures
        object_slot(slots.update(k, e), id, i) == Some(k1),
    decreases k1 - i,
{
    lemma_object_slot(slots, id, i);
    if i < k1 {
        lemma_slot_keep(slots, id, i + 1, k1, k, e);
    }
}

} // verus!
