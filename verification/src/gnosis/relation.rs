//! GNOSIS relation engine: a fixed-capacity relation registry with source, target and
//! semantic indexes, provenance, trust and integrity, traversal, persistence and sync frames.
use vstd::prelude::*;
use crate::gnosis::semantic::{self, ContextId, ObjectId, SemanticId, spec_is_valid};
use crate::le::{bytes16, bytes32, bytes64, put_u16, put_u32, put_u64, get_u16, get_u32, get_u64, le16, le32, le64, lemma_read16, lemma_read32, lemma_read64, lemma_le_bounds};

verus! {

/// A directed, typed edge between two objects in a context.
#[derive(Clone, Copy, PartialEq, Eq, Structural)]
pub struct Relation {
    pub source: ObjectId,
    pub relation: SemanticId,
    pub target: ObjectId,
    pub context: ContextId,
}

pub open spec fn relation_valid(r: Relation) -> bool {
    r.source != 0 && spec_is_valid(r.relation) && r.target != 0
}

/// A relation is valid when both endpoints are set and its type is a known semantic ID.
pub fn is_valid(relation: &Relation) -> (r: bool)
    ensures
        r == relation_valid(*relation),
{
    relation.source != 0 && semantic::is_valid(relation.relation) && relation.target != 0
}

/// Timestamps, schema version and lifecycle state of a relation.
#[derive(Clone, Copy, PartialEq, Eq, Structural)]
pub struct RelationMetadata {
    pub created_at: u64,
    pub updated_at: u64,
    pub version: u16,
    pub state: SemanticId,
}

pub const CURRENT_VERSION: u16 = 1;

/// Identifies where a relation record originated.
#[derive(Clone, Copy, Debug, PartialEq, Eq, Structural)]
pub enum ProvenanceSource {
    Local,
    Remote,
    Recovered,
}

/// Wire code of a provenance source.
pub open spec fn source_code(s: ProvenanceSource) -> u8 {
    match s {
        ProvenanceSource::Local => 1,
        ProvenanceSource::Remote => 2,
        ProvenanceSource::Recovered => 3,
    }
}

pub fn source_to_u8(s: ProvenanceSource) -> (r: u8)
    ensures
        r == source_code(s),
{
    match s {
        ProvenanceSource::Local => 1,
        ProvenanceSource::Remote => 2,
        ProvenanceSource::Recovered => 3,
    }
}

/// Trust state assigned to a relation after integrity/conflict evaluation.
#[derive(Clone, Copy, Debug, PartialEq, Eq, Structural)]
pub enum RelationTrust {
    Unverified,
    Verified,
    Conflict,
    Invalid,
}

/// Wire code of a trust state.
pub open spec fn trust_code(t: RelationTrust) -> u8 {
    match t {
        RelationTrust::Unverified => 1,
        RelationTrust::Verified => 2,
        RelationTrust::Conflict => 3,
        RelationTrust::Invalid => 4,
    }
}

pub fn trust_to_u8(t: RelationTrust) -> (r: u8)
    ensures
        r == trust_code(t),
{
    match t {
        RelationTrust::Unverified => 1,
        RelationTrust::Verified => 2,
        RelationTrust::Conflict => 3,
        RelationTrust::Invalid => 4,
    }
}

/// Fixed-size provenance attached to every relation record.
#[derive(Clone, Copy, Debug, PartialEq, Eq, Structural)]
pub struct RelationProvenance {
    pub origin: u64,
    pub source: ProvenanceSource,
    pub revision: u64,
}

pub open spec fn default_provenance() -> RelationProvenance {
    RelationProvenance { origin: 0, source: ProvenanceSource::Local, revision: 1 }
}

pub open spec fn metadata_valid(m: RelationMetadata) -> bool {
    m.version != 0 && spec_is_valid(m.state)
}

pub open spec fn provenance_valid(p: RelationProvenance) -> bool {
    p.revision != 0
}

pub fn metadata_is_valid(metadata: &RelationMetadata) -> (r: bool)
    ensures
        r == metadata_valid(*metadata),
{
    metadata.version != 0 && semantic::is_valid(metadata.state)
}

pub fn provenance_is_valid(provenance: &RelationProvenance) -> (r: bool)
    ensures
        r == provenance_valid(*provenance),
{
    provenance.revision != 0
}

pub const MAX_RELATIONS: usize = 64;
pub const CAPACITY: usize = 64;

/// One registry slot.
#[derive(Clone, Copy)]
pub struct RelationEntry {
    pub id: u64,
    pub relation: Relation,
    pub metadata: RelationMetadata,
    pub provenance: RelationProvenance,
    pub trust: RelationTrust,
    pub integrity: u64,
    pub occupied: bool,
}

pub open spec fn empty_entry() -> RelationEntry {
    RelationEntry {
        id: 0,
        relation: Relation { source: 0, relation: 0, target: 0, context: 0 },
        metadata: RelationMetadata { created_at: 0, updated_at: 0, version: 0, state: 0 },
        provenance: RelationProvenance { origin: 0, source: ProvenanceSource::Local, revision: 0 },
        trust: RelationTrust::Invalid,
        integrity: 0,
        occupied: false,
    }
}

impl RelationEntry {
    pub fn empty() -> (e: Self)
        ensures
            e == empty_entry(),
    {
        RelationEntry {
            id: 0,
            relation: Relation { source: 0, relation: 0, target: 0, context: 0 },
            metadata: RelationMetadata { created_at: 0, updated_at: 0, version: 0, state: 0 },
            provenance: RelationProvenance { origin: 0, source: ProvenanceSource::Local, revision: 0 },
            trust: RelationTrust::Invalid,
            integrity: 0,
            occupied: false,
        }
    }
}

/// One slot of a lookup index: key to relation ID.
#[derive(Clone, Copy)]
pub struct IndexEntry {
    pub key: u64,
    pub relation_id: u64,
    pub occupied: bool,
}

pub open spec fn empty_index_entry() -> IndexEntry {
    IndexEntry { key: 0, relation_id: 0, occupied: false }
}

impl IndexEntry {
    pub fn empty() -> (e: Self)
        ensures
            e == empty_index_entry(),
    {
        IndexEntry { key: 0, relation_id: 0, occupied: false }
    }
}

/// First unoccupied index slot from `i` on.
pub open spec fn index_first_free(idx: Seq<IndexEntry>, i: int) -> Option<int>
    decreases idx.len() - i,
{
    if i < 0 || i >= idx.len() {
        None
    } else if !idx[i].occupied {
        Some(i)
    } else {
        index_first_free(idx, i + 1)
    }
}

/// The index after inserting `key -> relation_id` in its first free slot, if there is one.
pub open spec fn index_inserted(idx: Seq<IndexEntry>, key: u64, relation_id: u64) -> Option<Seq<IndexEntry>> {
    match index_first_free(idx, 0) {
        Some(k) => Some(idx.update(k, IndexEntry { key, relation_id, occupied: true })),
        None => None,
    }
}

/// The index with every slot for `relation_id` emptied.
pub open spec fn index_removed(idx: Seq<IndexEntry>, relation_id: u64) -> Seq<IndexEntry> {
    Seq::new(
        idx.len(),
        |i: int|
            if idx[i].occupied && idx[i].relation_id == relation_id {
                empty_index_entry()
            } else {
                idx[i]
            },
    )
}

/// Relation ID of the first occupied index slot for `key`, from `i` on.
pub open spec fn index_lookup(idx: Seq<IndexEntry>, key: u64, i: int) -> Option<u64>
    decreases idx.len() - i,
{
    if i < 0 || i >= idx.len() {
        None
    } else if idx[i].occupied && idx[i].key == key {
        Some(idx[i].relation_id)
    } else {
        index_lookup(idx, key, i + 1)
    }
}

/// A key held by no occupied slot from `i` on is not found from `i` on.
pub proof fn lemma_index_lookup_absent(idx: Seq<IndexEntry>, key: u64, i: int)
    requires
        0 <= i,
        forall|j: int| i <= j < idx.len() ==> !(#[trigger] idx[j].occupied && idx[j].key == key),
    ensures
        index_lookup(idx, key, i) is None,
    decreases idx.len() - i,
{
    if i < idx.len() {
        lemma_index_lookup_absent(idx, key, i + 1);
    }
}

/// Inserts `key -> relation_id` in the first free slot; false when the index is full.
pub fn index_insert(index: &mut [IndexEntry; 64], key: u64, relation_id: u64) -> (ok: bool)
    ensures
        match index_inserted(old(index)@, key, relation_id) {
            Some(n) => ok && final(index)@ == n,
            None => !ok && final(index)@ == old(index)@,
        },
{
    let mut slot: usize = 0;
    while slot < 64
        invariant
            0 <= slot <= 64,
            *index == *old(index),
            index_first_free(index@, 0) == index_first_free(index@, slot as int),
        decreases 64 - slot,
    {
        if !index[slot].occupied {
            index[slot] = IndexEntry { key, relation_id, occupied: true };
            return true;
        }
        slot = slot + 1;
    }
    false
}

/// Empties every slot for `relation_id`; true when one was found.
pub fn index_remove(index: &mut [IndexEntry; 64], relation_id: u64) -> (removed: bool)
    ensures
        final(index)@ == index_removed(old(index)@, relation_id),
        removed == exists|i: int| 0 <= i < 64 && old(index)@[i].occupied && old(index)@[i].relation_id == relation_id,
{
    let mut removed = false;
    let mut slot: usize = 0;
    while slot < 64
        invariant
            0 <= slot <= 64,
            forall|i: int| 0 <= i < slot ==> index@[i] == index_removed(old(index)@, relation_id)[i],
            forall|i: int| slot <= i < 64 ==> index@[i] == old(index)@[i],
            removed == exists|i: int| 0 <= i < slot && old(index)@[i].occupied && old(index)@[i].relation_id == relation_id,
        decreases 64 - slot,
    {
        if index[slot].occupied && index[slot].relation_id == relation_id {
            index[slot] = IndexEntry::empty();
            removed = true;
        }
        slot = slot + 1;
    }
    assert(index@ =~= index_removed(old(index)@, relation_id));
    removed
}

/// Relation ID of the first index slot for `key`.
pub fn index_find(index: &[IndexEntry; 64], key: u64) -> (r: Option<u64>)
    ensures
        r == index_lookup(index@, key, 0),
{
    let mut slot: usize = 0;
    while slot < 64
        invariant
            0 <= slot <= 64,
            index_lookup(index@, key, 0) == index_lookup(index@, key, slot as int),
        decreases 64 - slot,
    {
        if index[slot].occupied && index[slot].key == key {
            return Some(index[slot].relation_id);
        }
        slot = slot + 1;
    }
    None
}

pub const FNV_OFFSET: u64 = 0xcbf2_9ce4_8422_2325;
pub const FNV_PRIME: u64 = 0x0000_0100_0000_01b3;

/// One FNV-1a step.
pub open spec fn fnv_mix(state: u64, byte: u8) -> u64 {
    (((state ^ (byte as u64)) as int * FNV_PRIME as int) % 0x1_0000_0000_0000_0000) as u64
}

/// FNV-1a hash of the first `n` bytes of `s`.
pub open spec fn fnv_upto(s: Seq<u8>, n: nat) -> u64
    decreases n,
{
    if n == 0 { FNV_OFFSET } else { fnv_mix(fnv_upto(s, (n - 1) as nat), s[n - 1]) }
}

/// FNV-1a hash of a byte sequence.
pub open spec fn fnv1a(s: Seq<u8>) -> u64 {
    fnv_upto(s, s.len())
}

/// Hashes a byte buffer with FNV-1a.
pub fn fnv1a_bytes(data: &[u8], len: usize) -> (h: u64)
    requires
        len <= data@.len(),
    ensures
        h == fnv1a(data@.subrange(0, len as int)),
{
    let mut state = FNV_OFFSET;
    let mut i: usize = 0;
    while i < len
        invariant
            0 <= i <= len,
            len <= data@.len(),
            state == fnv_upto(data@, i as nat),
        decreases len - i,
    {
        proof {
            assert((i + 1) as nat - 1 == i);
        }
        state = (state ^ (data[i] as u64)).wrapping_mul(FNV_PRIME);
        i = i + 1;
    }
    proof {
        lemma_fnv_prefix(data@, len as nat);
    }
    state
}

/// Hashing a prefix only looks at the prefix.
pub proof fn lemma_fnv_prefix(s: Seq<u8>, n: nat)
    requires
        n <= s.len(),
    ensures
        fnv_upto(s, n) == fnv1a(s.subrange(0, n as int)),
    decreases n,
{
    let t = s.subrange(0, n as int);
    lemma_fnv_agree(s, t, n);
}

proof fn lemma_fnv_agree(s: Seq<u8>, t: Seq<u8>, n: nat)
    requires
        n <= s.len(),
        n <= t.len(),
        forall|i: int| 0 <= i < n ==> s[i] == t[i],
    ensures
        fnv_upto(s, n) == fnv_upto(t, n),
    decreases n,
{
    if n > 0 {
        lemma_fnv_agree(s, t, (n - 1) as nat);
    }
}

/// The canonical bytes over which a relation's integrity value is computed.
#[verifier::opaque]
pub open spec fn record_bytes(
    id: u64,
    r: Relation,
    m: RelationMetadata,
    p: RelationProvenance,
) -> Seq<u8> {
    bytes64(id) + bytes64(r.source) + bytes32(r.relation) + bytes64(r.target) + bytes64(r.context)
        + bytes64(m.created_at) + bytes64(m.updated_at) + bytes16(m.version) + bytes32(m.state)
        + bytes64(p.origin) + seq![source_code(p.source)] + bytes64(p.revision)
}

pub proof fn lemma_record_len(id: u64, r: Relation, m: RelationMetadata, p: RelationProvenance)
    ensures
        record_bytes(id, r, m, p).len() == 75,
{
    reveal(record_bytes);
}

/// Deterministic integrity value of a relation record.
pub open spec fn integrity_of(id: u64, r: Relation, m: RelationMetadata, p: RelationProvenance) -> u64 {
    fnv1a(record_bytes(id, r, m, p))
}

pub const RECORD_BYTES: usize = 75;

/// The integrity record bytes of a relation.
pub fn record_into(
    id: u64,
    relation: &Relation,
    metadata: &RelationMetadata,
    provenance: &RelationProvenance,
) -> (buf: [u8; 75])
    ensures
        buf@ == record_bytes(id, *relation, *metadata, *provenance),
{
    let mut buf = [0u8; 75];
    put_u64(&mut buf, 0, id);
    put_u64(&mut buf, 8, relation.source);
    put_u32(&mut buf, 16, relation.relation);
    put_u64(&mut buf, 20, relation.target);
    put_u64(&mut buf, 28, relation.context);
    put_u64(&mut buf, 36, metadata.created_at);
    put_u64(&mut buf, 44, metadata.updated_at);
    put_u16(&mut buf, 52, metadata.version);
    put_u32(&mut buf, 54, metadata.state);
    put_u64(&mut buf, 58, provenance.origin);
    buf[66] = source_to_u8(provenance.source);
    put_u64(&mut buf, 67, provenance.revision);
    proof {
        reveal(record_bytes);
        assert(buf@ =~= record_bytes(id, *relation, *metadata, *provenance));
    }
    buf
}

/// Copies `src` into `buf` at `off`.
pub fn copy_into(buf: &mut [u8], off: usize, src: &[u8])
    requires
        off + src@.len() <= old(buf).len(),
    ensures
        final(buf)@ == old(buf)@.subrange(0, off as int) + src@ + old(buf)@.subrange(off + src@.len(), old(buf)@.len() as int),
{
    let mut i: usize = 0;
    while i < src.len()
        invariant
            0 <= i <= src@.len(),
            off + src@.len() <= buf.len(),
            buf@.len() == old(buf)@.len(),
            forall|j: int| 0 <= j < off ==> buf@[j] == old(buf)@[j],
            forall|j: int| 0 <= j < i ==> buf@[off + j] == src@[j],
            forall|j: int| off + i <= j < buf@.len() ==> buf@[j] == old(buf)@[j],
        decreases src@.len() - i,
    {
        buf[off + i] = src[i];
        i = i + 1;
    }
    assert(buf@ =~= old(buf)@.subrange(0, off as int) + src@ + old(buf)@.subrange(off + src@.len(), old(buf)@.len() as int));
}

/// Computes the FNV-1a integrity value of a relation record.
pub fn integrity_hash(
    id: u64,
    relation: &Relation,
    metadata: &RelationMetadata,
    provenance: &RelationProvenance,
) -> (h: u64)
    ensures
        h == integrity_of(id, *relation, *metadata, *provenance),
{
    let buf = record_into(id, relation, metadata, provenance);
    proof {
        assert(buf@.subrange(0, 75) =~= buf@);
    }
    fnv1a_bytes(&buf, 75)
}

/// First occupied slot holding relation `id`, from `i` on.
pub open spec fn slot_of(slots: Seq<RelationEntry>, id: u64, i: int) -> Option<int>
    decreases slots.len() - i,
{
    if i < 0 || i >= slots.len() {
        None
    } else if slots[i].occupied && slots[i].id == id {
        Some(i)
    } else {
        slot_of(slots, id, i + 1)
    }
}

pub proof fn lemma_slot_of(slots: Seq<RelationEntry>, id: u64, i: int)
    requires
        0 <= i,
    ensures
        slot_of(slots, id, i) matches Some(k) ==> i <= k < slots.len() && slots[k].occupied && slots[k].id == id
            && forall|j: int| i <= j < k ==> !(slots[j].occupied && slots[j].id == id),
        slot_of(slots, id, i) is None ==> forall|j: int| i <= j < slots.len() ==> !(slots[j].occupied && slots[j].id == id),
    decreases slots.len() - i,
{
    if i < slots.len() && !(slots[i].occupied && slots[i].id == id) {
        lemma_slot_of(slots, id, i + 1);
    }
}

/// First unoccupied registry slot from `i` on.
pub open spec fn free_slot(slots: Seq<RelationEntry>, i: int) -> Option<int>
    decreases slots.len() - i,
{
    if i < 0 || i >= slots.len() {
        None
    } else if !slots[i].occupied {
        Some(i)
    } else {
        free_slot(slots, i + 1)
    }
}

/// Number of occupied slots among the first `n`.
pub open spec fn occupied_upto(slots: Seq<RelationEntry>, n: int) -> nat
    decreases n,
{
    if n <= 0 {
        0
    } else {
        occupied_upto(slots, n - 1) + if slots[n - 1].occupied { 1nat } else { 0nat }
    }
}

/// First occupied slot from `i` on whose relation equals the four fields.
pub open spec fn slot_matching(slots: Seq<RelationEntry>, r: Relation, i: int) -> Option<int>
    decreases slots.len() - i,
{
    if i < 0 || i >= slots.len() {
        None
    } else if slots[i].occupied && slots[i].relation == r {
        Some(i)
    } else {
        slot_matching(slots, r, i + 1)
    }
}

/// The next ID after `id`; 0 marks an exhausted ID space.
pub open spec fn id_after(id: u64) -> u64 {
    if id == u64::MAX { 0 } else { (id + 1) as u64 }
}

/// The relation registry.
pub struct RelationRegistry {
    relations: [RelationEntry; 64],
    source_index: [IndexEntry; 64],
    target_index: [IndexEntry; 64],
    semantic_index: [IndexEntry; 64],
    next_id: u64,
}

impl RelationRegistry {
    /// The registry slots.
    pub closed spec fn slots(&self) -> Seq<RelationEntry> {
        self.relations@
    }

    pub closed spec fn sources(&self) -> Seq<IndexEntry> {
        self.source_index@
    }

    pub closed spec fn targets(&self) -> Seq<IndexEntry> {
        self.target_index@
    }

    pub closed spec fn semantics(&self) -> Seq<IndexEntry> {
        self.semantic_index@
    }

    /// The next relation ID to hand out; 0 once IDs are exhausted.
    pub closed spec fn spec_next_id(&self) -> u64 {
        self.next_id
    }

    pub open spec fn spec_count(&self) -> nat {
        occupied_upto(self.slots(), 64)
    }

    /// The entry that holds relation `id`, if any.
    pub open spec fn entry(&self, id: u64) -> Option<RelationEntry> {
        if id == 0 {
            None
        } else {
            match slot_of(self.slots(), id, 0) {
                Some(k) => Some(self.slots()[k]),
                None => None,
            }
        }
    }

    pub open spec fn is_empty_registry(&self) -> bool {
        &&& self.slots().len() == 64
        &&& self.sources().len() == 64
        &&& self.targets().len() == 64
        &&& self.semantics().len() == 64
        &&& forall|i: int| 0 <= i < 64 ==> #[trigger] self.slots()[i] == empty_entry()
        &&& forall|i: int| 0 <= i < 64 ==> #[trigger] self.sources()[i] == empty_index_entry()
        &&& forall|i: int| 0 <= i < 64 ==> #[trigger] self.targets()[i] == empty_index_entry()
        &&& forall|i: int| 0 <= i < 64 ==> #[trigger] self.semantics()[i] == empty_index_entry()
        &&& self.spec_next_id() == 1
    }

    /// An empty registry whose first relation ID will be 1.
    pub fn new() -> (r: Self)
        ensures
            r.is_empty_registry(),
            r.slots().len() == 64,
    {
        RelationRegistry {
            relations: [RelationEntry::empty(); 64],
            source_index: [IndexEntry::empty(); 64],
            target_index: [IndexEntry::empty(); 64],
            semantic_index: [IndexEntry::empty(); 64],
            next_id: 1,
        }
    }

    /// Takes the next relation ID; `None` once the ID space is exhausted.
    fn next_relation_id(&mut self) -> (r: Option<u64>)
        ensures
            old(self).spec_next_id() == 0 ==> r is None && *final(self) == *old(self),
            old(self).spec_next_id() != 0 ==> r == Some(old(self).spec_next_id())
                && final(self).spec_next_id() == id_after(old(self).spec_next_id()),
            final(self).slots() == old(self).slots(),
            final(self).sources() == old(self).sources(),
            final(self).targets() == old(self).targets(),
            final(self).semantics() == old(self).semantics(),
    {
        if self.next_id == 0 {
            return None;
        }
        let id = self.next_id;
        self.next_id = match self.next_id.checked_add(1) {
            Some(n) => n,
            None => 0,
        };
        Some(id)
    }

    /// Number of stored relations.
    pub fn count(&self) -> (n: usize)
        ensures
            n == self.spec_count(),
    {
        let mut total: usize = 0;
        let mut index: usize = 0;
        while index < 64
            invariant
                0 <= index <= 64,
                total == occupied_upto(self.relations@, index as int),
                total <= index,
            decreases 64 - index,
        {
            if self.relations[index].occupied {
                total = total + 1;
            }
            index = index + 1;
        }
        total
    }

    /// Slot of relation `id`.
    fn find_slot(&self, id: u64) -> (r: Option<usize>)
        ensures
            r matches Some(k) ==> k < 64 && self.slots()[k as int].occupied && self.slots()[k as int].id == id
                && slot_of(self.slots(), id, 0) == Some(k as int),
            r is None ==> slot_of(self.slots(), id, 0) is None,
    {
        let mut index: usize = 0;
        while index < 64
            invariant
                0 <= index <= 64,
                slot_of(self.relations@, id, 0) == slot_of(self.relations@, id, index as int),
            decreases 64 - index,
        {
            if self.relations[index].occupied && self.relations[index].id == id {
                return Some(index);
            }
            index = index + 1;
        }
        proof {
            lemma_slot_of(self.relations@, id, 64);
        }
        None
    }

    /// Whether relation `id` is stored; ID 0 never is.
    pub fn contains(&self, id: u64) -> (r: bool)
        ensures
            r == (self.entry(id) is Some),
    {
        if id == 0 {
            return false;
        }
        self.find_slot(id).is_some()
    }

    /// Adds a relation created at time `now`, returning its new ID.
    ///
    /// Fails when the relation is invalid, the registry is full, IDs are exhausted or an
    /// index is full; in the last case the ID is consumed and the indexes are rolled back.
    pub fn add(&mut self, relation: Relation, now: u64) -> (r: Option<u64>)
        ensures
            !relation_valid(relation) || free_slot(old(self).slots(), 0) is None || old(self).spec_next_id() == 0
                ==> r is None && *final(self) == *old(self),
            relation_valid(relation) && free_slot(old(self).slots(), 0) is Some && old(self).spec_next_id() != 0
                ==> {
                let id = old(self).spec_next_id();
                let k = free_slot(old(self).slots(), 0)->0;
                let meta = RelationMetadata { created_at: now, updated_at: now, version: CURRENT_VERSION, state: semantic::ACTIVE };
                let s1 = index_inserted(old(self).sources(), relation.source, id);
                let t1 = index_inserted(old(self).targets(), relation.target, id);
                let m1 = index_inserted(old(self).semantics(), relation.relation as u64, id);
                &&& final(self).spec_next_id() == id_after(id)
                &&& if s1 is Some && t1 is Some && m1 is Some {
                    &&& r == Some(id)
                    &&& final(self).sources() == s1->0
                    &&& final(self).targets() == t1->0
                    &&& final(self).semantics() == m1->0
                    &&& final(self).slots() == old(self).slots().update(
                        k,
                        RelationEntry {
                            id,
                            relation,
                            metadata: meta,
                            provenance: default_provenance(),
                            trust: RelationTrust::Unverified,
                            integrity: integrity_of(id, relation, meta, default_provenance()),
                            occupied: true,
                        },
                    )
                } else {
                    &&& r is None
                    &&& final(self).slots() == old(self).slots()
                    &&& final(self).sources() == if s1 is Some { index_removed(s1->0, id) } else { old(self).sources() }
                    &&& final(self).targets() == if s1 is Some && t1 is Some { index_removed(t1->0, id) } else { old(self).targets() }
                    &&& final(self).semantics() == old(self).semantics()
                }
            },
    {
        if !is_valid(&relation) {
            return None;
        }
        let metadata = RelationMetadata {
            created_at: now,
            updated_at: now,
            version: CURRENT_VERSION,
            state: semantic::ACTIVE,
        };
        let mut slot: usize = 0;
        while slot < 64
            invariant
                0 <= slot <= 64,
                *self == *old(self),
                relation_valid(relation),
                metadata == (RelationMetadata { created_at: now, updated_at: now, version: CURRENT_VERSION, state: semantic::ACTIVE }),
                free_slot(self.relations@, 0) == free_slot(self.relations@, slot as int),
            decreases 64 - slot,
        {
            if !self.relations[slot].occupied {
                let id = match self.next_relation_id() {
                    Some(id) => id,
                    None => {
                        return None;
                    },
                };
                if !index_insert(&mut self.source_index, relation.source, id) {
                    return None;
                }
                if !index_insert(&mut self.target_index, relation.target, id) {
                    index_remove(&mut self.source_index, id);
                    return None;
                }
                if !index_insert(&mut self.semantic_index, relation.relation as u64, id) {
                    index_remove(&mut self.source_index, id);
                    index_remove(&mut self.target_index, id);
                    return None;
                }
                let provenance = RelationProvenance { origin: 0, source: ProvenanceSource::Local, revision: 1 };
                let integrity = integrity_hash(id, &relation, &metadata, &provenance);
                self.relations[slot] = RelationEntry {
                    id,
                    relation,
                    metadata,
                    provenance,
                    trust: RelationTrust::Unverified,
                    integrity,
                    occupied: true,
                };
                return Some(id);
            }
            slot = slot + 1;
        }
        None
    }
}

impl RelationRegistry {
    /// ID of the first stored relation equal to the given fields.
    pub fn find(&self, source: ObjectId, relation: SemanticId, target: ObjectId, context: ContextId) -> (r: Option<u64>)
        ensures
            match slot_matching(self.slots(), Relation { source, relation, target, context }, 0) {
                Some(k) => r == Some(self.slots()[k].id),
                None => r is None,
            },
    {
        let ghost wanted = Relation { source, relation, target, context };
        let mut index: usize = 0;
        while index < 64
            invariant
                0 <= index <= 64,
                wanted == (Relation { source, relation, target, context }),
                slot_matching(self.relations@, wanted, 0) == slot_matching(self.relations@, wanted, index as int),
            decreases 64 - index,
        {
            if self.relations[index].occupied {
                let c = self.relations[index].relation;
                if c.source == source && c.relation == relation && c.target == target && c.context == context {
                    return Some(self.relations[index].id);
                }
            }
            index = index + 1;
        }
        None
    }

    /// First relation ID indexed by source object; none for object 0.
    pub fn find_by_source(&self, source: ObjectId) -> (r: Option<u64>)
        ensures
            source == 0 ==> r is None,
            source != 0 ==> r == index_lookup(self.sources(), source, 0),
    {
        if source == 0 {
            return None;
        }
        index_find(&self.source_index, source)
    }

    /// First relation ID indexed by target object; none for object 0.
    pub fn find_by_target(&self, target: ObjectId) -> (r: Option<u64>)
        ensures
            target == 0 ==> r is None,
            target != 0 ==> r == index_lookup(self.targets(), target, 0),
    {
        if target == 0 {
            return None;
        }
        index_find(&self.target_index, target)
    }

    /// First relation ID indexed by semantic relation type; none for an invalid type.
    pub fn find_by_semantic(&self, relation: SemanticId) -> (r: Option<u64>)
        ensures
            !spec_is_valid(relation) ==> r is None,
            spec_is_valid(relation) ==> r == index_lookup(self.semantics(), relation as u64, 0),
    {
        if !semantic::is_valid(relation) {
            return None;
        }
        index_find(&self.semantic_index, relation as u64)
    }

    /// Removes relation `id` and its index entries.
    pub fn remove(&mut self, id: u64) -> (r: bool)
        ensures
            r == (old(self).entry(id) is Some),
            !r ==> *final(self) == *old(self),
            r ==> {
                &&& final(self).slots() == old(self).slots().update(slot_of(old(self).slots(), id, 0)->0, empty_entry())
                &&& final(self).sources() == index_removed(old(self).sources(), id)
                &&& final(self).targets() == index_removed(old(self).targets(), id)
                &&& final(self).semantics() == index_removed(old(self).semantics(), id)
                &&& final(self).spec_next_id() == old(self).spec_next_id()
            },
    {
        if id == 0 {
            return false;
        }
        match self.find_slot(id) {
            None => false,
            Some(k) => {
                self.relations[k] = RelationEntry::empty();
                index_remove(&mut self.source_index, id);
                index_remove(&mut self.target_index, id);
                index_remove(&mut self.semantic_index, id);
                true
            },
        }
    }

    /// The stored relation `id`.
    pub fn relation(&self, id: u64) -> (r: Option<Relation>)
        ensures
            r == match self.entry(id) { Some(e) => Some(e.relation), None => None::<Relation> },
    {
        if id == 0 {
            return None;
        }
        match self.find_slot(id) {
            Some(k) => Some(self.relations[k].relation),
            None => None,
        }
    }

    /// The metadata of relation `id`.
    pub fn metadata(&self, id: u64) -> (r: Option<RelationMetadata>)
        ensures
            r == match self.entry(id) { Some(e) => Some(e.metadata), None => None::<RelationMetadata> },
    {
        if id == 0 {
            return None;
        }
        match self.find_slot(id) {
            Some(k) => Some(self.relations[k].metadata),
            None => None,
        }
    }

    /// The provenance of relation `id`.
    pub fn provenance(&self, id: u64) -> (r: Option<RelationProvenance>)
        ensures
            r == match self.entry(id) { Some(e) => Some(e.provenance), None => None::<RelationProvenance> },
    {
        if id == 0 {
            return None;
        }
        match self.find_slot(id) {
            Some(k) => Some(self.relations[k].provenance),
            None => None,
        }
    }

    /// The trust state of relation `id`.
    pub fn trust(&self, id: u64) -> (r: Option<RelationTrust>)
        ensures
            r == match self.entry(id) { Some(e) => Some(e.trust), None => None::<RelationTrust> },
    {
        if id == 0 {
            return None;
        }
        match self.find_slot(id) {
            Some(k) => Some(self.relations[k].trust),
            None => None,
        }
    }

    /// The stored integrity value of relation `id`.
    pub fn integrity(&self, id: u64) -> (r: Option<u64>)
        ensures
            r == match self.entry(id) { Some(e) => Some(e.integrity), None => None::<u64> },
    {
        if id == 0 {
            return None;
        }
        match self.find_slot(id) {
            Some(k) => Some(self.relations[k].integrity),
            None => None,
        }
    }

    /// Recomputes relation `id`'s integrity value; marks it `Verified` when it matches the
    /// stored one and `Invalid` otherwise. Returns whether it matched.
    pub fn verify_integrity(&mut self, id: u64) -> (r: bool)
        ensures
            old(self).entry(id) is None ==> !r && *final(self) == *old(self),
            old(self).entry(id) matches Some(e) ==> {
                let k = slot_of(old(self).slots(), id, 0)->0;
                let ok = integrity_of(e.id, e.relation, e.metadata, e.provenance) == e.integrity;
                &&& r == ok
                &&& final(self).slots() == old(self).slots().update(
                    k,
                    RelationEntry { trust: if ok { RelationTrust::Verified } else { RelationTrust::Invalid }, ..e },
                )
                &&& final(self).sources() == old(self).sources()
                &&& final(self).targets() == old(self).targets()
                &&& final(self).semantics() == old(self).semantics()
                &&& final(self).spec_next_id() == old(self).spec_next_id()
            },
    {
        if id == 0 {
            return false;
        }
        match self.find_slot(id) {
            None => false,
            Some(k) => {
                let e = self.relations[k];
                let valid = e.occupied && integrity_hash(e.id, &e.relation, &e.metadata, &e.provenance) == e.integrity;
                self.relations[k].trust = if valid { RelationTrust::Verified } else { RelationTrust::Invalid };
                valid
            },
        }
    }

    /// Marks relation `id` as conflicted without changing its data.
    pub fn mark_conflict(&mut self, id: u64) -> (r: bool)
        ensures
            r == (old(self).entry(id) is Some),
            !r ==> *final(self) == *old(self),
            r ==> {
                let k = slot_of(old(self).slots(), id, 0)->0;
                &&& final(self).slots() == old(self).slots().update(
                    k,
                    RelationEntry { trust: RelationTrust::Conflict, ..old(self).slots()[k] },
                )
                &&& final(self).sources() == old(self).sources()
                &&& final(self).targets() == old(self).targets()
                &&& final(self).semantics() == old(self).semantics()
                &&& final(self).spec_next_id() == old(self).spec_next_id()
            },
    {
        if id == 0 {
            return false;
        }
        match self.find_slot(id) {
            None => false,
            Some(k) => {
                self.relations[k].trust = RelationTrust::Conflict;
                true
            },
        }
    }

    /// Whether an update with the given version and revision is newer than relation `id`.
    pub fn is_newer(&self, id: u64, incoming_version: u16, incoming_revision: u64) -> (r: Option<bool>)
        ensures
            incoming_version == 0 || incoming_revision == 0 ==> r is None,
            incoming_version != 0 && incoming_revision != 0 ==> r == match self.entry(id) {
                Some(e) => Some(incoming_version > e.metadata.version || (incoming_version == e.metadata.version
                    && incoming_revision > e.provenance.revision)),
                None => None::<bool>,
            },
    {
        if id == 0 || incoming_version == 0 || incoming_revision == 0 {
            return None;
        }
        match self.find_slot(id) {
            None => None,
            Some(k) => {
                let current = self.relations[k];
                Some(incoming_version > current.metadata.version || (incoming_version
                    == current.metadata.version && incoming_revision > current.provenance.revision))
            },
        }
    }
}

/// Maximum number of distinct graph nodes met while traversing the registry.
pub const MAX_TRAVERSAL_NODES: usize = 65;
pub const SERIALIZATION_MAGIC: u32 = 0x5447_524C;
pub const SERIALIZATION_VERSION: u16 = 2;
pub const LEGACY_SERIALIZATION_VERSION: u16 = 1;
pub const SERIALIZED_HEADER_BYTES: usize = 8;
pub const LEGACY_SERIALIZED_RELATION_BYTES: usize = 58;
/// Bytes of one serialized relation: the integrity record, trust byte and integrity value.
pub const SERIALIZED_RELATION_BYTES: usize = 84;
pub const MAX_SERIALIZED_BYTES: usize = 5384;
/// Bytes of one sync frame: operation byte, integrity record, trust byte, integrity value.
pub const SYNC_FRAME_BYTES: usize = 85;
/// Bytes of a sync frame before its integrity value.
pub const SYNC_FRAME_BODY_BYTES: usize = 77;

/// Network synchronization operation for a relation record.
#[derive(Clone, Copy, PartialEq, Eq, Structural)]
pub enum SyncOperation {
    Add,
    Remove,
    Update,
}

pub open spec fn op_code(o: SyncOperation) -> u8 {
    match o {
        SyncOperation::Add => 1,
        SyncOperation::Remove => 2,
        SyncOperation::Update => 3,
    }
}

/// Fixed-size, transport-neutral relation synchronization frame.
#[derive(Clone, Copy)]
pub struct RelationSyncFrame {
    pub operation: SyncOperation,
    pub relation_id: u64,
    pub relation: Relation,
    pub metadata: RelationMetadata,
    pub provenance: RelationProvenance,
    pub trust: RelationTrust,
    pub integrity: u64,
}

/// The frame's record fields are well formed.
pub open spec fn frame_fields_valid(f: RelationSyncFrame) -> bool {
    f.relation_id != 0 && relation_valid(f.relation) && metadata_valid(f.metadata) && provenance_valid(f.provenance)
}

/// The frame's integrity value matches its record.
pub open spec fn frame_sealed(f: RelationSyncFrame) -> bool {
    f.integrity == integrity_of(f.relation_id, f.relation, f.metadata, f.provenance)
}

/// Wire bytes of a sync frame.
pub open spec fn frame_bytes(f: RelationSyncFrame) -> Seq<u8> {
    seq![op_code(f.operation)] + record_bytes(f.relation_id, f.relation, f.metadata, f.provenance) + seq![
        trust_code(f.trust),
    ] + bytes64(f.integrity)
}

pub open spec fn decode_source(b: u8) -> Option<ProvenanceSource> {
    if b == 1 {
        Some(ProvenanceSource::Local)
    } else if b == 2 {
        Some(ProvenanceSource::Remote)
    } else if b == 3 {
        Some(ProvenanceSource::Recovered)
    } else {
        None
    }
}

pub open spec fn decode_trust(b: u8) -> Option<RelationTrust> {
    if b == 1 {
        Some(RelationTrust::Unverified)
    } else if b == 2 {
        Some(RelationTrust::Verified)
    } else if b == 3 {
        Some(RelationTrust::Conflict)
    } else if b == 4 {
        Some(RelationTrust::Invalid)
    } else {
        None
    }
}

pub open spec fn decode_op(b: u8) -> Option<SyncOperation> {
    if b == 1 {
        Some(SyncOperation::Add)
    } else if b == 2 {
        Some(SyncOperation::Remove)
    } else if b == 3 {
        Some(SyncOperation::Update)
    } else {
        None
    }
}

/// The relation encoded at `off` of `s` (fields source, type, target, context).
pub open spec fn relation_at(s: Seq<u8>, off: int) -> Relation {
    Relation {
        source: le64(s, off) as u64,
        relation: le32(s, off + 8) as u32,
        target: le64(s, off + 12) as u64,
        context: le64(s, off + 20) as u64,
    }
}

/// The metadata encoded at `off` of `s`.
pub open spec fn metadata_at(s: Seq<u8>, off: int) -> RelationMetadata {
    RelationMetadata {
        created_at: le64(s, off) as u64,
        updated_at: le64(s, off + 8) as u64,
        version: le16(s, off + 16) as u16,
        state: le32(s, off + 18) as u32,
    }
}

/// The sync frame that `s` decodes to, if any.
pub open spec fn decoded_frame(s: Seq<u8>) -> Option<RelationSyncFrame> {
    if s.len() != 85 {
        None
    } else {
        match (decode_op(s[0]), decode_source(s[67]), decode_trust(s[76])) {
            (Some(op), Some(src), Some(tr)) => {
                let f = RelationSyncFrame {
                    operation: op,
                    relation_id: le64(s, 1) as u64,
                    relation: relation_at(s, 9),
                    metadata: metadata_at(s, 37),
                    provenance: RelationProvenance { origin: le64(s, 59) as u64, source: src, revision: le64(s, 68) as u64 },
                    trust: tr,
                    integrity: le64(s, 77) as u64,
                };
                if frame_fields_valid(f) && frame_sealed(f) {
                    Some(f)
                } else {
                    None
                }
            },
            _ => None,
        }
    }
}

/// Encodes a sync frame into `buffer`, returning its length. A buffer that
/// holds the frame up to its integrity value but not that value receives
/// that much of the frame and the encoding fails.
pub fn encode_sync_frame(frame: &RelationSyncFrame, buffer: &mut [u8]) -> (r: Option<usize>)
    ensures
        old(buffer)@.len() < 77 || !frame_fields_valid(*frame) ==> r is None && final(buffer)@ == old(buffer)@,
        77 <= old(buffer)@.len() < 85 && frame_fields_valid(*frame) ==> {
            &&& r is None
            &&& final(buffer)@.len() == old(buffer)@.len()
            &&& final(buffer)@.subrange(0, 77) == frame_bytes(*frame).subrange(0, 77)
            &&& final(buffer)@.subrange(77, old(buffer)@.len() as int) == old(buffer)@.subrange(77, old(buffer)@.len() as int)
        },
        old(buffer)@.len() >= 85 && frame_fields_valid(*frame) ==> {
            &&& r == Some(85usize)
            &&& final(buffer)@.len() == old(buffer)@.len()
            &&& final(buffer)@.subrange(0, 85) == frame_bytes(*frame)
            &&& final(buffer)@.subrange(85, old(buffer)@.len() as int) == old(buffer)@.subrange(85, old(buffer)@.len() as int)
        },
{
    if buffer.len() < SYNC_FRAME_BODY_BYTES || frame.relation_id == 0 || !is_valid(&frame.relation)
        || !metadata_is_valid(&frame.metadata) || !provenance_is_valid(&frame.provenance) {
        return None;
    }
    buffer[0] = match frame.operation {
        SyncOperation::Add => 1,
        SyncOperation::Remove => 2,
        SyncOperation::Update => 3,
    };
    let record = record_into(frame.relation_id, &frame.relation, &frame.metadata, &frame.provenance);
    proof {
        lemma_record_len(frame.relation_id, frame.relation, frame.metadata, frame.provenance);
    }
    copy_into(buffer, 1, &record);
    buffer[76] = trust_to_u8(frame.trust);
    if buffer.len() < SYNC_FRAME_BYTES {
        proof {
            assert(buffer@.subrange(0, 77) =~= frame_bytes(*frame).subrange(0, 77));
            assert(buffer@.subrange(77, old(buffer)@.len() as int) =~= old(buffer)@.subrange(77, old(buffer)@.len() as int));
        }
        return None;
    }
    put_u64(buffer, 77, frame.integrity);
    proof {
        assert(buffer@.subrange(0, 85) =~= frame_bytes(*frame));
        assert(buffer@.subrange(85, old(buffer)@.len() as int) =~= old(buffer)@.subrange(85, old(buffer)@.len() as int));
    }
    Some(SYNC_FRAME_BYTES)
}

pub fn decode_source_byte(b: u8) -> (r: Option<ProvenanceSource>)
    ensures
        r == decode_source(b),
{
    match b {
        1 => Some(ProvenanceSource::Local),
        2 => Some(ProvenanceSource::Remote),
        3 => Some(ProvenanceSource::Recovered),
        _ => None,
    }
}

pub fn decode_trust_byte(b: u8) -> (r: Option<RelationTrust>)
    ensures
        r == decode_trust(b),
{
    match b {
        1 => Some(RelationTrust::Unverified),
        2 => Some(RelationTrust::Verified),
        3 => Some(RelationTrust::Conflict),
        4 => Some(RelationTrust::Invalid),
        _ => None,
    }
}

/// Reads the relation encoded at `off`.
pub fn read_relation(data: &[u8], off: usize) -> (r: Relation)
    requires
        off + 28 <= data.len(),
    ensures
        r == relation_at(data@, off as int),
{
    proof {
        lemma_le_bounds(data@, off as int);
        lemma_le_bounds(data@, off + 8);
        lemma_le_bounds(data@, off + 12);
        lemma_le_bounds(data@, off + 20);
    }
    Relation {
        source: get_u64(data, off),
        relation: get_u32(data, off + 8),
        target: get_u64(data, off + 12),
        context: get_u64(data, off + 20),
    }
}

/// Reads the metadata encoded at `off`.
pub fn read_metadata(data: &[u8], off: usize) -> (m: RelationMetadata)
    requires
        off + 22 <= data.len(),
    ensures
        m == metadata_at(data@, off as int),
{
    proof {
        lemma_le_bounds(data@, off as int);
        lemma_le_bounds(data@, off + 8);
        lemma_le_bounds(data@, off + 16);
        lemma_le_bounds(data@, off + 18);
    }
    RelationMetadata {
        created_at: get_u64(data, off),
        updated_at: get_u64(data, off + 8),
        version: get_u16(data, off + 16),
        state: get_u32(data, off + 18),
    }
}

/// Decodes a sync frame; `None` unless the bytes are a well-formed, sealed frame.
pub fn decode_sync_frame(data: &[u8]) -> (r: Option<RelationSyncFrame>)
    ensures
        r == decoded_frame(data@),
{
    if data.len() != SYNC_FRAME_BYTES {
        return None;
    }
    let operation = match data[0] {
        1 => SyncOperation::Add,
        2 => SyncOperation::Remove,
        3 => SyncOperation::Update,
        _ => {
            return None;
        },
    };
    let source = match decode_source_byte(data[67]) {
        Some(s) => s,
        None => {
            return None;
        },
    };
    let trust = match decode_trust_byte(data[76]) {
        Some(t) => t,
        None => {
            return None;
        },
    };
    proof {
        lemma_le_bounds(data@, 1);
        lemma_le_bounds(data@, 59);
        lemma_le_bounds(data@, 68);
        lemma_le_bounds(data@, 77);
    }
    let relation_id = get_u64(data, 1);
    let relation = read_relation(data, 9);
    let metadata = read_metadata(data, 37);
    let provenance = RelationProvenance { origin: get_u64(data, 59), source, revision: get_u64(data, 68) };
    let integrity = get_u64(data, 77);
    if relation_id == 0 || !is_valid(&relation) || !metadata_is_valid(&metadata) || !provenance_is_valid(&provenance)
        || integrity_hash(relation_id, &relation, &metadata, &provenance) != integrity {
        return None;
    }
    Some(RelationSyncFrame { operation, relation_id, relation, metadata, provenance, trust, integrity })
}

/// Where each field lies in a relation's integrity record.
#[verifier::rlimit(50)]
pub proof fn lemma_record_fields(id: u64, r: Relation, m: RelationMetadata, p: RelationProvenance)
    ensures
        ({
            let b = record_bytes(id, r, m, p);
            &&& b.len() == 75
            &&& b.subrange(0, 8) == bytes64(id)
            &&& b.subrange(8, 16) == bytes64(r.source)
            &&& b.subrange(16, 20) == bytes32(r.relation)
            &&& b.subrange(20, 28) == bytes64(r.target)
            &&& b.subrange(28, 36) == bytes64(r.context)
            &&& b.subrange(36, 44) == bytes64(m.created_at)
            &&& b.subrange(44, 52) == bytes64(m.updated_at)
            &&& b.subrange(52, 54) == bytes16(m.version)
            &&& b.subrange(54, 58) == bytes32(m.state)
            &&& b.subrange(58, 66) == bytes64(p.origin)
            &&& b[66] == source_code(p.source)
            &&& b.subrange(67, 75) == bytes64(p.revision)
        }),
{
    reveal(record_bytes);
    let b = record_bytes(id, r, m, p);
    assert(b.subrange(0, 8) =~= bytes64(id));
    assert(b.subrange(8, 16) =~= bytes64(r.source));
    assert(b.subrange(16, 20) =~= bytes32(r.relation));
    assert(b.subrange(20, 28) =~= bytes64(r.target));
    assert(b.subrange(28, 36) =~= bytes64(r.context));
    assert(b.subrange(36, 44) =~= bytes64(m.created_at));
    assert(b.subrange(44, 52) =~= bytes64(m.updated_at));
    assert(b.subrange(52, 54) =~= bytes16(m.version));
    assert(b.subrange(54, 58) =~= bytes32(m.state));
    assert(b.subrange(58, 66) =~= bytes64(p.origin));
    assert(b.subrange(67, 75) =~= bytes64(p.revision));
}

/// The record decoded at `off` of `s` is the one whose bytes sit there.
pub proof fn lemma_record_decodes(s: Seq<u8>, off: int, id: u64, r: Relation, m: RelationMetadata, p: RelationProvenance)
    requires
        0 <= off,
        off + 75 <= s.len(),
        s.subrange(off, off + 75) == record_bytes(id, r, m, p),
    ensures
        le64(s, off) == id,
        relation_at(s, off + 8) == r,
        metadata_at(s, off + 36) == m,
        le64(s, off + 58) == p.origin,
        s[off + 66] == source_code(p.source),
        le64(s, off + 67) == p.revision,
{
    lemma_record_fields(id, r, m, p);
    let b = record_bytes(id, r, m, p);
    assert(s.subrange(off, off + 8) =~= b.subrange(0, 8));
    assert(s.subrange(off + 8, off + 16) =~= b.subrange(8, 16));
    assert(s.subrange(off + 16, off + 20) =~= b.subrange(16, 20));
    assert(s.subrange(off + 20, off + 28) =~= b.subrange(20, 28));
    assert(s.subrange(off + 28, off + 36) =~= b.subrange(28, 36));
    assert(s.subrange(off + 36, off + 44) =~= b.subrange(36, 44));
    assert(s.subrange(off + 44, off + 52) =~= b.subrange(44, 52));
    assert(s.subrange(off + 52, off + 54) =~= b.subrange(52, 54));
    assert(s.subrange(off + 54, off + 58) =~= b.subrange(54, 58));
    assert(s.subrange(off + 58, off + 66) =~= b.subrange(58, 66));
    assert(s.subrange(off + 67, off + 75) =~= b.subrange(67, 75));
    assert(s[off + 66] == b[66]);
    lemma_read64(s, off, id);
    lemma_read64(s, off + 8, r.source);
    lemma_read32(s, off + 16, r.relation);
    lemma_read64(s, off + 20, r.target);
    lemma_read64(s, off + 28, r.context);
    lemma_read64(s, off + 36, m.created_at);
    lemma_read64(s, off + 44, m.updated_at);
    lemma_read16(s, off + 52, m.version);
    lemma_read32(s, off + 54, m.state);
    lemma_read64(s, off + 58, p.origin);
    lemma_read64(s, off + 67, p.revision);
}

/// Decoding the encoding of a well-formed, sealed frame gives the frame back.
pub proof fn law_sync_frame_roundtrip(f: RelationSyncFrame)
    requires
        frame_fields_valid(f),
        frame_sealed(f),
    ensures
        decoded_frame(frame_bytes(f)) == Some(f),
{
    let s = frame_bytes(f);
    let b = record_bytes(f.relation_id, f.relation, f.metadata, f.provenance);
    lemma_record_len(f.relation_id, f.relation, f.metadata, f.provenance);
    assert(s.subrange(1, 76) =~= b);
    assert(s.subrange(77, 85) =~= bytes64(f.integrity));
    lemma_record_decodes(s, 1, f.relation_id, f.relation, f.metadata, f.provenance);
    lemma_read64(s, 77, f.integrity);
    assert(s[0] == op_code(f.operation));
    assert(s[76] == trust_code(f.trust));
}

/// Indexes after inserting relation `id` into the source, target and semantic indexes in
/// turn, stopping at the first full index: `(all inserted, sources, targets, semantics)`.
pub open spec fn index_all(
    src: Seq<IndexEntry>,
    tgt: Seq<IndexEntry>,
    sem: Seq<IndexEntry>,
    r: Relation,
    id: u64,
) -> (bool, Seq<IndexEntry>, Seq<IndexEntry>, Seq<IndexEntry>) {
    match index_inserted(src, r.source, id) {
        None => (false, src, tgt, sem),
        Some(s1) => match index_inserted(tgt, r.target, id) {
            None => (false, s1, tgt, sem),
            Some(t1) => match index_inserted(sem, r.relation as u64, id) {
                None => (false, s1, t1, sem),
                Some(m1) => (true, s1, t1, m1),
            },
        },
    }
}

/// The registry entry that a sync frame carries.
pub open spec fn frame_entry(f: RelationSyncFrame) -> RelationEntry {
    RelationEntry {
        id: f.relation_id,
        relation: f.relation,
        metadata: f.metadata,
        provenance: f.provenance,
        trust: f.trust,
        integrity: f.integrity,
        occupied: true,
    }
}

/// The stored entry carries exactly the frame's record and integrity.
pub open spec fn same_record(e: RelationEntry, f: RelationSyncFrame) -> bool {
    e.relation == f.relation && e.metadata == f.metadata && e.provenance == f.provenance && e.integrity == f.integrity
}

/// The frame supersedes the entry: a higher version, or an equal version with a higher revision.
pub open spec fn frame_newer(e: RelationEntry, f: RelationSyncFrame) -> bool {
    f.metadata.version > e.metadata.version || (f.metadata.version == e.metadata.version && f.provenance.revision
        > e.provenance.revision)
}

impl RelationRegistry {
    /// Inserts relation `id` into all three indexes in turn, stopping at the first full one.
    fn index_relation(&mut self, r: &Relation, id: u64) -> (ok: bool)
        ensures
            ({
                let (all, s1, t1, m1) = index_all(old(self).sources(), old(self).targets(), old(self).semantics(), *r, id);
                &&& ok == all
                &&& final(self).sources() == s1
                &&& final(self).targets() == t1
                &&& final(self).semantics() == m1
            }),
            final(self).slots() == old(self).slots(),
            final(self).spec_next_id() == old(self).spec_next_id(),
    {
        if !index_insert(&mut self.source_index, r.source, id) {
            return false;
        }
        if !index_insert(&mut self.target_index, r.target, id) {
            return false;
        }
        if !index_insert(&mut self.semantic_index, r.relation as u64, id) {
            return false;
        }
        true
    }

    /// Empties the index entries of relation `id` in all three indexes.
    fn unindex_relation(&mut self, id: u64)
        ensures
            final(self).sources() == index_removed(old(self).sources(), id),
            final(self).targets() == index_removed(old(self).targets(), id),
            final(self).semantics() == index_removed(old(self).semantics(), id),
            final(self).slots() == old(self).slots(),
            final(self).spec_next_id() == old(self).spec_next_id(),
    {
        index_remove(&mut self.source_index, id);
        index_remove(&mut self.target_index, id);
        index_remove(&mut self.semantic_index, id);
    }

    /// Applies a synchronization frame by version/revision rules.
    ///
    /// `Remove` removes the relation. `Add` and `Update` of a stored relation accept an
    /// identical record, replace it with a newer one, and otherwise mark it conflicted and
    /// refuse. `Update` of an unknown relation is refused; `Add` stores it in the first free
    /// slot and moves the ID counter past it.
    pub fn apply_sync_frame(&mut self, frame: RelationSyncFrame) -> (ok: bool)
        ensures
            !(frame_fields_valid(frame) && frame_sealed(frame)) ==> !ok && *final(self) == *old(self),
            frame_fields_valid(frame) && frame_sealed(frame) && frame.operation == SyncOperation::Remove ==> {
                &&& ok == (old(self).entry(frame.relation_id) is Some)
                &&& !ok ==> *final(self) == *old(self)
                &&& ok ==> final(self).slots() == old(self).slots().update(
                    slot_of(old(self).slots(), frame.relation_id, 0)->0,
                    empty_entry(),
                )
                &&& ok ==> final(self).sources() == index_removed(old(self).sources(), frame.relation_id)
                &&& ok ==> final(self).targets() == index_removed(old(self).targets(), frame.relation_id)
                &&& ok ==> final(self).semantics() == index_removed(old(self).semantics(), frame.relation_id)
                &&& ok ==> final(self).spec_next_id() == old(self).spec_next_id()
            },
            frame_fields_valid(frame) && frame_sealed(frame) && frame.operation != SyncOperation::Remove ==> {
                let id = frame.relation_id;
                match slot_of(old(self).slots(), id, 0) {
                    Some(k) => {
                        let e = old(self).slots()[k];
                        if same_record(e, frame) {
                            ok && *final(self) == *old(self)
                        } else if !frame_newer(e, frame) {
                            &&& !ok
                            &&& final(self).slots() == old(self).slots().update(
                                k,
                                RelationEntry { trust: RelationTrust::Conflict, ..e },
                            )
                            &&& final(self).sources() == old(self).sources()
                            &&& final(self).targets() == old(self).targets()
                            &&& final(self).semantics() == old(self).semantics()
                        } else {
                            let (all, s1, t1, m1) = index_all(
                                index_removed(old(self).sources(), id),
                                index_removed(old(self).targets(), id),
                                index_removed(old(self).semantics(), id),
                                frame.relation,
                                id,
                            );
                            &&& ok == all
                            &&& final(self).sources() == s1
                            &&& final(self).targets() == t1
                            &&& final(self).semantics() == m1
                            &&& final(self).slots() == if all {
                                old(self).slots().update(k, frame_entry(frame))
                            } else {
                                old(self).slots()
                            }
                        }
                    },
                    None => if frame.operation == SyncOperation::Update {
                        !ok && *final(self) == *old(self)
                    } else {
                        match free_slot(old(self).slots(), 0) {
                            None => !ok && *final(self) == *old(self),
                            Some(k) => {
                                let (all, s1, t1, m1) = index_all(
                                    old(self).sources(),
                                    old(self).targets(),
                                    old(self).semantics(),
                                    frame.relation,
                                    id,
                                );
                                &&& ok == all
                                &&& all ==> {
                                    &&& final(self).sources() == s1
                                    &&& final(self).targets() == t1
                                    &&& final(self).semantics() == m1
                                    &&& final(self).slots() == old(self).slots().update(k, frame_entry(frame))
                                    &&& final(self).spec_next_id() == if id >= old(self).spec_next_id() {
                                        id_after(id)
                                    } else {
                                        old(self).spec_next_id()
                                    }
                                }
                                &&& !all ==> {
                                    &&& final(self).sources() == index_removed(s1, id)
                                    &&& final(self).targets() == index_removed(t1, id)
                                    &&& final(self).semantics() == index_removed(m1, id)
                                    &&& final(self).slots() == old(self).slots()
                                }
                            },
                        }
                    },
                }
            },
    {
        if frame.relation_id == 0 || !is_valid(&frame.relation) || !metadata_is_valid(&frame.metadata)
            || !provenance_is_valid(&frame.provenance) || integrity_hash(
            frame.relation_id,
            &frame.relation,
            &frame.metadata,
            &frame.provenance,
        ) != frame.integrity {
            return false;
        }
        let id = frame.relation_id;
        match frame.operation {
            SyncOperation::Remove => {
                return self.remove(id);
            },
            _ => {},
        }
        match self.find_slot(id) {
            Some(k) => {
                let existing = self.relations[k];
                let same = existing.relation.source == frame.relation.source && existing.relation.relation
                    == frame.relation.relation && existing.relation.target == frame.relation.target
                    && existing.relation.context == frame.relation.context && existing.metadata.created_at
                    == frame.metadata.created_at && existing.metadata.updated_at == frame.metadata.updated_at
                    && existing.metadata.version == frame.metadata.version && existing.metadata.state
                    == frame.metadata.state && existing.provenance.origin == frame.provenance.origin
                    && existing.provenance.source == frame.provenance.source && existing.provenance.revision
                    == frame.provenance.revision && existing.integrity == frame.integrity;
                if same {
                    return true;
                }
                let newer = frame.metadata.version > existing.metadata.version || (frame.metadata.version
                    == existing.metadata.version && frame.provenance.revision > existing.provenance.revision);
                if !newer {
                    self.relations[k].trust = RelationTrust::Conflict;
                    return false;
                }
                self.unindex_relation(id);
                if !self.index_relation(&frame.relation, id) {
                    return false;
                }
                self.relations[k] = RelationEntry {
                    id,
                    relation: frame.relation,
                    metadata: frame.metadata,
                    provenance: frame.provenance,
                    trust: frame.trust,
                    integrity: frame.integrity,
                    occupied: true,
                };
                true
            },
            None => {
                match frame.operation {
                    SyncOperation::Update => {
                        return false;
                    },
                    _ => {},
                }
                let mut slot: usize = 0;
                while slot < 64
                    invariant
                        0 <= slot <= 64,
                        *self == *old(self),
                        free_slot(self.relations@, 0) == free_slot(self.relations@, slot as int),
                        frame_fields_valid(frame),
                        frame_sealed(frame),
                        frame.operation == SyncOperation::Add,
                        id == frame.relation_id,
                        slot_of(old(self).slots(), id, 0) is None,
                    decreases 64 - slot,
                {
                    if !self.relations[slot].occupied {
                        if !self.index_relation(&frame.relation, id) {
                            self.unindex_relation(id);
                            return false;
                        }
                        self.relations[slot] = RelationEntry {
                            id,
                            relation: frame.relation,
                            metadata: frame.metadata,
                            provenance: frame.provenance,
                            trust: frame.trust,
                            integrity: frame.integrity,
                            occupied: true,
                        };
                        if id >= self.next_id {
                            self.next_id = match id.checked_add(1) {
                                Some(n) => n,
                                None => 0,
                            };
                        }
                        return true;
                    }
                    slot = slot + 1;
                }
                false
            },
        }
    }

    /// The sync frame that announces stored relation `id` as an addition.
    pub fn sync_frame(&self, id: u64) -> (r: Option<RelationSyncFrame>)
        ensures
            r == match self.entry(id) {
                Some(e) => Some(
                    RelationSyncFrame {
                        operation: SyncOperation::Add,
                        relation_id: id,
                        relation: e.relation,
                        metadata: e.metadata,
                        provenance: e.provenance,
                        trust: e.trust,
                        integrity: e.integrity,
                    },
                ),
                None => None::<RelationSyncFrame>,
            },
    {
        if id == 0 {
            return None;
        }
        match self.find_slot(id) {
            Some(k) => {
                let e = self.relations[k];
                Some(
                    RelationSyncFrame {
                        operation: SyncOperation::Add,
                        relation_id: id,
                        relation: e.relation,
                        metadata: e.metadata,
                        provenance: e.provenance,
                        trust: e.trust,
                        integrity: e.integrity,
                    },
                )
            },
            None => None,
        }
    }
}

/// Serialized bytes of one stored relation.
pub open spec fn entry_bytes(e: RelationEntry) -> Seq<u8> {
    record_bytes(e.id, e.relation, e.metadata, e.provenance) + seq![trust_code(e.trust)] + bytes64(e.integrity)
}

/// Serialized bytes of the occupied slots among the first `n`, in slot order.
pub open spec fn body_bytes(slots: Seq<RelationEntry>, n: int) -> Seq<u8>
    decreases n,
{
    if n <= 0 {
        Seq::empty()
    } else {
        body_bytes(slots, n - 1) + if slots[n - 1].occupied { entry_bytes(slots[n - 1]) } else { Seq::empty() }
    }
}

/// Header of a serialized registry holding `count` relations.
pub open spec fn header_bytes(count: u16) -> Seq<u8> {
    bytes32(SERIALIZATION_MAGIC) + bytes16(SERIALIZATION_VERSION) + bytes16(count)
}

proof fn lemma_body_len(slots: Seq<RelationEntry>, n: int)
    requires
        0 <= n <= slots.len(),
    ensures
        body_bytes(slots, n).len() == occupied_upto(slots, n) * 84,
        occupied_upto(slots, n) <= n,
    decreases n,
{
    if n > 0 {
        lemma_body_len(slots, n - 1);
        let e = slots[n - 1];
        lemma_record_len(e.id, e.relation, e.metadata, e.provenance);
    }
}

impl RelationRegistry {
    /// The serialized form of the registry.
    pub open spec fn serialized(&self) -> Seq<u8> {
        header_bytes(self.spec_count() as u16) + body_bytes(self.slots(), 64)
    }

    /// Serializes the registry into `buffer`, returning the number of bytes written.
    pub fn serialize(&self, buffer: &mut [u8]) -> (r: Option<usize>)
        ensures
            old(buffer)@.len() < 8 + self.spec_count() * 84 ==> r is None && final(buffer)@ == old(buffer)@,
            old(buffer)@.len() >= 8 + self.spec_count() * 84 ==> {
                let n = (8 + self.spec_count() * 84) as int;
                &&& r == Some(n as usize)
                &&& final(buffer)@.len() == old(buffer)@.len()
                &&& final(buffer)@.subrange(0, n) == self.serialized()
                &&& final(buffer)@.subrange(n, old(buffer)@.len() as int) == old(buffer)@.subrange(n, old(buffer)@.len() as int)
            },
    {
        let relation_count = self.count();
        proof {
            lemma_body_len(self.relations@, 64);
        }
        if buffer.len() < SERIALIZED_HEADER_BYTES + relation_count * SERIALIZED_RELATION_BYTES {
            return None;
        }
        put_u32(buffer, 0, SERIALIZATION_MAGIC);
        put_u16(buffer, 4, SERIALIZATION_VERSION);
        put_u16(buffer, 6, relation_count as u16);
        proof {
            assert(buffer@.subrange(0, 8) =~= header_bytes(relation_count as u16));
        }
        let mut offset: usize = 8;
        let mut index: usize = 0;
        while index < 64
            invariant
                0 <= index <= 64,
                relation_count == self.spec_count(),
                relation_count <= 64,
                buffer@.len() == old(buffer)@.len(),
                8 + relation_count * 84 <= buffer@.len(),
                offset == 8 + occupied_upto(self.relations@, index as int) * 84,
                occupied_upto(self.relations@, index as int) <= relation_count,
                buffer@.subrange(0, offset as int) == header_bytes(relation_count as u16) + body_bytes(self.relations@, index as int),
                buffer@.subrange(8 + relation_count * 84, buffer@.len() as int) == old(buffer)@.subrange(
                    8 + relation_count * 84,
                    old(buffer)@.len() as int,
                ),
            decreases 64 - index,
        {
            proof {
                lemma_occupied_mono(self.relations@, index as int + 1, 64);
                lemma_body_len(self.relations@, index as int);
            }
            if self.relations[index].occupied {
                let e = self.relations[index];
                let ghost before = buffer@;
                let record = record_into(e.id, &e.relation, &e.metadata, &e.provenance);
                proof {
                    lemma_record_len(e.id, e.relation, e.metadata, e.provenance);
                }
                copy_into(buffer, offset, &record);
                buffer[offset + 75] = trust_to_u8(e.trust);
                put_u64(buffer, offset + 76, e.integrity);
                proof {
                    assert(buffer@.subrange(0, offset as int) =~= before.subrange(0, offset as int));
                    assert(buffer@.subrange(offset as int, offset + 84) =~= entry_bytes(e));
                    assert(buffer@.subrange(0, offset + 84) =~= buffer@.subrange(0, offset as int) + buffer@.subrange(offset as int, offset + 84));
                    assert(buffer@.subrange(8 + relation_count * 84, buffer@.len() as int) =~= before.subrange(8 + relation_count * 84, before.len() as int));
                }
                offset = offset + SERIALIZED_RELATION_BYTES;
            }
            index = index + 1;
        }
        Some(offset)
    }
}

proof fn lemma_occupied_mono(slots: Seq<RelationEntry>, a: int, b: int)
    requires
        0 <= a <= b,
    ensures
        occupied_upto(slots, a) <= occupied_upto(slots, b),
    decreases b - a,
{
    if a < b {
        lemma_occupied_mono(slots, a, b - 1);
    }
}

impl RelationRegistry {
    /// Deterministic 64-bit FNV-1a hash of the serialized registry.
    pub fn hash(&self) -> (r: Option<u64>)
        ensures
            r == Some(fnv1a(self.serialized())),
    {
        let mut buffer = [0u8; 5384];
        proof {
            lemma_occupied_mono(self.relations@, 64, 64);
            lemma_count_bound(self.relations@, 64);
        }
        let length = match self.serialize(&mut buffer) {
            Some(n) => n,
            None => {
                return None;
            },
        };
        Some(fnv1a_bytes(&buffer, length))
    }
}

proof fn lemma_count_bound(slots: Seq<RelationEntry>, n: int)
    requires
        0 <= n,
    ensures
        occupied_upto(slots, n) <= n,
    decreases n,
{
    if n > 0 {
        lemma_count_bound(slots, n - 1);
    }
}

/// Serialized size of one relation in format `version`.
pub open spec fn record_size(version: u16) -> int {
    if version == LEGACY_SERIALIZATION_VERSION { 58 } else { 84 }
}

/// The entry that the serialized record at `off` restores, if it is acceptable. Legacy
/// records restore as recovered, unverified relations with a freshly computed integrity.
#[verifier::opaque]
pub open spec fn parsed_entry(data: Seq<u8>, version: u16, off: int) -> Option<RelationEntry> {
    let id = le64(data, off) as u64;
    let r = relation_at(data, off + 8);
    let m = metadata_at(data, off + 36);
    if version == LEGACY_SERIALIZATION_VERSION {
        let p = RelationProvenance { origin: 0, source: ProvenanceSource::Recovered, revision: 1 };
        if id != 0 && relation_valid(r) && metadata_valid(m) {
            Some(
                RelationEntry {
                    id,
                    relation: r,
                    metadata: m,
                    provenance: p,
                    trust: RelationTrust::Unverified,
                    integrity: integrity_of(id, r, m, p),
                    occupied: true,
                },
            )
        } else {
            None
        }
    } else {
        match (decode_source(data[off + 66]), decode_trust(data[off + 75])) {
            (Some(src), Some(tr)) => {
                let p = RelationProvenance { origin: le64(data, off + 58) as u64, source: src, revision: le64(data, off + 67) as u64 };
                let stored = le64(data, off + 76) as u64;
                if id != 0 && relation_valid(r) && metadata_valid(m) && provenance_valid(p) && stored == integrity_of(id, r, m, p) {
                    Some(RelationEntry { id, relation: r, metadata: m, provenance: p, trust: tr, integrity: stored, occupied: true })
                } else {
                    None
                }
            },
            _ => None,
        }
    }
}

/// The entry restored from record `i`.
pub open spec fn parsed_at(data: Seq<u8>, version: u16, i: int) -> Option<RelationEntry> {
    parsed_entry(data, version, 8 + i * record_size(version))
}

/// The first `n` records are acceptable and carry distinct IDs.
pub open spec fn records_ok(data: Seq<u8>, version: u16, n: int) -> bool {
    &&& forall|i: int| 0 <= i < n ==> (#[trigger] parsed_at(data, version, i)) is Some
    &&& forall|i: int, j: int|
        0 <= j < i < n ==> (#[trigger] parsed_at(data, version, j))->0.id != (#[trigger] parsed_at(data, version, i))->0.id
}

/// Highest ID among the first `n` records.
pub open spec fn highest_id(data: Seq<u8>, version: u16, n: int) -> u64
    decreases n,
{
    if n <= 0 {
        0
    } else {
        let prev = highest_id(data, version, n - 1);
        let id = parsed_at(data, version, n - 1)->0.id;
        if id > prev { id } else { prev }
    }
}

/// The header fields of serialized bytes: `(magic, version, count)`.
pub open spec fn header_of(data: Seq<u8>) -> (u32, u16, u16) {
    (le32(data, 0) as u32, le16(data, 4) as u16, le16(data, 6) as u16)
}

/// Serialized bytes that `deserialize` accepts.
pub open spec fn deserialize_accepts(data: Seq<u8>) -> bool {
    let (magic, version, count) = header_of(data);
    &&& data.len() >= 8
    &&& magic == SERIALIZATION_MAGIC
    &&& count <= 64
    &&& (version == LEGACY_SERIALIZATION_VERSION || version == SERIALIZATION_VERSION)
    &&& data.len() == 8 + count * record_size(version)
    &&& records_ok(data, version, count as int)
}

pub open spec fn index_slot(key: u64, id: u64) -> IndexEntry {
    IndexEntry { key, relation_id: id, occupied: true }
}

/// Parses one serialized record at `off`.
fn parse_record(data: &[u8], off: usize, legacy: bool) -> (r: Option<RelationEntry>)
    requires
        off + (if legacy { 58int } else { 84int }) <= data.len(),
    ensures
        r == parsed_entry(data@, if legacy { LEGACY_SERIALIZATION_VERSION } else { SERIALIZATION_VERSION }, off as int),
        r matches Some(e) ==> e.occupied,
{
    proof {
        reveal(parsed_entry);
        lemma_le_bounds(data@, off as int);
    }
    let id = get_u64(data, off);
    let relation = read_relation(data, off + 8);
    let metadata = read_metadata(data, off + 36);
    if legacy {
        let provenance = RelationProvenance { origin: 0, source: ProvenanceSource::Recovered, revision: 1 };
        if id == 0 || !is_valid(&relation) || !metadata_is_valid(&metadata) {
            return None;
        }
        let integrity = integrity_hash(id, &relation, &metadata, &provenance);
        return Some(
            RelationEntry { id, relation, metadata, provenance, trust: RelationTrust::Unverified, integrity, occupied: true },
        );
    }
    let source = match decode_source_byte(data[off + 66]) {
        Some(s) => s,
        None => {
            return None;
        },
    };
    let trust = match decode_trust_byte(data[off + 75]) {
        Some(t) => t,
        None => {
            return None;
        },
    };
    proof {
        lemma_le_bounds(data@, off + 58);
        lemma_le_bounds(data@, off + 67);
        lemma_le_bounds(data@, off + 76);
    }
    let provenance = RelationProvenance { origin: get_u64(data, off + 58), source, revision: get_u64(data, off + 67) };
    let stored = get_u64(data, off + 76);
    if id == 0 || !is_valid(&relation) || !metadata_is_valid(&metadata) || !provenance_is_valid(&provenance)
        || integrity_hash(id, &relation, &metadata, &provenance) != stored {
        return None;
    }
    Some(RelationEntry { id, relation, metadata, provenance, trust, integrity: stored, occupied: true })
}

impl RelationRegistry {
    /// Restores a serialized registry atomically; on refusal the registry is unchanged.
    #[verifier::rlimit(100)]
    /// Version-1 payloads restore as recovered, unverified relations.
    pub fn deserialize(&mut self, data: &[u8]) -> (ok: bool)
        ensures
            ok == deserialize_accepts(data@),
            !ok ==> *final(self) == *old(self),
            ok ==> {
                let (magic, version, count) = header_of(data@);
                &&& forall|i: int| 0 <= i < 64 ==> #[trigger] final(self).slots()[i] == if i < count {
                    parsed_at(data@, version, i)->0
                } else {
                    empty_entry()
                }
                &&& forall|i: int| 0 <= i < 64 ==> #[trigger] final(self).sources()[i] == if i < count {
                    index_slot(parsed_at(data@, version, i)->0.relation.source, parsed_at(data@, version, i)->0.id)
                } else {
                    empty_index_entry()
                }
                &&& forall|i: int| 0 <= i < 64 ==> #[trigger] final(self).targets()[i] == if i < count {
                    index_slot(parsed_at(data@, version, i)->0.relation.target, parsed_at(data@, version, i)->0.id)
                } else {
                    empty_index_entry()
                }
                &&& forall|i: int| 0 <= i < 64 ==> #[trigger] final(self).semantics()[i] == if i < count {
                    index_slot(parsed_at(data@, version, i)->0.relation.relation as u64, parsed_at(data@, version, i)->0.id)
                } else {
                    empty_index_entry()
                }
                &&& final(self).spec_next_id() == id_after(highest_id(data@, version, count as int))
            },
    {
        if data.len() < SERIALIZED_HEADER_BYTES {
            return false;
        }
        proof {
            lemma_le_bounds(data@, 0);
            lemma_le_bounds(data@, 4);
            lemma_le_bounds(data@, 6);
        }
        let magic = get_u32(data, 0);
        let version = get_u16(data, 4);
        let relation_count = get_u16(data, 6) as usize;
        if magic != SERIALIZATION_MAGIC || relation_count > MAX_RELATIONS {
            return false;
        }
        let legacy = version == LEGACY_SERIALIZATION_VERSION;
        let record_bytes_len: usize = if legacy {
            LEGACY_SERIALIZED_RELATION_BYTES
        } else if version == SERIALIZATION_VERSION {
            SERIALIZED_RELATION_BYTES
        } else {
            return false;
        };
        proof {
            assert(relation_count * record_bytes_len <= 64 * 84) by (nonlinear_arith)
                requires
                    relation_count <= 64,
                    record_bytes_len <= 84,
            ;
        }
        let expected_len = SERIALIZED_HEADER_BYTES + relation_count * record_bytes_len;
        if data.len() != expected_len {
            return false;
        }
        let ghost v = version;
        let mut new_relations = [RelationEntry::empty(); 64];
        let mut new_source_index = [IndexEntry::empty(); 64];
        let mut new_target_index = [IndexEntry::empty(); 64];
        let mut new_semantic_index = [IndexEntry::empty(); 64];
        let mut highest: u64 = 0;
        let mut record: usize = 0;
        while record < relation_count
            invariant
                0 <= record <= relation_count,
                relation_count <= 64,
                legacy == (v == LEGACY_SERIALIZATION_VERSION),
                v == LEGACY_SERIALIZATION_VERSION || v == SERIALIZATION_VERSION,
                record_bytes_len == record_size(v),
                data@.len() == 8 + relation_count * record_size(v),
                header_of(data@) == (SERIALIZATION_MAGIC, v, relation_count as u16),
                *self == *old(self),
                records_ok(data@, v, record as int),
                forall|i: int| 0 <= i < record ==> (#[trigger] new_relations@[i]).occupied,
                highest == highest_id(data@, v, record as int),
                forall|i: int| 0 <= i < 64 ==> #[trigger] new_relations@[i] == if i < record {
                    parsed_at(data@, v, i)->0
                } else {
                    empty_entry()
                },
                forall|i: int| 0 <= i < 64 ==> #[trigger] new_source_index@[i] == if i < record {
                    index_slot(parsed_at(data@, v, i)->0.relation.source, parsed_at(data@, v, i)->0.id)
                } else {
                    empty_index_entry()
                },
                forall|i: int| 0 <= i < 64 ==> #[trigger] new_target_index@[i] == if i < record {
                    index_slot(parsed_at(data@, v, i)->0.relation.target, parsed_at(data@, v, i)->0.id)
                } else {
                    empty_index_entry()
                },
                forall|i: int| 0 <= i < 64 ==> #[trigger] new_semantic_index@[i] == if i < record {
                    index_slot(parsed_at(data@, v, i)->0.relation.relation as u64, parsed_at(data@, v, i)->0.id)
                } else {
                    empty_index_entry()
                },
            decreases relation_count - record,
        {
            let off = SERIALIZED_HEADER_BYTES + record * record_bytes_len;
            proof {
                assert(off + record_bytes_len <= data@.len()) by (nonlinear_arith)
                    requires
                        off == 8 + record * record_bytes_len,
                        record < relation_count,
                        data@.len() == 8 + relation_count * record_bytes_len,
                ;
            }
            proof {
                assert(off as int == 8 + record * record_size(v)) by (nonlinear_arith)
                    requires
                        off == 8 + record * record_bytes_len,
                        record_bytes_len == record_size(v),
                ;
            }
            let entry = match parse_record(data, off, legacy) {
                Some(e) => e,
                None => {
                    proof {
                        assert(parsed_at(data@, v, record as int) is None);
                        assert(!records_ok(data@, v, relation_count as int));
                    }
                    return false;
                },
            };
            let mut slot: usize = 0;
            #[verifier::loop_isolation(false)]
            while slot < record
                invariant
                    0 <= slot <= record,
                    record < 64,
                    records_ok(data@, v, record as int),
                    forall|i: int| 0 <= i < record ==> (#[trigger] new_relations@[i]).occupied,
                    entry == parsed_at(data@, v, record as int)->0,
                    forall|i: int| 0 <= i < 64 ==> #[trigger] new_relations@[i] == if i < record {
                        parsed_at(data@, v, i)->0
                    } else {
                        empty_entry()
                    },
                    forall|j: int| 0 <= j < slot ==> parsed_at(data@, v, j)->0.id != entry.id,
                decreases record - slot,
            {
                if new_relations[slot].occupied && new_relations[slot].id == entry.id {
                    proof {
                        assert(parsed_at(data@, v, slot as int)->0.id == parsed_at(data@, v, record as int)->0.id);
                        assert(!records_ok(data@, v, relation_count as int));
                    }
                    return false;
                }
                slot = slot + 1;
            }
            new_relations[record] = entry;
            new_source_index[record] = IndexEntry { key: entry.relation.source, relation_id: entry.id, occupied: true };
            new_target_index[record] = IndexEntry { key: entry.relation.target, relation_id: entry.id, occupied: true };
            new_semantic_index[record] = IndexEntry { key: entry.relation.relation as u64, relation_id: entry.id, occupied: true };
            if entry.id > highest {
                highest = entry.id;
            }
            proof {
                assert((record + 1) as int - 1 == record as int);
            }
            record = record + 1;
        }
        let next_id = match highest.checked_add(1) {
            Some(n) => n,
            None => 0,
        };
        self.relations = new_relations;
        self.source_index = new_source_index;
        self.target_index = new_target_index;
        self.semantic_index = new_semantic_index;
        self.next_id = next_id;
        true
    }
}

/// A stored entry is well formed: valid fields and a matching integrity value.
pub open spec fn entry_sound(e: RelationEntry) -> bool {
    e.occupied ==> {
        &&& e.id != 0
        &&& relation_valid(e.relation)
        &&& metadata_valid(e.metadata)
        &&& provenance_valid(e.provenance)
        &&& e.integrity == integrity_of(e.id, e.relation, e.metadata, e.provenance)
    }
}

/// The occupied entries among the first `n` slots, in slot order.
pub open spec fn compacted(slots: Seq<RelationEntry>, n: int) -> Seq<RelationEntry>
    decreases n,
{
    if n <= 0 {
        Seq::empty()
    } else {
        compacted(slots, n - 1) + if slots[n - 1].occupied { seq![slots[n - 1]] } else { Seq::empty() }
    }
}

impl RelationRegistry {
    /// Stored entries are sound and carry distinct IDs.
    pub open spec fn wf(&self) -> bool {
        &&& self.slots().len() == 64
        &&& forall|i: int| 0 <= i < 64 ==> entry_sound(#[trigger] self.slots()[i])
        &&& forall|i: int, j: int|
            0 <= i < j < 64 && self.slots()[i].occupied && self.slots()[j].occupied ==> #[trigger] self.slots()[i].id
                != #[trigger] self.slots()[j].id
    }
}

/// The serialized bytes of a sound, stored entry restore that entry.
proof fn lemma_entry_decodes(data: Seq<u8>, off: int, e: RelationEntry)
    requires
        0 <= off,
        off + 84 <= data.len(),
        e.occupied,
        entry_sound(e),
        data.subrange(off, off + 84) == entry_bytes(e),
    ensures
        parsed_entry(data, SERIALIZATION_VERSION, off) == Some(e),
{
    reveal(parsed_entry);
    lemma_record_len(e.id, e.relation, e.metadata, e.provenance);
    let eb = entry_bytes(e);
    assert(data.subrange(off, off + 75) =~= eb.subrange(0, 75));
    assert(eb.subrange(0, 75) =~= record_bytes(e.id, e.relation, e.metadata, e.provenance));
    lemma_record_decodes(data, off, e.id, e.relation, e.metadata, e.provenance);
    assert(data[off + 75] == eb[75]);
    assert(data.subrange(off + 76, off + 84) =~= eb.subrange(76, 84));
    assert(eb.subrange(76, 84) =~= bytes64(e.integrity));
    crate::le::lemma_read64(data, off + 76, e.integrity);
}

/// Slot indexes of the occupied entries among the first `n` slots, ascending.
pub open spec fn occupied_indices(slots: Seq<RelationEntry>, n: int) -> Seq<int>
    decreases n,
{
    if n <= 0 {
        Seq::empty()
    } else {
        occupied_indices(slots, n - 1) + if slots[n - 1].occupied { seq![n - 1] } else { Seq::empty() }
    }
}

proof fn lemma_compacted(slots: Seq<RelationEntry>, n: int)
    requires
        0 <= n <= slots.len(),
    ensures
        compacted(slots, n).len() == occupied_upto(slots, n),
        occupied_indices(slots, n).len() == compacted(slots, n).len(),
        body_bytes(slots, n).len() == compacted(slots, n).len() * 84,
        forall|k: int| 0 <= k < compacted(slots, n).len() ==> body_bytes(slots, n).subrange(k * 84, k * 84 + 84)
            == entry_bytes(#[trigger] compacted(slots, n)[k]),
        forall|k: int| 0 <= k < compacted(slots, n).len() ==> {
            let i = #[trigger] occupied_indices(slots, n)[k];
            &&& 0 <= i < n
            &&& slots[i].occupied
            &&& compacted(slots, n)[k] == slots[i]
        },
        forall|a: int, b: int| 0 <= a < b < compacted(slots, n).len() ==> #[trigger] occupied_indices(slots, n)[a]
            < #[trigger] occupied_indices(slots, n)[b],
    decreases n,
{
    if n > 0 {
        lemma_compacted(slots, n - 1);
        lemma_body_len(slots, n - 1);
        let prev = compacted(slots, n - 1);
        let pidx = occupied_indices(slots, n - 1);
        let pb = body_bytes(slots, n - 1);
        let e = slots[n - 1];
        lemma_record_len(e.id, e.relation, e.metadata, e.provenance);
        let c = compacted(slots, n);
        let idx = occupied_indices(slots, n);
        let b = body_bytes(slots, n);
        if e.occupied {
            assert forall|k: int| 0 <= k < c.len() implies b.subrange(k * 84, k * 84 + 84) == entry_bytes(#[trigger] c[k]) by {
                if k < prev.len() {
                    assert(b.subrange(k * 84, k * 84 + 84) =~= pb.subrange(k * 84, k * 84 + 84));
                } else {
                    assert(b.subrange(k * 84, k * 84 + 84) =~= entry_bytes(e));
                }
            }
            assert forall|k: int| 0 <= k < c.len() implies {
                let i = #[trigger] idx[k];
                &&& 0 <= i < n
                &&& slots[i].occupied
                &&& c[k] == slots[i]
            } by {
                if k < prev.len() {
                    assert(idx[k] == pidx[k]);
                    assert(c[k] == prev[k]);
                }
            }
            assert forall|x: int, y: int| 0 <= x < y < c.len() implies #[trigger] idx[x] < #[trigger] idx[y] by {
                if y < prev.len() {
                    assert(idx[x] == pidx[x] && idx[y] == pidx[y]);
                } else {
                    assert(idx[x] == pidx[x]);
                }
            }
        } else {
            assert(c =~= prev);
            assert(idx =~= pidx);
            assert(b =~= pb);
        }
    }
}

/// Serializing a well-formed registry and restoring the bytes gives back its relations,
/// packed in slot order, with the same IDs, records, trust and integrity.
#[verifier::rlimit(100)]
pub proof fn law_serialize_then_deserialize(reg: RelationRegistry)
    requires
        reg.wf(),
    ensures
        deserialize_accepts(reg.serialized()),
        header_of(reg.serialized()) == (SERIALIZATION_MAGIC, SERIALIZATION_VERSION, reg.spec_count() as u16),
        forall|i: int| 0 <= i < reg.spec_count() ==> parsed_at(reg.serialized(), SERIALIZATION_VERSION, i) == Some(
            #[trigger] compacted(reg.slots(), 64)[i],
        ),
{
    let slots = reg.slots();
    let data = reg.serialized();
    let c = compacted(slots, 64);
    lemma_compacted(slots, 64);
    lemma_count_bound(slots, 64);
    let count = reg.spec_count();
    let h = header_bytes(count as u16);
    let body = body_bytes(slots, 64);
    assert(data.subrange(0, 4) =~= bytes32(SERIALIZATION_MAGIC));
    assert(data.subrange(4, 6) =~= bytes16(SERIALIZATION_VERSION));
    assert(data.subrange(6, 8) =~= bytes16(count as u16));
    crate::le::lemma_read32(data, 0, SERIALIZATION_MAGIC);
    crate::le::lemma_read16(data, 4, SERIALIZATION_VERSION);
    crate::le::lemma_read16(data, 6, count as u16);
    assert forall|k: int| 0 <= k < count implies parsed_at(data, SERIALIZATION_VERSION, k) == Some(#[trigger] c[k]) by {
        let off = 8 + k * 84;
        assert(data.subrange(off, off + 84) =~= body.subrange(k * 84, k * 84 + 84));
        let i = occupied_indices(slots, 64)[k];
        assert(entry_sound(slots[i]));
        lemma_entry_decodes(data, off, c[k]);
    }
    assert forall|a: int, b: int| 0 <= a < b < count implies (#[trigger] parsed_at(data, SERIALIZATION_VERSION, a))->0.id
        != (#[trigger] parsed_at(data, SERIALIZATION_VERSION, b))->0.id by {
        assert(parsed_at(data, SERIALIZATION_VERSION, a) == Some(c[a]));
        assert(parsed_at(data, SERIALIZATION_VERSION, b) == Some(c[b]));
        let i = occupied_indices(slots, 64)[a];
        let j = occupied_indices(slots, 64)[b];
        assert(slots[i].id != slots[j].id);
    }
    assert(data.len() == 8 + count * 84);
    assert(header_of(data).0 == SERIALIZATION_MAGIC);
    assert(header_of(data).1 == SERIALIZATION_VERSION);
    assert(header_of(data).2 == count as u16);
    assert forall|k: int| 0 <= k < count implies (#[trigger] parsed_at(data, SERIALIZATION_VERSION, k)) is Some by {
        assert(parsed_at(data, SERIALIZATION_VERSION, k) == Some(c[k]));
    }
    assert(records_ok(data, SERIALIZATION_VERSION, count as int));
}


/// A bounded multi-hop query. `None` for `relation` or `context` leaves that
/// field unconstrained.
#[derive(Clone, Copy)]
pub struct RecursiveQuery {
    pub source: ObjectId,
    pub target: ObjectId,
    pub relation: Option<SemanticId>,
    pub context: Option<ContextId>,
    pub max_depth: usize,
}

/// A path through the relation graph: `node_count` nodes joined by
/// `relation_count` relations.
#[derive(Clone, Copy)]
pub struct RelationPath {
    pub nodes: [ObjectId; 65],
    pub relation_ids: [u64; 64],
    pub node_count: usize,
    pub relation_count: usize,
}

pub open spec fn path_valid(p: RelationPath) -> bool {
    &&& p.node_count != 0
    &&& p.node_count <= MAX_TRAVERSAL_NODES
    &&& p.relation_count + 1 == p.node_count
    &&& p.relation_count <= MAX_RELATIONS
    &&& forall|i: int| 0 <= i < p.node_count ==> #[trigger] p.nodes@[i] != 0
    &&& forall|i: int| 0 <= i < p.relation_count ==> #[trigger] p.relation_ids@[i] != 0
}

impl RelationPath {
    /// A path has one more node than relations, within capacity, and no
    /// zero node or relation ID.
    pub fn is_valid(&self) -> (r: bool)
        ensures
            r == path_valid(*self),
    {
        if self.node_count == 0 || self.node_count > MAX_TRAVERSAL_NODES || self.relation_count > MAX_RELATIONS
            || self.relation_count + 1 != self.node_count {
            return false;
        }
        let mut index: usize = 0;
        while index < self.node_count
            invariant
                0 <= index <= self.node_count <= 65,
                forall|i: int| 0 <= i < index ==> #[trigger] self.nodes@[i] != 0,
            decreases self.node_count - index,
        {
            if self.nodes[index] == 0 {
                return false;
            }
            index = index + 1;
        }
        let mut relation_index: usize = 0;
        while relation_index < self.relation_count
            invariant
                0 <= relation_index <= self.relation_count <= 64,
                forall|i: int| 0 <= i < relation_index ==> #[trigger] self.relation_ids@[i] != 0,
            decreases self.relation_count - relation_index,
        {
            if self.relation_ids[relation_index] == 0 {
                return false;
            }
            relation_index = relation_index + 1;
        }
        true
    }

    /// Number of relations on the path.
    pub fn depth(&self) -> (d: usize)
        ensures
            d == self.relation_count,
    {
        self.relation_count
    }

    /// Node `index` of the path.
    pub fn node(&self, index: usize) -> (r: Option<ObjectId>)
        requires
            self.node_count <= MAX_TRAVERSAL_NODES,
        ensures
            r == (if index < self.node_count { Some(self.nodes@[index as int]) } else { None }),
    {
        if index < self.node_count {
            Some(self.nodes[index])
        } else {
            None
        }
    }

    /// Relation `index` of the path.
    pub fn relation_id(&self, index: usize) -> (r: Option<u64>)
        requires
            self.relation_count <= MAX_RELATIONS,
        ensures
            r == (if index < self.relation_count { Some(self.relation_ids@[index as int]) } else { None }),
    {
        if index < self.relation_count {
            Some(self.relation_ids[index])
        } else {
            None
        }
    }
}

/// Whether a relation satisfies the query's optional type and context.
pub open spec fn spec_query_matches(r: Relation, q: RecursiveQuery) -> bool {
    &&& (q.relation matches Some(t) ==> r.relation == t)
    &&& (q.context matches Some(c) ==> r.context == c)
}

fn query_matches(relation: &Relation, query: &RecursiveQuery) -> (r: bool)
    ensures
        r == spec_query_matches(*relation, *query),
{
    match query.relation {
        Some(semantic) => {
            if relation.relation != semantic {
                return false;
            }
        },
        None => {},
    }
    match query.context {
        Some(context) => {
            if relation.context != context {
                return false;
            }
        },
        None => {},
    }
    true
}

/// Slot `k` holds a stored relation from `a` to `b` that the query admits.
pub open spec fn edge_at(slots: Seq<RelationEntry>, q: RecursiveQuery, k: int, a: ObjectId, b: ObjectId) -> bool {
    &&& 0 <= k < slots.len()
    &&& slots[k].occupied
    &&& slots[k].relation.source == a
    &&& slots[k].relation.target == b
    &&& spec_query_matches(slots[k].relation, q)
}

/// The slots `w` are a chain of admitted relations from `a` to `b`.
pub open spec fn is_walk(slots: Seq<RelationEntry>, q: RecursiveQuery, a: ObjectId, b: ObjectId, w: Seq<int>) -> bool
    decreases w.len(),
{
    if w.len() == 0 {
        a == b
    } else {
        let k = w.last();
        edge_at(slots, q, k, slots[k].relation.source, b) && is_walk(slots, q, a, slots[k].relation.source, w.drop_last())
    }
}

/// Relation `id` is a stored relation from `a` to `b` that the query admits.
pub open spec fn edge_with_id(slots: Seq<RelationEntry>, q: RecursiveQuery, id: u64, a: ObjectId, b: ObjectId) -> bool {
    exists|k: int| #[trigger] edge_at(slots, q, k, a, b) && slots[k].id == id
}

/// The query is well formed and not answered trivially.
pub open spec fn query_refused(reg: RelationRegistry, q: RecursiveQuery) -> bool {
    ||| q.source == 0
    ||| q.target == 0
    ||| (q.relation matches Some(t) && !spec_is_valid(t))
}

/// The search is not started: no depth, no relations, or no relation
/// indexed from the source.
pub open spec fn search_skipped(reg: RelationRegistry, q: RecursiveQuery) -> bool {
    ||| q.max_depth == 0
    ||| reg.spec_count() == 0
    ||| index_lookup(reg.sources(), q.source, 0) is None
}

proof fn lemma_walk_push(slots: Seq<RelationEntry>, q: RecursiveQuery, a: ObjectId, b: ObjectId, w: Seq<int>, k: int, c: ObjectId)
    requires
        is_walk(slots, q, a, b, w),
        edge_at(slots, q, k, b, c),
    ensures
        is_walk(slots, q, a, c, w.push(k)),
{
    assert(w.push(k).drop_last() =~= w);
}

/// Every admitted relation in slot `k` out of visited node `i` leads to a
/// visited node, not the target, at most one level deeper.
pub open spec fn closed_at(slots: Seq<RelationEntry>, q: RecursiveQuery, vis: Seq<u64>, dep: Seq<usize>, i: int, k: int) -> bool {
    edge_at(slots, q, k, vis[i], slots[k].relation.target) ==> slots[k].relation.target != q.target && exists|m: int|
        0 <= m < vis.len() && #[trigger] vis[m] == slots[k].relation.target && dep[m] <= dep[i] + 1
}

proof fn lemma_closed_grow(slots: Seq<RelationEntry>, q: RecursiveQuery, vis: Seq<u64>, dep: Seq<usize>, x: u64, d: usize, i: int, k: int)
    requires
        vis.len() == dep.len(),
        0 <= i < vis.len(),
        closed_at(slots, q, vis, dep, i, k),
    ensures
        closed_at(slots, q, vis.push(x), dep.push(d), i, k),
{
    if edge_at(slots, q, k, vis[i], slots[k].relation.target) {
        let m = choose|m: int| 0 <= m < vis.len() && #[trigger] vis[m] == slots[k].relation.target && dep[m] <= dep[i] + 1;
        assert(vis.push(x)[m] == vis[m]);
        assert(vis.push(x)[i] == vis[i]);
    } else {
        assert(vis.push(x)[i] == vis[i]);
    }
}

/// A walk of length at most `lim` from the source, through nodes whose
/// outgoing relations were all explored, ends at a visited node no deeper
/// than its length, and not at the target unless it is empty.
proof fn lemma_bfs_walk(slots: Seq<RelationEntry>, q: RecursiveQuery, vis: Seq<u64>, dep: Seq<usize>, lim: int, x: u64, w: Seq<int>)
    requires
        vis.len() == dep.len(),
        vis.len() >= 1,
        vis[0] == q.source,
        dep[0] == 0,
        slots.len() == 64,
        forall|i: int, k: int|
            0 <= i < vis.len() && dep[i] < lim && dep[i] < q.max_depth && 0 <= k < 64 ==> #[trigger] closed_at(slots, q, vis, dep, i, k),
        is_walk(slots, q, q.source, x, w),
        w.len() <= lim,
        w.len() <= q.max_depth,
    ensures
        exists|m: int| 0 <= m < vis.len() && #[trigger] vis[m] == x && dep[m] <= w.len(),
        w.len() >= 1 ==> x != q.target,
    decreases w.len(),
{
    if w.len() == 0 {
        assert(vis[0] == x);
    } else {
        let k = w.last();
        let y = slots[k].relation.source;
        lemma_bfs_walk(slots, q, vis, dep, lim, y, w.drop_last());
        let m = choose|m: int| 0 <= m < vis.len() && #[trigger] vis[m] == y && dep[m] <= w.len() - 1;
        assert(closed_at(slots, q, vis, dep, m, k));
        assert(edge_at(slots, q, k, vis[m], slots[k].relation.target));
    }
}

/// A traversal never holds more nodes than the source and the distinct
/// relation targets.
proof fn lemma_traversal_room(targets: Seq<u64>, vis: Seq<u64>, next: u64, k: int)
    requires
        targets.len() == 64,
        vis.len() >= 1,
        vis.no_duplicates(),
        forall|m: int| 1 <= m < vis.len() ==> targets.contains(#[trigger] vis[m]),
        0 <= k < 64,
        targets[k] == next,
        forall|m: int| 0 <= m < vis.len() ==> vis[m] != next,
    ensures
        vis.len() < MAX_TRAVERSAL_NODES,
{
    let rest = vis.subrange(1, vis.len() as int).push(next);
    assert forall|a: int, b: int| 0 <= a < b < rest.len() implies rest[a] != rest[b] by {
        if b == rest.len() - 1 {
            assert(rest[a] == vis[a + 1]);
        } else {
            assert(rest[a] == vis[a + 1] && rest[b] == vis[b + 1]);
        }
    }
    assert(rest.no_duplicates());
    assert forall|x: u64| rest.to_set().contains(x) implies targets.to_set().contains(x) by {
        assert(rest.contains(x));
        let j = choose|j: int| 0 <= j < rest.len() && rest[j] == x;
        if j < rest.len() - 1 {
            assert(rest[j] == vis[j + 1]);
            assert(targets.contains(vis[j + 1]));
        } else {
            assert(targets[k] == x);
        }
    }
    rest.unique_seq_to_set();
    targets.lemma_cardinality_of_set();
    vstd::set_lib::lemma_len_subset(rest.to_set(), targets.to_set());
}

impl RelationRegistry {
    /// Breadth-first search from the query's source; the depth at which the
    /// target was met. Traversal stops without an answer when more than
    /// `MAX_TRAVERSAL_NODES` nodes would be visited.
    pub fn recursive_query(&self, query: RecursiveQuery) -> (r: Option<usize>)
        ensures
            query_answered(*self, query, r),
            query_refused(*self, query) ==> r is None,
            !query_refused(*self, query) && query.source == query.target ==> r == Some(0usize),
            !query_refused(*self, query) && query.source != query.target && search_skipped(*self, query) ==> r is None,
            r matches Some(d) ==> d <= query.max_depth || d == 0,
            r matches Some(d) ==> exists|w: Seq<int>| w.len() == d && #[trigger] is_walk(self.slots(), query, query.source, query.target, w),
            r matches Some(d) ==> forall|w: Seq<int>| #[trigger] is_walk(self.slots(), query, query.source, query.target, w) ==> w.len() >= d,
            !query_refused(*self, query) && query.source != query.target && !search_skipped(*self, query) && r is None
                ==> forall|w: Seq<int>| #[trigger] is_walk(self.slots(), query, query.source, query.target, w) ==> w.len() > query.max_depth,
    {
        if query.source == 0 || query.target == 0 {
            return None;
        }
        match query.relation {
            Some(relation) => {
                if !semantic::is_valid(relation) {
                    return None;
                }
            },
            None => {},
        }
        if query.source == query.target {
            assert(is_walk(self.slots(), query, query.source, query.target, Seq::<int>::empty()));
            return Some(0);
        }
        if query.max_depth == 0 || self.count() == 0 || self.find_by_source(query.source).is_none() {
            return None;
        }
        let ghost slots = self.slots();
        let ghost targets = Seq::new(64, |k: int| slots[k].relation.target);
        let mut visited: Vec<u64> = Vec::new();
        let mut depths: Vec<usize> = Vec::new();
        let ghost mut walks: Seq<Seq<int>> = Seq::empty();
        visited.push(query.source);
        depths.push(0);
        proof {
            walks = walks.push(Seq::<int>::empty());
        }
        let mut head: usize = 0;
        while head < visited.len()
            invariant
                0 <= head <= visited@.len() <= MAX_TRAVERSAL_NODES,
                !query_refused(*self, query),
                query.source != query.target,
                !search_skipped(*self, query),
                slots == self.slots(),
                targets == Seq::new(64, |k: int| slots[k].relation.target),
                depths@.len() == visited@.len(),
                walks.len() == visited@.len(),
                self.relations@.len() == 64,
                forall|i: int| 0 <= i < visited@.len() ==> #[trigger] walks[i].len() == depths@[i] && is_walk(self.slots(), query, query.source, visited@[i], walks[i]),
                forall|i: int| 0 <= i < visited@.len() ==> #[trigger] depths@[i] <= query.max_depth,
                visited@.len() >= 1,
                head == 0 ==> visited@.len() == 1,
                visited@[0] == query.source,
                depths@[0] == 0,
                visited@.no_duplicates(),
                forall|m: int| 1 <= m < visited@.len() ==> targets.contains(#[trigger] visited@[m]),
                forall|a: int, b: int| 0 <= a < b < depths@.len() ==> depths@[a] <= depths@[b],
                head > 0 ==> forall|j: int| 0 <= j < depths@.len() ==> #[trigger] depths@[j] <= depths@[head - 1] + 1,
                forall|i: int, k: int|
                    0 <= i < head && depths@[i] < query.max_depth && 0 <= k < 64 ==> #[trigger] closed_at(slots, query, visited@, depths@, i, k),
            decreases MAX_TRAVERSAL_NODES - head,
        {
            let current = visited[head];
            let current_depth = depths[head];
            let ghost current_walk = walks[head as int];
            head = head + 1;
            proof {
                assert forall|j: int| 0 <= j < depths@.len() implies #[trigger] depths@[j] <= current_depth + 1 by {
                    if head - 1 > 0 {
                        assert(depths@[head - 2] <= depths@[head - 1]);
                    }
                }
            }
            if current_depth < query.max_depth {
                let mut relation_index: usize = 0;
                while relation_index < MAX_RELATIONS
                    invariant
                        0 <= relation_index <= 64,
                        0 < head <= visited@.len() <= MAX_TRAVERSAL_NODES,
                        !query_refused(*self, query),
                        query.source != query.target,
                        !search_skipped(*self, query),
                        slots == self.slots(),
                        targets == Seq::new(64, |k: int| slots[k].relation.target),
                        depths@.len() == visited@.len(),
                        walks.len() == visited@.len(),
                        self.relations@.len() == 64,
                        current_depth < query.max_depth,
                        current == visited@[head - 1],
                        current_depth == depths@[head - 1],
                        current_walk.len() == current_depth,
                        is_walk(self.slots(), query, query.source, current, current_walk),
                        forall|i: int| 0 <= i < visited@.len() ==> #[trigger] walks[i].len() == depths@[i] && is_walk(self.slots(), query, query.source, visited@[i], walks[i]),
                        forall|i: int| 0 <= i < visited@.len() ==> #[trigger] depths@[i] <= query.max_depth,
                        visited@[0] == query.source,
                        depths@[0] == 0,
                        visited@.no_duplicates(),
                        forall|m: int| 1 <= m < visited@.len() ==> targets.contains(#[trigger] visited@[m]),
                        forall|a: int, b: int| 0 <= a < b < depths@.len() ==> depths@[a] <= depths@[b],
                        forall|j: int| 0 <= j < depths@.len() ==> #[trigger] depths@[j] <= current_depth + 1,
                        forall|i: int, k: int|
                            0 <= i < head - 1 && depths@[i] < query.max_depth && 0 <= k < 64 ==> #[trigger] closed_at(slots, query, visited@, depths@, i, k),
                        forall|k: int| 0 <= k < relation_index ==> #[trigger] closed_at(slots, query, visited@, depths@, head - 1, k),
                    decreases 64 - relation_index,
                {
                    let entry = self.relations[relation_index];
                    if entry.occupied && entry.relation.source == current && query_matches(&entry.relation, &query) {
                        let next = entry.relation.target;
                        proof {
                            assert(edge_at(self.slots(), query, relation_index as int, current, next));
                            lemma_walk_push(self.slots(), query, query.source, current, current_walk, relation_index as int, next);
                        }
                        if next == query.target {
                            proof {
                                let w = current_walk.push(relation_index as int);
                                assert(w.len() == current_depth + 1);
                                assert(is_walk(self.slots(), query, query.source, query.target, w));
                                assert forall|i: int, k: int|
                                    0 <= i < visited@.len() && depths@[i] < current_depth && depths@[i] < query.max_depth && 0 <= k < 64
                                    implies #[trigger] closed_at(slots, query, visited@, depths@, i, k) by {
                                    if i >= head - 1 {
                                        if i > head - 1 {
                                            assert(depths@[head - 1] <= depths@[i]);
                                        }
                                    }
                                }
                                assert forall|w2: Seq<int>| #[trigger] is_walk(self.slots(), query, query.source, query.target, w2)
                                    implies w2.len() >= current_depth + 1 by {
                                    if w2.len() <= current_depth {
                                        lemma_bfs_walk(slots, query, visited@, depths@, current_depth as int, query.target, w2);
                                    }
                                }
                            }
                            return Some(current_depth + 1);
                        }
                        let mut seen = false;
                        let mut visited_index: usize = 0;
                        while visited_index < visited.len()
                            invariant_except_break
                                !seen,
                            invariant
                                0 <= visited_index <= visited@.len(),
                                forall|m: int| 0 <= m < visited_index ==> visited@[m] != next,
                            ensures
                                seen ==> visited_index < visited@.len() && visited@[visited_index as int] == next,
                                !seen ==> forall|m: int| 0 <= m < visited@.len() ==> visited@[m] != next,
                            decreases visited@.len() - visited_index,
                        {
                            if visited[visited_index] == next {
                                seen = true;
                                break;
                            }
                            visited_index = visited_index + 1;
                        }
                        if !seen {
                            if visited.len() >= MAX_TRAVERSAL_NODES {
                                proof {
                                    lemma_traversal_room(targets, visited@, next, relation_index as int);
                                }
                                return None;
                            }
                            let ghost vis0 = visited@;
                            let ghost dep0 = depths@;
                            visited.push(next);
                            depths.push(current_depth + 1);
                            proof {
                                walks = walks.push(current_walk.push(relation_index as int));
                                assert(targets[relation_index as int] == next);
                                assert forall|a: int, b: int| 0 <= a < b < visited@.len() implies visited@[a] != visited@[b] by {
                                    if b == vis0.len() {
                                        assert(vis0[a] != next);
                                    } else {
                                        assert(vis0[a] != vis0[b]);
                                    }
                                }
                                assert forall|m: int| 1 <= m < visited@.len() implies targets.contains(#[trigger] visited@[m]) by {
                                    if m < vis0.len() {
                                        assert(visited@[m] == vis0[m]);
                                    }
                                }
                                assert forall|i: int, k: int|
                                    0 <= i < head - 1 && depths@[i] < query.max_depth && 0 <= k < 64 implies #[trigger] closed_at(slots, query, visited@, depths@, i, k) by {
                                    lemma_closed_grow(slots, query, vis0, dep0, next, (current_depth + 1) as usize, i, k);
                                }
                                assert forall|k: int| 0 <= k < relation_index + 1 implies #[trigger] closed_at(slots, query, visited@, depths@, head - 1, k) by {
                                    if k < relation_index {
                                        lemma_closed_grow(slots, query, vis0, dep0, next, (current_depth + 1) as usize, head - 1, k);
                                    } else {
                                        assert(visited@[vis0.len() as int] == next);
                                    }
                                }
                            }
                        } else {
                            proof {
                                assert(depths@[visited_index as int] <= current_depth + 1);
                                assert(closed_at(slots, query, visited@, depths@, head - 1, relation_index as int));
                            }
                        }
                    }
                    relation_index = relation_index + 1;
                }
            }
        }
        proof {
            assert forall|w2: Seq<int>| #[trigger] is_walk(self.slots(), query, query.source, query.target, w2)
                implies w2.len() > query.max_depth by {
                if w2.len() <= query.max_depth {
                    lemma_bfs_walk(slots, query, visited@, depths@, query.max_depth as int, query.target, w2);
                }
            }
        }
        None
    }

    /// Whether `target` can be reached from `source` in at most `max_depth`
    /// hops over any relation.
    pub fn reachable(&self, source: ObjectId, target: ObjectId, max_depth: usize) -> (r: bool)
        ensures
            ({
                let q = RecursiveQuery { source, target, relation: None, context: None, max_depth };
                &&& (source == 0 || target == 0) ==> !r
                &&& (source != 0 && target != 0 && source == target) ==> r
                &&& (source != 0 && target != 0 && source != target && search_skipped(*self, q)) ==> !r
                &&& r ==> exists|w: Seq<int>| w.len() <= max_depth && #[trigger] is_walk(self.slots(), q, source, target, w)
                &&& (source != 0 && target != 0 && source != target && !search_skipped(*self, q) && !r)
                    ==> forall|w: Seq<int>| #[trigger] is_walk(self.slots(), q, source, target, w) ==> w.len() > max_depth
            }),
    {
        let q = RecursiveQuery { source, target, relation: None, context: None, max_depth };
        let r = self.recursive_query(q);
        proof {
            if r is Some {
                let d = r->0;
                let w = choose|w: Seq<int>| w.len() == d && #[trigger] is_walk(self.slots(), q, source, target, w);
                assert(w.len() <= max_depth);
            }
        }
        r.is_some()
    }
}


/// Slot `k` holds a relation the query admits but whose target or ID is 0,
/// so no path can be built over it.
pub open spec fn corrupt_at(slots: Seq<RelationEntry>, q: RecursiveQuery, k: int) -> bool {
    0 <= k < slots.len() && slots[k].occupied && spec_query_matches(slots[k].relation, q) && (slots[k].relation.target == 0
        || slots[k].id == 0)
}

/// Some stored relation the query admits has a zero target or ID.
pub open spec fn admits_corrupt_edge(slots: Seq<RelationEntry>, q: RecursiveQuery) -> bool {
    exists|k: int| #[trigger] corrupt_at(slots, q, k)
}

/// `p` is a path of admitted relations from the query's source to its
/// target, within the depth bound.
pub open spec fn path_answers(slots: Seq<RelationEntry>, q: RecursiveQuery, p: RelationPath) -> bool {
    &&& path_valid(p)
    &&& p.nodes@[0] == q.source
    &&& p.nodes@[p.node_count - 1] == q.target
    &&& p.relation_count <= q.max_depth
    &&& forall|i: int| 0 <= i < p.relation_count ==> #[trigger] edge_with_id(slots, q, p.relation_ids@[i], p.nodes@[i], p.nodes@[i + 1])
}

impl RelationRegistry {
    /// The path by which breadth-first search first met the target.
    #[verifier::loop_isolation(false)]
    pub fn find_path(&self, query: RecursiveQuery) -> (r: Option<RelationPath>)
        ensures
            path_found(*self, query, r),
            query_refused(*self, query) ==> r is None,
            !query_refused(*self, query) && query.source == query.target ==> (r matches Some(p) && p.node_count == 1
                && p.relation_count == 0),
            !query_refused(*self, query) && query.source != query.target && search_skipped(*self, query) ==> r is None,
            r matches Some(p) ==> path_answers(self.slots(), query, p),
            r matches Some(p) ==> forall|w: Seq<int>| #[trigger] is_walk(self.slots(), query, query.source, query.target, w)
                ==> w.len() >= p.relation_count,
            !query_refused(*self, query) && query.source != query.target && !search_skipped(*self, query) && r is None
                && !admits_corrupt_edge(self.slots(), query) ==> forall|w: Seq<int>| #[trigger] is_walk(self.slots(), query, query.source, query.target, w)
                ==> w.len() > query.max_depth,
    {
        if query.source == 0 || query.target == 0 {
            return None;
        }
        match query.relation {
            Some(relation) => {
                if !semantic::is_valid(relation) {
                    return None;
                }
            },
            None => {},
        }
        let mut path = RelationPath { nodes: [0u64; 65], relation_ids: [0u64; 64], node_count: 0, relation_count: 0 };
        path.nodes[0] = query.source;
        path.node_count = 1;
        if query.source == query.target {
            return Some(path);
        }
        if query.max_depth == 0 || self.count() == 0 || self.find_by_source(query.source).is_none() {
            return None;
        }
        let ghost slots = self.slots();
        let ghost targets = Seq::new(64, |k: int| slots[k].relation.target);
        let mut visited: Vec<u64> = Vec::new();
        let mut depths: Vec<usize> = Vec::new();
        let mut parents: Vec<usize> = Vec::new();
        let mut parent_relations: Vec<u64> = Vec::new();
        visited.push(query.source);
        depths.push(0);
        parents.push(usize::MAX);
        parent_relations.push(0);
        let mut head: usize = 0;
        let mut target_index: usize = usize::MAX;
        while head < visited.len() && target_index == usize::MAX
            invariant
                0 <= head <= visited@.len() <= MAX_TRAVERSAL_NODES,
                depths@.len() == visited@.len(),
                parents@.len() == visited@.len(),
                parent_relations@.len() == visited@.len(),
                self.relations@.len() == 64,
                visited@[0] == query.source,
                depths@[0] == 0,
                target_index == usize::MAX || (target_index < visited@.len() && visited@[target_index as int] == query.target),
                forall|i: int| 0 < i < visited@.len() ==> #[trigger] parents@[i] < i && depths@[i] == depths@[parents@[i] as int] + 1
                    && edge_with_id(self.slots(), query, parent_relations@[i], visited@[parents@[i] as int], visited@[i]),
                forall|i: int| 0 <= i < visited@.len() ==> #[trigger] depths@[i] <= i && depths@[i] <= query.max_depth,
                !search_skipped(*self, query),
                slots == self.slots(),
                targets == Seq::new(64, |k: int| slots[k].relation.target),
                !query_refused(*self, query),
                query.source != query.target,
                visited@.len() >= 1,
                visited@.no_duplicates(),
                forall|m: int| 1 <= m < visited@.len() ==> targets.contains(#[trigger] visited@[m]),
                forall|a: int, b: int| 0 <= a < b < depths@.len() ==> depths@[a] <= depths@[b],
                target_index == usize::MAX ==> forall|m: int| 0 <= m < visited@.len() ==> visited@[m] != query.target,
                target_index != usize::MAX ==> forall|w: Seq<int>| #[trigger] is_walk(slots, query, query.source, query.target, w)
                    ==> w.len() >= depths@[target_index as int],
                head == 0 ==> visited@.len() == 1,
                head > 0 ==> forall|j: int| 0 <= j < depths@.len() ==> #[trigger] depths@[j] <= depths@[head - 1] + 1,
                target_index == usize::MAX ==> forall|i: int, k: int|
                    0 <= i < head && depths@[i] < query.max_depth && 0 <= k < 64 ==> #[trigger] closed_at(slots, query, visited@, depths@, i, k),
            decreases MAX_TRAVERSAL_NODES - head, (if target_index == usize::MAX { 1int } else { 0int }),
        {
            let current = visited[head];
            let current_depth = depths[head];
            let current_index = head;
            head = head + 1;
            proof {
                assert forall|j: int| 0 <= j < depths@.len() implies #[trigger] depths@[j] <= current_depth + 1 by {
                    if head - 1 > 0 {
                        assert(depths@[head - 2] <= depths@[head - 1]);
                    }
                }
            }
            if current_depth < query.max_depth {
                let mut relation_index: usize = 0;
                while relation_index < MAX_RELATIONS && target_index == usize::MAX
                    invariant
                        0 <= relation_index <= 64,
                        current_index < head <= visited@.len() <= MAX_TRAVERSAL_NODES,
                        visited@[current_index as int] == current,
                        depths@[current_index as int] == current_depth,
                        depths@.len() == visited@.len(),
                        parents@.len() == visited@.len(),
                        parent_relations@.len() == visited@.len(),
                        self.relations@.len() == 64,
                        visited@[0] == query.source,
                        depths@[0] == 0,
                        target_index == usize::MAX || (target_index < visited@.len() && visited@[target_index as int] == query.target),
                        forall|i: int| 0 < i < visited@.len() ==> #[trigger] parents@[i] < i && depths@[i] == depths@[parents@[i] as int] + 1
                            && edge_with_id(self.slots(), query, parent_relations@[i], visited@[parents@[i] as int], visited@[i]),
                        forall|i: int| 0 <= i < visited@.len() ==> #[trigger] depths@[i] <= i && depths@[i] <= query.max_depth,
                        !search_skipped(*self, query),
                        slots == self.slots(),
                        targets == Seq::new(64, |k: int| slots[k].relation.target),
                        !query_refused(*self, query),
                        query.source != query.target,
                        visited@.len() >= 1,
                        visited@.no_duplicates(),
                        forall|m: int| 1 <= m < visited@.len() ==> targets.contains(#[trigger] visited@[m]),
                        forall|a: int, b: int| 0 <= a < b < depths@.len() ==> depths@[a] <= depths@[b],
                        target_index == usize::MAX ==> forall|m: int| 0 <= m < visited@.len() ==> visited@[m] != query.target,
                        target_index != usize::MAX ==> forall|w: Seq<int>| #[trigger] is_walk(slots, query, query.source, query.target, w)
                            ==> w.len() >= depths@[target_index as int],
                        current_index == head - 1,
                        current_depth < query.max_depth,
                        forall|j: int| 0 <= j < depths@.len() ==> #[trigger] depths@[j] <= current_depth + 1,
                        target_index == usize::MAX ==> forall|i: int, k: int|
                            0 <= i < head - 1 && depths@[i] < query.max_depth && 0 <= k < 64 ==> #[trigger] closed_at(slots, query, visited@, depths@, i, k),
                        target_index == usize::MAX ==> forall|k: int| 0 <= k < relation_index ==> #[trigger] closed_at(slots, query, visited@, depths@, head - 1, k),
                    decreases 64 - relation_index,
                {
                    let entry = self.relations[relation_index];
                    if entry.occupied && entry.relation.source == current && query_matches(&entry.relation, &query) {
                        let next = entry.relation.target;
                        proof {
                            assert(edge_at(self.slots(), query, relation_index as int, current, next));
                        }
                        let mut next_index: usize = usize::MAX;
                        let mut seen_index: usize = 0;
                        while seen_index < visited.len() && next_index == usize::MAX
                            invariant
                                0 <= seen_index <= visited@.len(),
                                next_index == usize::MAX || (next_index < visited@.len() && visited@[next_index as int] == next),
                                next_index == usize::MAX ==> forall|m: int| 0 <= m < seen_index ==> visited@[m] != next,
                            decreases visited@.len() - seen_index,
                        {
                            if visited[seen_index] == next {
                                next_index = seen_index;
                            }
                            seen_index = seen_index + 1;
                        }
                        if next_index == usize::MAX {
                            if visited.len() >= MAX_TRAVERSAL_NODES {
                                proof {
                                    assert(targets[relation_index as int] == next);
                                    lemma_traversal_room(targets, visited@, next, relation_index as int);
                                }
                                return None;
                            }
                            let ghost vis0 = visited@;
                            let ghost dep0 = depths@;
                            next_index = visited.len();
                            visited.push(next);
                            depths.push(current_depth + 1);
                            parents.push(current_index);
                            parent_relations.push(entry.id);
                            proof {
                                assert(targets[relation_index as int] == next);
                                assert forall|a: int, b: int| 0 <= a < b < visited@.len() implies visited@[a] != visited@[b] by {
                                    if b == vis0.len() {
                                        assert(vis0[a] != next);
                                    } else {
                                        assert(vis0[a] != vis0[b]);
                                    }
                                }
                                assert forall|m: int| 1 <= m < visited@.len() implies targets.contains(#[trigger] visited@[m]) by {
                                    if m < vis0.len() {
                                        assert(visited@[m] == vis0[m]);
                                    }
                                }
                                if next != query.target {
                                    assert forall|i: int, k: int|
                                        0 <= i < head - 1 && depths@[i] < query.max_depth && 0 <= k < 64 implies #[trigger] closed_at(slots, query, visited@, depths@, i, k) by {
                                        lemma_closed_grow(slots, query, vis0, dep0, next, (current_depth + 1) as usize, i, k);
                                    }
                                    assert forall|k: int| 0 <= k < relation_index + 1 implies #[trigger] closed_at(slots, query, visited@, depths@, head - 1, k) by {
                                        if k < relation_index {
                                            lemma_closed_grow(slots, query, vis0, dep0, next, (current_depth + 1) as usize, head - 1, k);
                                        } else {
                                            assert(visited@[vis0.len() as int] == next);
                                        }
                                    }
                                    assert forall|m: int| 0 <= m < visited@.len() implies visited@[m] != query.target by {
                                        if m < vis0.len() {
                                            assert(visited@[m] == vis0[m]);
                                        }
                                    }
                                } else {
                                    assert forall|i: int, k: int|
                                        0 <= i < vis0.len() && dep0[i] < current_depth && dep0[i] < query.max_depth && 0 <= k < 64
                                        implies #[trigger] closed_at(slots, query, vis0, dep0, i, k) by {
                                        if i >= head - 1 {
                                            if i > head - 1 {
                                                assert(dep0[head - 1] <= dep0[i]);
                                            }
                                        }
                                    }
                                    assert forall|w2: Seq<int>| #[trigger] is_walk(slots, query, query.source, query.target, w2)
                                        implies w2.len() >= current_depth + 1 by {
                                        if w2.len() <= current_depth {
                                            lemma_bfs_walk(slots, query, vis0, dep0, current_depth as int, query.target, w2);
                                        }
                                    }
                                    assert(depths@[next_index as int] == current_depth + 1);
                                }
                            }
                        } else {
                            proof {
                                assert(visited@[next_index as int] == next);
                                assert(next != query.target);
                                assert(depths@[next_index as int] <= current_depth + 1);
                                assert(closed_at(slots, query, visited@, depths@, head - 1, relation_index as int));
                            }
                        }
                        if next == query.target {
                            target_index = next_index;
                        }
                    }
                    relation_index = relation_index + 1;
                }
            }
        }
        if target_index == usize::MAX {
            proof {
                assert forall|w2: Seq<int>| #[trigger] is_walk(self.slots(), query, query.source, query.target, w2)
                    implies w2.len() > query.max_depth by {
                    if w2.len() <= query.max_depth {
                        lemma_bfs_walk(slots, query, visited@, depths@, query.max_depth as int, query.target, w2);
                    }
                }
            }
            return None;
        }
        let depth = depths[target_index];
        assert(depth <= query.max_depth && depth <= 64);
        if depth > MAX_RELATIONS || depth > query.max_depth {
            return None;
        }
        let mut reverse_nodes: Vec<u64> = Vec::new();
        let mut reverse_relations: Vec<u64> = Vec::new();
        let mut current_index = target_index;
        reverse_nodes.push(visited[current_index]);
        while current_index != 0
            invariant
                current_index < visited@.len() <= MAX_TRAVERSAL_NODES,
                depths@.len() == visited@.len(),
                parents@.len() == visited@.len(),
                parent_relations@.len() == visited@.len(),
                depths@[0] == 0,
                target_index < visited@.len(),
                visited@[target_index as int] == query.target,
                reverse_nodes@.len() == reverse_relations@.len() + 1,
                reverse_nodes@.len() <= MAX_TRAVERSAL_NODES,
                reverse_nodes@[0] == query.target,
                reverse_nodes@.last() == visited@[current_index as int],
                reverse_relations@.len() + depths@[current_index as int] == depths@[target_index as int],
                depths@[target_index as int] <= 64,
                reverse_nodes@.last() == visited@[current_index as int],
                forall|w: Seq<int>| #[trigger] is_walk(self.slots(), query, query.source, query.target, w)
                    ==> w.len() >= depths@[target_index as int],
                forall|j: int| 0 <= j < reverse_relations@.len() ==> #[trigger] edge_with_id(self.slots(), query, reverse_relations@[j], reverse_nodes@[j + 1], reverse_nodes@[j]),
                forall|i: int| 0 < i < visited@.len() ==> #[trigger] parents@[i] < i && depths@[i] == depths@[parents@[i] as int] + 1
                    && edge_with_id(self.slots(), query, parent_relations@[i], visited@[parents@[i] as int], visited@[i]),
            decreases current_index,
        {
            proof {
                assert(depths@[current_index as int] == depths@[parents@[current_index as int] as int] + 1);
            }
            if reverse_nodes.len() >= MAX_TRAVERSAL_NODES {
                return None;
            }
            let ghost before_nodes = reverse_nodes@;
            reverse_relations.push(parent_relations[current_index]);
            current_index = parents[current_index];
            reverse_nodes.push(visited[current_index]);
            proof {
                assert forall|j: int| 0 <= j < reverse_relations@.len() implies #[trigger] edge_with_id(self.slots(), query, reverse_relations@[j], reverse_nodes@[j + 1], reverse_nodes@[j]) by {
                    if j < reverse_relations@.len() - 1 {
                        assert(reverse_nodes@[j + 1] == before_nodes[j + 1]);
                    }
                }
            }
        }
        let count = reverse_nodes.len();
        path.node_count = count;
        path.relation_count = count - 1;
        let mut index: usize = 0;
        while index < count
            invariant
                0 <= index <= count <= MAX_TRAVERSAL_NODES,
                count == reverse_nodes@.len(),
                path.node_count == count,
                path.relation_count == count - 1,
                forall|i: int| 0 <= i < index ==> #[trigger] path.nodes@[i] == reverse_nodes@[count - 1 - i],
            decreases count - index,
        {
            path.nodes[index] = reverse_nodes[count - 1 - index];
            index = index + 1;
        }
        let relation_count = count - 1;
        index = 0;
        while index < relation_count
            invariant
                0 <= index <= relation_count,
                relation_count == reverse_relations@.len(),
                relation_count <= MAX_RELATIONS,
                count == reverse_nodes@.len(),
                path.node_count == count,
                path.relation_count == count - 1,
                relation_count == count - 1,
                forall|i: int| 0 <= i < count ==> #[trigger] path.nodes@[i] == reverse_nodes@[count - 1 - i],
                forall|i: int| 0 <= i < index ==> #[trigger] path.relation_ids@[i] == reverse_relations@[relation_count - 1 - i],
            decreases relation_count - index,
        {
            path.relation_ids[index] = reverse_relations[relation_count - 1 - index];
            index = index + 1;
        }
        proof {
            assert forall|i: int| 0 <= i < path.relation_count implies #[trigger] edge_with_id(self.slots(), query, path.relation_ids@[i], path.nodes@[i], path.nodes@[i + 1]) by {
                let j = relation_count - 1 - i;
                assert(path.nodes@[i] == reverse_nodes@[count - 1 - i]);
                assert(path.nodes@[i + 1] == reverse_nodes@[count - 1 - (i + 1)]);
                assert(edge_with_id(self.slots(), query, reverse_relations@[j], reverse_nodes@[j + 1], reverse_nodes@[j]));
            }
        }
        proof {
            if !admits_corrupt_edge(self.slots(), query) {
                assert forall|i: int| 0 <= i < path.node_count implies #[trigger] path.nodes@[i] != 0 by {
                    let j = count - 1 - i;
                    assert(path.nodes@[i] == reverse_nodes@[j]);
                    if j < count - 1 {
                        assert(edge_with_id(self.slots(), query, reverse_relations@[j], reverse_nodes@[j + 1], reverse_nodes@[j]));
                        let k = choose|k: int| #[trigger] edge_at(self.slots(), query, k, reverse_nodes@[j + 1], reverse_nodes@[j])
                            && self.slots()[k].id == reverse_relations@[j];
                        assert(corrupt_at(self.slots(), query, k) == false);
                    }
                }
                assert forall|i: int| 0 <= i < path.relation_count implies #[trigger] path.relation_ids@[i] != 0 by {
                    let j = relation_count - 1 - i;
                    assert(edge_with_id(self.slots(), query, reverse_relations@[j], reverse_nodes@[j + 1], reverse_nodes@[j]));
                    let k = choose|k: int| #[trigger] edge_at(self.slots(), query, k, reverse_nodes@[j + 1], reverse_nodes@[j])
                        && self.slots()[k].id == reverse_relations@[j];
                    assert(corrupt_at(self.slots(), query, k) == false);
                }
            }
        }
        if path.is_valid() {
            Some(path)
        } else {
            None
        }
    }
}


/// The stored relations with their IDs, in slot order.
pub open spec fn listing(slots: Seq<RelationEntry>) -> Seq<(u64, Relation)> {
    compacted(slots, 64).map_values(|e: RelationEntry| (e.id, e.relation))
}

impl RelationRegistry {
    /// Every stored relation with its ID, in slot order: what a visit of the
    /// registry meets, as copies.
    pub fn for_each(&self) -> (r: Vec<(u64, Relation)>)
        ensures
            r@ == listing(self.slots()),
    {
        let mut out: Vec<(u64, Relation)> = Vec::new();
        let mut index: usize = 0;
        while index < 64
            invariant
                0 <= index <= 64,
                self.relations@.len() == 64,
                out@ == compacted(self.relations@, index as int).map_values(|e: RelationEntry| (e.id, e.relation)),
            decreases 64 - index,
        {
            let e = self.relations[index];
            if e.occupied {
                out.push((e.id, e.relation));
            }
            proof {
                assert(compacted(self.relations@, index + 1).map_values(|e: RelationEntry| (e.id, e.relation)) =~=
                    compacted(self.relations@, index as int).map_values(|e: RelationEntry| (e.id, e.relation)) + (if e.occupied {
                        seq![(e.id, e.relation)]
                    } else {
                        Seq::empty()
                    }));
            }
            index = index + 1;
        }
        out
    }
}


proof fn lemma_compacted_len(slots: Seq<RelationEntry>, n: int)
    requires
        0 <= n <= slots.len(),
    ensures
        compacted(slots, n).len() <= n,
    decreases n,
{
    if n > 0 {
        lemma_compacted_len(slots, n - 1);
    }
}

/// At most `MAX_RELATIONS` relations are listed.
pub proof fn lemma_listing_len(reg: RelationRegistry)
    ensures
        listing(reg.slots()).len() <= MAX_RELATIONS,
        listing(reg.slots()).len() == compacted(reg.slots(), 64).len(),
{
    assert(reg.slots().len() == 64);
    lemma_compacted_len(reg.slots(), 64);
}


/// `b` is `a` with, at most, another trust state.
pub open spec fn same_but_trust(a: RelationEntry, b: RelationEntry) -> bool {
    b == RelationEntry { trust: b.trust, ..a }
}

/// `b` differs from `a` in trust states only.
pub open spec fn trust_only(a: RelationRegistry, b: RelationRegistry) -> bool {
    &&& a.slots().len() == b.slots().len()
    &&& forall|i: int| 0 <= i < a.slots().len() ==> #[trigger] same_but_trust(a.slots()[i], b.slots()[i])
    &&& a.sources() == b.sources()
    &&& a.targets() == b.targets()
    &&& a.semantics() == b.semantics()
    &&& a.spec_next_id() == b.spec_next_id()
}

proof fn lemma_trust_only_slot_of(a: Seq<RelationEntry>, b: Seq<RelationEntry>, id: u64, i: int)
    requires
        a.len() == b.len(),
        forall|j: int| 0 <= j < a.len() ==> #[trigger] same_but_trust(a[j], b[j]),
    ensures
        slot_of(a, id, i) == slot_of(b, id, i),
    decreases a.len() - i,
{
    if 0 <= i < a.len() {
        assert(same_but_trust(a[i], b[i]));
        lemma_trust_only_slot_of(a, b, id, i + 1);
    }
}

proof fn lemma_trust_only_compacted(a: Seq<RelationEntry>, b: Seq<RelationEntry>, n: int)
    requires
        0 <= n <= a.len(),
        a.len() == b.len(),
        forall|j: int| 0 <= j < a.len() ==> #[trigger] same_but_trust(a[j], b[j]),
    ensures
        compacted(a, n).map_values(|e: RelationEntry| (e.id, e.relation)) == compacted(b, n).map_values(|e: RelationEntry| (e.id, e.relation)),
        occupied_upto(a, n) == occupied_upto(b, n),
    decreases n,
{
    if n > 0 {
        lemma_trust_only_compacted(a, b, n - 1);
        assert(same_but_trust(a[n - 1], b[n - 1]));
        assert(compacted(a, n).map_values(|e: RelationEntry| (e.id, e.relation)) =~= compacted(a, n - 1).map_values(|e: RelationEntry| (e.id, e.relation))
            + (if a[n - 1].occupied { seq![(a[n - 1].id, a[n - 1].relation)] } else { Seq::empty() }));
        assert(compacted(b, n).map_values(|e: RelationEntry| (e.id, e.relation)) =~= compacted(b, n - 1).map_values(|e: RelationEntry| (e.id, e.relation))
            + (if b[n - 1].occupied { seq![(b[n - 1].id, b[n - 1].relation)] } else { Seq::empty() }));
    }
}

/// A change of trust states keeps every relation, its data, its integrity
/// value and the listing.
pub proof fn lemma_trust_only(a: RelationRegistry, b: RelationRegistry, id: u64)
    requires
        trust_only(a, b),
    ensures
        a.entry(id) is Some <==> b.entry(id) is Some,
        slot_of(a.slots(), id, 0) == slot_of(b.slots(), id, 0),
        a.entry(id) matches Some(e) ==> same_but_trust(e, b.entry(id)->0),
        listing(a.slots()) == listing(b.slots()),
        a.spec_count() == b.spec_count(),
{
    lemma_trust_only_slot_of(a.slots(), b.slots(), id, 0);
    lemma_trust_only_compacted(a.slots(), b.slots(), 64);
    lemma_slot_of(a.slots(), id, 0);
}

pub proof fn lemma_trust_only_trans(a: RelationRegistry, b: RelationRegistry, c: RelationRegistry)
    requires
        trust_only(a, b),
        trust_only(b, c),
    ensures
        trust_only(a, c),
{
    assert forall|i: int| 0 <= i < a.slots().len() implies #[trigger] same_but_trust(a.slots()[i], c.slots()[i]) by {
        assert(same_but_trust(a.slots()[i], b.slots()[i]));
        assert(same_but_trust(b.slots()[i], c.slots()[i]));
    }
}

/// The trust state an integrity check records for entry `e`.
pub open spec fn checked_trust(e: RelationEntry) -> RelationTrust {
    if integrity_of(e.id, e.relation, e.metadata, e.provenance) == e.integrity {
        RelationTrust::Verified
    } else {
        RelationTrust::Invalid
    }
}

/// Relation `id`, if stored, carries the outcome of its integrity check.
pub open spec fn is_checked(reg: RelationRegistry, id: u64) -> bool {
    reg.entry(id) matches Some(e) ==> e.trust == checked_trust(e)
}

/// `b` is `a` with some relations' integrity checked: each slot keeps its
/// trust or carries the outcome of its check.
pub open spec fn trust_checked(a: RelationRegistry, b: RelationRegistry) -> bool {
    &&& trust_only(a, b)
    &&& forall|i: int| 0 <= i < a.slots().len() ==> #[trigger] b.slots()[i].trust == a.slots()[i].trust || b.slots()[i].trust
        == checked_trust(a.slots()[i])
}

/// Checking relations one after another is checking relations.
pub proof fn lemma_trust_checked_trans(a: RelationRegistry, b: RelationRegistry, c: RelationRegistry)
    requires
        trust_checked(a, b),
        trust_checked(b, c),
    ensures
        trust_checked(a, c),
{
    lemma_trust_only_trans(a, b, c);
    assert forall|i: int| 0 <= i < a.slots().len() implies #[trigger] c.slots()[i].trust == a.slots()[i].trust || c.slots()[i].trust
        == checked_trust(a.slots()[i]) by {
        assert(same_but_trust(a.slots()[i], b.slots()[i]));
        assert(checked_trust(b.slots()[i]) == checked_trust(a.slots()[i]));
        assert(c.slots()[i].trust == b.slots()[i].trust || c.slots()[i].trust == checked_trust(b.slots()[i]));
    }
}

/// Score of one relation for query ranking: full for a relation whose
/// integrity value checks out, none otherwise.
pub open spec fn spec_relation_score(reg: RelationRegistry, id: u64) -> u16 {
    match reg.entry(id) {
        Some(e) => if integrity_of(e.id, e.relation, e.metadata, e.provenance) == e.integrity { 100 } else { 0 },
        None => 0,
    }
}

/// What `recursive_query` promises of its answer `r`.
pub open spec fn query_answered(reg: RelationRegistry, q: RecursiveQuery, r: Option<usize>) -> bool {
    &&& query_refused(reg, q) ==> r is None
    &&& !query_refused(reg, q) && q.source == q.target ==> r == Some(0usize)
    &&& !query_refused(reg, q) && q.source != q.target && search_skipped(reg, q) ==> r is None
    &&& r matches Some(d) ==> d <= q.max_depth || d == 0
    &&& r matches Some(d) ==> exists|w: Seq<int>| w.len() == d && #[trigger] is_walk(reg.slots(), q, q.source, q.target, w)
    &&& r matches Some(d) ==> forall|w: Seq<int>| #[trigger] is_walk(reg.slots(), q, q.source, q.target, w) ==> w.len() >= d
    &&& !query_refused(reg, q) && q.source != q.target && !search_skipped(reg, q) && r is None
        ==> forall|w: Seq<int>| #[trigger] is_walk(reg.slots(), q, q.source, q.target, w) ==> w.len() > q.max_depth
}

/// What `find_path` promises of its answer `r`.
pub open spec fn path_found(reg: RelationRegistry, q: RecursiveQuery, r: Option<RelationPath>) -> bool {
    &&& query_refused(reg, q) ==> r is None
    &&& !query_refused(reg, q) && q.source == q.target ==> (r matches Some(p) && p.node_count == 1 && p.relation_count == 0)
    &&& !query_refused(reg, q) && q.source != q.target && search_skipped(reg, q) ==> r is None
    &&& r matches Some(p) ==> path_answers(reg.slots(), q, p)
    &&& r matches Some(p) ==> forall|w: Seq<int>| #[trigger] is_walk(reg.slots(), q, q.source, q.target, w) ==> w.len() >= p.relation_count
    &&& !query_refused(reg, q) && q.source != q.target && !search_skipped(reg, q) && r is None && !admits_corrupt_edge(reg.slots(), q)
        ==> forall|w: Seq<int>| #[trigger] is_walk(reg.slots(), q, q.source, q.target, w) ==> w.len() > q.max_depth
}

/// The first `i` relations of an answered path form a walk from the source
/// to its node `i`.
pub proof fn lemma_path_walk(slots: Seq<RelationEntry>, q: RecursiveQuery, p: RelationPath, i: int)
    requires
        path_answers(slots, q, p),
        0 <= i <= p.relation_count,
    ensures
        exists|w: Seq<int>| w.len() == i && #[trigger] is_walk(slots, q, q.source, p.nodes@[i], w),
    decreases i,
{
    if i == 0 {
        assert(is_walk(slots, q, q.source, p.nodes@[0], Seq::<int>::empty()));
    } else {
        lemma_path_walk(slots, q, p, i - 1);
        let w = choose|w: Seq<int>| w.len() == i - 1 && #[trigger] is_walk(slots, q, q.source, p.nodes@[i - 1], w);
        let j = i - 1;
        assert(edge_with_id(slots, q, p.relation_ids@[j], p.nodes@[j], p.nodes@[j + 1]));
        assert(p.nodes@[j + 1] == p.nodes@[i]);
        let k = choose|k: int| #[trigger] edge_at(slots, q, k, p.nodes@[i - 1], p.nodes@[i]) && slots[k].id == p.relation_ids@[i - 1];
        lemma_walk_push(slots, q, q.source, p.nodes@[i - 1], w, k, p.nodes@[i]);
        assert(w.push(k).len() == i);
    }
}

/// `find_path` and `recursive_query` agree: a path is found exactly when
/// the query has an answer, and its length is that answer, the length of a
/// shortest admitted walk, provided no admitted relation has a zero target
/// or ID.
pub proof fn law_find_path_agrees_with_query(reg: RelationRegistry, q: RecursiveQuery, d: Option<usize>, p: Option<RelationPath>)
    requires
        query_answered(reg, q, d),
        path_found(reg, q, p),
        !admits_corrupt_edge(reg.slots(), q),
    ensures
        d is None <==> p is None,
        p matches Some(path) ==> d == Some(path.relation_count),
{
    if let Some(path) = p {
        lemma_path_walk(reg.slots(), q, path, path.relation_count as int);
        let w = choose|w: Seq<int>| w.len() == path.relation_count && #[trigger] is_walk(reg.slots(), q, q.source, path.nodes@[path.relation_count as int], w);
        assert(path.nodes@[path.node_count - 1] == q.target);
        assert(is_walk(reg.slots(), q, q.source, q.target, w));
        if let Some(dd) = d {
            let w2 = choose|w2: Seq<int>| w2.len() == dd && #[trigger] is_walk(reg.slots(), q, q.source, q.target, w2);
            assert(w2.len() >= path.relation_count);
        }
    } else {
        if let Some(dd) = d {
            let w2 = choose|w2: Seq<int>| w2.len() == dd && #[trigger] is_walk(reg.slots(), q, q.source, q.target, w2);
            if q.source == q.target {
            } else {
                assert(dd != 0);
            }
        }
    }
}


/// The first `n` bytes of `data`.
fn prefix_bytes(data: &[u8], n: usize) -> (v: Vec<u8>)
    requires
        n <= data@.len(),
    ensures
        v@ == data@.subrange(0, n as int),
{
    let mut v: Vec<u8> = Vec::new();
    let mut i: usize = 0;
    while i < n
        invariant
            i <= n,
            n <= data@.len(),
            v@ == data@.subrange(0, i as int),
        decreases n - i,
    {
        v.push(data[i]);
        i = i + 1;
        assert(v@ =~= data@.subrange(0, i as int));
    }
    v
}

/// The registry on fresh state: ids, lookups and indexes of an added
/// relation; duplicates under new ids; removal; refusal of relations
/// without source, target or semantic; context 0 and self relations; filling
/// to capacity and refusing more; a reset registry starting again at id 1;
/// traversal, recursive queries and paths over the chain 1 -> 2 -> 3 -> 4 ->
/// 5; serialization round trip with an equal hash; a sync frame round trip
/// and re-application; integrity, trust and provenance; and version
/// conflicts decided by newer and stale frames. Returns whether every check
/// held.
#[verifier::rlimit(40)]
pub fn self_test() -> (ok: bool) {
    let mut reg = RelationRegistry::new();
    if reg.count() != 0 || reg.contains(0) {
        return false;
    }
    let valid_relation = Relation { source: 42, relation: semantic::CONNECTED_TO, target: 91, context: 7 };
    let id1 = match reg.add(valid_relation, 0) {
        Some(id) => id,
        None => {
            return false;
        },
    };
    if id1 != 1 || reg.count() != 1 || !reg.contains(id1) {
        return false;
    }
    match reg.relation(id1) {
        Some(stored) => {
            if stored.source != valid_relation.source || stored.relation != valid_relation.relation
                || stored.target != valid_relation.target || stored.context != valid_relation.context
            {
                return false;
            }
        },
        None => {
            return false;
        },
    }
    if reg.relation(0).is_some() {
        return false;
    }
    if reg.find(valid_relation.source, valid_relation.relation, valid_relation.target, valid_relation.context) != Some(id1) {
        return false;
    }
    match reg.metadata(id1) {
        Some(metadata) => {
            if metadata.version != CURRENT_VERSION || metadata.created_at != metadata.updated_at || metadata.state != semantic::ACTIVE {
                return false;
            }
        },
        None => {
            return false;
        },
    }
    if reg.metadata(0).is_some() {
        return false;
    }
    if reg.find_by_source(valid_relation.source) != Some(id1) || reg.find_by_target(valid_relation.target) != Some(id1)
        || reg.find_by_semantic(valid_relation.relation) != Some(id1)
    {
        return false;
    }
    let id2 = match reg.add(valid_relation, 0) {
        Some(id) => id,
        None => {
            return false;
        },
    };
    if id1 == u64::MAX || id2 != id1 + 1 || reg.count() != 2 {
        return false;
    }
    if reg.find(valid_relation.source, valid_relation.relation, valid_relation.target, valid_relation.context) != Some(id1) {
        return false;
    }
    if reg.find_by_source(valid_relation.source) != Some(id1) || reg.find_by_target(valid_relation.target) != Some(id1)
        || reg.find_by_semantic(valid_relation.relation) != Some(id1)
    {
        return false;
    }
    if !reg.remove(id1) || reg.contains(id1) || !reg.contains(id2) || reg.count() != 1 {
        return false;
    }
    if reg.find(valid_relation.source, valid_relation.relation, valid_relation.target, valid_relation.context) != Some(id2) {
        return false;
    }
    if reg.find_by_source(valid_relation.source) != Some(id2) || reg.find_by_target(valid_relation.target) != Some(id2)
        || reg.find_by_semantic(valid_relation.relation) != Some(id2)
    {
        return false;
    }
    if reg.find_by_source(0).is_some() || reg.find_by_target(0).is_some() || reg.find_by_semantic(0).is_some() {
        return false;
    }
    let id3 = match reg.add(valid_relation, 0) {
        Some(id) => id,
        None => {
            return false;
        },
    };
    if id2 == u64::MAX || id3 != id2 + 1 || id3 == id1 || reg.count() != 2 {
        return false;
    }
    let mut bad_source = valid_relation;
    bad_source.source = 0;
    let mut bad_target = valid_relation;
    bad_target.target = 0;
    let mut bad_semantic = valid_relation;
    bad_semantic.relation = 0;
    if reg.add(bad_source, 0).is_some() || reg.add(bad_target, 0).is_some() || reg.add(bad_semantic, 0).is_some() {
        return false;
    }
    let mut context_zero = valid_relation;
    context_zero.context = 0;
    let context_zero_id = match reg.add(context_zero, 0) {
        Some(id) => id,
        None => {
            return false;
        },
    };
    let mut self_relation = valid_relation;
    self_relation.source = 5;
    self_relation.target = 5;
    let self_relation_id = match reg.add(self_relation, 0) {
        Some(id) => id,
        None => {
            return false;
        },
    };
    if !reg.contains(context_zero_id) || !reg.contains(self_relation_id) || reg.count() != 4 {
        return false;
    }
    if reg.find_by_source(5) != Some(self_relation_id) || reg.find_by_target(5) != Some(self_relation_id) {
        return false;
    }
    // Filling to capacity; one more is refused.
    let occupied_before_fill = reg.count();
    let mut fill_index: u64 = 0;
    while fill_index < CAPACITY as u64 && reg.count() < CAPACITY
        invariant
            fill_index <= CAPACITY,
        decreases CAPACITY - fill_index,
    {
        let unique = Relation { source: 1_000 + fill_index, relation: semantic::CONNECTED_TO, target: 2_000 + fill_index, context: 0 };
        if reg.add(unique, 0).is_none() {
            return false;
        }
        fill_index = fill_index + 1;
    }
    if reg.count() != CAPACITY || occupied_before_fill >= CAPACITY || fill_index as usize != CAPACITY - occupied_before_fill {
        return false;
    }
    if reg.find_by_source(1_000).is_none() || reg.find_by_target(2_000).is_none() || reg.find_by_semantic(semantic::CONNECTED_TO).is_none() {
        return false;
    }
    let overflow_relation = Relation { source: 9_999, relation: semantic::CONNECTED_TO, target: 9_998, context: 0 };
    if reg.add(overflow_relation, 0).is_some() {
        return false;
    }
    // A reset registry holds nothing and starts again at id 1.
    let mut reg = RelationRegistry::new();
    if reg.count() != 0 || reg.contains(id1) || reg.contains(id2) || reg.contains(id3) || reg.contains(context_zero_id)
        || reg.contains(self_relation_id) || reg.find_by_source(valid_relation.source).is_some()
        || reg.find_by_target(valid_relation.target).is_some() || reg.find_by_semantic(valid_relation.relation).is_some()
    {
        return false;
    }
    match reg.add(valid_relation, 0) {
        Some(id) => {
            if id != 1 || reg.count() != 1 {
                return false;
            }
        },
        None => {
            return false;
        },
    }
    // Traversal, recursive queries and paths over 1 -> 2 -> 3 -> 4 -> 5.
    let mut reg = RelationRegistry::new();
    let p12 = match reg.add(Relation { source: 1, relation: semantic::CONNECTED_TO, target: 2, context: 7 }, 0) {
        Some(id) => id,
        None => {
            return false;
        },
    };
    let p23 = match reg.add(Relation { source: 2, relation: semantic::CONNECTED_TO, target: 3, context: 7 }, 0) {
        Some(id) => id,
        None => {
            return false;
        },
    };
    let p34 = match reg.add(Relation { source: 3, relation: semantic::CAUSES, target: 4, context: 8 }, 0) {
        Some(id) => id,
        None => {
            return false;
        },
    };
    let p45 = match reg.add(Relation { source: 4, relation: semantic::CONNECTED_TO, target: 5, context: 7 }, 0) {
        Some(id) => id,
        None => {
            return false;
        },
    };
    if !reg.reachable(1, 5, 4) || reg.reachable(1, 5, 3) || !reg.reachable(1, 1, 0) {
        return false;
    }
    let query_all = RecursiveQuery { source: 1, target: 5, relation: None, context: None, max_depth: 4 };
    if reg.recursive_query(query_all) != Some(4usize) {
        return false;
    }
    let query_context = RecursiveQuery { source: 1, target: 3, relation: Some(semantic::CONNECTED_TO), context: Some(7), max_depth: 2 };
    if reg.recursive_query(query_context) != Some(2usize) {
        return false;
    }
    let query_wrong_context = RecursiveQuery { source: 1, target: 5, relation: None, context: Some(8), max_depth: 4 };
    if reg.recursive_query(query_wrong_context).is_some() {
        return false;
    }
    let path = match reg.find_path(query_all) {
        Some(path) => path,
        None => {
            return false;
        },
    };
    if !path.is_valid() || path.depth() != 4 || path.node_count != 5 || path.nodes[0] != 1 || path.nodes[4] != 5
        || path.relation_ids[0] != p12 || path.relation_ids[1] != p23 || path.relation_ids[2] != p34 || path.relation_ids[3] != p45
    {
        return false;
    }
    match reg.find_path(RecursiveQuery { source: 3, target: 3, relation: None, context: None, max_depth: 0 }) {
        Some(same) => {
            if !same.is_valid() || same.node_count != 1 || same.relation_count != 0 {
                return false;
            }
        },
        None => {
            return false;
        },
    }
    // Serialization round trip.
    let mut serialized = [0u8; 5384];
    let serialized_len = match reg.serialize(&mut serialized) {
        Some(length) => length,
        None => {
            return false;
        },
    };
    let n = reg.count();
    if n > 64 || serialized_len != SERIALIZED_HEADER_BYTES + n * SERIALIZED_RELATION_BYTES {
        return false;
    }
    let registry_hash = match reg.hash() {
        Some(value) => value,
        None => {
            return false;
        },
    };
    let bytes = prefix_bytes(&serialized, serialized_len);
    let mut reg = RelationRegistry::new();
    if !reg.deserialize(bytes.as_slice()) || reg.count() != 4 {
        return false;
    }
    if reg.hash() != Some(registry_hash) || !reg.contains(p12) || !reg.contains(p23) || !reg.contains(p34) || !reg.contains(p45) {
        return false;
    }
    // Sync frame round trip and re-application.
    let frame = match reg.sync_frame(p12) {
        Some(frame) => frame,
        None => {
            return false;
        },
    };
    if frame.relation_id != p12 || frame.operation != SyncOperation::Add {
        return false;
    }
    let mut sync_bytes = [0u8; 85];
    let sync_len = match encode_sync_frame(&frame, &mut sync_bytes) {
        Some(length) => length,
        None => {
            return false;
        },
    };
    let frame_bytes = prefix_bytes(&sync_bytes, sync_len);
    let decoded = match decode_sync_frame(frame_bytes.as_slice()) {
        Some(decoded) => decoded,
        None => {
            return false;
        },
    };
    if decoded.relation_id != frame.relation_id || decoded.relation.source != frame.relation.source
        || decoded.relation.target != frame.relation.target || decoded.metadata.version != frame.metadata.version
    {
        return false;
    }
    if !reg.remove(p12) || !reg.apply_sync_frame(decoded) || !reg.contains(p12) {
        return false;
    }
    // Provenance, integrity, trust and version conflicts.
    if !reg.verify_integrity(p12) || reg.trust(p12) != Some(RelationTrust::Verified) {
        return false;
    }
    match reg.provenance(p12) {
        Some(value) => {
            if value.source != ProvenanceSource::Local || value.revision != 1 {
                return false;
            }
        },
        None => {
            return false;
        },
    }
    if reg.integrity(p12).is_none() {
        return false;
    }
    match reg.is_newer(p12, CURRENT_VERSION, 1) {
        Some(false) => {},
        _ => {
            return false;
        },
    }
    let base_frame = match reg.sync_frame(p12) {
        Some(frame) => frame,
        None => {
            return false;
        },
    };
    let mut newer = base_frame;
    newer.operation = SyncOperation::Update;
    newer.metadata.updated_at = newer.metadata.updated_at.saturating_add(1);
    newer.metadata.version = CURRENT_VERSION + 1;
    newer.provenance.source = ProvenanceSource::Remote;
    newer.provenance.origin = 99;
    newer.provenance.revision = 2;
    newer.trust = RelationTrust::Verified;
    newer.integrity = integrity_hash(newer.relation_id, &newer.relation, &newer.metadata, &newer.provenance);
    if !reg.apply_sync_frame(newer) || reg.trust(p12) != Some(RelationTrust::Verified) {
        return false;
    }
    if reg.apply_sync_frame(base_frame) || reg.trust(p12) != Some(RelationTrust::Conflict) {
        return false;
    }
    true
}

} // verus!
