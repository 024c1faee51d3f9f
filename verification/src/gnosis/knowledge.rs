//! GNOSIS knowledge registry: a fixed number of slots holding key/value
//! byte strings under stable entry ids.
use vstd::prelude::*;

verus! {

pub const MAX_ENTRIES: usize = 16;

/// Maximum number of knowledge entries.
pub const CAPACITY: usize = MAX_ENTRIES;

/// Maximum key size accepted by the registry.
pub const MAX_KEY_SIZE: usize = 32;

/// Maximum value size accepted by the registry.
pub const MAX_VALUE_SIZE: usize = 96;

/// A copy of `src`.
pub fn copy_bytes(src: &[u8]) -> (v: Vec<u8>)
    ensures
        v@ == src@,
{
    let mut v: Vec<u8> = Vec::new();
    let mut i: usize = 0;
    while i < src.len()
        invariant
            0 <= i <= src.len(),
            v@ == src@.subrange(0, i as int),
        decreases src.len() - i,
    {
        v.push(src[i]);
        i = i + 1;
        assert(v@ =~= src@.subrange(0, i as int));
    }
    assert(src@.subrange(0, src@.len() as int) =~= src@);
    v
}

/// Whether two byte strings are equal.
pub fn bytes_equal(a: &[u8], b: &[u8]) -> (r: bool)
    ensures
        r == (a@ == b@),
{
    if a.len() != b.len() {
        return false;
    }
    let mut i: usize = 0;
    while i < a.len()
        invariant
            a.len() == b.len(),
            0 <= i <= a.len(),
            forall|j: int| 0 <= j < i ==> a@[j] == b@[j],
        decreases a.len() - i,
    {
        if a[i] != b[i] {
            return false;
        }
        i = i + 1;
    }
    assert(a@ =~= b@);
    true
}

/// One registry slot.
pub struct KnowledgeEntry {
    pub id: u64,
    pub key: Vec<u8>,
    pub value: Vec<u8>,
    pub occupied: bool,
}

/// What a slot holds, as plain values.
pub struct EntryView {
    pub id: u64,
    pub key: Seq<u8>,
    pub value: Seq<u8>,
    pub occupied: bool,
}

impl KnowledgeEntry {
    pub open spec fn view(&self) -> EntryView {
        EntryView { id: self.id, key: self.key@, value: self.value@, occupied: self.occupied }
    }

    fn empty() -> (e: Self)
        ensures
            e.view() == empty_view(),
    {
        KnowledgeEntry { id: 0, key: Vec::new(), value: Vec::new(), occupied: false }
    }
}

pub open spec fn empty_view() -> EntryView {
    EntryView { id: 0, key: Seq::empty(), value: Seq::empty(), occupied: false }
}

/// Whether a key and a value may be stored.
pub open spec fn storable(key: Seq<u8>, value: Seq<u8>) -> bool {
    0 < key.len() <= MAX_KEY_SIZE && value.len() <= MAX_VALUE_SIZE
}

/// Index of the first free slot at or after `i`, or the number of slots.
pub open spec fn free_from(s: Seq<EntryView>, i: int) -> int
    decreases s.len() - i,
{
    if i < 0 || i >= s.len() {
        s.len() as int
    } else if !s[i].occupied {
        i
    } else {
        free_from(s, i + 1)
    }
}

/// Index of the first occupied slot at or after `i` holding `key`, or the
/// number of slots.
pub open spec fn key_from(s: Seq<EntryView>, key: Seq<u8>, i: int) -> int
    decreases s.len() - i,
{
    if i < 0 || i >= s.len() {
        s.len() as int
    } else if s[i].occupied && s[i].key == key {
        i
    } else {
        key_from(s, key, i + 1)
    }
}

/// Index of the first occupied slot at or after `i` with entry id `id`, or
/// the number of slots.
pub open spec fn id_from(s: Seq<EntryView>, id: u64, i: int) -> int
    decreases s.len() - i,
{
    if i < 0 || i >= s.len() {
        s.len() as int
    } else if s[i].occupied && s[i].id == id {
        i
    } else {
        id_from(s, id, i + 1)
    }
}

proof fn lemma_free_from(s: Seq<EntryView>, i: int)
    requires
        0 <= i <= s.len(),
        forall|j: int| 0 <= j < i ==> (#[trigger] s[j]).occupied,
    ensures
        free_from(s, 0) == free_from(s, i),
    decreases i,
{
    if i > 0 {
        lemma_free_from(s, i - 1);
    }
}

proof fn lemma_key_from(s: Seq<EntryView>, key: Seq<u8>, i: int)
    requires
        0 <= i <= s.len(),
        forall|j: int| 0 <= j < i ==> !((#[trigger] s[j]).occupied && s[j].key == key),
    ensures
        key_from(s, key, 0) == key_from(s, key, i),
    decreases i,
{
    if i > 0 {
        lemma_key_from(s, key, i - 1);
    }
}

proof fn lemma_id_from(s: Seq<EntryView>, id: u64, i: int)
    requires
        0 <= i <= s.len(),
        forall|j: int| 0 <= j < i ==> !((#[trigger] s[j]).occupied && s[j].id == id),
    ensures
        id_from(s, id, 0) == id_from(s, id, i),
    decreases i,
{
    if i > 0 {
        lemma_id_from(s, id, i - 1);
    }
}

/// The number of occupied slots before the first free one.
pub open spec fn leading_count(s: Seq<EntryView>) -> int {
    free_from(s, 0)
}

/// The entry stored by a successful insert.
pub open spec fn new_entry(id: u64, key: Seq<u8>, value: Seq<u8>) -> EntryView {
    EntryView { id, key, value, occupied: true }
}

/// The slots after an insert into the first free slot.
pub open spec fn inserted(s: Seq<EntryView>, id: u64, key: Seq<u8>, value: Seq<u8>) -> Seq<
    EntryView,
> {
    s.update(free_from(s, 0), new_entry(id, key, value))
}

/// The slots after the value of slot `i` is replaced.
pub open spec fn revalued(s: Seq<EntryView>, i: int, value: Seq<u8>) -> Seq<EntryView> {
    s.update(i, EntryView { value, ..s[i] })
}

/// The key and value stored under `id`, if any.
pub open spec fn lookup(s: Seq<EntryView>, id: u64) -> Option<(Seq<u8>, Seq<u8>)> {
    let i = id_from(s, id, 0);
    if i < s.len() {
        Some((s[i].key, s[i].value))
    } else {
        None
    }
}

/// Every occupied slot holds an id below `next`.
pub open spec fn ids_below(s: Seq<EntryView>, next: u64) -> bool {
    forall|i: int| 0 <= i < s.len() && (#[trigger] s[i]).occupied ==> s[i].id < next
}

proof fn lemma_free_prefix(s: Seq<EntryView>, i: int)
    requires
        0 <= i <= s.len(),
    ensures
        i <= free_from(s, i) <= s.len(),
        forall|j: int| i <= j < free_from(s, i) ==> (#[trigger] s[j]).occupied,
        free_from(s, i) < s.len() ==> !s[free_from(s, i)].occupied,
    decreases s.len() - i,
{
    if i < s.len() && s[i].occupied {
        lemma_free_prefix(s, i + 1);
    }
}

proof fn lemma_key_prefix(s: Seq<EntryView>, key: Seq<u8>, i: int)
    requires
        0 <= i <= s.len(),
    ensures
        i <= key_from(s, key, i) <= s.len(),
        forall|j: int| i <= j < key_from(s, key, i) ==> !((#[trigger] s[j]).occupied && s[j].key == key),
        key_from(s, key, i) < s.len() ==> s[key_from(s, key, i)].occupied && s[key_from(s, key, i)].key == key,
    decreases s.len() - i,
{
    if i < s.len() && !(s[i].occupied && s[i].key == key) {
        lemma_key_prefix(s, key, i + 1);
    }
}

/// Reading back a fresh insert: where every stored id is below the id that
/// an insert hands out, reading that id afterwards gives the key and value
/// that were written.
pub proof fn law_read_after_insert(s: Seq<EntryView>, next: u64, key: Seq<u8>, value: Seq<u8>)
    requires
        ids_below(s, next),
        free_from(s, 0) < s.len(),
    ensures
        lookup(inserted(s, next, key, value), next) == Some((key, value)),
{
    let k = free_from(s, 0);
    let t = inserted(s, next, key, value);
    lemma_free_prefix(s, 0);
    assert forall|j: int| 0 <= j < k implies !((#[trigger] t[j]).occupied && t[j].id == next) by {
        assert(t[j] == s[j]);
    }
    lemma_id_from(t, next, k);
}

/// Fresh ids stay fresh: an insert keeps every stored id below the next id
/// handed out, as long as that id does not wrap.
pub proof fn law_insert_keeps_ids_below(s: Seq<EntryView>, next: u64, key: Seq<u8>, value: Seq<u8>)
    requires
        ids_below(s, next),
        next < u64::MAX,
        free_from(s, 0) < s.len(),
    ensures
        ids_below(inserted(s, next, key, value), (next + 1) as u64),
{
    lemma_free_prefix(s, 0);
}

/// Updating an existing key keeps its id: after the value of the first entry
/// holding `key` is replaced, that key is still found first at the same slot,
/// under the same id, with the new value.
pub proof fn law_upsert_keeps_id(s: Seq<EntryView>, key: Seq<u8>, value: Seq<u8>)
    requires
        key_from(s, key, 0) < s.len(),
    ensures
        ({
            let k = key_from(s, key, 0);
            let t = revalued(s, k, value);
            &&& key_from(t, key, 0) == k
            &&& t[k].id == s[k].id
            &&& t[k].value == value
        }),
{
    let k = key_from(s, key, 0);
    let t = revalued(s, k, value);
    lemma_key_prefix(s, key, 0);
    assert forall|j: int| 0 <= j < k implies !((#[trigger] t[j]).occupied && t[j].key == key) by {
        assert(t[j] == s[j]);
    }
    lemma_key_from(t, key, k);
}

/// The registry: `MAX_ENTRIES` slots and the next id to hand out.
pub struct KnowledgeRegistry {
    slots: Vec<KnowledgeEntry>,
    next_id: u64,
}

impl KnowledgeRegistry {
    pub closed spec fn entries(&self) -> Seq<EntryView> {
        Seq::new(self.slots@.len(), |i: int| self.slots@[i].view())
    }

    pub closed spec fn next_id(&self) -> u64 {
        self.next_id
    }

    pub closed spec fn wf(&self) -> bool {
        self.slots@.len() == MAX_ENTRIES
    }

    /// An empty registry whose first id is 1.
    pub fn new() -> (r: Self)
        ensures
            r.wf(),
            r.entries() == Seq::new(MAX_ENTRIES as nat, |i: int| empty_view()),
            r.next_id() == 1,
    {
        let mut slots: Vec<KnowledgeEntry> = Vec::new();
        let mut i: usize = 0;
        while i < MAX_ENTRIES
            invariant
                0 <= i <= MAX_ENTRIES,
                slots@.len() == i,
                forall|j: int| 0 <= j < i ==> (#[trigger] slots@[j]).view() == empty_view(),
            decreases MAX_ENTRIES - i,
        {
            slots.push(KnowledgeEntry::empty());
            i = i + 1;
        }
        let r = KnowledgeRegistry { slots, next_id: 1 };
        assert(r.entries() =~= Seq::new(MAX_ENTRIES as nat, |i: int| empty_view()));
        r
    }

    /// Number of occupied slots counted from the first up to the first free
    /// one.
    pub fn entry_count(&self) -> (n: usize)
        requires
            self.wf(),
        ensures
            n == leading_count(self.entries()),
    {
        let ghost s = self.entries();
        let mut count: usize = 0;
        while count < MAX_ENTRIES
            invariant
                self.wf(),
                s == self.entries(),
                0 <= count <= MAX_ENTRIES,
                forall|j: int| 0 <= j < count ==> (#[trigger] s[j]).occupied,
            ensures
                count == MAX_ENTRIES || !s[count as int].occupied,
                forall|j: int| 0 <= j < count ==> (#[trigger] s[j]).occupied,
            decreases MAX_ENTRIES - count,
        {
            if !self.slots[count].occupied {
                break;
            }
            count = count + 1;
        }
        proof {
            lemma_free_from(s, count as int);
        }
        count
    }

    /// Stores `key` and `value` under a new id in the first free slot. No
    /// slot changes and no id is used where the key is empty or too long, the
    /// value too long, or no slot is free.
    pub fn insert(&mut self, key: &[u8], value: &[u8]) -> (r: Option<u64>)
        requires
            old(self).wf(),
        ensures
            final(self).wf(),
            r is Some <==> storable(key@, value@) && free_from(old(self).entries(), 0)
                < MAX_ENTRIES,
            r is Some ==> r == Some(old(self).next_id()) && final(self).entries() == inserted(
                old(self).entries(),
                old(self).next_id(),
                key@,
                value@,
            ) && final(self).next_id() == old(self).next_id().wrapping_add(1),
            r is None ==> *final(self) == *old(self),
    {
        if key.len() == 0 || key.len() > MAX_KEY_SIZE || value.len() > MAX_VALUE_SIZE {
            return None;
        }
        let ghost s = self.entries();
        let mut index: usize = 0;
        while index < MAX_ENTRIES
            invariant
                self.wf(),
                *self == *old(self),
                storable(key@, value@),
                s == self.entries(),
                0 <= index <= MAX_ENTRIES,
                forall|j: int| 0 <= j < index ==> (#[trigger] s[j]).occupied,
            decreases MAX_ENTRIES - index,
        {
            if !self.slots[index].occupied {
                proof {
                    lemma_free_from(s, index as int);
                }
                let id = self.next_id;
                self.next_id = self.next_id.wrapping_add(1);
                let entry = KnowledgeEntry {
                    id,
                    key: copy_bytes(key),
                    value: copy_bytes(value),
                    occupied: true,
                };
                self.slots.set(index, entry);
                assert(self.entries() =~= inserted(s, id, key@, value@));
                return Some(id);
            }
            index = index + 1;
        }
        proof {
            lemma_free_from(s, MAX_ENTRIES as int);
        }
        None
    }

    /// Replaces the value of the first entry holding `key` and returns its
    /// id, which stays the same; a key not yet stored is inserted.
    pub fn upsert(&mut self, key: &[u8], value: &[u8]) -> (r: Option<u64>)
        requires
            old(self).wf(),
        ensures
            final(self).wf(),
            ({
                let s = old(self).entries();
                let k = key_from(s, key@, 0);
                if !storable(key@, value@) {
                    r is None && *final(self) == *old(self)
                } else if k < MAX_ENTRIES {
                    r == Some(s[k].id) && final(self).entries() == revalued(s, k, value@)
                        && final(self).next_id() == old(self).next_id()
                } else if free_from(s, 0) < MAX_ENTRIES {
                    r == Some(old(self).next_id()) && final(self).entries() == inserted(
                        s,
                        old(self).next_id(),
                        key@,
                        value@,
                    ) && final(self).next_id() == old(self).next_id().wrapping_add(1)
                } else {
                    r is None && *final(self) == *old(self)
                }
            }),
    {
        if key.len() == 0 || key.len() > MAX_KEY_SIZE || value.len() > MAX_VALUE_SIZE {
            return None;
        }
        let ghost s = self.entries();
        let mut index: usize = 0;
        while index < MAX_ENTRIES
            invariant
                self.wf(),
                *self == *old(self),
                storable(key@, value@),
                s == self.entries(),
                0 <= index <= MAX_ENTRIES,
                forall|j: int| 0 <= j < index ==> !((#[trigger] s[j]).occupied && s[j].key == key@),
            decreases MAX_ENTRIES - index,
        {
            if self.slots[index].occupied && bytes_equal(self.slots[index].key.as_slice(), key) {
                proof {
                    lemma_key_from(s, key@, index as int);
                }
                let id = self.slots[index].id;
                let old_key = copy_bytes(self.slots[index].key.as_slice());
                let entry = KnowledgeEntry { id, key: old_key, value: copy_bytes(value), occupied: true };
                self.slots.set(index, entry);
                assert(self.entries() =~= revalued(s, index as int, value@));
                return Some(id);
            }
            index = index + 1;
        }
        proof {
            lemma_key_from(s, key@, MAX_ENTRIES as int);
        }
        self.insert(key, value)
    }

    /// The id of the first entry holding `key`.
    pub fn find_id(&self, key: &[u8]) -> (r: Option<u64>)
        requires
            self.wf(),
        ensures
            ({
                let s = self.entries();
                let k = key_from(s, key@, 0);
                r == (if k < MAX_ENTRIES { Some(s[k].id) } else { None::<u64> })
            }),
    {
        let ghost s = self.entries();
        let mut index: usize = 0;
        while index < MAX_ENTRIES
            invariant
                self.wf(),
                s == self.entries(),
                0 <= index <= MAX_ENTRIES,
                forall|j: int| 0 <= j < index ==> !((#[trigger] s[j]).occupied && s[j].key == key@),
            decreases MAX_ENTRIES - index,
        {
            if self.slots[index].occupied && bytes_equal(self.slots[index].key.as_slice(), key) {
                proof {
                    lemma_key_from(s, key@, index as int);
                }
                return Some(self.slots[index].id);
            }
            index = index + 1;
        }
        proof {
            lemma_key_from(s, key@, MAX_ENTRIES as int);
        }
        None
    }

    /// The key and value stored under `id`, copied out.
    pub fn with_entry(&self, id: u64) -> (r: Option<(Vec<u8>, Vec<u8>)>)
        requires
            self.wf(),
        ensures
            match lookup(self.entries(), id) {
                Some(kv) => match r {
                    Some(p) => p.0@ == kv.0 && p.1@ == kv.1,
                    None => false,
                },
                None => r is None,
            },
    {
        let ghost s = self.entries();
        let mut index: usize = 0;
        while index < MAX_ENTRIES
            invariant
                self.wf(),
                s == self.entries(),
                0 <= index <= MAX_ENTRIES,
                forall|j: int| 0 <= j < index ==> !((#[trigger] s[j]).occupied && s[j].id == id),
            decreases MAX_ENTRIES - index,
        {
            if self.slots[index].occupied && self.slots[index].id == id {
                proof {
                    lemma_id_from(s, id, index as int);
                }
                let k = copy_bytes(self.slots[index].key.as_slice());
                let v = copy_bytes(self.slots[index].value.as_slice());
                return Some((k, v));
            }
            index = index + 1;
        }
        proof {
            lemma_id_from(s, id, MAX_ENTRIES as int);
        }
        None
    }

    /// Whether some entry holds `key`.
    pub fn contains(&self, key: &[u8]) -> (r: bool)
        requires
            self.wf(),
        ensures
            r == (key_from(self.entries(), key@, 0) < MAX_ENTRIES),
    {
        self.find_id(key).is_some()
    }

    /// Empties every slot and restarts ids at 1.
    pub fn clear(&mut self)
        ensures
            final(self).wf(),
            final(self).entries() == Seq::new(MAX_ENTRIES as nat, |i: int| empty_view()),
            final(self).next_id() == 1,
    {
        *self = KnowledgeRegistry::new();
    }
}

/// The registry's own check: after a clear, "GNOSIS" stored with the value
/// "KNOWLEDGE SUBSTRATE" is the one entry, is found under its key, and its
/// id gives back both byte strings. The registry is left empty.
pub fn self_test(reg: &mut KnowledgeRegistry) -> (ok: bool)
    requires
        old(reg).wf(),
    ensures
        ok,
        final(reg).wf(),
        final(reg).entries() == Seq::new(MAX_ENTRIES as nat, |i: int| empty_view()),
        final(reg).next_id() == 1,
{
    reg.clear();
    let key: Vec<u8> = vec![71, 78, 79, 83, 73, 83];
    let value: Vec<u8> = vec![75, 78, 79, 87, 76, 69, 68, 71, 69, 32, 83, 85, 66, 83, 84, 82, 65, 84, 69];
    let ghost s0 = reg.entries();
    proof {
        assert(!s0[0].occupied);
        assert(free_from(s0, 0) == 0);
    }
    let id = match reg.insert(key.as_slice(), value.as_slice()) {
        Some(id) => id,
        None => return false,
    };
    let ghost s1 = reg.entries();
    proof {
        assert(s1[0] == new_entry(1, key@, value@));
        assert(!s1[1].occupied);
        assert(free_from(s1, 1) == 1);
        assert(free_from(s1, 0) == 1);
        assert(key_from(s1, key@, 0) == 0);
        assert(id_from(s1, 1, 0) == 0);
    }
    if reg.entry_count() != 1 {
        reg.clear();
        return false;
    }
    match reg.find_id(key.as_slice()) {
        Some(found) => {
            if found != id {
                reg.clear();
                return false;
            }
        },
        None => {
            reg.clear();
            return false;
        },
    }
    let valid = match reg.with_entry(id) {
        Some(pair) => bytes_equal(pair.0.as_slice(), key.as_slice()) && bytes_equal(
            pair.1.as_slice(),
            value.as_slice(),
        ),
        None => false,
    };
    reg.clear();
    valid
}

} // verus!
