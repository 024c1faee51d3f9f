//! GNOSIS messaging registry: a fixed number of message slots, each message
//! under a stable id, with a hop budget (ttl) that relaying spends.
use vstd::prelude::*;
use crate::gnosis::knowledge::copy_bytes;

verus! {

pub const MAX_MESSAGES: usize = 32;

pub const CAPACITY: usize = MAX_MESSAGES;

pub const NODE_ID_MAX: usize = 32;

pub const MESSAGE_TYPE_MAX: usize = 24;

pub const MAX_PAYLOAD_SIZE: usize = 192;

/// One message slot.
pub struct MessageEntry {
    pub id: u64,
    pub source: Vec<u8>,
    pub destination: Vec<u8>,
    pub msg_type: Vec<u8>,
    pub sequence: u64,
    pub ttl: u8,
    pub payload: Vec<u8>,
    pub occupied: bool,
}

/// What a slot holds, as plain values.
pub struct MessageView {
    pub id: u64,
    pub source: Seq<u8>,
    pub destination: Seq<u8>,
    pub msg_type: Seq<u8>,
    pub sequence: u64,
    pub ttl: u8,
    pub payload: Seq<u8>,
    pub occupied: bool,
}

impl MessageEntry {
    pub open spec fn view(&self) -> MessageView {
        MessageView {
            id: self.id,
            source: self.source@,
            destination: self.destination@,
            msg_type: self.msg_type@,
            sequence: self.sequence,
            ttl: self.ttl,
            payload: self.payload@,
            occupied: self.occupied,
        }
    }

    fn empty() -> (e: Self)
        ensures
            e.view() == empty_message(),
    {
        MessageEntry {
            id: 0,
            source: Vec::new(),
            destination: Vec::new(),
            msg_type: Vec::new(),
            sequence: 0,
            ttl: 0,
            payload: Vec::new(),
            occupied: false,
        }
    }

    fn copy(&self) -> (e: Self)
        ensures
            e.view() == self.view(),
    {
        MessageEntry {
            id: self.id,
            source: copy_bytes(self.source.as_slice()),
            destination: copy_bytes(self.destination.as_slice()),
            msg_type: copy_bytes(self.msg_type.as_slice()),
            sequence: self.sequence,
            ttl: self.ttl,
            payload: copy_bytes(self.payload.as_slice()),
            occupied: self.occupied,
        }
    }
}

pub open spec fn empty_message() -> MessageView {
    MessageView {
        id: 0,
        source: Seq::empty(),
        destination: Seq::empty(),
        msg_type: Seq::empty(),
        sequence: 0,
        ttl: 0,
        payload: Seq::empty(),
        occupied: false,
    }
}

/// Whether a message's fields may be stored.
pub open spec fn fields_ok(
    source: Seq<u8>,
    destination: Seq<u8>,
    msg_type: Seq<u8>,
    ttl: u8,
    payload: Seq<u8>,
) -> bool {
    &&& 0 < source.len() <= NODE_ID_MAX
    &&& 0 < destination.len() <= NODE_ID_MAX
    &&& 0 < msg_type.len() <= MESSAGE_TYPE_MAX
    &&& payload.len() <= MAX_PAYLOAD_SIZE
    &&& ttl != 0
}

/// The stored form of a message.
pub open spec fn message(
    id: u64,
    source: Seq<u8>,
    destination: Seq<u8>,
    msg_type: Seq<u8>,
    sequence: u64,
    ttl: u8,
    payload: Seq<u8>,
) -> MessageView {
    MessageView { id, source, destination, msg_type, sequence, ttl, payload, occupied: true }
}

/// Index of the first free slot at or after `i`, or the number of slots.
pub open spec fn free_slot_from(s: Seq<MessageView>, i: int) -> int
    decreases s.len() - i,
{
    if i < 0 || i >= s.len() {
        s.len() as int
    } else if !s[i].occupied {
        i
    } else {
        free_slot_from(s, i + 1)
    }
}

/// Index of the first occupied slot at or after `i` holding id `id`, or the
/// number of slots.
pub open spec fn slot_of_from(s: Seq<MessageView>, id: u64, i: int) -> int
    decreases s.len() - i,
{
    if i < 0 || i >= s.len() {
        s.len() as int
    } else if s[i].occupied && s[i].id == id {
        i
    } else {
        slot_of_from(s, id, i + 1)
    }
}

pub open spec fn slot_of(s: Seq<MessageView>, id: u64) -> int {
    slot_of_from(s, id, 0)
}

pub open spec fn holds(s: Seq<MessageView>, id: u64) -> bool {
    slot_of(s, id) < s.len()
}

proof fn lemma_free_slot(s: Seq<MessageView>, i: int)
    requires
        0 <= i <= s.len(),
        forall|j: int| 0 <= j < i ==> (#[trigger] s[j]).occupied,
    ensures
        free_slot_from(s, 0) == free_slot_from(s, i),
    decreases i,
{
    if i > 0 {
        lemma_free_slot(s, i - 1);
    }
}

proof fn lemma_slot_of(s: Seq<MessageView>, id: u64, i: int)
    requires
        0 <= i <= s.len(),
        forall|j: int| 0 <= j < i ==> !((#[trigger] s[j]).occupied && s[j].id == id),
    ensures
        slot_of(s, id) == slot_of_from(s, id, i),
    decreases i,
{
    if i > 0 {
        lemma_slot_of(s, id, i - 1);
    }
}

proof fn lemma_free_slot_prefix(s: Seq<MessageView>, i: int)
    requires
        0 <= i <= s.len(),
    ensures
        i <= free_slot_from(s, i) <= s.len(),
        forall|j: int| i <= j < free_slot_from(s, i) ==> (#[trigger] s[j]).occupied,
        free_slot_from(s, i) < s.len() ==> !s[free_slot_from(s, i)].occupied,
    decreases s.len() - i,
{
    if i < s.len() && s[i].occupied {
        lemma_free_slot_prefix(s, i + 1);
    }
}

proof fn lemma_slot_of_prefix(s: Seq<MessageView>, id: u64, i: int)
    requires
        0 <= i <= s.len(),
    ensures
        i <= slot_of_from(s, id, i) <= s.len(),
        forall|j: int| i <= j < slot_of_from(s, id, i) ==> !((#[trigger] s[j]).occupied && s[j].id == id),
        slot_of_from(s, id, i) < s.len() ==> s[slot_of_from(s, id, i)].occupied
            && s[slot_of_from(s, id, i)].id == id,
    decreases s.len() - i,
{
    if i < s.len() && !(s[i].occupied && s[i].id == id) {
        lemma_slot_of_prefix(s, id, i + 1);
    }
}

/// The number of occupied slots before the first free one.
pub open spec fn leading_messages(s: Seq<MessageView>) -> int {
    free_slot_from(s, 0)
}

/// The slots after a message is stored in the first free slot.
pub open spec fn stored(s: Seq<MessageView>, m: MessageView) -> Seq<MessageView> {
    s.update(free_slot_from(s, 0), m)
}

/// The slots after the message in slot `i` spends one hop.
pub open spec fn relayed(s: Seq<MessageView>, i: int) -> Seq<MessageView> {
    s.update(i, MessageView { ttl: (s[i].ttl - 1) as u8, ..s[i] })
}

/// Every occupied slot holds an id below `next`.
pub open spec fn message_ids_below(s: Seq<MessageView>, next: u64) -> bool {
    forall|i: int| 0 <= i < s.len() && (#[trigger] s[i]).occupied ==> s[i].id < next
}

/// The registry: `MAX_MESSAGES` slots and the next id that `send` hands out.
pub struct MessageRegistry {
    slots: Vec<MessageEntry>,
    next_id: u64,
}

impl MessageRegistry {
    pub closed spec fn messages(&self) -> Seq<MessageView> {
        Seq::new(self.slots@.len(), |i: int| self.slots@[i].view())
    }

    pub closed spec fn next_id(&self) -> u64 {
        self.next_id
    }

    pub closed spec fn wf(&self) -> bool {
        self.slots@.len() == MAX_MESSAGES
    }

    /// An empty registry whose first id is 1.
    pub fn new() -> (r: Self)
        ensures
            r.wf(),
            r.messages() == Seq::new(MAX_MESSAGES as nat, |i: int| empty_message()),
            r.next_id() == 1,
    {
        let mut slots: Vec<MessageEntry> = Vec::new();
        let mut i: usize = 0;
        while i < MAX_MESSAGES
            invariant
                0 <= i <= MAX_MESSAGES,
                slots@.len() == i,
                forall|j: int| 0 <= j < i ==> (#[trigger] slots@[j]).view() == empty_message(),
            decreases MAX_MESSAGES - i,
        {
            slots.push(MessageEntry::empty());
            i = i + 1;
        }
        let r = MessageRegistry { slots, next_id: 1 };
        assert(r.messages() =~= Seq::new(MAX_MESSAGES as nat, |i: int| empty_message()));
        r
    }

    /// Number of occupied slots counted from the first up to the first free
    /// one.
    pub fn count(&self) -> (n: usize)
        requires
            self.wf(),
        ensures
            n == leading_messages(self.messages()),
    {
        let ghost s = self.messages();
        let mut c: usize = 0;
        while c < MAX_MESSAGES
            invariant
                self.wf(),
                s == self.messages(),
                0 <= c <= MAX_MESSAGES,
                forall|j: int| 0 <= j < c ==> (#[trigger] s[j]).occupied,
            ensures
                c == MAX_MESSAGES || !s[c as int].occupied,
                forall|j: int| 0 <= j < c ==> (#[trigger] s[j]).occupied,
            decreases MAX_MESSAGES - c,
        {
            if !self.slots[c].occupied {
                break;
            }
            c = c + 1;
        }
        proof {
            lemma_free_slot(s, c as int);
        }
        c
    }

    /// Index of the first occupied slot holding `id`, or `MAX_MESSAGES`.
    fn find(&self, id: u64) -> (i: usize)
        requires
            self.wf(),
        ensures
            i == slot_of(self.messages(), id),
    {
        let ghost s = self.messages();
        let mut i: usize = 0;
        while i < MAX_MESSAGES
            invariant
                self.wf(),
                s == self.messages(),
                0 <= i <= MAX_MESSAGES,
                forall|j: int| 0 <= j < i ==> !((#[trigger] s[j]).occupied && s[j].id == id),
            decreases MAX_MESSAGES - i,
        {
            if self.slots[i].occupied && self.slots[i].id == id {
                proof {
                    lemma_slot_of(s, id, i as int);
                }
                return i;
            }
            i = i + 1;
        }
        proof {
            lemma_slot_of(s, id, MAX_MESSAGES as int);
        }
        MAX_MESSAGES
    }

    /// Index of the first free slot, or `MAX_MESSAGES`.
    fn first_free(&self) -> (i: usize)
        requires
            self.wf(),
        ensures
            i == free_slot_from(self.messages(), 0),
    {
        let ghost s = self.messages();
        let mut i: usize = 0;
        while i < MAX_MESSAGES
            invariant
                self.wf(),
                s == self.messages(),
                0 <= i <= MAX_MESSAGES,
                forall|j: int| 0 <= j < i ==> (#[trigger] s[j]).occupied,
            decreases MAX_MESSAGES - i,
        {
            if !self.slots[i].occupied {
                proof {
                    lemma_free_slot(s, i as int);
                }
                return i;
            }
            i = i + 1;
        }
        proof {
            lemma_free_slot(s, MAX_MESSAGES as int);
        }
        MAX_MESSAGES
    }

    /// Whether a message with this id is stored.
    pub fn contains(&self, id: u64) -> (r: bool)
        requires
            self.wf(),
        ensures
            r == holds(self.messages(), id),
    {
        self.find(id) < MAX_MESSAGES
    }

    /// Stores a new message under the next id. Refused, with nothing
    /// changed, where a field is empty or too long, `ttl` is 0, or no slot is
    /// free.
    pub fn send(
        &mut self,
        source: &[u8],
        destination: &[u8],
        msg_type: &[u8],
        sequence: u64,
        ttl: u8,
        payload: &[u8],
    ) -> (r: Option<u64>)
        requires
            old(self).wf(),
        ensures
            final(self).wf(),
            r is Some <==> fields_ok(source@, destination@, msg_type@, ttl, payload@)
                && free_slot_from(old(self).messages(), 0) < MAX_MESSAGES,
            r is Some ==> r == Some(old(self).next_id()) && final(self).messages() == stored(
                old(self).messages(),
                message(
                    old(self).next_id(),
                    source@,
                    destination@,
                    msg_type@,
                    sequence,
                    ttl,
                    payload@,
                ),
            ) && final(self).next_id() == old(self).next_id().wrapping_add(1),
            r is None ==> *final(self) == *old(self),
    {
        if source.len() == 0 || source.len() > NODE_ID_MAX || destination.len() == 0
            || destination.len() > NODE_ID_MAX || msg_type.len() == 0 || msg_type.len()
            > MESSAGE_TYPE_MAX || payload.len() > MAX_PAYLOAD_SIZE || ttl == 0 {
            return None;
        }
        let index = self.first_free();
        if index >= MAX_MESSAGES {
            return None;
        }
        let ghost s = self.messages();
        let id = self.next_id;
        self.next_id = self.next_id.wrapping_add(1);
        let entry = MessageEntry {
            id,
            source: copy_bytes(source),
            destination: copy_bytes(destination),
            msg_type: copy_bytes(msg_type),
            sequence,
            ttl,
            payload: copy_bytes(payload),
            occupied: true,
        };
        self.slots.set(index, entry);
        assert(self.messages() =~= stored(
            s,
            message(id, source@, destination@, msg_type@, sequence, ttl, payload@),
        ));
        Some(id)
    }

    /// Stores a message that arrived with its own id, which is kept and does
    /// not advance the next id. Refused, with nothing changed, where `id` is
    /// 0 or already stored, a field is empty or too long, `ttl` is 0, or no
    /// slot is free.
    pub fn import_with_id(
        &mut self,
        id: u64,
        source: &[u8],
        destination: &[u8],
        msg_type: &[u8],
        sequence: u64,
        ttl: u8,
        payload: &[u8],
    ) -> (r: Option<u64>)
        requires
            old(self).wf(),
        ensures
            final(self).wf(),
            r is Some <==> id != 0 && fields_ok(source@, destination@, msg_type@, ttl, payload@)
                && !holds(old(self).messages(), id) && free_slot_from(old(self).messages(), 0)
                < MAX_MESSAGES,
            r is Some ==> r == Some(id) && final(self).messages() == stored(
                old(self).messages(),
                message(id, source@, destination@, msg_type@, sequence, ttl, payload@),
            ) && final(self).next_id() == old(self).next_id(),
            r is None ==> *final(self) == *old(self),
    {
        if id == 0 || source.len() == 0 || source.len() > NODE_ID_MAX || destination.len() == 0
            || destination.len() > NODE_ID_MAX || msg_type.len() == 0 || msg_type.len()
            > MESSAGE_TYPE_MAX || payload.len() > MAX_PAYLOAD_SIZE || ttl == 0 {
            return None;
        }
        if self.contains(id) {
            return None;
        }
        let index = self.first_free();
        if index >= MAX_MESSAGES {
            return None;
        }
        let ghost s = self.messages();
        let entry = MessageEntry {
            id,
            source: copy_bytes(source),
            destination: copy_bytes(destination),
            msg_type: copy_bytes(msg_type),
            sequence,
            ttl,
            payload: copy_bytes(payload),
            occupied: true,
        };
        self.slots.set(index, entry);
        assert(self.messages() =~= stored(
            s,
            message(id, source@, destination@, msg_type@, sequence, ttl, payload@),
        ));
        Some(id)
    }

    /// A copy of the first message stored under `id`.
    pub fn with_message(&self, id: u64) -> (r: Option<MessageEntry>)
        requires
            self.wf(),
        ensures
            match r {
                Some(m) => holds(self.messages(), id) && m.view() == self.messages()[slot_of(
                    self.messages(),
                    id,
                )],
                None => !holds(self.messages(), id),
            },
    {
        let i = self.find(id);
        if i < MAX_MESSAGES {
            Some(self.slots[i].copy())
        } else {
            None
        }
    }

    /// Forwards the message under `id`: its ttl drops by one and nothing
    /// else changes. False, with nothing changed, where no message has this
    /// id or its ttl is already 0.
    pub fn relay(&mut self, id: u64) -> (r: bool)
        requires
            old(self).wf(),
        ensures
            final(self).wf(),
            final(self).next_id() == old(self).next_id(),
            ({
                let s = old(self).messages();
                let i = slot_of(s, id);
                if i < MAX_MESSAGES && s[i].ttl != 0 {
                    r && final(self).messages() == relayed(s, i)
                } else {
                    !r && *final(self) == *old(self)
                }
            }),
    {
        let i = self.find(id);
        if i >= MAX_MESSAGES {
            return false;
        }
        if self.slots[i].ttl == 0 {
            return false;
        }
        let ghost s = self.messages();
        let mut entry = self.slots[i].copy();
        entry.ttl = entry.ttl - 1;
        self.slots.set(i, entry);
        assert(self.messages() =~= relayed(s, i as int));
        true
    }

    /// Empties the first slot holding `id`. False, with nothing changed,
    /// where no message has this id.
    pub fn remove(&mut self, id: u64) -> (r: bool)
        requires
            old(self).wf(),
        ensures
            final(self).wf(),
            final(self).next_id() == old(self).next_id(),
            r == holds(old(self).messages(), id),
            r ==> final(self).messages() == old(self).messages().update(
                slot_of(old(self).messages(), id),
                empty_message(),
            ),
            !r ==> *final(self) == *old(self),
    {
        let i = self.find(id);
        if i >= MAX_MESSAGES {
            return false;
        }
        let ghost s = self.messages();
        self.slots.set(i, MessageEntry::empty());
        assert(self.messages() =~= s.update(i as int, empty_message()));
        true
    }

    /// Empties every slot and restarts ids at 1.
    pub fn clear(&mut self)
        ensures
            final(self).wf(),
            final(self).messages() == Seq::new(MAX_MESSAGES as nat, |i: int| empty_message()),
            final(self).next_id() == 1,
    {
        *self = MessageRegistry::new();
    }
}

/// Reading back a sent message: where every stored id is below the id that
/// `send` hands out, the new id leads to the message as it was sent.
pub proof fn law_read_after_send(s: Seq<MessageView>, m: MessageView)
    requires
        m.occupied,
        message_ids_below(s, m.id),
        free_slot_from(s, 0) < s.len(),
    ensures
        holds(stored(s, m), m.id),
        stored(s, m)[slot_of(stored(s, m), m.id)] == m,
{
    let k = free_slot_from(s, 0);
    let t = stored(s, m);
    lemma_free_slot_prefix(s, 0);
    assert forall|j: int| 0 <= j < k implies !((#[trigger] t[j]).occupied && t[j].id == m.id) by {
        assert(t[j] == s[j]);
    }
    lemma_slot_of(t, m.id, k);
}

/// Relaying spends exactly one hop: the relayed message keeps its slot, its
/// id and its contents, and its ttl is one less.
pub proof fn law_relay_spends_one_hop(s: Seq<MessageView>, id: u64)
    requires
        holds(s, id),
        s[slot_of(s, id)].ttl != 0,
    ensures
        ({
            let i = slot_of(s, id);
            let t = relayed(s, i);
            &&& slot_of(t, id) == i
            &&& t[i].ttl == s[i].ttl - 1
            &&& t[i] == MessageView { ttl: t[i].ttl, ..s[i] }
        }),
{
    let i = slot_of(s, id);
    let t = relayed(s, i);
    lemma_slot_of_prefix(s, id, 0);
    assert forall|j: int| 0 <= j < i implies !((#[trigger] t[j]).occupied && t[j].id == id) by {
        assert(t[j] == s[j]);
    }
    lemma_slot_of(t, id, i);
}

/// Where ids are unique, a removed message is gone: after the only message
/// under `id` is removed, no message has that id.
pub proof fn law_removed_is_gone(s: Seq<MessageView>, id: u64)
    requires
        holds(s, id),
        forall|i: int, j: int|
            0 <= i < s.len() && 0 <= j < s.len() && i != j && (#[trigger] s[i]).occupied
                && (#[trigger] s[j]).occupied ==> s[i].id != s[j].id,
    ensures
        !holds(s.update(slot_of(s, id), empty_message()), id),
{
    let k = slot_of(s, id);
    let t = s.update(k, empty_message());
    lemma_slot_of_prefix(s, id, 0);
    lemma_slot_of_prefix(t, id, 0);
    if slot_of(t, id) < t.len() {
        let j = slot_of(t, id);
        assert(t[j].occupied);
        assert(j != k);
        assert(s[j] == t[j]);
    }
}


/// Whether two byte strings are equal.
fn bytes_equal(a: &[u8], b: &[u8]) -> (r: bool)
    ensures
        r == (a@ == b@),
{
    if a.len() != b.len() {
        return false;
    }
    let mut i: usize = 0;
    while i < a.len()
        invariant
            a@.len() == b@.len(),
            0 <= i <= a@.len(),
            forall|j: int| 0 <= j < i ==> a@[j] == b@[j],
        decreases a@.len() - i,
    {
        if a[i] != b[i] {
            return false;
        }
        i = i + 1;
    }
    assert(a@ =~= b@);
    true
}

/// Whether `id` holds a message with ttl `ttl`.
fn ttl_is(registry: &MessageRegistry, id: u64, ttl: u8) -> bool
    requires
        registry.wf(),
{
    match registry.with_message(id) {
        Some(m) => m.ttl == ttl,
        None => false,
    }
}

/// The registry on a fresh state: an oversized payload is refused; a sent
/// message is held and read back field for field; relaying spends its ttl
/// one hop at a time and is refused at 0; removal forgets it; a full
/// registry refuses more; a message imported under its own id is held once,
/// a second import of the id is refused, and relaying it spends its ttl;
/// clearing empties the registry. Returns whether every check held.
pub fn self_test() -> (ok: bool) {
    let mut registry = MessageRegistry::new();
    let src: Vec<u8> = vec![83u8, 79u8, 85u8, 82u8, 67u8, 69u8, 95u8, 78u8, 79u8, 68u8, 69u8, 95u8, 49u8, 50u8, 51u8, 52u8, 53u8, 54u8, 55u8, 56u8, 57u8, 48u8];
    let dst: Vec<u8> = vec![68u8, 69u8, 83u8, 84u8, 95u8, 78u8, 79u8, 68u8, 69u8, 95u8, 65u8, 66u8, 67u8, 68u8, 69u8, 70u8, 71u8, 72u8, 73u8, 74u8, 75u8, 76u8];
    let mtype: Vec<u8> = vec![84u8, 69u8, 88u8, 84u8];
    let payload: Vec<u8> = vec![72u8, 69u8, 76u8, 76u8, 79u8, 32u8, 84u8, 79u8, 71u8, 65u8, 82u8, 65u8, 32u8, 77u8, 69u8, 83u8, 72u8];
    let mut oversized: Vec<u8> = Vec::new();
    while oversized.len() < MAX_PAYLOAD_SIZE + 1
        invariant
            oversized@.len() <= MAX_PAYLOAD_SIZE + 1,
        decreases MAX_PAYLOAD_SIZE + 1 - oversized@.len(),
    {
        oversized.push(0);
    }
    if registry.send(src.as_slice(), dst.as_slice(), mtype.as_slice(), 1, 4, oversized.as_slice()).is_some() {
        return false;
    }
    let id = match registry.send(src.as_slice(), dst.as_slice(), mtype.as_slice(), 42, 4, payload.as_slice()) {
        Some(id) => id,
        None => {
            return false;
        },
    };
    if registry.count() != 1 || !registry.contains(id) {
        return false;
    }
    match registry.with_message(id) {
        Some(m) => {
            if !bytes_equal(m.source.as_slice(), src.as_slice()) || !bytes_equal(m.destination.as_slice(), dst.as_slice())
                || !bytes_equal(m.msg_type.as_slice(), mtype.as_slice()) || m.sequence != 42 || m.ttl != 4
                || !bytes_equal(m.payload.as_slice(), payload.as_slice())
            {
                return false;
            }
        },
        None => {
            return false;
        },
    }
    // Relaying spends one hop and keeps the id.
    if !registry.relay(id) || !ttl_is(&registry, id, 3) || !registry.contains(id) {
        return false;
    }
    if !registry.relay(id) || !registry.relay(id) || !registry.relay(id) {
        return false;
    }
    if registry.relay(id) {
        return false;
    }
    if !registry.remove(id) || registry.contains(id) || registry.count() != 0 {
        return false;
    }
    // Filling every slot; a further message is refused.
    let mut first: u64 = 0;
    let mut created: usize = 0;
    while created < MAX_MESSAGES
        invariant
            registry.wf(),
            created <= MAX_MESSAGES,
        decreases MAX_MESSAGES - created,
    {
        match registry.send(src.as_slice(), dst.as_slice(), mtype.as_slice(), created as u64, 1, payload.as_slice()) {
            Some(i) => {
                if created == 0 {
                    first = i;
                }
            },
            None => {
                return false;
            },
        }
        created = created + 1;
    }
    if registry.send(src.as_slice(), dst.as_slice(), mtype.as_slice(), 999, 1, payload.as_slice()).is_some() {
        return false;
    }
    if !registry.remove(first) {
        return false;
    }
    // A message imported under its own id.
    let import_id: u64 = 9999;
    match registry.import_with_id(import_id, src.as_slice(), dst.as_slice(), mtype.as_slice(), 7, 2, payload.as_slice()) {
        Some(i) => {
            if i != import_id {
                return false;
            }
        },
        None => {
            return false;
        },
    }
    if !registry.contains(import_id) {
        return false;
    }
    let before = registry.count();
    if registry.import_with_id(import_id, src.as_slice(), dst.as_slice(), mtype.as_slice(), 7, 2, payload.as_slice()).is_some() {
        return false;
    }
    if registry.count() != before {
        return false;
    }
    if !registry.relay(import_id) || !ttl_is(&registry, import_id, 1) {
        return false;
    }
    registry.clear();
    registry.count() == 0 && !registry.contains(1)
}

} // verus!
