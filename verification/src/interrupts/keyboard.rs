//! Scancode queue filled by the keyboard interrupt handler.
use vstd::prelude::*;

verus! {

pub const QUEUE_SIZE: usize = 256;

/// Bounded FIFO of raw scancodes.
pub struct ScancodeQueue {
    buffer: [u8; 256],
    read: usize,
    write: usize,
    count: usize,
}

impl ScancodeQueue {
    pub closed spec fn wf(&self) -> bool {
        &&& self.read < 256
        &&& self.write < 256
        &&& self.count <= 256
        &&& self.write == (self.read + self.count) % 256
    }

    /// Scancodes waiting, oldest first.
    pub closed spec fn view(&self) -> Seq<u8> {
        Seq::new(self.count as nat, |i: int| self.buffer@[(self.read + i) % 256])
    }

    /// An empty queue.
    pub fn new() -> (q: Self)
        ensures
            q.wf(),
            q@ == Seq::<u8>::empty(),
    {
        let q = ScancodeQueue { buffer: [0; 256], read: 0, write: 0, count: 0 };
        assert(q@ =~= Seq::<u8>::empty());
        q
    }

    /// Appends a scancode; a full queue drops it.
    pub fn push(&mut self, scancode: u8)
        requires
            old(self).wf(),
        ensures
            final(self).wf(),
            old(self)@.len() < 256 ==> final(self)@ == old(self)@.push(scancode),
            old(self)@.len() >= 256 ==> final(self)@ == old(self)@,
    {
        if self.count >= QUEUE_SIZE {
            return;
        }
        self.buffer[self.write] = scancode;
        self.write = (self.write + 1) % QUEUE_SIZE;
        self.count = self.count + 1;
        proof {
            assert forall|i: int| 0 <= i < self@.len() implies #[trigger] self@[i] == old(self)@.push(scancode)[i] by {
                if i < old(self)@.len() {
                    assert((self.read + i) % 256 != old(self).write as int);
                }
            }
            assert(self@ =~= old(self)@.push(scancode));
        }
    }

    /// Removes and returns the oldest scancode.
    pub fn pop(&mut self) -> (r: Option<u8>)
        requires
            old(self).wf(),
        ensures
            final(self).wf(),
            old(self)@.len() == 0 ==> r is None && final(self)@ == old(self)@,
            old(self)@.len() > 0 ==> r == Some(old(self)@[0]) && final(self)@ == old(self)@.drop_first(),
    {
        if self.count == 0 {
            return None;
        }
        let scancode = self.buffer[self.read];
        self.read = (self.read + 1) % QUEUE_SIZE;
        self.count = self.count - 1;
        proof {
            assert forall|i: int| 0 <= i < self@.len() implies #[trigger] self@[i] == old(self)@.drop_first()[i] by {
                assert((self.read + i) % 256 == (old(self).read + (i + 1)) % 256);
            }
            assert(self@ =~= old(self)@.drop_first());
        }
        Some(scancode)
    }
}

/// Queues a scancode read from the keyboard data port.
pub fn push_scancode(queue: &mut ScancodeQueue, scancode: u8)
    requires
        old(queue).wf(),
    ensures
        final(queue).wf(),
        old(queue)@.len() < 256 ==> final(queue)@ == old(queue)@.push(scancode),
        old(queue)@.len() >= 256 ==> final(queue)@ == old(queue)@,
{
    queue.push(scancode);
}

/// Takes the oldest queued scancode.
pub fn pop_scancode(queue: &mut ScancodeQueue) -> (r: Option<u8>)
    requires
        old(queue).wf(),
    ensures
        final(queue).wf(),
        old(queue)@.len() == 0 ==> r is None && final(queue)@ == old(queue)@,
        old(queue)@.len() > 0 ==> r == Some(old(queue)@[0]) && final(queue)@ == old(queue)@.drop_first(),
{
    queue.pop()
}

} // verus!
