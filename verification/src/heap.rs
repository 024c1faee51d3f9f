//! Kernel heap accounting: where the heap region starts, how large it is,
//! and the bump step that carves an aligned block out of it.
use vstd::prelude::*;

verus! {

/// Heap statistics.
#[derive(Debug, Clone, Copy, PartialEq, Eq, Structural)]
pub struct HeapStats {
    pub start: usize,
    pub size: usize,
}

/// The heap region's bookkeeping: its current start and its size.
#[derive(Debug, Clone, Copy, PartialEq, Eq, Structural)]
pub struct HeapState {
    pub start: usize,
    pub size: usize,
}

impl HeapState {
    /// The state before `init_heap`: no region.
    pub fn new() -> (h: Self)
        ensures
            h.start == 0,
            h.size == 0,
    {
        HeapState { start: 0, size: 0 }
    }
}

/// Records the heap region.
pub fn init_heap(heap: &mut HeapState, start: usize, size: usize)
    ensures
        final(heap).start == start,
        final(heap).size == size,
{
    heap.start = start;
    heap.size = size;
}

/// The recorded heap region.
pub fn heap_stats(heap: &HeapState) -> (s: HeapStats)
    ensures
        s.start == heap.start,
        s.size == heap.size,
{
    HeapStats { start: heap.start, size: heap.size }
}

/// The heap allocator handle; its state is a `HeapState`.
#[derive(Debug, Clone, Copy, PartialEq, Eq, Structural)]
pub struct LockedHeap;

impl LockedHeap {
    /// An empty heap handle.
    pub fn empty() -> (h: Self) {
        LockedHeap
    }

    /// One bump allocation of `size` bytes aligned to `align` (a power of
    /// two): the start is rounded up to `align`; where the block would pass
    /// the start plus the recorded size, nothing is allocated and `None`
    /// comes back; otherwise the start moves past the block and the block's
    /// address comes back.
    pub fn bump_alloc(&self, heap: &mut HeapState, size: usize, align: usize) -> (r: Option<usize>)
        requires
            align >= 1,
            old(heap).start + old(heap).size <= usize::MAX,
            old(heap).start + align - 1 <= usize::MAX,
            ((old(heap).start + align - 1) as usize & !((align - 1) as usize)) + size <= usize::MAX,
        ensures
            ({
                let aligned = ((old(heap).start + align - 1) as usize & !((align - 1) as usize)) as int;
                if aligned + size > old(heap).start + old(heap).size {
                    r is None && *final(heap) == *old(heap)
                } else {
                    r == Some(aligned as usize) && final(heap).start == aligned + size
                        && final(heap).size == old(heap).size
                }
            }),
    {
        let current = heap.start;
        let end = current + heap.size;
        let aligned = (current + (align - 1)) & !(align - 1);
        if aligned + size > end {
            return None;
        }
        heap.start = aligned + size;
        Some(aligned)
    }
}

/// Allocation error.
#[derive(Debug, Clone, Copy, PartialEq, Eq, Structural)]
pub struct AllocError;

} // verus!
