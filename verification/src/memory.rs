//! Physical-memory inventory and 4 KiB frame allocator.
//!
//! Frames are handed out from a bounded stack of reclaimed frames first and
//! otherwise by bumping a cursor through the usable regions of the boot map.
use vstd::prelude::*;

verus! {

pub const FRAME_SIZE: u64 = 4096;
pub const MAX_USABLE_REGIONS: usize = 32;
pub const MAX_RECLAIMED_FRAMES: usize = 256;
pub const MIB: u64 = 1048576;

/// Kind of a boot memory region.
#[derive(Debug, Clone, Copy, PartialEq, Eq, Structural)]
pub enum MemoryRegionKind {
    Usable,
    Bootloader,
    UnknownUefi(u32),
    UnknownBios(u32),
}

/// A region of the boot memory map: `[start, end)`.
#[derive(Debug, Clone, Copy)]
pub struct MemoryRegion {
    pub start: u64,
    pub end: u64,
    pub kind: MemoryRegionKind,
}

/// A usable region entered into the allocator, with its bump cursor.
pub struct UsableRegion {
    pub start: u64,
    pub end: u64,
    pub cursor: u64,
}

pub open spec fn sat_add(a: u64, b: int) -> u64 {
    if a + b > u64::MAX { u64::MAX } else { (a + b) as u64 }
}

pub open spec fn sat_sub(a: u64, b: u64) -> u64 {
    if a >= b { (a - b) as u64 } else { 0 }
}

pub open spec fn sat_mul_frame(a: u64) -> u64 {
    if a * 4096 > u64::MAX { u64::MAX } else { (a * 4096) as u64 }
}

/// `address` rounded up to a frame boundary, saturating at the top of memory.
pub open spec fn spec_align_up(address: u64) -> u64 {
    ((sat_add(address, 4095) as int / 4096) * 4096) as u64
}

/// Sum of the lengths of the first `n` regions, saturating.
pub open spec fn total_upto(regions: Seq<MemoryRegion>, n: nat) -> u64
    decreases n,
{
    if n == 0 {
        0
    } else {
        let r = regions[n - 1];
        sat_add(total_upto(regions, (n - 1) as nat), sat_sub(r.end, r.start) as int)
    }
}

/// Sum of the lengths of the usable regions among the first `n`, saturating.
pub open spec fn usable_upto(regions: Seq<MemoryRegion>, n: nat) -> u64
    decreases n,
{
    if n == 0 {
        0
    } else {
        let r = regions[n - 1];
        let prev = usable_upto(regions, (n - 1) as nat);
        if r.kind == MemoryRegionKind::Usable {
            sat_add(prev, sat_sub(r.end, r.start) as int)
        } else {
            prev
        }
    }
}

/// Frame-aligned `[start, end)` pairs that the allocator accepts from the first `n` regions.
pub open spec fn accepted_upto(regions: Seq<MemoryRegion>, n: nat) -> Seq<(u64, u64)>
    decreases n,
{
    if n == 0 {
        Seq::empty()
    } else {
        let r = regions[n - 1];
        let prev = accepted_upto(regions, (n - 1) as nat);
        let start = spec_align_up(r.start);
        let end = ((r.end / 4096) * 4096) as u64;
        if r.kind == MemoryRegionKind::Usable && prev.len() < 32 && start < end {
            prev.push((start, end))
        } else {
            prev
        }
    }
}

/// First region index in `regions` from `i` on whose cursor has not reached its end.
pub open spec fn first_open(regions: Seq<UsableRegion>, i: int) -> Option<int>
    decreases regions.len() - i,
{
    if i >= regions.len() || i < 0 {
        None
    } else if regions[i].cursor < regions[i].end {
        Some(i)
    } else {
        first_open(regions, i + 1)
    }
}

/// `a` lies below the bump cursor of one of `regions`: it was handed out
/// by the bump allocator at some point.
pub open spec fn bumped(regions: Seq<UsableRegion>, a: u64) -> bool {
    exists|i: int| 0 <= i < regions.len() && #[trigger] regions[i].start <= a && a < regions[i].cursor
}

/// No two usable regions overlap.
pub open spec fn regions_disjoint(regions: Seq<UsableRegion>) -> bool {
    forall|i: int, j: int|
        0 <= i < regions.len() && 0 <= j < regions.len() && i != j ==> #[trigger] regions[i].end <= #[trigger] regions[j].start
            || regions[j].end <= regions[i].start
}

/// Every frame on the reclaim stack was handed out, and none is there twice:
/// what holds when only frames in use are freed.
pub open spec fn reclaim_sound(regions: Seq<UsableRegion>, stack: Seq<u64>) -> bool {
    &&& stack.no_duplicates()
    &&& forall|k: int| 0 <= k < stack.len() ==> bumped(regions, #[trigger] stack[k])
}

/// Frame `a` is in use: handed out and not given back.
pub open spec fn in_use(regions: Seq<UsableRegion>, stack: Seq<u64>, a: u64) -> bool {
    bumped(regions, a) && !stack.contains(a)
}

/// A bump allocation from open region `i` hands out a frame not in use, which
/// is in use afterwards, and keeps the reclaim stack sound.
proof fn lemma_bump_fresh(regions: Seq<UsableRegion>, stack: Seq<u64>, i: int, after: Seq<UsableRegion>)
    requires
        regions_disjoint(regions),
        reclaim_sound(regions, stack),
        0 <= i < regions.len(),
        regions[i].start <= regions[i].cursor < regions[i].end,
        regions[i].cursor + 4096 <= u64::MAX,
        forall|j: int| 0 <= j < regions.len() ==> #[trigger] regions[j].cursor <= regions[j].end,
        after == regions.update(i, UsableRegion { start: regions[i].start, end: regions[i].end, cursor: (regions[i].cursor + 4096) as u64 }),
    ensures
        !in_use(regions, stack, regions[i].cursor),
        in_use(after, stack, regions[i].cursor),
        regions_disjoint(after),
        reclaim_sound(after, stack),
{
    let a = regions[i].cursor;
    assert(!bumped(regions, a)) by {
        if bumped(regions, a) {
            let j = choose|j: int| 0 <= j < regions.len() && #[trigger] regions[j].start <= a && a < regions[j].cursor;
            if j != i {
                assert(regions[i].end <= regions[j].start || regions[j].end <= regions[i].start);
            }
        }
    }
    assert(after[i].start <= a && a < after[i].cursor);
    assert(bumped(after, a));
    assert(!stack.contains(a)) by {
        if stack.contains(a) {
            let k = choose|k: int| 0 <= k < stack.len() && stack[k] == a;
            assert(bumped(regions, stack[k]));
        }
    }
    assert forall|k: int| 0 <= k < stack.len() implies bumped(after, #[trigger] stack[k]) by {
        assert(bumped(regions, stack[k]));
        let j = choose|j: int| 0 <= j < regions.len() && #[trigger] regions[j].start <= stack[k] && stack[k] < regions[j].cursor;
        assert(after[j].start <= stack[k] && stack[k] < after[j].cursor);
    }
    assert forall|x: int, y: int|
        0 <= x < after.len() && 0 <= y < after.len() && x != y implies #[trigger] after[x].end <= #[trigger] after[y].start
            || after[y].end <= after[x].start by {
        assert(regions[x].end <= regions[y].start || regions[y].end <= regions[x].start);
    }
}

/// Reusing the most recently freed frame hands out a frame not in use,
/// which is in use afterwards, and keeps the reclaim stack sound.
proof fn lemma_reuse_fresh(regions: Seq<UsableRegion>, stack: Seq<u64>)
    requires
        reclaim_sound(regions, stack),
        stack.len() > 0,
    ensures
        !in_use(regions, stack, stack.last()),
        in_use(regions, stack.drop_last(), stack.last()),
        reclaim_sound(regions, stack.drop_last()),
{
    let n = stack.len() - 1;
    assert(stack.contains(stack[n]));
    assert(bumped(regions, stack[n]));
    assert(!stack.drop_last().contains(stack.last())) by {
        if stack.drop_last().contains(stack.last()) {
            let k = choose|k: int| 0 <= k < stack.drop_last().len() && stack.drop_last()[k] == stack.last();
            assert(stack[k] == stack[n]);
        }
    }
    assert forall|k: int| 0 <= k < stack.drop_last().len() implies bumped(regions, #[trigger] stack.drop_last()[k]) by {
        assert(stack.drop_last()[k] == stack[k]);
    }
}

/// Physical frame allocator state.
pub struct PhysicalMemory {
    total_bytes: u64,
    usable_bytes: u64,
    region_count: usize,
    usable_region_count: usize,
    allocated_frames: u64,
    initialized: bool,
    region_starts: [u64; 32],
    region_ends: [u64; 32],
    region_cursors: [u64; 32],
    reclaimed: [u64; 256],
    reclaimed_count: usize,
}

impl PhysicalMemory {
    /// The usable regions entered into the allocator, in boot-map order.
    pub closed spec fn regions(&self) -> Seq<UsableRegion> {
        Seq::new(
            self.usable_region_count as nat,
            |i: int|
                UsableRegion {
                    start: self.region_starts@[i],
                    end: self.region_ends@[i],
                    cursor: self.region_cursors@[i],
                },
        )
    }

    /// The reclaim stack, bottom first.
    pub closed spec fn reclaim_stack(&self) -> Seq<u64> {
        self.reclaimed@.subrange(0, self.reclaimed_count as int)
    }

    pub closed spec fn spec_initialized(&self) -> bool {
        self.initialized
    }

    pub closed spec fn spec_allocated(&self) -> u64 {
        self.allocated_frames
    }

    pub closed spec fn spec_total_bytes(&self) -> u64 {
        self.total_bytes
    }

    pub closed spec fn spec_usable_bytes(&self) -> u64 {
        self.usable_bytes
    }

    pub closed spec fn spec_region_count(&self) -> usize {
        self.region_count
    }

    /// `address` lies in one of the usable regions.
    pub open spec fn is_usable(&self, address: u64) -> bool {
        exists|i: int|
            0 <= i < self.regions().len() && #[trigger] self.regions()[i].start <= address
                && address < self.regions()[i].end
    }

    /// Internal consistency of the allocator.
    pub closed spec fn wf(&self) -> bool {
        &&& self.usable_region_count <= 32
        &&& self.reclaimed_count <= 256
        &&& forall|i: int|
            0 <= i < self.usable_region_count ==> {
                &&& #[trigger] self.region_starts@[i] % 4096 == 0
                &&& self.region_ends@[i] % 4096 == 0
                &&& self.region_cursors@[i] % 4096 == 0
                &&& self.region_starts@[i] <= self.region_cursors@[i] <= self.region_ends@[i]
            }
        &&& forall|j: int|
            0 <= j < self.reclaimed_count ==> #[trigger] self.reclaimed@[j] % 4096 == 0
                && self.is_usable(self.reclaimed@[j])
    }

    /// An allocator that has not been initialized.
    pub fn new() -> (m: Self)
        ensures
            m.wf(),
            !m.spec_initialized(),
            m.regions().len() == 0,
            m.reclaim_stack().len() == 0,
            m.spec_allocated() == 0,
            m.spec_total_bytes() == 0,
            m.spec_usable_bytes() == 0,
            m.spec_region_count() == 0,
    {
        PhysicalMemory {
            total_bytes: 0,
            usable_bytes: 0,
            region_count: 0,
            usable_region_count: 0,
            allocated_frames: 0,
            initialized: false,
            region_starts: [0; 32],
            region_ends: [0; 32],
            region_cursors: [0; 32],
            reclaimed: [0; 256],
            reclaimed_count: 0,
        }
    }
}

impl PhysicalMemory {
    /// Initializes the physical-memory inventory and frame allocator from the boot map.
    ///
    /// Only regions marked `Usable` are entered into the allocator, at most 32 of them,
    /// each shrunk to whole frames. Returns the number of regions entered.
    pub fn init(&mut self, regions: &[MemoryRegion]) -> (n: usize)
        ensures
            final(self).wf(),
            final(self).spec_initialized(),
            n == accepted_upto(regions@, regions@.len()).len(),
            final(self).regions().len() == n,
            forall|i: int| 0 <= i < n ==> {
                let (s, e) = #[trigger] accepted_upto(regions@, regions@.len())[i];
                &&& final(self).regions()[i].start == s
                &&& final(self).regions()[i].end == e
                &&& final(self).regions()[i].cursor == s
            },
            final(self).reclaim_stack().len() == 0,
            final(self).spec_allocated() == 0,
            final(self).spec_total_bytes() == total_upto(regions@, regions@.len()),
            final(self).spec_usable_bytes() == usable_upto(regions@, regions@.len()),
            final(self).spec_region_count() == regions@.len(),
    {
        let mut total_bytes: u64 = 0;
        let mut usable_bytes: u64 = 0;
        let mut usable_regions: usize = 0;
        let mut k: usize = 0;
        while k < regions.len()
            invariant
                0 <= k <= regions@.len(),
                total_bytes == total_upto(regions@, k as nat),
                usable_bytes == usable_upto(regions@, k as nat),
                usable_regions == accepted_upto(regions@, k as nat).len(),
                usable_regions <= 32,
                forall|i: int| 0 <= i < usable_regions ==> {
                    let (s, e) = #[trigger] accepted_upto(regions@, k as nat)[i];
                    &&& self.region_starts@[i] == s
                    &&& self.region_ends@[i] == e
                    &&& self.region_cursors@[i] == s
                    &&& s % 4096 == 0
                    &&& e % 4096 == 0
                    &&& s < e
                },
            decreases regions@.len() - k,
        {
            let region = regions[k];
            let bytes = region.end.saturating_sub(region.start);
            total_bytes = total_bytes.saturating_add(bytes);
            if matches!(region.kind, MemoryRegionKind::Usable) {
                usable_bytes = usable_bytes.saturating_add(bytes);
                if usable_regions < MAX_USABLE_REGIONS {
                    let start = align_up(region.start);
                    let end = region.end / FRAME_SIZE * FRAME_SIZE;
                    if start < end {
                        self.region_starts[usable_regions] = start;
                        self.region_ends[usable_regions] = end;
                        self.region_cursors[usable_regions] = start;
                        usable_regions = usable_regions + 1;
                    }
                }
            }
            proof {
                assert((k + 1) as nat - 1 == k);
            }
            k = k + 1;
        }
        self.total_bytes = total_bytes;
        self.usable_bytes = usable_bytes;
        self.region_count = regions.len();
        self.usable_region_count = usable_regions;
        self.allocated_frames = 0;
        self.reclaimed_count = 0;
        self.reclaimed = [0; 256];
        self.initialized = true;
        proof {
            assert forall|i: int| 0 <= i < self.usable_region_count implies {
                &&& #[trigger] self.region_starts@[i] % 4096 == 0
                &&& self.region_ends@[i] % 4096 == 0
                &&& self.region_cursors@[i] % 4096 == 0
                &&& self.region_starts@[i] <= self.region_cursors@[i] <= self.region_ends@[i]
            } by {
                let _ = accepted_upto(regions@, regions@.len())[i];
            }
        }
        usable_regions
    }
}

/// A counter incremented the way an atomic `fetch_add(1)` does.
pub open spec fn wrapping_inc(a: u64) -> u64 {
    if a == u64::MAX { 0 } else { (a + 1) as u64 }
}

/// A counter decremented only while positive.
pub open spec fn dec_if_positive(a: u64) -> u64 {
    if a > 0 { (a - 1) as u64 } else { 0 }
}

impl PhysicalMemory {
    proof fn lemma_wf_counters_only(a: &Self, b: &Self)
        requires
            a.wf(),
            a.usable_region_count == b.usable_region_count,
            a.region_starts == b.region_starts,
            a.region_ends == b.region_ends,
            a.region_cursors == b.region_cursors,
            a.reclaimed == b.reclaimed,
            a.reclaimed_count == b.reclaimed_count,
        ensures
            b.wf(),
            a.regions() == b.regions(),
            a.reclaim_stack() == b.reclaim_stack(),
    {
        assert(a.regions() =~= b.regions());
        assert forall|j: int| 0 <= j < b.reclaimed_count implies #[trigger] b.reclaimed@[j] % 4096 == 0
            && b.is_usable(b.reclaimed@[j]) by {
            assert(a.is_usable(a.reclaimed@[j]));
            let x = a.reclaimed@[j];
            let i = choose|i: int| 0 <= i < a.regions().len() && #[trigger] a.regions()[i].start <= x && x < a.regions()[i].end;
            assert(b.regions()[i].start <= x && x < b.regions()[i].end);
        }
    }

    proof fn lemma_usable_region(&self, i: int, a: u64)
        requires
            0 <= i < self.usable_region_count,
            self.region_starts@[i] <= a < self.region_ends@[i],
        ensures
            self.is_usable(a),
    {
        assert(self.regions()[i].start <= a && a < self.regions()[i].end);
    }

    /// Pops the most recently reclaimed frame.
    fn pop_reclaimed_frame_locked(&mut self) -> (r: Option<u64>)
        requires
            old(self).wf(),
        ensures
            final(self).wf(),
            final(self).regions() == old(self).regions(),
            final(self).initialized == old(self).initialized,
            final(self).allocated_frames == old(self).allocated_frames,
            final(self).total_bytes == old(self).total_bytes,
            final(self).usable_bytes == old(self).usable_bytes,
            final(self).region_count == old(self).region_count,
            old(self).reclaim_stack().len() == 0 ==> r is None && *final(self) == *old(self),
            old(self).reclaim_stack().len() > 0 ==> r == Some(old(self).reclaim_stack().last())
                && final(self).reclaim_stack() == old(self).reclaim_stack().drop_last(),
    {
        let count = self.reclaimed_count;
        if count == 0 {
            return None;
        }
        let new_count = count - 1;
        let address = self.reclaimed[new_count];
        self.reclaimed[new_count] = 0;
        self.reclaimed_count = new_count;
        proof {
            assert(self.regions() =~= old(self).regions());
            assert(self.reclaim_stack() =~= old(self).reclaim_stack().drop_last());
            assert forall|j: int| 0 <= j < self.reclaimed_count implies #[trigger] self.reclaimed@[j] % 4096 == 0
                && self.is_usable(self.reclaimed@[j]) by {
                assert(self.reclaimed@[j] == old(self).reclaimed@[j]);
                assert(old(self).is_usable(old(self).reclaimed@[j]));
                let k = choose|k: int| 0 <= k < old(self).regions().len() && #[trigger] old(self).regions()[k].start <= self.reclaimed@[j]
                    && self.reclaimed@[j] < old(self).regions()[k].end;
                assert(self.regions()[k] == old(self).regions()[k]);
            }
        }
        Some(address)
    }

    /// Advances the first region cursor that has room and returns the frame it passed.
    fn allocate_frame_locked(&mut self) -> (r: Option<u64>)
        requires
            old(self).wf(),
        ensures
            final(self).wf(),
            final(self).reclaim_stack() == old(self).reclaim_stack(),
            final(self).initialized == old(self).initialized,
            final(self).allocated_frames == old(self).allocated_frames,
            final(self).total_bytes == old(self).total_bytes,
            final(self).usable_bytes == old(self).usable_bytes,
            final(self).region_count == old(self).region_count,
            match first_open(old(self).regions(), 0) {
                None => r is None && *final(self) == *old(self),
                Some(i) => {
                    let reg = old(self).regions()[i];
                    &&& r == Some(reg.cursor)
                    &&& final(self).regions() == old(self).regions().update(
                        i,
                        UsableRegion { start: reg.start, end: reg.end, cursor: (reg.cursor + 4096) as u64 },
                    )
                },
            },
    {
        let region_count = self.usable_region_count;
        let mut index: usize = 0;
        while index < region_count
            invariant
                0 <= index <= region_count,
                region_count == self.usable_region_count,
                *self == *old(self),
                self.wf(),
                first_open(self.regions(), 0) == first_open(self.regions(), index as int),
            decreases region_count - index,
        {
            let cursor = self.region_cursors[index];
            let end = self.region_ends[index];
            if cursor < end {
                let next = cursor.saturating_add(FRAME_SIZE);
                assert(cursor % 4096 == 0 && end % 4096 == 0);
                if next <= end {
                    self.region_cursors[index] = next;
                    proof {
                        assert forall|i: int| 0 <= i < self.usable_region_count implies {
                            &&& #[trigger] self.region_starts@[i] % 4096 == 0
                            &&& self.region_ends@[i] % 4096 == 0
                            &&& self.region_cursors@[i] % 4096 == 0
                            &&& self.region_starts@[i] <= self.region_cursors@[i] <= self.region_ends@[i]
                        } by {
                            assert(old(self).region_starts@[i] % 4096 == 0);
                        }
                        let reg = old(self).regions()[index as int];
                        assert(self.regions() =~= old(self).regions().update(
                            index as int,
                            UsableRegion { start: reg.start, end: reg.end, cursor: (reg.cursor + 4096) as u64 },
                        ));
                        assert forall|j: int| 0 <= j < self.reclaimed_count implies #[trigger] self.reclaimed@[j] % 4096 == 0
                            && self.is_usable(self.reclaimed@[j]) by {
                            assert(old(self).is_usable(old(self).reclaimed@[j]));
                            let k = choose|k: int| 0 <= k < old(self).regions().len() && #[trigger] old(self).regions()[k].start <= self.reclaimed@[j]
                                && self.reclaimed@[j] < old(self).regions()[k].end;
                            assert(self.regions()[k].start == old(self).regions()[k].start);
                            assert(self.regions()[k].end == old(self).regions()[k].end);
                        }
                    }
                    return Some(cursor);
                }
            }
            index = index + 1;
        }
        None
    }

    /// Allocates one physical 4 KiB frame.
    ///
    /// Reclaimed frames are reused, most recent first, before the allocator advances
    /// into new physical memory.
    pub fn allocate_frame(&mut self) -> (r: Option<u64>)
        requires
            old(self).wf(),
        ensures
            final(self).wf(),
            !old(self).spec_initialized() ==> r is None && *final(self) == *old(self),
            old(self).spec_initialized() && old(self).reclaim_stack().len() > 0 ==> {
                &&& r == Some(old(self).reclaim_stack().last())
                &&& final(self).reclaim_stack() == old(self).reclaim_stack().drop_last()
                &&& final(self).regions() == old(self).regions()
                &&& final(self).spec_allocated() == wrapping_inc(old(self).spec_allocated())
            },
            old(self).spec_initialized() && old(self).reclaim_stack().len() == 0 ==> match first_open(
                old(self).regions(),
                0,
            ) {
                None => r is None && *final(self) == *old(self),
                Some(i) => {
                    let reg = old(self).regions()[i];
                    &&& r == Some(reg.cursor)
                    &&& final(self).regions() == old(self).regions().update(
                        i,
                        UsableRegion { start: reg.start, end: reg.end, cursor: (reg.cursor + 4096) as u64 },
                    )
                    &&& final(self).reclaim_stack() == old(self).reclaim_stack()
                    &&& final(self).spec_allocated() == wrapping_inc(old(self).spec_allocated())
                },
            },
            final(self).spec_initialized() == old(self).spec_initialized(),
            final(self).spec_total_bytes() == old(self).spec_total_bytes(),
            final(self).spec_usable_bytes() == old(self).spec_usable_bytes(),
            final(self).spec_region_count() == old(self).spec_region_count(),
            r matches Some(a) ==> a % 4096 == 0 && old(self).is_usable(a),
            regions_disjoint(old(self).regions()) && reclaim_sound(old(self).regions(), old(self).reclaim_stack()) ==> {
                &&& regions_disjoint(final(self).regions())
                &&& reclaim_sound(final(self).regions(), final(self).reclaim_stack())
                &&& r matches Some(a) ==> !in_use(old(self).regions(), old(self).reclaim_stack(), a)
                    && in_use(final(self).regions(), final(self).reclaim_stack(), a)
            },
    {
        if !self.initialized {
            return None;
        }
        proof {
            if old(self).reclaim_stack().len() > 0 {
                let j = self.reclaimed_count - 1;
                assert(self.reclaim_stack().last() == self.reclaimed@[j]);
            }
        }
        let reclaimed = self.pop_reclaimed_frame_locked();
        if let Some(address) = reclaimed {
            let ghost mid = *self;
            self.allocated_frames = self.allocated_frames.wrapping_add(1);
            proof {
                Self::lemma_wf_counters_only(&mid, self);
                if reclaim_sound(old(self).regions(), old(self).reclaim_stack()) {
                    lemma_reuse_fresh(old(self).regions(), old(self).reclaim_stack());
                }
            }
            return Some(address);
        }
        let result = self.allocate_frame_locked();
        proof {
            if let Some(i) = first_open(old(self).regions(), 0) {
                lemma_first_open_found(old(self).regions(), 0);
                let reg = old(self).regions()[i];
                assert(old(self).region_starts@[i] <= reg.cursor < old(self).region_ends@[i]);
                old(self).lemma_usable_region(i, reg.cursor);
                if regions_disjoint(old(self).regions()) && reclaim_sound(old(self).regions(), old(self).reclaim_stack()) {
                    assert forall|j: int| 0 <= j < old(self).regions().len() implies #[trigger] old(self).regions()[j].cursor
                        <= old(self).regions()[j].end by {
                        assert(old(self).region_starts@[j] % 4096 == 0);
                        assert(old(self).region_cursors@[j] <= old(self).region_ends@[j]);
                    }
                    assert(reg.cursor % 4096 == 0 && reg.end % 4096 == 0);
                    lemma_bump_fresh(old(self).regions(), old(self).reclaim_stack(), i, self.regions());
                }
            }
        }
        if result.is_some() {
            let ghost mid = *self;
            self.allocated_frames = self.allocated_frames.wrapping_add(1);
            proof {
                Self::lemma_wf_counters_only(&mid, self);
            }
        }
        result
    }
}

impl PhysicalMemory {
    fn is_reclaimed_locked(&self, address: u64) -> (r: bool)
        requires
            self.wf(),
        ensures
            r == self.reclaim_stack().contains(address),
    {
        let count = self.reclaimed_count;
        let mut index: usize = 0;
        while index < count
            invariant
                0 <= index <= count,
                count == self.reclaimed_count,
                self.wf(),
                forall|j: int| 0 <= j < index ==> self.reclaimed@[j] != address,
            decreases count - index,
        {
            if self.reclaimed[index] == address {
                proof {
                    assert(self.reclaim_stack()[index as int] == address);
                }
                return true;
            }
            index = index + 1;
        }
        proof {
            if self.reclaim_stack().contains(address) {
                let j = choose|j: int| 0 <= j < self.reclaim_stack().len() && self.reclaim_stack()[j] == address;
                assert(self.reclaimed@[j] == address);
            }
        }
        false
    }

    fn is_usable_address_locked(&self, address: u64) -> (r: bool)
        requires
            self.wf(),
        ensures
            r == self.is_usable(address),
    {
        let region_count = self.usable_region_count;
        let mut index: usize = 0;
        while index < region_count
            invariant
                0 <= index <= region_count,
                region_count == self.usable_region_count,
                self.wf(),
                forall|i: int| 0 <= i < index ==> !(self.regions()[i].start <= address && address < self.regions()[i].end),
            decreases region_count - index,
        {
            let start = self.region_starts[index];
            let end = self.region_ends[index];
            if address >= start && address < end {
                proof {
                    self.lemma_usable_region(index as int, address);
                }
                return true;
            }
            index = index + 1;
        }
        false
    }

    /// Releases a previously allocated physical frame onto the reclaim stack.
    ///
    /// Returns `true` when the frame was accepted: the allocator is initialized, the
    /// address is frame-aligned, lies in a usable region, is not already reclaimed and
    /// the reclaim stack has room.
    pub fn free_frame(&mut self, address: u64) -> (r: bool)
        requires
            old(self).wf(),
        ensures
            final(self).wf(),
            r == (old(self).spec_initialized() && address % 4096 == 0 && old(self).is_usable(address)
                && !old(self).reclaim_stack().contains(address) && old(self).reclaim_stack().len() < 256),
            r ==> {
                &&& final(self).reclaim_stack() == old(self).reclaim_stack().push(address)
                &&& final(self).regions() == old(self).regions()
                &&& final(self).spec_allocated() == dec_if_positive(old(self).spec_allocated())
                &&& final(self).spec_initialized()
                &&& final(self).spec_total_bytes() == old(self).spec_total_bytes()
                &&& final(self).spec_usable_bytes() == old(self).spec_usable_bytes()
                &&& final(self).spec_region_count() == old(self).spec_region_count()
            },
            !r ==> *final(self) == *old(self),
            r ==> !in_use(final(self).regions(), final(self).reclaim_stack(), address),
            reclaim_sound(old(self).regions(), old(self).reclaim_stack()) && (r ==> bumped(old(self).regions(), address))
                ==> reclaim_sound(final(self).regions(), final(self).reclaim_stack()),
    {
        if !self.initialized {
            return false;
        }
        if address % FRAME_SIZE != 0 {
            return false;
        }
        if !self.is_usable_address_locked(address) {
            return false;
        }
        if self.is_reclaimed_locked(address) {
            return false;
        }
        let reclaimed_count = self.reclaimed_count;
        if reclaimed_count >= MAX_RECLAIMED_FRAMES {
            return false;
        }
        self.reclaimed[reclaimed_count] = address;
        self.reclaimed_count = reclaimed_count + 1;
        let allocated = self.allocated_frames;
        if allocated > 0 {
            self.allocated_frames = allocated - 1;
        }
        proof {
            assert(self.regions() =~= old(self).regions());
            assert(self.reclaim_stack() =~= old(self).reclaim_stack().push(address));
            assert(self.reclaim_stack()[self.reclaim_stack().len() - 1] == address);
            if reclaim_sound(old(self).regions(), old(self).reclaim_stack()) && bumped(old(self).regions(), address) {
                let st = old(self).reclaim_stack();
                assert forall|k: int| 0 <= k < st.push(address).len() implies bumped(self.regions(), #[trigger] st.push(address)[k]) by {
                    if k < st.len() {
                        assert(st.push(address)[k] == st[k]);
                    }
                }
                assert(st.push(address).no_duplicates()) by {
                    assert forall|x: int, y: int| 0 <= x < st.push(address).len() && 0 <= y < st.push(address).len() && x != y
                        implies st.push(address)[x] != st.push(address)[y] by {
                        if x < st.len() && y < st.len() {
                            assert(st.push(address)[x] == st[x] && st.push(address)[y] == st[y]);
                        } else if x < st.len() {
                            assert(st.contains(st[x]));
                        } else if y < st.len() {
                            assert(st.contains(st[y]));
                        }
                    }
                }
            }
            assert forall|j: int| 0 <= j < self.reclaimed_count implies #[trigger] self.reclaimed@[j] % 4096 == 0
                && self.is_usable(self.reclaimed@[j]) by {
                if j < reclaimed_count {
                    assert(old(self).is_usable(old(self).reclaimed@[j]));
                }
            }
        }
        true
    }

    /// Releases the most recently reclaimed frame, returning its address.
    ///
    /// The bump cursors are not moved back.
    pub fn free_last_frame(&mut self) -> (r: Option<u64>)
        requires
            old(self).wf(),
        ensures
            final(self).wf(),
            !old(self).spec_initialized() || old(self).reclaim_stack().len() == 0 ==> r is None
                && *final(self) == *old(self),
            old(self).spec_initialized() && old(self).reclaim_stack().len() > 0 ==> {
                &&& r == Some(old(self).reclaim_stack().last())
                &&& final(self).reclaim_stack() == old(self).reclaim_stack().drop_last()
                &&& final(self).regions() == old(self).regions()
                &&& final(self).spec_allocated() == dec_if_positive(old(self).spec_allocated())
                &&& final(self).spec_initialized()
            },
            final(self).spec_total_bytes() == old(self).spec_total_bytes(),
            final(self).spec_usable_bytes() == old(self).spec_usable_bytes(),
            final(self).spec_region_count() == old(self).spec_region_count(),
            reclaim_sound(old(self).regions(), old(self).reclaim_stack()) ==> reclaim_sound(final(self).regions(), final(self).reclaim_stack()),
    {
        if !self.initialized {
            return None;
        }
        proof {
            if old(self).reclaim_stack().len() > 0 {
                let j = self.reclaimed_count - 1;
                assert(self.reclaim_stack().last() == self.reclaimed@[j]);
                if reclaim_sound(old(self).regions(), old(self).reclaim_stack()) {
                    lemma_reuse_fresh(old(self).regions(), old(self).reclaim_stack());
                }
            }
        }
        let address = self.pop_reclaimed_frame_locked();
        if let Some(address) = address {
            let allocated = self.allocated_frames;
            if allocated > 0 {
                let ghost mid = *self;
                self.allocated_frames = allocated - 1;
                proof {
                    Self::lemma_wf_counters_only(&mid, self);
                }
            }
            return Some(address);
        }
        None
    }

    /// Number of currently allocated physical frames.
    pub fn allocated_frames(&self) -> (r: u64)
        ensures
            r == self.spec_allocated(),
    {
        self.allocated_frames
    }

    /// Number of currently allocated bytes, saturating.
    pub fn allocated_bytes(&self) -> (r: u64)
        ensures
            r == sat_mul_frame(self.spec_allocated()),
    {
        let frames = self.allocated_frames();
        if frames > u64::MAX / FRAME_SIZE {
            u64::MAX
        } else {
            frames * FRAME_SIZE
        }
    }

    /// Number of frames waiting to be reused.
    pub fn reclaimed_frames(&self) -> (r: u64)
        requires
            self.wf(),
        ensures
            r == self.reclaim_stack().len(),
    {
        self.reclaimed_count as u64
    }

    /// Number of bytes waiting to be reused.
    pub fn reclaimed_bytes(&self) -> (r: u64)
        requires
            self.wf(),
        ensures
            r == self.reclaim_stack().len() * 4096,
    {
        self.reclaimed_frames() * FRAME_SIZE
    }

    /// Whether the frame allocator has been initialized.
    pub fn allocator_initialized(&self) -> (r: bool)
        ensures
            r == self.spec_initialized(),
    {
        self.initialized
    }

    /// Total physical memory represented by the boot map.
    pub fn total_bytes(&self) -> (r: u64)
        ensures
            r == self.spec_total_bytes(),
    {
        self.total_bytes
    }

    /// Physical memory marked usable by the boot map.
    pub fn usable_bytes(&self) -> (r: u64)
        ensures
            r == self.spec_usable_bytes(),
    {
        self.usable_bytes
    }

    /// Physical memory represented by non-usable regions.
    pub fn reserved_bytes(&self) -> (r: u64)
        ensures
            r == sat_sub(self.spec_total_bytes(), self.spec_usable_bytes()),
    {
        self.total_bytes().saturating_sub(self.usable_bytes())
    }

    /// Total number of boot-map regions.
    pub fn region_count(&self) -> (r: u64)
        ensures
            r == self.spec_region_count(),
    {
        self.region_count as u64
    }

    /// Number of usable regions entered into the allocator.
    pub fn usable_region_count(&self) -> (r: u64)
        ensures
            r == self.regions().len(),
    {
        self.usable_region_count as u64
    }

    pub fn total_mib(&self) -> (r: u64)
        ensures
            r == self.spec_total_bytes() / MIB,
    {
        self.total_bytes() / MIB
    }

    pub fn usable_mib(&self) -> (r: u64)
        ensures
            r == self.spec_usable_bytes() / MIB,
    {
        self.usable_bytes() / MIB
    }

    pub fn reserved_mib(&self) -> (r: u64)
        ensures
            r == sat_sub(self.spec_total_bytes(), self.spec_usable_bytes()) / MIB,
    {
        self.reserved_bytes() / MIB
    }

    pub fn allocated_mib(&self) -> (r: u64)
        ensures
            r == sat_mul_frame(self.spec_allocated()) / MIB,
    {
        self.allocated_bytes() / MIB
    }

    pub fn reclaimed_mib(&self) -> (r: u64)
        requires
            self.wf(),
        ensures
            r == (self.reclaim_stack().len() * 4096) as int / (MIB as int),
    {
        self.reclaimed_bytes() / MIB
    }
}

/// A frame accepted by `free_frame` is the next frame that `allocate_frame` returns.
pub proof fn law_free_then_allocate_reuses(
    before: PhysicalMemory,
    after_free: PhysicalMemory,
    after_alloc: PhysicalMemory,
    address: u64,
    accepted: bool,
    got: Option<u64>,
)
    requires
        before.wf(),
        accepted,
        accepted == (before.spec_initialized() && address % 4096 == 0 && before.is_usable(address)
            && !before.reclaim_stack().contains(address) && before.reclaim_stack().len() < 256),
        after_free.reclaim_stack() == before.reclaim_stack().push(address),
        after_free.spec_initialized(),
        after_alloc.wf(),
        after_free.spec_initialized() && after_free.reclaim_stack().len() > 0 ==> got == Some(
            after_free.reclaim_stack().last(),
        ),
    ensures
        got == Some(address),
{
}

proof fn lemma_first_open_found(regions: Seq<UsableRegion>, i: int)
    requires
        first_open(regions, i) is Some,
    ensures
        ({
            let k = first_open(regions, i)->0;
            &&& 0 <= k < regions.len()
            &&& regions[k].cursor < regions[k].end
            &&& i <= k
        }),
    decreases regions.len() - i,
{
    if i >= 0 && i < regions.len() && regions[i].cursor >= regions[i].end {
        lemma_first_open_found(regions, i + 1);
    }
}

/// Aligns an address upward to the next 4 KiB frame boundary, saturating.
pub fn align_up(address: u64) -> (r: u64)
    ensures
        r == spec_align_up(address),
        r % 4096 == 0,
{
    let t = address.saturating_add(FRAME_SIZE - 1);
    (t / FRAME_SIZE) * FRAME_SIZE
}


impl PhysicalMemory {
    /// Frees each frame of `frames` from index `from` on, ignoring refusals.
    fn release_from(&mut self, frames: &Vec<u64>, from: usize)
        requires
            old(self).wf(),
        ensures
            final(self).wf(),
    {
        let mut i: usize = from;
        while i < frames.len()
            invariant
                self.wf(),
            decreases frames@.len() - i,
        {
            let _ = self.free_frame(frames[i]);
            i = i + 1;
        }
    }

    /// Exercises the allocator: allocates eight frames, each aligned and in
    /// a usable region; frees them all; allocates again and gets the frame
    /// freed last back; and frees that one. On a failure the frames taken so
    /// far are given back. Returns whether every step succeeded; false
    /// before `init`.
    pub fn self_test(&mut self) -> (ok: bool)
        requires
            old(self).wf(),
        ensures
            final(self).wf(),
            !old(self).spec_initialized() ==> !ok,
    {
        if !self.initialized {
            return false;
        }
        let mut frames: Vec<u64> = Vec::new();
        while frames.len() < 8
            invariant
                self.wf(),
                frames@.len() <= 8,
            decreases 8 - frames@.len(),
        {
            match self.allocate_frame() {
                Some(address) => {
                    if address % FRAME_SIZE != 0 {
                        self.release_from(&frames, 0);
                        return false;
                    }
                    if !self.is_usable_address_locked(address) {
                        self.release_from(&frames, 0);
                        let _ = self.free_frame(address);
                        return false;
                    }
                    frames.push(address);
                },
                None => {
                    self.release_from(&frames, 0);
                    return false;
                },
            }
        }
        let mut index: usize = 0;
        while index < 8
            invariant
                self.wf(),
                frames@.len() == 8,
                index <= 8,
            decreases 8 - index,
        {
            if !self.free_frame(frames[index]) {
                self.release_from(&frames, index + 1);
                return false;
            }
            index = index + 1;
        }
        let reused = match self.allocate_frame() {
            Some(address) => address,
            None => {
                return false;
            },
        };
        if reused != frames[7] {
            let _ = self.free_frame(reused);
            return false;
        }
        self.free_frame(reused)
    }
}

} // verus!
