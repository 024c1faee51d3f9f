//! Boot context handling: memory-map validation and early status output.
use vstd::prelude::*;
use vstd::string::StringSliceAdditionalSpecFns;

verus! {

/// Memory region from the bootloader.
#[derive(Copy, Clone, Debug)]
pub struct MemoryRegion {
    pub start: u64,
    pub len: u64,
    pub usable: bool,
}

/// Framebuffer information.
#[derive(Copy, Clone, Debug)]
pub struct FramebufferInfo {
    pub addr: u64,
    pub width: u32,
    pub height: u32,
    pub pitch: u32,
}

/// Boot context provided by the bootloader.
pub struct BootContext<'a> {
    pub memory_map: &'a [MemoryRegion],
    pub framebuffer: Option<FramebufferInfo>,
    pub physical_memory_offset: Option<u64>,
}

/// A region whose end address overflows.
pub open spec fn region_overflows(r: MemoryRegion) -> bool {
    r.start + r.len > u64::MAX
}

/// A usable region of length zero.
pub open spec fn region_empty_usable(r: MemoryRegion) -> bool {
    r.usable && r.len == 0
}

/// Outcome of validating the first `n` regions of a map.
pub open spec fn validate_upto(map: Seq<MemoryRegion>, n: nat) -> Result<(), &'static str>
    decreases n,
{
    if n == 0 {
        Ok(())
    } else {
        match validate_upto(map, (n - 1) as nat) {
            Err(e) => Err(e),
            Ok(_) => {
                let r = map[n - 1];
                if region_overflows(r) {
                    Err("Memory region overflow detected")
                } else if region_empty_usable(r) {
                    Err("Usable memory region with zero length")
                } else {
                    Ok(())
                }
            },
        }
    }
}

proof fn lemma_validate_upto_ok(map: Seq<MemoryRegion>, n: nat)
    ensures
        validate_upto(map, n) is Ok <==> forall|i: int|
            0 <= i < n ==> !region_overflows(#[trigger] map[i]) && !region_empty_usable(map[i]),
    decreases n,
{
    if n > 0 {
        lemma_validate_upto_ok(map, (n - 1) as nat);
    }
}

/// Validates the boot context: no region end may overflow and no usable region may be empty.
/// The error names the first offending region's fault.
pub fn validate_boot_context(ctx: &BootContext) -> (r: Result<(), &'static str>)
    ensures
        r == validate_upto(ctx.memory_map@, ctx.memory_map@.len()),
        r is Ok <==> forall|i: int|
            0 <= i < ctx.memory_map@.len() ==> !region_overflows(#[trigger] ctx.memory_map@[i])
                && !region_empty_usable(ctx.memory_map@[i]),
{
    let map = ctx.memory_map;
    let mut k: usize = 0;
    while k < map.len()
        invariant
            0 <= k <= map@.len(),
            map@ == ctx.memory_map@,
            validate_upto(map@, k as nat) == Ok::<(), &'static str>(()),
        decreases map@.len() - k,
    {
        let region = map[k];
        proof {
            assert((k + 1) as nat - 1 == k);
        }
        if region.start.checked_add(region.len).is_none() {
            proof { lemma_validate_error_sticks(map@, (k + 1) as nat, map@.len()); }
            return Err("Memory region overflow detected");
        }
        if region.usable && region.len == 0 {
            proof { lemma_validate_error_sticks(map@, (k + 1) as nat, map@.len()); }
            return Err("Usable memory region with zero length");
        }
        k = k + 1;
    }
    proof {
        lemma_validate_upto_ok(map@, map@.len());
    }
    Ok(())
}

proof fn lemma_validate_error_sticks(map: Seq<MemoryRegion>, k: nat, m: nat)
    requires
        k <= m,
        validate_upto(map, k) is Err,
    ensures
        validate_upto(map, m) == validate_upto(map, k),
    decreases m - k,
{
    if k < m {
        lemma_validate_error_sticks(map, k, (m - 1) as nat);
    }
}

/// Early boot text writer into a fixed byte buffer; the last byte always stays free.
pub struct BootWriter {
    buffer: Vec<u8>,
    pos: usize,
}

/// `written` extended by `s`, keeping at most `cap - 1` bytes (nothing is
/// added to a buffer without room).
pub open spec fn append_bounded(written: Seq<u8>, s: Seq<u8>, cap: nat) -> Seq<u8> {
    let all = written + s;
    if all.len() < cap {
        all
    } else if cap == 0 {
        written
    } else {
        all.subrange(0, cap - 1)
    }
}

impl BootWriter {
    pub closed spec fn wf(&self) -> bool {
        self.pos < self.buffer@.len() || (self.buffer@.len() == 0 && self.pos == 0)
    }

    /// Bytes written so far.
    pub closed spec fn view(&self) -> Seq<u8> {
        self.buffer@.subrange(0, self.pos as int)
    }

    /// Size of the backing buffer.
    pub closed spec fn capacity(&self) -> nat {
        self.buffer@.len()
    }

    /// Every byte of the backing buffer, written or not.
    pub closed spec fn contents(&self) -> Seq<u8> {
        self.buffer@
    }

    /// Creates a writer over `buffer`, writing nothing into it.
    pub fn new(buffer: Vec<u8>) -> (w: Self)
        ensures
            w.wf(),
            w@ == Seq::<u8>::empty(),
            w.capacity() == buffer@.len(),
            w.contents() == buffer@,
    {
        let w = BootWriter { buffer, pos: 0 };
        assert(w@ =~= Seq::<u8>::empty());
        w
    }

    /// Writes the bytes of `s`, dropping those that do not fit. A writer
    /// over an empty buffer takes only empty strings.
    pub fn write_str(&mut self, s: &str)
        requires
            old(self).wf(),
            old(self).capacity() >= 1 || s.spec_bytes().len() == 0,
        ensures
            final(self).wf(),
            final(self).capacity() == old(self).capacity(),
            final(self)@ == append_bounded(old(self)@, s.spec_bytes(), old(self).capacity()),
            forall|j: int| final(self)@.len() <= j < old(self).capacity() ==> #[trigger] final(self).contents()[j] == old(self).contents()[j],
    {
        let bytes = s.as_bytes();
        let mut i: usize = 0;
        while i < bytes.len()
            invariant
                0 <= i <= bytes@.len(),
                bytes@ == s.spec_bytes(),
                self.wf(),
                old(self).capacity() >= 1 || bytes@.len() == 0,
                self.capacity() == old(self).capacity(),
                self@ == append_bounded(old(self)@, bytes@.subrange(0, i as int), old(self).capacity()),
                self.pos >= old(self).pos,
                forall|j: int| self.pos <= j < old(self).capacity() ==> #[trigger] self.contents()[j] == old(self).contents()[j],
            decreases bytes@.len() - i,
        {
            let ghost before = self@;
            if self.pos < self.buffer.len() - 1 {
                let p = self.pos;
                let ghost bc = self.contents();
                self.buffer.set(p, bytes[i]);
                self.pos = p + 1;
                proof {
                    assert(self.contents() == bc.update(p as int, bytes@[i as int]));
                    assert forall|j: int| self.pos <= j < old(self).capacity() implies #[trigger] self.contents()[j]
                        == old(self).contents()[j] by {
                        assert(bc[j] == old(self).contents()[j]);
                    }
                    assert(bytes@.subrange(0, i + 1) =~= bytes@.subrange(0, i as int).push(bytes@[i as int]));
                    assert(self@ =~= before.push(bytes@[i as int]));
                    assert(append_bounded(old(self)@, bytes@.subrange(0, i + 1), old(self).capacity())
                        =~= before.push(bytes@[i as int]));
                }
            } else {
                proof {
                    assert(append_bounded(old(self)@, bytes@.subrange(0, i + 1), old(self).capacity()) =~= before);
                }
            }
            i = i + 1;
        }
        proof {
            assert(bytes@.subrange(0, i as int) =~= bytes@);
        }
    }
}

/// Prints "<subsystem>: OK\n" or "<subsystem>: FAIL\n".
pub fn print_boot_status(writer: &mut BootWriter, subsystem: &str, ok: bool)
    requires
        old(writer).wf(),
        old(writer).capacity() >= 1,
    ensures
        final(writer).wf(),
        final(writer).capacity() == old(writer).capacity(),
        final(writer)@ == append_bounded(
            append_bounded(
                append_bounded(
                    append_bounded(old(writer)@, subsystem.spec_bytes(), old(writer).capacity()),
                    ": ".spec_bytes(),
                    old(writer).capacity(),
                ),
                (if ok { "OK" } else { "FAIL" }).spec_bytes(),
                old(writer).capacity(),
            ),
            "\n".spec_bytes(),
            old(writer).capacity(),
        ),
        forall|j: int| final(writer)@.len() <= j < old(writer).capacity() ==> #[trigger] final(writer).contents()[j]
            == old(writer).contents()[j],
{
    let status = if ok { "OK" } else { "FAIL" };
    writer.write_str(subsystem);
    writer.write_str(": ");
    writer.write_str(status);
    writer.write_str("\n");
}

} // verus!
