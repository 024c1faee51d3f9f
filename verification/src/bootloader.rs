//! Multiboot2 boot information: the record layouts the bootloader hands
//! over.
use vstd::prelude::*;
use crate::le::{get_u32, le32, lemma_le_bounds};

verus! {

/// Multiboot2 magic number.
pub const MULTIBOOT2_MAGIC: u32 = 0x36D76289;

/// Tag type: end of the tag list.
pub const TAG_END: u32 = 0;

/// Tag type: boot loader name.
pub const TAG_BOOT_LOADER_NAME: u32 = 2;

/// Tag type: memory map.
pub const TAG_MMAP: u32 = 6;

/// Tag type: a loaded module.
pub const TAG_MODULE: u32 = 9;

/// Memory type: available RAM.
pub const MEMORY_AVAILABLE: u32 = 1;

/// Memory type: reserved.
pub const MEMORY_RESERVED: u32 = 2;

/// Memory type: ACPI reclaimable.
pub const MEMORY_ACPI_RECLAIMABLE: u32 = 3;

/// Memory type: ACPI non-volatile storage.
pub const MEMORY_ACPI_NVS: u32 = 4;

/// Memory type: defective RAM.
pub const MEMORY_BAD: u32 = 5;

/// Multiboot2 boot information header.
#[derive(Debug, Clone, Copy, PartialEq, Eq, Structural)]
pub struct MultibootInfo {
    pub total_size: u32,
    pub reserved: u32,
}

/// Multiboot2 tag header.
#[derive(Debug, Clone, Copy, PartialEq, Eq, Structural)]
pub struct TagHeader {
    pub typ: u32,
    pub size: u32,
}

/// Memory map tag header.
#[derive(Debug, Clone, Copy, PartialEq, Eq, Structural)]
pub struct MemoryMapTag {
    pub typ: u32,
    pub size: u32,
    pub entry_size: u32,
    pub entry_version: u32,
}

/// Memory map entry.
#[derive(Debug, Clone, Copy, PartialEq, Eq, Structural)]
pub struct MemoryMapEntry {
    pub typ: u32,
    pub reserved: u32,
    pub addr: u64,
    pub len: u64,
}

/// Module tag (a file the bootloader loaded).
#[derive(Debug, Clone, Copy, PartialEq, Eq, Structural)]
pub struct ModuleTag {
    pub typ: u32,
    pub size: u32,
    pub mod_start: u32,
    pub mod_end: u32,
    pub cmdline: u8,
}

/// Why boot information was refused.
#[derive(Debug, Clone, Copy, PartialEq, Eq, Structural)]
pub enum MultibootError {
    /// No boot information was handed over.
    NoInfo,
    /// The tag list runs past the buffer, a tag is empty, or a memory map or
    /// module tag does not describe itself consistently.
    Malformed,
}

/// Bytes a memory map entry takes.
pub const MEMORY_MAP_ENTRY_SIZE: u64 = 24;

/// A tag's length rounded up to the 8-byte tag alignment.
pub open spec fn round8(size: int) -> int {
    (size + 7) / 8 * 8
}

/// Tags are 8-byte aligned: the step past a tag of `size` bytes is the
/// least multiple of 8 that is at least `size`.
pub proof fn law_tag_step_aligned(size: int)
    requires
        size >= 0,
    ensures
        round8(size) % 8 == 0,
        size <= round8(size) < size + 8,
{
    assert((size + 7) / 8 * 8 <= size + 7 && (size + 7) / 8 * 8 > size - 1) by (nonlinear_arith)
        requires
            size >= 0,
    ;
    assert(((size + 7) / 8 * 8) % 8 == 0) by (nonlinear_arith)
        requires
            size >= 0,
    ;
}

/// Walking the tag list from an 8-byte-aligned tag that is not the end
/// tag, the next tag visited starts at an 8-byte-aligned offset: at the
/// least multiple of 8 past the tag that covers its `size` bytes.
pub proof fn law_walk_stays_aligned(s: Seq<u8>, off: int)
    requires
        off % 8 == 0,
        tags_ok(s, off),
        le32(s, off) != TAG_END,
    ensures
        exists|next: int|
            #![trigger tags_ok(s, next)]
            next % 8 == 0 && off + le32(s, off + 4) <= next < off + le32(s, off + 4) + 8 && next > off && tags_ok(s, next),
{
    let size = le32(s, off + 4);
    lemma_le_bounds(s, off + 4);
    law_tag_step_aligned(size);
    let next = off + round8(size);
    assert(tags_ok(s, next));
}

/// Whether the body of the tag at `off`, of type `typ` and length `size`,
/// can be read: a memory map has its header and every entry's type field
/// inside the buffer and a non-zero entry size; a module ends no earlier
/// than it starts.
pub open spec fn tag_body_ok(s: Seq<u8>, off: int, typ: int, size: int) -> bool {
    if typ == TAG_MMAP {
        &&& off + 16 <= s.len()
        &&& size >= 16
        &&& le32(s, off + 8) != 0
        &&& ((size - 16) / le32(s, off + 8) == 0 || off + 16 + ((size - 16) / le32(s, off + 8) - 1)
            * MEMORY_MAP_ENTRY_SIZE + 4 <= s.len())
    } else if typ == TAG_MODULE {
        &&& off + 16 <= s.len()
        &&& le32(s, off + 12) >= le32(s, off + 8)
    } else {
        true
    }
}

/// Whether the tag list from `off` on reaches the end tag through tags
/// that can all be read, each step moving forward.
pub open spec fn tags_ok(s: Seq<u8>, off: int) -> bool
    decreases s.len() - off,
{
    if off < 0 || off + 8 > s.len() {
        false
    } else if le32(s, off) == TAG_END {
        true
    } else {
        let size = le32(s, off + 4);
        if tag_body_ok(s, off, le32(s, off), size) && size + 7 <= u32::MAX && size > 0 && off + round8(size)
            <= s.len() {
            proof {
                assert((size + 7) / 8 >= 1) by (nonlinear_arith)
                    requires
                        size > 0,
                ;
                assert(round8(size) >= 8);
            }
            tags_ok(s, off + round8(size))
        } else {
            false
        }
    }
}

/// Walks the boot information: the tag list after the 8-byte header, up to
/// the end tag, checking each memory map and module tag on the way.
pub fn parse_multiboot_info(info: &[u8]) -> (r: Result<(), MultibootError>)
    ensures
        info@.len() == 0 ==> r == Err::<(), MultibootError>(MultibootError::NoInfo),
        info@.len() > 0 ==> (r is Ok <==> tags_ok(info@, 8)),
        info@.len() > 0 && r is Err ==> r == Err::<(), MultibootError>(MultibootError::Malformed),
{
    if info.len() == 0 {
        return Err(MultibootError::NoInfo);
    }
    let mut off: usize = 8;
    loop
        invariant
            info@.len() > 0,
            8 <= off,
            tags_ok(info@, 8) == tags_ok(info@, off as int),
        decreases info@.len() - off,
    {
        if off > info.len() || info.len() - off < 8 {
            return Err(MultibootError::Malformed);
        }
        let typ = get_u32(info, off);
        if typ == TAG_END {
            return Ok(());
        }
        let size = get_u32(info, off + 4);
        proof {
            lemma_le_bounds(info@, off + 8);
            lemma_le_bounds(info@, off + 12);
        }
        if typ == TAG_MMAP {
            if info.len() - off < 16 || size < 16 {
                return Err(MultibootError::Malformed);
            }
            let entry_size = get_u32(info, off + 8);
            if entry_size == 0 {
                return Err(MultibootError::Malformed);
            }
            let count = (size - 16) / entry_size;
            if count > 0 {
                let last: u64 = (count as u64 - 1) * MEMORY_MAP_ENTRY_SIZE + 4;
                if last > (info.len() - off - 16) as u64 {
                    return Err(MultibootError::Malformed);
                }
            }
        } else if typ == TAG_MODULE {
            if info.len() - off < 16 {
                return Err(MultibootError::Malformed);
            }
            let start = get_u32(info, off + 8);
            let end = get_u32(info, off + 12);
            if end < start {
                return Err(MultibootError::Malformed);
            }
        }
        if size == 0 || size > u32::MAX - 7 {
            return Err(MultibootError::Malformed);
        }
        let next = (size + 7) / 8 * 8;
        if next as usize > info.len() - off {
            proof {
                assert(!tags_ok(info@, off + next));
            }
            return Err(MultibootError::Malformed);
        }
        off = off + next as usize;
    }
}

} // verus!
