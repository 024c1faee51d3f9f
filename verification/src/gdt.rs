//! Global Descriptor Table: kernel and user code/data segments and the TSS slot.
use vstd::prelude::*;

verus! {

/// GDT entry (8 bytes).
#[derive(Debug, Clone, Copy)]
pub struct Descriptor {
    pub limit_low: u16,
    pub base_low: u16,
    pub base_middle: u8,
    pub access: u8,
    pub granularity: u8,
    pub base_high: u8,
}

/// The descriptor that encodes `base`, `limit`, `access` and the flag nibble of `granularity`.
pub open spec fn descriptor_of(base: u32, limit: u32, access: u8, granularity: u8) -> Descriptor {
    Descriptor {
        limit_low: (limit % 0x1_0000) as u16,
        base_low: (base % 0x1_0000) as u16,
        base_middle: ((base / 0x1_0000) % 0x100) as u8,
        access,
        granularity: ((limit / 0x1_0000) % 0x10 + (granularity / 0x10) * 0x10) as u8,
        base_high: (base / 0x100_0000) as u8,
    }
}

/// Access byte of a code segment for privilege `ring`.
pub open spec fn code_access(ring: u8) -> u8 {
    (0x9A + (ring % 4) * 0x20) as u8
}

/// A code segment's access byte is present, non-system, executable and
/// readable (0x9A), with the descriptor privilege level `ring` (taken mod 4)
/// in bits 5-6.
pub proof fn law_code_access_privilege(ring: u8)
    ensures
        code_access(ring) == 0x9A | ((ring & 3) << 5),
        (code_access(ring) >> 5) & 3 == ring % 4,
        code_access(ring) & 0x9F == 0x9A,
{
    let a = code_access(ring);
    assert(a == (0x9A + (ring % 4) * 0x20) as u8);
    assert(((0x9A + (ring % 4) * 0x20) as u8) == (0x9Au8 | ((ring & 3u8) << 5u8))) by (bit_vector);
    assert((((0x9A + (ring % 4) * 0x20) as u8) >> 5u8) & 3u8 == ring % 4) by (bit_vector);
    assert(((0x9A + (ring % 4) * 0x20) as u8) & 0x9Fu8 == 0x9Au8) by (bit_vector);
}

/// A data segment's access byte is present, non-system and writable
/// (0x92), with the descriptor privilege level `ring` (taken mod 4) in bits
/// 5-6.
pub proof fn law_data_access_privilege(ring: u8)
    ensures
        data_access(ring) == 0x92 | ((ring & 3) << 5),
        (data_access(ring) >> 5) & 3 == ring % 4,
        data_access(ring) & 0x9F == 0x92,
{
    let a = data_access(ring);
    assert(a == (0x92 + (ring % 4) * 0x20) as u8);
    assert(((0x92 + (ring % 4) * 0x20) as u8) == (0x92u8 | ((ring & 3u8) << 5u8))) by (bit_vector);
    assert((((0x92 + (ring % 4) * 0x20) as u8) >> 5u8) & 3u8 == ring % 4) by (bit_vector);
    assert(((0x92 + (ring % 4) * 0x20) as u8) & 0x9Fu8 == 0x92u8) by (bit_vector);
}

/// Access byte of a data segment for privilege `ring`.
pub open spec fn data_access(ring: u8) -> u8 {
    (0x92 + (ring % 4) * 0x20) as u8
}

impl Descriptor {
    /// Creates a GDT entry.
    pub fn new(base: u32, limit: u32, access: u8, granularity: u8) -> (d: Self)
        ensures
            d == descriptor_of(base, limit, access, granularity),
    {
        Descriptor {
            limit_low: (limit % 0x1_0000) as u16,
            base_low: (base % 0x1_0000) as u16,
            base_middle: ((base / 0x1_0000) % 0x100) as u8,
            access,
            granularity: ((limit / 0x1_0000) % 0x10) as u8 + (granularity / 0x10) * 0x10,
            base_high: (base / 0x100_0000) as u8,
        }
    }

    /// Creates the null descriptor.
    pub fn null() -> (d: Self)
        ensures
            d == descriptor_of(0, 0, 0, 0),
    {
        Self::new(0, 0, 0, 0)
    }

    /// Creates a flat 4 GiB code segment descriptor for privilege `ring`.
    pub fn code_segment(ring: u8) -> (d: Self)
        ensures
            d == descriptor_of(0, 0xFFFF_FFFF, code_access(ring), 0xC0),
            d.access == 0x9A | ((ring & 3) << 5),
            (d.access >> 5) & 3 == ring % 4,
    {
        proof {
            law_code_access_privilege(ring);
        }
        let access = 0x9A + (ring % 4) * 0x20;
        Self::new(0, 0xFFFF_FFFF, access, 0xC0)
    }

    /// Creates a flat 4 GiB data segment descriptor for privilege `ring`.
    pub fn data_segment(ring: u8) -> (d: Self)
        ensures
            d == descriptor_of(0, 0xFFFF_FFFF, data_access(ring), 0xC0),
            d.access == 0x92 | ((ring & 3) << 5),
            (d.access >> 5) & 3 == ring % 4,
    {
        proof {
            law_data_access_privilege(ring);
        }
        let access = 0x92 + (ring % 4) * 0x20;
        Self::new(0, 0xFFFF_FFFF, access, 0xC0)
    }
}

/// TSS descriptor (16 bytes).
#[derive(Debug, Clone, Copy)]
pub struct TssDescriptor {
    pub limit_low: u16,
    pub base_low: u16,
    pub base_middle: u8,
    pub access: u8,
    pub limit_high: u8,
    pub base_high: u16,
    pub base_upper: u32,
    pub reserved: u32,
}

/// The TSS descriptor that encodes `base` and `limit`.
pub open spec fn tss_descriptor_of(base: u64, limit: u32) -> TssDescriptor {
    TssDescriptor {
        limit_low: (limit % 0x1_0000) as u16,
        base_low: (base % 0x1_0000) as u16,
        base_middle: ((base / 0x1_0000) % 0x100) as u8,
        access: 0x89,
        limit_high: ((limit / 0x1_0000) % 0x10) as u8,
        base_high: ((base / 0x1_0000) % 0x1_0000) as u16,
        base_upper: ((base / 0x1_0000_0000) % 0x1_0000_0000) as u32,
        reserved: 0,
    }
}

impl TssDescriptor {
    /// Creates a 64-bit available-TSS descriptor.
    pub fn new(base: u64, limit: u32) -> (d: Self)
        ensures
            d == tss_descriptor_of(base, limit),
    {
        TssDescriptor {
            limit_low: (limit % 0x1_0000) as u16,
            base_low: (base % 0x1_0000) as u16,
            base_middle: ((base / 0x1_0000) % 0x100) as u8,
            access: 0x89,
            limit_high: ((limit / 0x1_0000) % 0x10) as u8,
            base_high: ((base / 0x1_0000) % 0x1_0000) as u16,
            base_upper: ((base / 0x1_0000_0000) % 0x1_0000_0000) as u32,
            reserved: 0,
        }
    }
}

/// Operand of the `lgdt` instruction.
pub struct DescriptorTablePointer {
    pub limit: u16,
    pub base: u64,
}

/// GDT with predefined segments.
pub struct Gdt {
    pub null: Descriptor,
    pub kernel_code: Descriptor,
    pub kernel_data: Descriptor,
    pub user_code: Descriptor,
    pub user_data: Descriptor,
    pub tss: TssDescriptor,
    /// Keeps the table on an 8-byte boundary, as the processor prefers.
    pub alignment: [u64; 0],
}

/// Segment selectors.
#[derive(Debug, Clone, Copy)]
pub struct SegmentSelectors {
    pub kernel_code: u16,
    pub kernel_data: u16,
    pub user_code: u16,
    pub user_data: u16,
    pub tss: u16,
}

/// The table's kernel segments run at privilege 0 and its user segments at
/// privilege 3: access bytes 0x9A and 0x92 for ring 0, 0xFA and 0xF2 for
/// ring 3.
pub proof fn law_gdt_privileges()
    ensures
        code_access(0) == 0x9A && data_access(0) == 0x92,
        code_access(3) == 0xFA && data_access(3) == 0xF2,
        (code_access(3) >> 5) & 3 == 3 && (data_access(3) >> 5) & 3 == 3,
        (code_access(0) >> 5) & 3 == 0 && (data_access(0) >> 5) & 3 == 0,
{
    law_code_access_privilege(0);
    law_code_access_privilege(3);
    law_data_access_privilege(0);
    law_data_access_privilege(3);
    assert(0x9Au8 | ((3u8 & 3u8) << 5u8) == 0xFAu8) by (bit_vector);
    assert(0x92u8 | ((3u8 & 3u8) << 5u8) == 0xF2u8) by (bit_vector);
    assert(0x9Au8 | ((0u8 & 3u8) << 5u8) == 0x9Au8) by (bit_vector);
    assert(0x92u8 | ((0u8 & 3u8) << 5u8) == 0x92u8) by (bit_vector);
}

impl Gdt {
    /// Creates a GDT with flat kernel (ring 0) and user (ring 3) segments and an empty TSS slot.
    pub fn new() -> (g: Self)
        ensures
            g.null == descriptor_of(0, 0, 0, 0),
            g.kernel_code == descriptor_of(0, 0xFFFF_FFFF, code_access(0), 0xC0),
            g.kernel_data == descriptor_of(0, 0xFFFF_FFFF, data_access(0), 0xC0),
            g.user_code == descriptor_of(0, 0xFFFF_FFFF, code_access(3), 0xC0),
            g.user_data == descriptor_of(0, 0xFFFF_FFFF, data_access(3), 0xC0),
            g.tss == tss_descriptor_of(0, 0),
            (g.kernel_code.access >> 5) & 3 == 0 && (g.kernel_data.access >> 5) & 3 == 0,
            (g.user_code.access >> 5) & 3 == 3 && (g.user_data.access >> 5) & 3 == 3,
            g.kernel_code.access == 0x9A && g.user_code.access == 0xFA,
            g.kernel_data.access == 0x92 && g.user_data.access == 0xF2,
    {
        proof {
            law_gdt_privileges();
        }
        Gdt {
            null: Descriptor::null(),
            kernel_code: Descriptor::code_segment(0),
            kernel_data: Descriptor::data_segment(0),
            user_code: Descriptor::code_segment(3),
            user_data: Descriptor::data_segment(3),
            tss: TssDescriptor::new(0, 0),
            alignment: [],
        }
    }

    /// Sets the TSS descriptor.
    pub fn set_tss(&mut self, tss_base: u64, tss_limit: u32)
        ensures
            final(self).tss == tss_descriptor_of(tss_base, tss_limit),
            final(self).null == old(self).null,
            final(self).kernel_code == old(self).kernel_code,
            final(self).kernel_data == old(self).kernel_data,
            final(self).user_code == old(self).user_code,
            final(self).user_data == old(self).user_data,
    {
        self.tss = TssDescriptor::new(tss_base, tss_limit);
    }

    /// Segment selectors of this table; user selectors carry RPL 3.
    pub fn selectors(&self) -> (s: SegmentSelectors)
        ensures
            s.kernel_code == 0x08,
            s.kernel_data == 0x10,
            s.user_code == 0x1B,
            s.user_data == 0x23,
            s.tss == 0x28,
    {
        SegmentSelectors { kernel_code: 0x08, kernel_data: 0x10, user_code: 0x18 + 3, user_data: 0x20 + 3, tss: 0x28 }
    }
}

} // verus!
