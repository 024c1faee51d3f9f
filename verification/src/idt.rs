//! Interrupt Descriptor Table entries and table.
use vstd::prelude::*;

verus! {

/// IDT entry (16 bytes).
#[derive(Debug, Clone, Copy)]
pub struct IdtEntry {
    pub offset_low: u16,
    pub selector: u16,
    pub options: u16,
    pub offset_middle: u16,
    pub offset_high: u32,
    pub reserved: u32,
}

/// The IDT entry for `handler`, reached via code segment `selector`.
pub open spec fn idt_entry_of(handler: u64, selector: u16, options: u16) -> IdtEntry {
    IdtEntry {
        offset_low: (handler % 0x1_0000) as u16,
        selector,
        options,
        offset_middle: ((handler / 0x1_0000) % 0x1_0000) as u16,
        offset_high: ((handler / 0x1_0000_0000) % 0x1_0000_0000) as u32,
        reserved: 0,
    }
}

impl IdtEntry {
    /// Creates an IDT gate for the handler at address `handler`.
    pub fn new(handler: usize, selector: u16, options: u16) -> (e: Self)
        ensures
            e == idt_entry_of(handler as u64, selector, options),
    {
        let h = handler as u64;
        IdtEntry {
            offset_low: (h % 0x1_0000) as u16,
            selector,
            options,
            offset_middle: ((h / 0x1_0000) % 0x1_0000) as u16,
            offset_high: ((h / 0x1_0000_0000) % 0x1_0000_0000) as u32,
            reserved: 0,
        }
    }

    /// Creates a null gate.
    pub fn null() -> (e: Self)
        ensures
            e == idt_entry_of(0, 0, 0),
    {
        Self::new(0, 0, 0)
    }
}

/// Operand of the `lidt` instruction.
pub struct IdtPointer {
    pub limit: u16,
    pub base: u64,
}

/// Interrupt Descriptor Table.
pub struct Idt {
    entries: [IdtEntry; 256],
}

impl Idt {
    /// The 256 gates of the table.
    pub closed spec fn view(&self) -> Seq<IdtEntry> {
        self.entries@
    }

    /// Creates a table of null gates.
    pub fn new() -> (t: Self)
        ensures
            t@.len() == 256,
            forall|i: int| 0 <= i < 256 ==> #[trigger] t@[i] == idt_entry_of(0, 0, 0),
    {
        Idt { entries: [IdtEntry::null(); 256] }
    }

    /// Sets one gate.
    pub fn set_entry(&mut self, index: usize, handler: usize, selector: u16, options: u16)
        requires
            index < 256,
        ensures
            final(self)@ == old(self)@.update(index as int, idt_entry_of(handler as u64, selector, options)),
    {
        self.entries[index] = IdtEntry::new(handler, selector, options);
    }

    /// The gates of the table.
    pub fn entries(&self) -> (r: &[IdtEntry; 256])
        ensures
            r@ == self@,
    {
        &self.entries
    }
}

/// Exception stack frame.
#[derive(Debug)]
pub struct ExceptionFrame {
    pub instruction_pointer: u64,
    pub code_segment: u64,
    pub cpu_flags: u64,
    pub stack_pointer: u64,
    pub stack_segment: u64,
}

/// Exception information.
#[derive(Debug)]
pub struct ExceptionInfo {
    pub vector: u8,
    pub error_code: Option<u64>,
    pub frame: ExceptionFrame,
}

} // verus!
