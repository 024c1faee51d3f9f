//! Interrupt and exception wiring: exception gates, page-fault decoding and PIC vectors.
use vstd::prelude::*;
use crate::idt::{Idt, idt_entry_of};

pub mod keyboard;
pub mod timer;

verus! {

pub const PIC_1_OFFSET: u8 = 32;
pub const PIC_2_OFFSET: u8 = 40;

/// Hardware interrupt lines routed through the primary PIC.
#[derive(Clone, Copy)]
pub enum InterruptIndex {
    Timer,
    Keyboard,
}

impl InterruptIndex {
    /// Interrupt vector of the line.
    pub fn as_u8(self) -> (r: u8)
        ensures
            r == match self {
                InterruptIndex::Timer => 32u8,
                InterruptIndex::Keyboard => 33u8,
            },
    {
        match self {
            InterruptIndex::Timer => PIC_1_OFFSET,
            InterruptIndex::Keyboard => PIC_1_OFFSET + 1,
        }
    }
}

/// Exception vectors that `init_idt` installs: 0-8, 10-14 and 16-19.
pub open spec fn is_exception_vector(v: int) -> bool {
    (0 <= v <= 8) || (10 <= v <= 14) || (16 <= v <= 19)
}

/// Installs the exception handlers, `handlers[v]` being the address of the handler for
/// vector `v`, as ring-0 interrupt gates in kernel code segment 0x08.
pub fn init_idt(idt: &mut Idt, handlers: &[usize; 20])
    requires
        old(idt)@.len() == 256,
    ensures
        final(idt)@.len() == 256,
        forall|v: int|
            0 <= v < 256 ==> #[trigger] final(idt)@[v] == if is_exception_vector(v) {
                idt_entry_of(handlers@[v] as u64, 0x08, 0x8E)
            } else {
                old(idt)@[v]
            },
{
    let mut v: usize = 0;
    while v < 20
        invariant
            0 <= v <= 20,
            idt@.len() == 256,
            forall|w: int|
                0 <= w < 256 ==> #[trigger] idt@[w] == if is_exception_vector(w) && w < v {
                    idt_entry_of(handlers@[w] as u64, 0x08, 0x8E)
                } else {
                    old(idt)@[w]
                },
        decreases 20 - v,
    {
        if v != 9 && v != 15 {
            idt.set_entry(v, handlers[v], 0x08, 0x8E);
        }
        v = v + 1;
    }
}

/// Page fault information.
#[derive(Debug)]
pub struct PageFaultInfo {
    pub address: u64,
    pub present: bool,
    pub write: bool,
    pub user: bool,
    pub instruction_fetch: bool,
}

/// Bit `b` of `x`.
pub open spec fn bit(x: u64, b: nat) -> bool {
    (x / vstd::arithmetic::power2::pow2(b) as u64) % 2 == 1
}

impl PageFaultInfo {
    /// Decodes a page-fault error code: `present` (the fault hit a present page, a
    /// protection violation), `write`, `user` and `instruction_fetch` are bits 0, 1, 2
    /// and 4.
    pub fn from_error_code(error_code: u64, faulting_address: u64) -> (p: Self)
        ensures
            p.address == faulting_address,
            p.present == (error_code % 2 == 1),
            p.write == ((error_code / 2) % 2 == 1),
            p.user == ((error_code / 4) % 2 == 1),
            p.instruction_fetch == ((error_code / 16) % 2 == 1),
    {
        PageFaultInfo {
            address: faulting_address,
            present: error_code % 2 == 1,
            write: (error_code / 2) % 2 == 1,
            user: (error_code / 4) % 2 == 1,
            instruction_fetch: (error_code / 16) % 2 == 1,
        }
    }
}

} // verus!
