use vstd::prelude::*;

pub mod le;
pub mod boot;
pub mod elf;
pub mod memory;
pub mod keyboard;
pub mod gdt;
pub mod idt;
pub mod interrupts;
pub mod desktop;
pub mod fs;
pub mod gnosis;
pub mod heap;
pub mod bootloader;
pub mod ai;
pub mod arch;

verus! {

} // verus!
