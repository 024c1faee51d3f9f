//! SYSCALL/SYSRET configuration values: the register contents that route
//! the `syscall` instruction to the kernel.
use vstd::prelude::*;

verus! {

/// IA32_STAR: segment selectors for SYSCALL and SYSRET.
pub const IA32_STAR: u32 = 0xC000_0081;

/// IA32_LSTAR: the SYSCALL entry point.
pub const IA32_LSTAR: u32 = 0xC000_0082;

/// IA32_FMASK: flags cleared on SYSCALL.
pub const IA32_FMASK: u32 = 0xC000_0084;

/// Flags cleared on SYSCALL: bit 9 (interrupt flag) and bit 21 (ID flag).
pub const SYSCALL_FLAG_MASK: u64 = 0x0020_0200;

/// The IA32_STAR value: kernel CS in bits 47:32, kernel SS in bits 31:16,
/// user CS in bits 63:48 and user SS in bits 15:0, the selectors combined
/// by bitwise or.
pub fn star_value(kernel_cs: u16, kernel_ss: u16, user_cs: u16, user_ss: u16) -> (r: u64)
    ensures
        r == ((kernel_cs as u64) << 32u64) | ((kernel_ss as u64) << 16u64) | ((user_cs as u64) << 48u64)
            | (user_ss as u64),
        (r >> 48u64) == user_cs as u64,
        (r >> 32u64) & 0xFFFFu64 == kernel_cs as u64,
        (r >> 16u64) & 0xFFFFu64 == kernel_ss as u64,
        r & 0xFFFFu64 == user_ss as u64,
{
    let a = kernel_cs as u64;
    let b = kernel_ss as u64;
    let c = user_cs as u64;
    let d = user_ss as u64;
    let r = (a << 32u64) | (b << 16u64) | (c << 48u64) | d;
    assert((r >> 48u64) == c && (r >> 32u64) & 0xFFFFu64 == a && (r >> 16u64) & 0xFFFFu64 == b && r & 0xFFFFu64 == d)
        by (bit_vector)
        requires
            a < 0x10000,
            b < 0x10000,
            c < 0x10000,
            d < 0x10000,
            r == (a << 32u64) | (b << 16u64) | (c << 48u64) | d,
    ;
    r
}


} // verus!
