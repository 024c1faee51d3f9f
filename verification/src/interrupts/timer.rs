//! Programmable interval timer: divisor and tick counting.
use vstd::prelude::*;

verus! {

pub const PIT_FREQUENCY: u32 = 1_193_182;
pub const TIMER_FREQUENCY: u32 = 100;

/// Reload value for PIT channel 0 at `TIMER_FREQUENCY`.
pub fn pit_divisor() -> (d: u32)
    ensures
        d == PIT_FREQUENCY / TIMER_FREQUENCY,
        d == 11931,
{
    PIT_FREQUENCY / TIMER_FREQUENCY
}

/// The two bytes written to the channel-0 data port, low byte first.
pub fn divisor_bytes(divisor: u32) -> (r: (u8, u8))
    ensures
        r.0 == divisor % 256,
        r.1 == (divisor / 256) % 256,
{
    ((divisor % 256) as u8, ((divisor / 256) % 256) as u8)
}

/// Timer tick counter.
pub struct TickCounter {
    ticks: u64,
}

impl TickCounter {
    pub closed spec fn view(&self) -> u64 {
        self.ticks
    }

    pub fn new() -> (c: Self)
        ensures
            c@ == 0,
    {
        TickCounter { ticks: 0 }
    }
}

/// Counts one timer interrupt; the counter wraps as an atomic add does.
pub fn tick(counter: &mut TickCounter)
    ensures
        final(counter)@ == if old(counter)@ == u64::MAX { 0 } else { (old(counter)@ + 1) as u64 },
{
    counter.ticks = counter.ticks.wrapping_add(1);
}

/// Timer interrupts counted so far.
pub fn ticks(counter: &TickCounter) -> (r: u64)
    ensures
        r == counter@,
{
    counter.ticks
}

} // verus!
