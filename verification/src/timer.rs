//! The timer subsystem: two 8-bit counters decremented at a fixed 60 Hz
//! real-time cadence, independent of instruction throughput. The run loop
//! measures elapsed wall-clock time outside the core and converts it to a
//! tick count with `ticks_elapsed`, then applies `tick` that many times.

use vstd::prelude::*;
use crate::state::Chip8State;
use crate::state::StateView;

verus! {

/// Nanoseconds per timer tick: one sixtieth of a second, rounded up.
pub const TICK_NANOS: u64 = 16_666_667;

impl Chip8State {
    /// One 60 Hz tick: each timer that is running goes down by exactly one
    /// and never below zero; a stopped timer stays at zero; nothing else
    /// changes. How often this runs is the run loop's wall-clock schedule,
    /// never the instruction rate.
    pub fn tick(&mut self)
        requires
            old(self)@.wf(),
        ensures
            final(self)@ == (StateView {
                delay: if old(self)@.delay > 0 { (old(self)@.delay - 1) as u8 } else { 0u8 },
                sound: if old(self)@.sound > 0 { (old(self)@.sound - 1) as u8 } else { 0u8 },
                ..old(self)@
            }),
            final(self)@.wf(),
    {
        if self.delay > 0 {
            self.delay = self.delay - 1;
        }
        if self.sound > 0 {
            self.sound = self.sound - 1;
        }
    }
}

/// Converts elapsed wall-clock time into due timer ticks: with `carry`
/// nanoseconds left over from the previous conversion and `elapsed`
/// nanoseconds newly passed, exactly one tick is due per full tick period,
/// and the remainder below one period carries over. Lagging instruction
/// execution thus yields several ticks at once, never fewer.
pub fn ticks_elapsed(carry: u64, elapsed: u64) -> (due: (u64, u64))
    requires
        carry < TICK_NANOS,
        elapsed <= u64::MAX - carry,
    ensures
        due.0 == (carry + elapsed) / (TICK_NANOS as int),
        due.1 == (carry + elapsed) % (TICK_NANOS as int),
        due.1 < TICK_NANOS,
{
    let total = carry + elapsed;
    (total / TICK_NANOS, total % TICK_NANOS)
}

} // verus!
