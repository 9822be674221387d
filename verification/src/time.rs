//! System time as a count of periodic timer ticks.
//!
//! The tick counter itself lives in the kernel context and is advanced by
//! the timer interrupt; this module gives the counter its arithmetic.

use vstd::prelude::*;

use crate::interrupts::PIT_HZ;

verus! {

/// Opaquely represents a system time: the reading of the tick counter.
#[derive(Copy, Clone, PartialEq, Eq, Structural, Debug)]
pub struct SysTime(u64);

impl SysTime {
    /// The tick reading this time stands for.
    pub closed spec fn view(&self) -> u64 {
        self.0
    }

    /// The system time for a given reading of the tick counter.
    pub fn now(ticks: u64) -> (t: Self)
        ensures
            t@ == ticks,
    {
        SysTime(ticks)
    }

    /// Get the time `secs` seconds after `self`.
    pub fn after(&self, secs: u64) -> (t: Self)
        requires
            self@ + secs * PIT_HZ <= u64::MAX,
        ensures
            t@ == self@ + secs * PIT_HZ,
    {
        SysTime(self.0 + secs * PIT_HZ)
    }

    /// Whether this time has been reached once the counter reads `now`.
    pub fn reached(&self, now: &SysTime) -> (r: bool)
        ensures
            r == (now@ >= self@),
    {
        now.0 >= self.0
    }
}

/// Tick the clock.  Called from the timer interrupt handler only.
pub fn tick(ticks: &mut u64)
    requires
        *old(ticks) < u64::MAX,
    ensures
        *final(ticks) == *old(ticks) + 1,
{
    *ticks = *ticks + 1;
}

} // verus!
