//! Descriptor-table entries and interrupt-timer constants.
//!
//! Programming the hardware (the PIC, the PIT, `lidt`/`ltr`) is a
//! collaborator's job; this module holds the bit layouts those collaborators
//! load, and the timer frequency the rest of the kernel computes with.

use vstd::prelude::*;

pub mod idt;
pub mod tss;

verus! {

/// The frequency of the programmable interrupt timer, in ticks per second.
pub const PIT_HZ: u64 = 1000;

} // verus!
