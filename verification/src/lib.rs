//! Core of a single-address-space, bare-metal kernel.
//!
//! The library holds the kernel's three coupled subsystems: a cooperative
//! scheduler built on one-shot continuations, a capability registry indexed
//! by random 128-bit keys, and demand-paged virtual memory gated by
//! capability-granted ranges.  Hardware collaborators (ports, descriptor
//! table loads, the interrupt controller and timer, scan-code decoding,
//! reading the firmware memory map) stay outside; the library consumes
//! their outputs — a tick count, a byte stream, frame ranges, a fault
//! address — as plain values, and the dispatch driver around it performs
//! the stack switches and mode switches the library decides on.

use vstd::prelude::*;

pub mod cap;
pub mod continuation;
pub mod interrupts;
pub mod io;
pub mod machine;
pub mod memory;
pub mod sched;
pub mod time;

pub use time::tick;
pub use time::SysTime;

use crate::cap::{CapRegistry, Capability};
use crate::continuation::{Continuation, EventKind};
use crate::io::kbd::KbdBuffer;
use crate::memory::e820::{usable_frame, E820Info};
use crate::memory::paging::{
    in_ranges, seeded_frame, virt_pages_wf, AllowedRanges, BuddyAllocator, PageTables,
    KERNEL_RESERVED_FRAMES, VIRT_AVAIL_FIRST_PAGE, VIRT_AVAIL_LAST_PAGE,
};
use crate::sched::{Scheduler, STACK_WORDS};

verus! {

/// The kernel context: the one instance of every subsystem, constructed
/// once at boot and passed to every subsystem entry point.
pub struct Kernel {
    /// Counts timer interrupts; the source of time.
    pub ticks: u64,
    /// Buffered keyboard input.
    pub kbd: KbdBuffer,
    /// The capability registry.
    pub registry: CapRegistry,
    /// The task scheduler.
    pub scheduler: Scheduler,
    /// The physical frame allocator; it hands out frame numbers.
    pub phys: BuddyAllocator,
    /// The virtual address allocator; it hands out page numbers.
    pub virt: BuddyAllocator,
    /// The ranges allowed to demand-page, with their flags.
    pub allowed: AllowedRanges,
    /// The mappings the hardware page tables must reflect.
    pub page_tables: PageTables,
}

impl Kernel {
    /// What boot establishes and every entry point preserves.
    pub open spec fn wf(&self) -> bool {
        &&& self.phys.wf()
        &&& self.virt.wf()
        &&& virt_pages_wf(&self.virt)
        &&& self.allowed.wf()
        &&& self.scheduler.current_stack.0@.len() == STACK_WORDS
        &&& self.scheduler.clean_stack.0@.len() == STACK_WORDS
    }

    /// The boot sequence: seed the memory allocators from the firmware
    /// memory map, install the empty registry, and queue the initial
    /// continuation.  The caller (the boot driver) then registers interrupt
    /// handlers, enables interrupts and enters the dispatch loop.
    pub fn init(memory_map: &Vec<(u64, u64, bool)>, first: Continuation) -> (k: Kernel)
        ensures
            k.wf(),
            k.ticks == 0,
            k.kbd@ == Seq::<u8>::empty(),
            k.registry@ == Map::<u128, Capability>::empty(),
            k.scheduler.pending@ == seq![(EventKind::Now, first)],
            k.allowed@ == Map::<u64, (u64, u64)>::empty(),
            k.page_tables@ == Map::<u64, (u64, u64)>::empty(),
            // The physical allocator owns usable frames beyond the
            // kernel-reserved region, and all of them.
            forall|f: u64|
                #[trigger] k.phys.avail().contains(f) ==> usable_frame(memory_map@, f) && f
                    >= KERNEL_RESERVED_FRAMES,
            forall|f: u64|
                f > KERNEL_RESERVED_FRAMES && #[trigger] usable_frame(memory_map@, f)
                    ==> k.phys.avail().contains(f),
            // The virtual allocator owns the pages above the kernel heap in
            // the lower half of the address space.
            k.virt.avail() == Set::new(
                |p: u64| VIRT_AVAIL_FIRST_PAGE <= p <= VIRT_AVAIL_LAST_PAGE,
            ),
    {
        let e820 = E820Info::read(memory_map);
        let (phys, virt, allowed, page_tables) = crate::memory::paging::init(&e820);
        proof {
            let regions = e820.regions@;
            assert forall|f: u64| #[trigger]
                phys.avail().contains(f) implies usable_frame(memory_map@, f) && f
                >= KERNEL_RESERVED_FRAMES by {
                let i = choose|i: int|
                    0 <= i < regions.len() && (#[trigger] regions[i]).1 > KERNEL_RESERVED_FRAMES
                        && regions[i].0 <= f <= regions[i].1 && KERNEL_RESERVED_FRAMES <= f;
                assert(in_ranges(regions, f));
            }
            assert forall|f: u64|
                f > KERNEL_RESERVED_FRAMES && #[trigger] usable_frame(
                    memory_map@,
                    f,
                ) implies phys.avail().contains(f) by {
                assert(in_ranges(regions, f));
                let i = choose|i: int|
                    0 <= i < regions.len() && (#[trigger] regions[i]).0 <= f <= regions[i].1;
                assert(regions[i].1 >= f > KERNEL_RESERVED_FRAMES);
                assert(seeded_frame(regions, f));
            }
        }
        Kernel {
            ticks: 0,
            kbd: crate::io::kbd::init(),
            registry: crate::cap::init(),
            scheduler: crate::sched::init(first),
            phys,
            virt,
            allowed,
            page_tables,
        }
    }

    /// The clock's current reading.
    pub fn now(&self) -> (t: SysTime)
        ensures
            t@ == self.ticks,
    {
        SysTime::now(self.ticks)
    }
}

} // verus!
