//! System calls and kernel <-> user mode switching.
//!
//! A runnable user task is composed from capability-backed memory: a code
//! region and a stack region are allocated with guard pages, recorded as
//! allowed ranges with the right protection flags, and the transfer of
//! control loads a register snapshot zeroed except for the entry point, the
//! stack top and the flags.  Issuing the actual `sysret`, and copying the
//! program bytes into the mapped region, are the driver's job.

use vstd::prelude::*;

use crate::cap::{CapRegistry, Capability, ResourceHandle};
use crate::memory::paging::{
    exhausted, virt_pages_wf, AllowedRanges, BuddyAllocator, VirtualMemoryRegion, NO_EXECUTE,
    PAGE_SIZE, PRESENT, USER_ACCESSIBLE, VIRT_ADDR_LIMIT, WRITABLE,
};

verus! {

/// The size of a user stack, in pages.
pub const USER_STACK_SIZE: u64 = 1;

/// The rflags bit that keeps interrupts enabled in user mode.
pub const RFLAGS_INTERRUPT_FLAG: u64 = 1 << 9;

/// The first virtual address available to loaded user binaries: the byte
/// just past the kernel heap.
pub const AVAILABLE_VADDR_START: u64 = 0x240_0000;

/// The register snapshot loaded into the hardware registers immediately
/// before the switch to ring 3, so no stale kernel register state leaks to
/// user space.
#[derive(Copy, Clone, PartialEq, Eq, Structural, Debug)]
pub struct SavedRegs {
    pub rax: u64,
    pub rbx: u64,
    pub rcx: u64,
    pub rdx: u64,
    pub rdi: u64,
    pub rsi: u64,
    pub rbp: u64,
    pub r8: u64,
    pub r9: u64,
    pub r10: u64,
    pub r11: u64,
    pub r12: u64,
    pub r13: u64,
    pub r14: u64,
    pub r15: u64,
    pub rflags: u64,
    pub rip: u64,
    pub rsp: u64,
}

/// The snapshot a fresh user task starts from: every general-purpose
/// register zeroed, only the entry point, stack pointer and flags set.
pub open spec fn initial_user_regs(rip: u64, rsp: u64, rflags: u64) -> SavedRegs {
    SavedRegs {
        rax: 0,
        rbx: 0,
        rcx: 0,
        rdx: 0,
        rdi: 0,
        rsi: 0,
        rbp: 0,
        r8: 0,
        r9: 0,
        r10: 0,
        r11: 0,
        r12: 0,
        r13: 0,
        r14: 0,
        r15: 0,
        rflags,
        rip,
        rsp,
    }
}

/// Build the snapshot for starting a user task at `start_rip` with its stack
/// at `start_rsp`: all registers zeroed except those explicitly set, and
/// interrupts enabled for user mode.  The driver loads the snapshot and
/// issues the return-to-user instruction sequence.
pub fn start_user_task(start_rip: u64, start_rsp: u64, rflags: u64) -> (r: SavedRegs)
    ensures
        r == initial_user_regs(start_rip, start_rsp, rflags | RFLAGS_INTERRUPT_FLAG),
{
    SavedRegs {
        rax: 0,
        rbx: 0,
        rcx: 0,
        rdx: 0,
        rdi: 0,
        rsi: 0,
        rbp: 0,
        r8: 0,
        r9: 0,
        r10: 0,
        r11: 0,
        r12: 0,
        r13: 0,
        r14: 0,
        r15: 0,
        rflags: rflags | RFLAGS_INTERRUPT_FLAG,
        rip: start_rip,
        rsp: start_rsp,
    }
}

/// Switch to user mode, executing the given code region from its entry
/// point, with the given region as the stack.  The stack is entered at its
/// top, since it grows downward.  What is returned is the snapshot the
/// driver's mode switch must load; the switch itself never returns.
pub fn switch_to_user(
    code: (ResourceHandle<VirtualMemoryRegion>, u64),
    stack: ResourceHandle<VirtualMemoryRegion>,
    rflags: u64,
    registry: &CapRegistry,
) -> (r: SavedRegs)
    requires
        registry@.contains_key(stack.spec_key()),
        registry@[stack.spec_key()] matches Capability::VirtualMemoryRegion(s) && s.wf(),
    ensures
        forall|s: VirtualMemoryRegion|
            registry@[stack.spec_key()] == Capability::VirtualMemoryRegion(s) ==> r
                == initial_user_regs(
                code.1,
                (s.spec_start() + s.spec_len()) as u64,
                rflags | RFLAGS_INTERRUPT_FLAG,
            ),
{
    let (entry_rip, stack_top) = {
        let stack_region = match stack.with(registry) {
            Capability::VirtualMemoryRegion(s) => s,
            Capability::CapabilityGroup(_) => vstd::pervasive::unreached(),
        };
        (code.1, stack_region.start() + stack_region.len())
    };
    start_user_task(entry_rip, stack_top, rflags)
}

/// Allocate virtual address space for the user stack (fixed size, bracketed
/// by guard pages) and mark it usable read/write from user mode, not
/// executable.  Physical memory arrives by demand paging.  `None` comes
/// back only when the stack's pages plus its two guards cannot be supplied
/// contiguously — out of virtual memory, which the kernel treats as fatal.
pub fn allocate_user_stack(
    vmem: &mut BuddyAllocator,
    registry: &mut CapRegistry,
    allowed: &mut AllowedRanges,
) -> (r: Option<ResourceHandle<VirtualMemoryRegion>>)
    requires
        old(vmem).wf(),
        virt_pages_wf(old(vmem)),
        old(allowed).wf(),
    ensures
        final(vmem).wf(),
        virt_pages_wf(final(vmem)),
        final(allowed).wf(),
        match r {
            Option::Some(h) => {
                &&& !old(registry)@.contains_key(h.spec_key())
                &&& exists|region: VirtualMemoryRegion|
                    {
                        &&& #[trigger] region.wf()
                        &&& region.spec_len() == USER_STACK_SIZE * PAGE_SIZE
                        &&& final(registry)@ == old(registry)@.insert(
                            h.spec_key(),
                            Capability::VirtualMemoryRegion(region),
                        )
                        &&& final(allowed)@ == old(allowed)@.insert(
                            region.spec_start(),
                            (region.spec_len(), PRESENT | WRITABLE | USER_ACCESSIBLE | NO_EXECUTE),
                        )
                    }
            },
            Option::None => {
                &&& *final(vmem) == *old(vmem)
                &&& final(registry)@ == old(registry)@
                &&& final(allowed)@ == old(allowed)@
                &&& exhausted(old(vmem).avail(), (USER_STACK_SIZE + 2) as u64)
            },
        },
{
    // Allocate the stack the user will run on.
    match VirtualMemoryRegion::alloc_with_guard(vmem, USER_STACK_SIZE) {
        Option::Some(unregistered) => {
            let ghost region = unregistered.resource;
            let user_stack = unregistered.register(registry);
            // Map the stack into the address space.
            crate::memory::paging::map_region(
                user_stack,
                PRESENT | WRITABLE | USER_ACCESSIBLE | NO_EXECUTE,
                registry,
                allowed,
            );
            proof {
                assert(region.wf());
            }
            Option::Some(user_stack)
        },
        Option::None => Option::None,
    }
}

/// Allocate virtual address space for a user code section of `npages` pages
/// (bracketed by guard pages) and mark it usable from user mode, writable so
/// the loader can copy the program bytes in through the handle.  The byte
/// copy itself is the driver's job.  `None` comes back only when the pages
/// plus their two guards cannot be supplied contiguously.
pub fn load_user_code_section(
    npages: u64,
    vmem: &mut BuddyAllocator,
    registry: &mut CapRegistry,
    allowed: &mut AllowedRanges,
) -> (r: Option<ResourceHandle<VirtualMemoryRegion>>)
    requires
        old(vmem).wf(),
        virt_pages_wf(old(vmem)),
        old(allowed).wf(),
        1 <= npages <= u64::MAX - 2,
    ensures
        final(vmem).wf(),
        virt_pages_wf(final(vmem)),
        final(allowed).wf(),
        match r {
            Option::Some(h) => {
                &&& !old(registry)@.contains_key(h.spec_key())
                &&& exists|region: VirtualMemoryRegion|
                    {
                        &&& #[trigger] region.wf()
                        &&& region.spec_len() == npages * PAGE_SIZE
                        &&& final(registry)@ == old(registry)@.insert(
                            h.spec_key(),
                            Capability::VirtualMemoryRegion(region),
                        )
                        &&& final(allowed)@ == old(allowed)@.insert(
                            region.spec_start(),
                            (region.spec_len(), PRESENT | WRITABLE | USER_ACCESSIBLE),
                        )
                    }
            },
            Option::None => {
                &&& *final(vmem) == *old(vmem)
                &&& final(registry)@ == old(registry)@
                &&& final(allowed)@ == old(allowed)@
                &&& exhausted(old(vmem).avail(), (npages + 2) as u64)
            },
        },
{
    match VirtualMemoryRegion::alloc_with_guard(vmem, npages) {
        Option::Some(unregistered) => {
            let ghost region = unregistered.resource;
            let user_code_section = unregistered.register(registry);
            // Map the code section.
            crate::memory::paging::map_region(
                user_code_section,
                PRESENT | WRITABLE | USER_ACCESSIBLE,
                registry,
                allowed,
            );
            proof {
                assert(region.wf());
            }
            Option::Some(user_code_section)
        },
        Option::None => Option::None,
    }
}

/// An ELF loader that loads binaries for execution in userspace: it keeps,
/// for each loadable segment's virtual address in the binary, the handle of
/// the code section allocated for it.  Walking the binary's headers is the
/// driver's job; it feeds each header here.
pub struct KElfLoader {
    /// Base virtual address for the binary.  All addresses in the binary are
    /// offset by this address.
    pub vbase: u64,
    /// Code sections allocated so far: the segment's virtual address in the
    /// binary, and the handle of the region allocated for it.
    pub user_code_sections: Vec<(u64, ResourceHandle<VirtualMemoryRegion>)>,
}

/// Whether `base` can answer for `address`: it lies between the address
/// rounded down to its page and the address itself.
pub open spec fn in_window(address: u64, base: u64) -> bool {
    (address >> 12) << 12 <= base <= address
}

impl KElfLoader {
    pub fn new() -> (r: Self)
        ensures
            r.vbase == AVAILABLE_VADDR_START,
            r.user_code_sections@ =~= Seq::<(u64, ResourceHandle<VirtualMemoryRegion>)>::empty(),
    {
        KElfLoader { vbase: AVAILABLE_VADDR_START, user_code_sections: Vec::new() }
    }

    /// Allocate a code section for one loadable segment: as many pages as
    /// its memory size spans, guarded, registered, and marked usable from
    /// user mode.  `None` comes back only when those pages plus their two
    /// guards cannot be supplied contiguously.
    pub fn allocate(
        &mut self,
        virtual_addr: u64,
        mem_size: u64,
        vmem: &mut BuddyAllocator,
        registry: &mut CapRegistry,
        allowed: &mut AllowedRanges,
    ) -> (r: Option<()>)
        requires
            old(vmem).wf(),
            virt_pages_wf(old(vmem)),
            old(allowed).wf(),
            1 <= mem_size,
        ensures
            final(vmem).wf(),
            virt_pages_wf(final(vmem)),
            final(allowed).wf(),
            final(self).vbase == old(self).vbase,
            match r {
                Option::Some(()) => exists|h: ResourceHandle<VirtualMemoryRegion>|
                    {
                        &&& final(self).user_code_sections@ == old(
                            self,
                        ).user_code_sections@.push((virtual_addr, h))
                        &&& !old(registry)@.contains_key(#[trigger] h.spec_key())
                        &&& exists|region: VirtualMemoryRegion|
                            {
                                &&& #[trigger] region.wf()
                                &&& region.spec_len() == ((mem_size + PAGE_SIZE - 1) as int / (
                                PAGE_SIZE as int)) * PAGE_SIZE
                                &&& final(registry)@ == old(registry)@.insert(
                                    h.spec_key(),
                                    Capability::VirtualMemoryRegion(region),
                                )
                                &&& final(allowed)@ == old(allowed)@.insert(
                                    region.spec_start(),
                                    (region.spec_len(), PRESENT | WRITABLE | USER_ACCESSIBLE),
                                )
                            }
                    },
                Option::None => {
                    &&& *final(vmem) == *old(vmem)
                    &&& final(registry)@ == old(registry)@
                    &&& final(allowed)@ == old(allowed)@
                    &&& *final(self) == *old(self)
                    &&& exhausted(
                        old(vmem).avail(),
                        ((mem_size + PAGE_SIZE - 1) as int / (PAGE_SIZE as int) + 2) as u64,
                    )
                },
            },
    {
        let pages = if mem_size % PAGE_SIZE == 0 {
            mem_size / PAGE_SIZE
        } else {
            mem_size / PAGE_SIZE + 1
        };
        proof {
            assert(pages as int == (mem_size + PAGE_SIZE - 1) as int / (PAGE_SIZE as int))
                by (nonlinear_arith)
                requires
                    PAGE_SIZE == 4096,
                    mem_size >= 1,
                    pages as int == if mem_size % PAGE_SIZE == 0 {
                        mem_size as int / (PAGE_SIZE as int)
                    } else {
                        mem_size as int / (PAGE_SIZE as int) + 1
                    },
            ;
        }
        match load_user_code_section(pages, vmem, registry, allowed) {
            Option::Some(user_code_section) => {
                self.user_code_sections.push((virtual_addr, user_code_section));
                Option::Some(())
            },
            Option::None => Option::None,
        }
    }

    /// Get the address at which `address` (an address inside the binary) has
    /// been loaded: the lowest recorded segment address on `address`'s page
    /// answers, offset into its allocated region.
    pub fn compute_loaded_address(&self, address: u64, registry: &CapRegistry) -> (r: u64)
        requires
            exists|j: int|
                0 <= j < self.user_code_sections@.len() && in_window(
                    address,
                    (#[trigger] self.user_code_sections@[j]).0,
                ),
            forall|j: int|
                0 <= j < self.user_code_sections@.len() ==> {
                    let h = (#[trigger] self.user_code_sections@[j]).1;
                    &&& registry@.contains_key(h.spec_key())
                    &&& registry@[h.spec_key()] matches Capability::VirtualMemoryRegion(reg)
                        && reg.wf()
                },
        ensures
            exists|j: int|
                {
                    let (base, h) = (#[trigger] self.user_code_sections@[j]);
                    &&& 0 <= j < self.user_code_sections@.len()
                    &&& in_window(address, base)
                    &&& forall|k: int|
                        0 <= k < self.user_code_sections@.len() && in_window(
                            address,
                            (#[trigger] self.user_code_sections@[k]).0,
                        ) ==> base <= self.user_code_sections@[k].0
                    &&& forall|reg: VirtualMemoryRegion|
                        registry@[h.spec_key()] == Capability::VirtualMemoryRegion(reg) ==> r
                            == reg.spec_start() + (address - base)
                },
    {
        let ghost sections = self.user_code_sections@;
        let n = self.user_code_sections.len();
        let window_start = (address >> 12) << 12;
        proof {
            assert(window_start <= address) by (bit_vector)
                requires
                    window_start == (address >> 12) << 12,
            ;
        }
        let mut best: Option<(u64, usize)> = Option::None;
        let mut i: usize = 0;
        while i < n
            invariant
                i <= n,
                n == sections.len(),
                sections == self.user_code_sections@,
                window_start == (address >> 12) << 12,
                match best {
                    Option::None => forall|j: int|
                        0 <= j < i ==> !in_window(address, (#[trigger] sections[j]).0),
                    Option::Some((base, at)) => {
                        &&& at < i
                        &&& sections[at as int].0 == base
                        &&& in_window(address, base)
                        &&& forall|j: int|
                            0 <= j < i && in_window(address, (#[trigger] sections[j]).0)
                                ==> base <= sections[j].0
                    },
                },
            decreases n - i,
        {
            let (base, _) = self.user_code_sections[i];
            if window_start <= base && base <= address {
                match best {
                    Option::None => {
                        best = Option::Some((base, i));
                    },
                    Option::Some((bbase, _)) => {
                        if base < bbase {
                            best = Option::Some((base, i));
                        }
                    },
                }
            }
            i = i + 1;
        }
        match best {
            Option::Some((base, at)) => {
                let (_, handle) = self.user_code_sections[at];
                let loaded_base = match handle.with(registry) {
                    Capability::VirtualMemoryRegion(reg) => reg.start(),
                    Capability::CapabilityGroup(_) => vstd::pervasive::unreached(),
                };
                proof {
                    let reg = registry@[sections[at as int].1.spec_key()]->VirtualMemoryRegion_0;
                    assert(reg.wf());
                    assert(address - ((address >> 12) << 12) < 4096) by (bit_vector);
                    assert(loaded_base < VIRT_ADDR_LIMIT);
                }
                loaded_base + (address - base)
            },
            Option::None => vstd::pervasive::unreached(),
        }
    }
}


/// Does the decision work of handling a system call, dispatched by the
/// numeric identifier the caller passed in `rax`.  Identifier 0 means the
/// task completed: the driver re-enters the scheduler and the task is never
/// resumed.  Any other identifier is unknown at this stage: the caller is
/// resumed with its register file unchanged.  Saving the user registers on
/// entry and reloading them on resume is the driver's job.
pub fn handle_syscall(saved_regs: &SavedRegs) -> (r: Option<SavedRegs>)
    ensures
        saved_regs.rax == 0 ==> r is None,
        saved_regs.rax != 0 ==> r == Option::Some(*saved_regs),
{
    match saved_regs.rax {
        0 => Option::None,
        _ => Option::Some(*saved_regs),
    }
}

} // verus!
