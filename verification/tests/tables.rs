//! Descriptor-table bit layouts and the user-mode transition.

use kernel::continuation::{Continuation, Routine};
use kernel::interrupts::idt::{add_interrupt_handler, add_trap_handler, IDTDescr};
use kernel::interrupts::tss::{TSSDescriptor, TSS, TSS_ENTRIES};
use kernel::memory::paging::{
    VirtualMemoryRegion, NO_EXECUTE, PAGE_SIZE, PRESENT, USER_ACCESSIBLE, WRITABLE,
};
use kernel::sched::user::{
    allocate_user_stack, load_user_code_section, start_user_task, switch_to_user, KElfLoader,
    RFLAGS_INTERRUPT_FLAG,
};
use kernel::Kernel;

fn boot_kernel() -> Kernel {
    let memory_map = vec![(0u64, 0x3000u64, true)];
    Kernel::init(&memory_map, Continuation::new(Routine::Finish))
}

#[test]
fn idt_descriptor_packs_offset_and_attributes() {
    let mut d = IDTDescr::new();
    assert_eq!((d.offset_1, d.offset_2, d.selector, d.type_attr, d.zero), (0, 0, 0, 0, 0));
    d.set_offset(0xDEAD_BEEF);
    assert_eq!(d.offset_1, 0xBEEF);
    assert_eq!(d.offset_2, 0xDEAD);
    d.set_selector(0x28);
    assert_eq!(d.selector, 0x28);
    d.set_type_attr(true, 3, false, 0xE);
    // present=1, dpl=3, storage=0, gate=0xE: 0b1110_1110.
    assert_eq!(d.type_attr, 0xEE);
}

#[test]
fn interrupt_and_trap_handlers_land_in_their_slots() {
    let mut idt = vec![IDTDescr::new(); 256];
    add_interrupt_handler(&mut idt, 32, 0x1234_5678, 0x08);
    assert_eq!(idt[32].offset_1, 0x5678);
    assert_eq!(idt[32].offset_2, 0x1234);
    assert_eq!(idt[32].selector, 0x08);
    // present, dpl 0, interrupt gate.
    assert_eq!(idt[32].type_attr, 0x8E);

    add_trap_handler(&mut idt, 3, 0x9ABC_DEF0, 0x08, 3);
    assert_eq!(idt[3].offset_1, 0xDEF0);
    assert_eq!(idt[3].offset_2, 0x9ABC);
    // present, dpl 3, trap gate.
    assert_eq!(idt[3].type_attr, 0xEF);

    // Other slots are untouched.
    assert_eq!(idt[0], IDTDescr::new());
}

#[test]
fn tss_descriptor_packs_base_and_limit() {
    let mut d = TSSDescriptor { f0: 0, f1: 0, f2: 0, f3: 0 };
    d.set(0);
    assert_eq!(d.f0, 100);
    // accessed | executable | 64-bit | present.
    assert_eq!(d.f1, (1 << 8) | (1 << 11) | (1 << 21) | (1 << 15));
    assert_eq!(d.f2, 0);
    assert_eq!(d.f3, 0);

    d.set(0x1234_5678_9ABC_DEF0);
    assert_eq!(d.f0, 0xDEF0_0064);
    assert_eq!(d.f1, 0x9A00_00BC | (1 << 8) | (1 << 11) | (1 << 21) | (1 << 15));
    assert_eq!(d.f2, 0x1234_5678);
}

#[test]
fn tss_records_rsp0_in_halves() {
    let mut tss = TSS::new();
    assert_eq!(tss.entries.len(), TSS_ENTRIES);
    tss.rsp0(0x1234_5678_9ABC_DEF0);
    assert_eq!(tss.entries[1], 0x9ABC_DEF0);
    assert_eq!(tss.entries[2], 0x1234_5678);
    assert_eq!(tss.entries[0], 0);
}

#[test]
fn user_task_snapshot_is_zeroed_except_entry_state() {
    let regs = start_user_task(0x40_0000, 0x50_0000, 0x2);
    assert_eq!(regs.rip, 0x40_0000);
    assert_eq!(regs.rsp, 0x50_0000);
    assert_eq!(regs.rflags, 0x2 | RFLAGS_INTERRUPT_FLAG);
    assert_eq!(
        (regs.rax, regs.rbx, regs.rcx, regs.rdx, regs.rdi, regs.rsi, regs.rbp),
        (0, 0, 0, 0, 0, 0, 0)
    );
    assert_eq!(
        (regs.r8, regs.r9, regs.r10, regs.r11, regs.r12, regs.r13, regs.r14, regs.r15),
        (0, 0, 0, 0, 0, 0, 0, 0)
    );
}

#[test]
fn user_stack_is_guarded_mapped_no_execute() {
    let mut k = boot_kernel();
    let stack = allocate_user_stack(&mut k.virt, &mut k.registry, &mut k.allowed)
        .expect("address space available");
    let (start, len) = match stack.with(&k.registry) {
        kernel::cap::Capability::VirtualMemoryRegion(r) => (r.start(), r.len()),
        kernel::cap::Capability::CapabilityGroup(_) => panic!("expected a memory region"),
    };
    assert_eq!(len, PAGE_SIZE);
    // The stack demand-pages with the stack flags.
    let (_, _, flags) =
        kernel::memory::paging::handle_page_fault(&k.allowed, &mut k.phys, &mut k.page_tables, start)
            .expect("stack fault");
    assert_eq!(flags, PRESENT | WRITABLE | USER_ACCESSIBLE | NO_EXECUTE);
}

#[test]
fn switch_to_user_enters_at_stack_top() {
    let mut k = boot_kernel();
    let code = load_user_code_section(2, &mut k.virt, &mut k.registry, &mut k.allowed)
        .expect("address space available");
    let stack = allocate_user_stack(&mut k.virt, &mut k.registry, &mut k.allowed)
        .expect("address space available");
    let (stack_start, stack_len) = match stack.with(&k.registry) {
        kernel::cap::Capability::VirtualMemoryRegion(r) => (r.start(), r.len()),
        kernel::cap::Capability::CapabilityGroup(_) => panic!("expected a memory region"),
    };
    let entry = 0x9999_0000;
    let regs = switch_to_user((code, entry), stack, 0, &k.registry);
    assert_eq!(regs.rip, entry);
    assert_eq!(regs.rsp, stack_start + stack_len);
    assert_eq!(regs.rflags, RFLAGS_INTERRUPT_FLAG);
}

#[test]
fn syscall_zero_completes_the_task() {
    let regs = start_user_task(0x40_0000, 0x50_0000, 0);
    // rax is zeroed in a fresh task: identifier 0, task completed.
    assert!(kernel::sched::user::handle_syscall(&regs).is_none());
    let mut busy = regs;
    busy.rax = 7;
    // An unknown identifier resumes the caller unchanged.
    assert_eq!(kernel::sched::user::handle_syscall(&busy), Some(busy));
}

#[test]
fn elf_loader_places_segments() {
    let mut k = boot_kernel();
    let mut loader = KElfLoader::new();
    // One loadable segment of a page and a half at binary address 0x1000.
    loader
        .allocate(0x1000, 0x1800, &mut k.virt, &mut k.registry, &mut k.allowed)
        .expect("address space available");
    assert_eq!(loader.user_code_sections.len(), 1);
    let (vaddr, handle) = loader.user_code_sections[0];
    assert_eq!(vaddr, 0x1000);
    let (start, len) = match handle.with(&k.registry) {
        kernel::cap::Capability::VirtualMemoryRegion(r) => (r.start(), r.len()),
        kernel::cap::Capability::CapabilityGroup(_) => panic!("expected a memory region"),
    };
    // A page and a half rounds up to two pages.
    assert_eq!(len, 2 * PAGE_SIZE);

    // An address inside the segment's first page resolves to the loaded
    // section, at the same offset.
    let loaded = loader.compute_loaded_address(0x1ABC, &k.registry);
    assert_eq!(loaded, start + 0xABC);
}

#[test]
fn code_section_pages_round_up() {
    let mut k = boot_kernel();
    let code = load_user_code_section(3, &mut k.virt, &mut k.registry, &mut k.allowed)
        .expect("address space available");
    match code.with(&k.registry) {
        kernel::cap::Capability::VirtualMemoryRegion(r) => {
            assert_eq!(r.len(), 3 * PAGE_SIZE);
            assert_eq!(r.start() % PAGE_SIZE, 0);
        }
        kernel::cap::Capability::CapabilityGroup(_) => panic!("expected a memory region"),
    }
    let _ = VirtualMemoryRegion::new(PAGE_SIZE, PAGE_SIZE);
}
