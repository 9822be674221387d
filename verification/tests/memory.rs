//! Virtual memory, demand paging and the memory map.

use kernel::cap::Capability;
use kernel::continuation::{Continuation, Routine};
use kernel::memory::e820::E820Info;
use kernel::memory::paging::{
    handle_page_fault, map_region, BuddyAllocator, PageFaultError, VirtualMemoryRegion, PAGE_SIZE,
    PRESENT, USER_ACCESSIBLE, WRITABLE,
};
use kernel::Kernel;

fn boot_kernel() -> Kernel {
    // Usable frames 0..0x3000; those beyond the kernel-reserved boundary
    // (0x2400) feed the physical allocator.
    let memory_map = vec![(0u64, 0x3000u64, true)];
    Kernel::init(&memory_map, Continuation::new(Routine::Finish))
}

#[test]
fn allocator_hands_out_disjoint_blocks() {
    let mut a = BuddyAllocator::new();
    assert_eq!(a.allocate(1), None);
    a.extend(10, 19);
    let first = a.allocate(4).expect("a block fits");
    let second = a.allocate(4).expect("a second block fits");
    // Blocks of free units never overlap.
    assert!(first + 4 <= second || second + 4 <= first);
    // Only two units remain: no third block of four can fit.
    assert_eq!(a.allocate(4), None);
    assert!(a.allocate(2).is_some());
}

#[test]
fn allocator_free_returns_units() {
    let mut a = BuddyAllocator::new();
    a.extend(10, 19);
    let block = a.allocate(10).expect("the whole range fits");
    assert_eq!(block, 10);
    assert_eq!(a.allocate(1), None);
    a.free(block, 4);
    assert_eq!(a.allocate(4), Some(block));
}

#[test]
fn free_coalesces_with_both_neighbours() {
    let mut a = BuddyAllocator::new();
    a.extend(10, 19);
    let first = a.allocate(4).expect("a block fits");
    let second = a.allocate(6).expect("the rest fits");
    assert_eq!(a.allocate(1), None);
    // Returning both blocks re-unites the whole range: a full-size block
    // can be drawn again.
    a.free(first, 4);
    a.free(second, 6);
    assert_eq!(a.allocate(10), Some(10));
}

#[test]
fn allocate_fails_only_when_no_run_fits() {
    let mut a = BuddyAllocator::new();
    a.extend(10, 12);
    a.extend(20, 22);
    // Six units are free, but no four of them are contiguous.
    assert_eq!(a.allocate(4), None);
    // Three contiguous units exist, so a request for three is served.
    assert!(a.allocate(3).is_some());
    assert!(a.allocate(3).is_some());
    assert_eq!(a.allocate(1), None);
}

#[test]
fn e820_overlap_is_conservative() {
    // Frames 5..10 are claimed usable by one range and unusable by another:
    // only 0..5 survive.
    let raw = vec![(0u64, 10u64, true), (5u64, 15u64, false)];
    let info = E820Info::read(&raw);
    assert_eq!(info.regions, vec![(0, 4)]);
}

#[test]
fn e820_splits_at_endpoints() {
    let raw = vec![(0u64, 10u64, true), (5u64, 15u64, true)];
    let info = E820Info::read(&raw);
    // Pieces split at every endpoint, all usable.
    assert_eq!(info.regions, vec![(0, 4), (5, 9), (10, 14)]);
}

#[test]
fn e820_empty_map() {
    let info = E820Info::read(&Vec::new());
    assert_eq!(info.regions.len(), 0);
    assert_eq!(info.num_phys_pages(), 0);
}

#[test]
fn num_phys_pages_sums_extents() {
    let raw = vec![(0u64, 10u64, true), (20u64, 30u64, true)];
    let info = E820Info::read(&raw);
    assert_eq!(info.regions, vec![(0, 9), (20, 29)]);
    // The estimate sums each region's end minus start.
    assert_eq!(info.num_phys_pages(), 9 + 9);
}

#[test]
fn alloc_with_guard_reports_requested_span() {
    let mut k = boot_kernel();
    let unregistered =
        VirtualMemoryRegion::alloc_with_guard(&mut k.virt, 1).expect("address space available");
    let region = unregistered.as_ref();
    // The region's length is exactly the requested pages; it is page-aligned
    // and does not start at the first allocated page — that one is a guard.
    assert_eq!(region.len(), PAGE_SIZE);
    assert_eq!(region.start() % PAGE_SIZE, 0);
    assert!(region.start() > PAGE_SIZE);
}

#[test]
fn guard_pages_are_allocated_but_unreported() {
    let mut k = boot_kernel();
    let first =
        VirtualMemoryRegion::alloc_with_guard(&mut k.virt, 1).expect("address space available");
    let second =
        VirtualMemoryRegion::alloc_with_guard(&mut k.virt, 1).expect("address space available");
    let (s1, l1) = (first.as_ref().start(), first.as_ref().len());
    let (s2, l2) = (second.as_ref().start(), second.as_ref().len());
    // The spans with their bracketing guard pages never overlap: the byte
    // before each start and the byte at each end belong to owned guards.
    let lo1 = s1 - PAGE_SIZE;
    let hi1 = s1 + l1 + PAGE_SIZE;
    let lo2 = s2 - PAGE_SIZE;
    let hi2 = s2 + l2 + PAGE_SIZE;
    assert!(hi1 <= lo2 || hi2 <= lo1);
}

#[test]
fn fault_in_mapped_region_commits_one_frame() {
    let mut k = boot_kernel();
    let unregistered =
        VirtualMemoryRegion::alloc_with_guard(&mut k.virt, 1).expect("address space available");
    let start = unregistered.as_ref().start();
    let handle = unregistered.register(&mut k.registry);
    let flags = PRESENT | WRITABLE | USER_ACCESSIBLE;
    map_region(handle, flags, &k.registry, &mut k.allowed);

    // A fault at the region's start succeeds: one frame committed, the
    // mapping installed with exactly the recorded flags.
    let (page, _frame, got_flags) =
        handle_page_fault(&k.allowed, &mut k.phys, &mut k.page_tables, start)
            .expect("fault inside the mapped region");
    assert_eq!(page, start / PAGE_SIZE);
    assert_eq!(got_flags, flags);

    // A fault one page below the start lands in the guard page: fatal.
    let guard_addr = start - PAGE_SIZE;
    assert_eq!(
        handle_page_fault(&k.allowed, &mut k.phys, &mut k.page_tables, guard_addr),
        Err(PageFaultError::NotAllowed)
    );
}

#[test]
fn two_faults_consume_two_distinct_frames() {
    let mut k = boot_kernel();
    let unregistered =
        VirtualMemoryRegion::alloc_with_guard(&mut k.virt, 2).expect("address space available");
    let start = unregistered.as_ref().start();
    let handle = unregistered.register(&mut k.registry);
    map_region(handle, PRESENT | WRITABLE, &k.registry, &mut k.allowed);

    let (page1, frame1, _) =
        handle_page_fault(&k.allowed, &mut k.phys, &mut k.page_tables, start)
            .expect("first fault");
    let (page2, frame2, _) =
        handle_page_fault(&k.allowed, &mut k.phys, &mut k.page_tables, start + PAGE_SIZE)
            .expect("second fault");
    // Two different addresses: two different pages, two different frames.
    assert_ne!(page1, page2);
    assert_ne!(frame1, frame2);
}

#[test]
fn fault_outside_any_range_is_fatal() {
    let mut k = boot_kernel();
    assert_eq!(
        handle_page_fault(&k.allowed, &mut k.phys, &mut k.page_tables, 0x7000_0000),
        Err(PageFaultError::NotAllowed)
    );
}

#[test]
fn fault_without_free_frames_is_fatal() {
    // A memory map wholly inside the kernel-reserved frames leaves the
    // physical allocator empty.
    let memory_map = vec![(0u64, 0x100u64, true)];
    let mut k = Kernel::init(&memory_map, Continuation::new(Routine::Finish));
    let unregistered =
        VirtualMemoryRegion::alloc_with_guard(&mut k.virt, 1).expect("address space available");
    let start = unregistered.as_ref().start();
    let handle = unregistered.register(&mut k.registry);
    map_region(handle, PRESENT | WRITABLE, &k.registry, &mut k.allowed);
    assert_eq!(
        handle_page_fault(&k.allowed, &mut k.phys, &mut k.page_tables, start),
        Err(PageFaultError::OutOfFrames)
    );
}

#[test]
fn map_region_records_the_region_span() {
    let mut k = boot_kernel();
    let unregistered =
        VirtualMemoryRegion::alloc_with_guard(&mut k.virt, 3).expect("address space available");
    let start = unregistered.as_ref().start();
    let len = unregistered.as_ref().len();
    let handle = unregistered.register(&mut k.registry);
    map_region(handle, PRESENT | WRITABLE, &k.registry, &mut k.allowed);

    // Every page of the region demand-pages; the bytes just outside do not.
    assert!(handle_page_fault(&k.allowed, &mut k.phys, &mut k.page_tables, start).is_ok());
    assert!(
        handle_page_fault(&k.allowed, &mut k.phys, &mut k.page_tables, start + len - 1).is_ok()
    );
    assert_eq!(
        handle_page_fault(&k.allowed, &mut k.phys, &mut k.page_tables, start + len),
        Err(PageFaultError::NotAllowed)
    );
}

#[test]
fn region_accessors_and_guard() {
    let mut region = VirtualMemoryRegion::new(3 * PAGE_SIZE, 3 * PAGE_SIZE);
    assert_eq!(region.start(), 3 * PAGE_SIZE);
    assert_eq!(region.len(), 3 * PAGE_SIZE);
    region.guard();
    assert_eq!(region.start(), 4 * PAGE_SIZE);
    assert_eq!(region.len(), PAGE_SIZE);
}

#[test]
fn valloc_registers_a_region() {
    let mut k = boot_kernel();
    let handle = kernel::memory::valloc(2, &mut k.virt, &mut k.registry)
        .expect("address space available");
    match handle.with(&k.registry) {
        Capability::VirtualMemoryRegion(r) => {
            assert_eq!(r.len(), 2 * PAGE_SIZE);
            assert_eq!(r.start() % PAGE_SIZE, 0);
        }
        Capability::CapabilityGroup(_) => panic!("expected a memory region"),
    }
}

#[test]
fn boot_seeds_the_allocators() {
    let mut k = boot_kernel();
    // The first virtual allocation starts right above the kernel heap.
    let unregistered =
        VirtualMemoryRegion::allocate(&mut k.virt, 1).expect("address space available");
    assert_eq!(unregistered.as_ref().start(), 0x240_0000);
    // The physical allocator never hands out kernel-reserved frames.
    let frame = k.phys.allocate(1).expect("frames available");
    assert!(frame >= 0x2400);
    // The registry starts empty: a fresh capability is its first entry.
    let handle = unregistered.register(&mut k.registry);
    match handle.with(&k.registry) {
        Capability::VirtualMemoryRegion(r) => assert_eq!(r.start(), 0x240_0000),
        Capability::CapabilityGroup(_) => panic!("expected a memory region"),
    }
}
