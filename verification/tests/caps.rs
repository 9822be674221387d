//! The capability registry.

use kernel::cap::{init, Capability, CapabilityGroup, UnregisteredResourceHandle};
use kernel::memory::paging::{VirtualMemoryRegion, PAGE_SIZE};

fn region(start_page: u64, npages: u64) -> VirtualMemoryRegion {
    VirtualMemoryRegion::new(start_page * PAGE_SIZE, npages * PAGE_SIZE)
}

#[test]
fn with_returns_the_registered_object() {
    let mut registry = init();
    let handle = UnregisteredResourceHandle::new(region(100, 2)).register(&mut registry);
    match handle.with(&registry) {
        Capability::VirtualMemoryRegion(r) => {
            assert_eq!(r.start(), 100 * PAGE_SIZE);
            assert_eq!(r.len(), 2 * PAGE_SIZE);
        }
        Capability::CapabilityGroup(_) => panic!("expected a memory region"),
    }
}

#[test]
fn registrations_never_displace_each_other() {
    // If two registrations ever agreed on a key, the second would overwrite
    // the first, and the first handle would resolve to the wrong object.
    let mut registry = init();
    let h1 = UnregisteredResourceHandle::new(region(10, 1)).register(&mut registry);
    let h2 = UnregisteredResourceHandle::new(region(20, 1)).register(&mut registry);
    let h3 = UnregisteredResourceHandle::new(region(30, 1)).register(&mut registry);
    for (h, start_page) in [(h1, 10), (h2, 20), (h3, 30)] {
        match h.with(&registry) {
            Capability::VirtualMemoryRegion(r) => assert_eq!(r.start(), start_page * PAGE_SIZE),
            Capability::CapabilityGroup(_) => panic!("expected a memory region"),
        }
    }
}

#[test]
fn handles_are_copyable() {
    let mut registry = init();
    let h = UnregisteredResourceHandle::new(region(7, 1)).register(&mut registry);
    let copy = h;
    let clone = h.clone();
    for handle in [h, copy, clone] {
        match handle.with(&registry) {
            Capability::VirtualMemoryRegion(r) => assert_eq!(r.start(), 7 * PAGE_SIZE),
            Capability::CapabilityGroup(_) => panic!("expected a memory region"),
        }
    }
}

#[test]
fn unregistered_resource_is_mutable_until_registered() {
    let mut unregistered = UnregisteredResourceHandle::new(region(50, 3));
    assert_eq!(unregistered.as_ref().len(), 3 * PAGE_SIZE);
    // Shrink it by its guard pages while it is still unregistered.
    unregistered.as_mut_ref().guard();
    assert_eq!(unregistered.as_ref().start(), 51 * PAGE_SIZE);
    assert_eq!(unregistered.as_ref().len(), PAGE_SIZE);

    let mut registry = init();
    let h = unregistered.register(&mut registry);
    match h.with(&registry) {
        Capability::VirtualMemoryRegion(r) => assert_eq!(r.start(), 51 * PAGE_SIZE),
        Capability::CapabilityGroup(_) => panic!("expected a memory region"),
    }
}

#[test]
fn groups_bundle_regions() {
    let mut registry = init();
    let group = CapabilityGroup::new(vec![region(10, 1), region(20, 2)]);
    let h = UnregisteredResourceHandle::new(group).register(&mut registry);
    match h.with(&registry) {
        Capability::CapabilityGroup(g) => {
            assert_eq!(g.caps.len(), 2);
            assert_eq!(g.caps[0].start(), 10 * PAGE_SIZE);
            assert_eq!(g.caps[1].len(), 2 * PAGE_SIZE);
        }
        Capability::VirtualMemoryRegion(_) => panic!("expected a group"),
    }
}
