//! All things related to virtual memory.
//!
//! Virtual memory is laid out as a single 48-bit address space: page 0 is
//! null, the kernel text and heap sit at the bottom, and everything above
//! the kernel heap up to the top of the lower half is handed out by the
//! virtual address allocator, in page numbers.  Physical memory is handed
//! out in frame numbers, seeded from the firmware memory map minus the
//! kernel-reserved frames.  Installing a page-table entry in the hardware is
//! a collaborator's job; the kernel records here which entries it decided to
//! install.

use vstd::prelude::*;

use std::collections::BTreeMap;

use crate::cap::{Capability, CapRegistry, ResourceHandle, UnregisteredResourceHandle};

verus! {

/// The size of a page (and of a physical frame), in bytes.
pub const PAGE_SIZE: u64 = 4096;

/// Address of the guard page of the kernel heap (the page before the first
/// page of the heap).
pub const KERNEL_HEAP_GUARD: u64 = 0x1FF_F000;

/// Address of the first page of the kernel heap.
pub const KERNEL_HEAP_START: u64 = 0x200_0000;

/// The size of the kernel heap (bytes).
pub const KERNEL_HEAP_SIZE: u64 = 0x40_0000;

/// The number of bits of virtual address space.
pub const ADDRESS_SPACE_WIDTH: u64 = 48;

/// The first page number the virtual address allocator may hand out: the
/// page just past the kernel heap.
pub const VIRT_AVAIL_FIRST_PAGE: u64 = 0x2400;

/// The last page number the virtual address allocator may hand out: the top
/// of the lower half of the 48-bit address space.  The higher half is
/// discarded; ~128TiB remain.
pub const VIRT_AVAIL_LAST_PAGE: u64 = 0x7_FFFF_FFFF;

/// Page-table entry flag: the mapping is present.
pub const PRESENT: u64 = 1;

/// Page-table entry flag: the page is writable.
pub const WRITABLE: u64 = 1 << 1;

/// Page-table entry flag: the page is accessible from ring 3.
pub const USER_ACCESSIBLE: u64 = 1 << 2;

/// Page-table entry flag: the page is not executable.
pub const NO_EXECUTE: u64 = 1 << 63;

/// One past the highest canonical lower-half address: what
/// `VIRT_AVAIL_LAST_PAGE` spans in bytes.
pub const VIRT_ADDR_LIMIT: u64 = 0x8000_0000_0000;

/// Capability on a memory region.
#[derive(Copy, Clone, PartialEq, Eq, Structural)]
pub struct VirtualMemoryRegion {
    /// The first virtual address of the memory region (bytes).
    addr: u64,
    /// The length of the memory region (bytes).
    len: u64,
}

impl VirtualMemoryRegion {
    /// The first virtual address of the region.
    pub closed spec fn spec_start(&self) -> u64 {
        self.addr
    }

    /// The length of the region, in bytes.
    pub closed spec fn spec_len(&self) -> u64 {
        self.len
    }

    /// An allocated region: page-aligned, non-null, non-empty, within the
    /// lower half of the address space.
    pub open spec fn wf(&self) -> bool {
        &&& self.spec_start() % PAGE_SIZE == 0
        &&& self.spec_len() % PAGE_SIZE == 0
        &&& self.spec_start() > 0
        &&& self.spec_len() > 0
        &&& self.spec_start() + self.spec_len() <= VIRT_ADDR_LIMIT
    }

    /// Create a capability for the given virtual address region.  It is the
    /// caller's job to make sure the region is valid before constructing the
    /// capability.
    pub fn new(addr: u64, len: u64) -> (r: Self)
        requires
            addr % PAGE_SIZE == 0,
            len % PAGE_SIZE == 0,
            addr > 0,
            len > 0,
            addr + len <= VIRT_ADDR_LIMIT,
        ensures
            r.spec_start() == addr,
            r.spec_len() == len,
            r.wf(),
    {
        VirtualMemoryRegion { addr, len }
    }

    /// The first virtual address of the memory region.
    ///
    /// It is the user's job to make sure that the correct mappings exist
    /// before accessing the address.
    pub fn start(&self) -> (r: u64)
        ensures
            r == self.spec_start(),
    {
        self.addr
    }

    /// The length of the region (in bytes).
    pub fn len(&self) -> (r: u64)
        ensures
            r == self.spec_len(),
    {
        self.len
    }

    /// Shrink the region by one page at the beginning and end, to account
    /// for guard pages.
    pub fn guard(&mut self)
        requires
            old(self).wf(),
            old(self).spec_len() >= 3 * PAGE_SIZE,
        ensures
            final(self).spec_start() == old(self).spec_start() + PAGE_SIZE,
            final(self).spec_len() == old(self).spec_len() - 2 * PAGE_SIZE,
            final(self).wf(),
    {
        self.addr = self.addr + PAGE_SIZE;
        self.len = self.len - 2 * PAGE_SIZE;
    }
}

/// Whether `p` lies in one of the inclusive ranges of `ranges`.
pub open spec fn in_ranges(ranges: Seq<(u64, u64)>, p: u64) -> bool {
    exists|i: int| 0 <= i < ranges.len() && (#[trigger] ranges[i]).0 <= p <= ranges[i].1
}

/// A contiguous block of `n` units starting at `s` is wholly free in
/// `avail`.
pub open spec fn block_free(avail: Set<u64>, s: u64, n: u64) -> bool {
    forall|p: u64| s <= p < s + n ==> avail.contains(p)
}

/// No contiguous block of `n` units is free anywhere in `avail`: a request
/// for `n` units cannot be served.
pub open spec fn exhausted(avail: Set<u64>, n: u64) -> bool {
    forall|s: u64| !block_free(avail, s, n)
}

/// An allocator over unit numbers (physical frame numbers, or virtual page
/// numbers): it owns a pool of free units and hands out contiguous blocks.
pub struct BuddyAllocator {
    /// Free ranges `[start, end]`, in increasing order, coalesced: two
    /// stored ranges are always separated by at least one unit that is not
    /// free, so every maximal contiguous free run is one stored range.
    ranges: Vec<(u64, u64)>,
}

impl BuddyAllocator {
    /// The set of free unit numbers.
    pub closed spec fn avail(&self) -> Set<u64> {
        Set::new(|p: u64| in_ranges(self.ranges@, p))
    }

    /// The allocator's internal invariant: ranges are proper, sorted, and
    /// coalesced (separated by a gap of at least one unit).
    pub closed spec fn wf(&self) -> bool {
        &&& forall|i: int|
            0 <= i < self.ranges@.len() ==> (#[trigger] self.ranges@[i]).0 <= self.ranges@[i].1
                < u64::MAX
        &&& forall|i: int, j: int|
            0 <= i < j < self.ranges@.len() ==> (#[trigger] self.ranges@[i]).1 + 1 < (
            #[trigger] self.ranges@[j]).0
    }

    /// A new allocator owning no units.
    pub fn new() -> (a: Self)
        ensures
            a.wf(),
            a.avail() == Set::<u64>::empty(),
    {
        let a = BuddyAllocator { ranges: Vec::new() };
        proof {
            assert(a.avail() =~= Set::<u64>::empty());
        }
        a
    }

    /// Add the units `start..=end` to the pool.  The pool is grown upward:
    /// everything it already holds lies below `start`.
    pub fn extend(&mut self, start: u64, end: u64)
        requires
            old(self).wf(),
            start <= end < u64::MAX,
            forall|p: u64| old(self).avail().contains(p) ==> p < start,
        ensures
            final(self).wf(),
            final(self).avail() == old(self).avail() + Set::new(|p: u64| start <= p <= end),
    {
        proof {
            assert forall|i: int|
                0 <= i < self.ranges@.len() implies (#[trigger] self.ranges@[i]).1 < start by {
                let (s, e) = self.ranges@[i];
                assert(in_ranges(self.ranges@, e));
                assert(old(self).avail().contains(e));
            }
        }
        let ghost r0 = self.ranges@;
        let len = self.ranges.len();
        if len > 0 {
            let (ls, le) = self.ranges[len - 1];
            if le + 1 == start {
                // The new units continue the last range: coalesce.
                self.ranges[len - 1] = (ls, end);
                proof {
                    let r1 = self.ranges@;
                    assert forall|p: u64|
                        in_ranges(r1, p) <==> (in_ranges(r0, p) || (start <= p <= end)) by {
                        if in_ranges(r1, p) {
                            let a = choose|a: int|
                                0 <= a < r1.len() && (#[trigger] r1[a]).0 <= p <= r1[a].1;
                            if a < len - 1 {
                                assert(r1[a] == r0[a]);
                                assert(in_ranges(r0, p));
                            } else if p <= le {
                                assert(r0[len - 1] == (ls, le));
                                assert(in_ranges(r0, p));
                            }
                        }
                        if in_ranges(r0, p) {
                            let a = choose|a: int|
                                0 <= a < r0.len() && (#[trigger] r0[a]).0 <= p <= r0[a].1;
                            if a < len - 1 {
                                assert(r1[a] == r0[a]);
                            } else {
                                assert(r1[len - 1] == (ls, end));
                            }
                            assert(in_ranges(r1, p));
                        }
                        if start <= p <= end {
                            assert(r1[len - 1] == (ls, end));
                            assert(in_ranges(r1, p));
                        }
                    }
                    assert(final(self).avail() =~= old(self).avail() + Set::new(
                        |p: u64| start <= p <= end,
                    ));
                }
                return ;
            }
        }
        self.ranges.push((start, end));
        proof {
            let r1 = self.ranges@;
            // The pushed range leaves a gap after every stored range: each
            // earlier range ends below the last one, which ends below
            // `start` and not right at it.
            assert forall|a: int, b: int|
                0 <= a < b < r1.len() implies (#[trigger] r1[a]).1 + 1 < (#[trigger] r1[b]).0 by {
                if b < len {
                    assert(r0[a].1 + 1 < r0[b].0);
                } else {
                    assert(r1[a] == r0[a]);
                    if a == len - 1 {
                        assert(r0[a].1 + 1 != start);
                    } else {
                        assert(r0[a].1 + 1 < r0[len - 1].0);
                    }
                }
            }
            assert forall|p: u64|
                in_ranges(r1, p) <==> (in_ranges(r0, p) || (start <= p <= end)) by {
                if in_ranges(r1, p) {
                    let a = choose|a: int| 0 <= a < r1.len() && (#[trigger] r1[a]).0 <= p <= r1[a].1;
                    if a < r0.len() {
                        assert(in_ranges(r0, p));
                    }
                }
                if in_ranges(r0, p) {
                    let a = choose|a: int| 0 <= a < r0.len() && (#[trigger] r0[a]).0 <= p <= r0[a].1;
                    assert(r1[a] == r0[a]);
                    assert(in_ranges(r1, p));
                }
                if start <= p <= end {
                    assert(r1[r0.len() as int] == (start, end));
                    assert(in_ranges(r1, p));
                }
            }
            assert(final(self).avail() =~= old(self).avail() + Set::new(
                |p: u64| start <= p <= end,
            ));
        }
    }

    /// Allocate a contiguous block of `n` units and return its first unit.
    /// Exactly the `n` units of the block leave the pool; `None` comes back
    /// only when no `n` consecutive units are free.
    pub fn allocate(&mut self, n: u64) -> (r: Option<u64>)
        requires
            old(self).wf(),
            n >= 1,
        ensures
            final(self).wf(),
            match r {
                Option::Some(s) => {
                    &&& s + n <= u64::MAX
                    &&& forall|p: u64| s <= p < s + n ==> old(self).avail().contains(p)
                    &&& final(self).avail() == old(self).avail() - Set::new(
                        |p: u64| s <= p < s + n,
                    )
                },
                Option::None => {
                    &&& *final(self) == *old(self)
                    &&& exhausted(old(self).avail(), n)
                    &&& (n == 1 ==> old(self).avail().is_empty())
                },
            },
    {
        let ghost r0 = self.ranges@;
        let mut i: usize = 0;
        while i < self.ranges.len()
            invariant
                *self == *old(self),
                self.wf(),
                n >= 1,
                r0 == self.ranges@,
                i <= self.ranges@.len(),
                forall|j: int| 0 <= j < i ==> (#[trigger] r0[j]).1 - r0[j].0 + 1 < n,
            decreases self.ranges@.len() - i,
        {
            let (start, end) = self.ranges[i];
            if end - start >= n - 1 {
                if end - start == n - 1 {
                    self.ranges.remove(i);
                } else {
                    self.ranges[i] = (start + n, end);
                }
                proof {
                    lemma_alloc_carves_block(r0, self.ranges@, i as int, start, n);
                    assert(final(self).avail() =~= old(self).avail() - Set::new(
                        |p: u64| start <= p < start + n,
                    ));
                }
                return Option::Some(start);
            }
            i = i + 1;
        }
        // Nothing fits: every free range is shorter than `n`, and a free
        // block never spans two ranges, since a non-free unit separates
        // them.
        proof {
            assert forall|s: u64| !block_free(self.avail(), s, n) by {
                if block_free(self.avail(), s, n) {
                    assert forall|p: u64| s <= p < s + n implies in_ranges(r0, p) by {
                        assert(self.avail().contains(p));
                    }
                    lemma_block_in_one_range(r0, s, n);
                    let j = choose|j: int|
                        0 <= j < r0.len() && (#[trigger] r0[j]).0 <= s && s + n - 1 <= r0[j].1;
                    assert((r0[j]).1 - r0[j].0 + 1 < n);
                    assert(false);
                }
            }
            if n == 1 {
                assert forall|p: u64| !self.avail().contains(p) by {
                    assert(!block_free(self.avail(), p, 1));
                }
                assert(self.avail() =~= Set::<u64>::empty());
            }
        }
        Option::None
    }

    /// Return the `n` units starting at `val` to the pool, coalescing with
    /// the neighbouring free ranges where the block touches them.
    #[verifier::rlimit(60)]
    #[verifier::spinoff_prover]
    pub fn free(&mut self, val: u64, n: u64)
        requires
            old(self).wf(),
            n >= 1,
            val + n < u64::MAX,
            forall|p: u64| val <= p < val + n ==> !old(self).avail().contains(p),
        ensures
            final(self).wf(),
            final(self).avail() == old(self).avail() + Set::new(|p: u64| val <= p < val + n),
    {
        let ghost r0 = self.ranges@;
        let mut idx: usize = 0;
        while idx < self.ranges.len() && self.ranges[idx].0 <= val
            invariant
                *self == *old(self),
                r0 == self.ranges@,
                idx <= self.ranges@.len(),
                forall|j: int| 0 <= j < idx ==> (#[trigger] r0[j]).0 <= val,
            decreases self.ranges@.len() - idx,
        {
            idx = idx + 1;
        }
        proof {
            // The left neighbour ends before the freed block, the right one
            // starts after it; both because the block is disjoint from the
            // pool.
            if idx > 0 {
                let (s, e) = r0[idx - 1];
                if e >= val {
                    assert(in_ranges(r0, val));
                    assert(old(self).avail().contains(val));
                    assert(false);
                }
            }
            if idx < r0.len() {
                let (s, e) = r0[idx as int];
                if s < val + n {
                    assert(in_ranges(r0, s));
                    assert(old(self).avail().contains(s));
                    assert(false);
                }
            }
        }
        let len = self.ranges.len();
        let left_merge = if idx > 0 {
            self.ranges[idx - 1].1 + 1 == val
        } else {
            false
        };
        let right_merge = if idx < len {
            val + n == self.ranges[idx].0
        } else {
            false
        };
        if left_merge && right_merge {
            // The block exactly bridges its two neighbours: fuse all three.
            let (ls, _) = self.ranges[idx - 1];
            let (_, re) = self.ranges[idx];
            self.ranges[idx - 1] = (ls, re);
            self.ranges.remove(idx);
            proof {
                let r1 = self.ranges@;
                assert forall|a: int, b: int|
                    0 <= a < b < r1.len() implies (#[trigger] r1[a]).1 + 1 < (
                #[trigger] r1[b]).0 by {
                    let a0: int = if a < idx { a } else { a + 1 };
                    let b0: int = if b < idx { b } else { b + 1 };
                    if a == idx - 1 {
                        assert(r1[a].1 == r0[idx as int].1);
                        assert(r1[b] == r0[b0]);
                        assert(r0[idx as int].1 + 1 < r0[b0].0);
                    } else {
                        assert(r1[a] == r0[a0]);
                        if b == idx - 1 {
                            assert(r1[b].0 == r0[idx - 1].0);
                        } else {
                            assert(r1[b] == r0[b0]);
                        }
                    }
                }
                assert forall|p: u64|
                    in_ranges(r1, p) <==> (in_ranges(r0, p) || (val <= p < val + n)) by {
                    if in_ranges(r1, p) {
                        let a = choose|a: int|
                            0 <= a < r1.len() && (#[trigger] r1[a]).0 <= p <= r1[a].1;
                        if a < idx - 1 {
                            assert(r1[a] == r0[a]);
                            assert(in_ranges(r0, p));
                        } else if a == idx - 1 {
                            if p <= r0[idx - 1].1 {
                                assert(in_ranges(r0, p));
                            } else if p >= val + n {
                                assert(r0[idx as int].0 <= p <= r0[idx as int].1);
                                assert(in_ranges(r0, p));
                            }
                        } else {
                            assert(r1[a] == r0[a + 1]);
                            assert(in_ranges(r0, p));
                        }
                    }
                    if in_ranges(r0, p) {
                        let a = choose|a: int|
                            0 <= a < r0.len() && (#[trigger] r0[a]).0 <= p <= r0[a].1;
                        if a < idx - 1 {
                            assert(r1[a] == r0[a]);
                            assert(in_ranges(r1, p));
                        } else if a == idx - 1 || a == idx {
                            assert(r1[idx - 1].0 <= p <= r1[idx - 1].1);
                            assert(in_ranges(r1, p));
                        } else {
                            assert(r1[a - 1] == r0[a]);
                            assert(in_ranges(r1, p));
                        }
                    }
                    if val <= p < val + n {
                        assert(r1[idx - 1].0 <= p <= r1[idx - 1].1);
                        assert(in_ranges(r1, p));
                    }
                }
                assert(final(self).avail() =~= old(self).avail() + Set::new(
                    |p: u64| val <= p < val + n,
                ));
            }
        } else if left_merge {
            // The block continues the left neighbour.
            let (ls, _) = self.ranges[idx - 1];
            self.ranges[idx - 1] = (ls, val + n - 1);
            proof {
                let r1 = self.ranges@;
                assert forall|a: int, b: int|
                    0 <= a < b < r1.len() implies (#[trigger] r1[a]).1 + 1 < (
                #[trigger] r1[b]).0 by {
                    if a == idx - 1 {
                        assert(r1[b] == r0[b]);
                        assert(r0[idx as int].0 >= val + n);
                        if b > idx {
                            assert(r0[idx as int].1 + 1 < r0[b].0);
                        }
                    } else {
                        assert(r1[a] == r0[a]);
                        if b == idx - 1 {
                            assert(r1[b].0 == r0[b].0);
                        } else {
                            assert(r1[b] == r0[b]);
                        }
                    }
                }
                assert forall|p: u64|
                    in_ranges(r1, p) <==> (in_ranges(r0, p) || (val <= p < val + n)) by {
                    if in_ranges(r1, p) {
                        let a = choose|a: int|
                            0 <= a < r1.len() && (#[trigger] r1[a]).0 <= p <= r1[a].1;
                        if a != idx - 1 {
                            assert(r1[a] == r0[a]);
                            assert(in_ranges(r0, p));
                        } else if p <= r0[idx - 1].1 {
                            assert(r0[idx - 1].0 <= p <= r0[idx - 1].1);
                            assert(in_ranges(r0, p));
                        }
                    }
                    if in_ranges(r0, p) {
                        let a = choose|a: int|
                            0 <= a < r0.len() && (#[trigger] r0[a]).0 <= p <= r0[a].1;
                        if a == idx - 1 {
                            assert(r1[idx - 1].0 <= p <= r1[idx - 1].1);
                        } else {
                            assert(r1[a] == r0[a]);
                        }
                        assert(in_ranges(r1, p));
                    }
                    if val <= p < val + n {
                        assert(r1[idx - 1].0 <= p <= r1[idx - 1].1);
                        assert(in_ranges(r1, p));
                    }
                }
                assert(final(self).avail() =~= old(self).avail() + Set::new(
                    |p: u64| val <= p < val + n,
                ));
            }
        } else if right_merge {
            // The block runs up to the right neighbour.
            let (_, re) = self.ranges[idx];
            self.ranges[idx] = (val, re);
            proof {
                let r1 = self.ranges@;
                assert forall|a: int, b: int|
                    0 <= a < b < r1.len() implies (#[trigger] r1[a]).1 + 1 < (
                #[trigger] r1[b]).0 by {
                    if b == idx {
                        assert(r1[a] == r0[a]);
                        if a == idx - 1 {
                            assert(r0[a].1 + 1 != val);
                        } else {
                            assert(r0[a].1 + 1 < r0[idx - 1].0);
                        }
                    } else {
                        assert(r1[b] == r0[b]);
                        if a == idx {
                            assert(r1[a].1 == r0[a].1);
                        } else {
                            assert(r1[a] == r0[a]);
                        }
                    }
                }
                assert forall|p: u64|
                    in_ranges(r1, p) <==> (in_ranges(r0, p) || (val <= p < val + n)) by {
                    if in_ranges(r1, p) {
                        let a = choose|a: int|
                            0 <= a < r1.len() && (#[trigger] r1[a]).0 <= p <= r1[a].1;
                        if a != idx {
                            assert(r1[a] == r0[a]);
                            assert(in_ranges(r0, p));
                        } else if p >= val + n {
                            assert(r0[idx as int].0 <= p <= r0[idx as int].1);
                            assert(in_ranges(r0, p));
                        }
                    }
                    if in_ranges(r0, p) {
                        let a = choose|a: int|
                            0 <= a < r0.len() && (#[trigger] r0[a]).0 <= p <= r0[a].1;
                        if a == idx {
                            assert(r1[idx as int].0 <= p <= r1[idx as int].1);
                        } else {
                            assert(r1[a] == r0[a]);
                        }
                        assert(in_ranges(r1, p));
                    }
                    if val <= p < val + n {
                        assert(r1[idx as int].0 <= p <= r1[idx as int].1);
                        assert(in_ranges(r1, p));
                    }
                }
                assert(final(self).avail() =~= old(self).avail() + Set::new(
                    |p: u64| val <= p < val + n,
                ));
            }
        } else {
            // The block touches neither neighbour: a new range, with a gap
            // on both sides.
            self.ranges.insert(idx, (val, (val + n) - 1));
            proof {
                let r1 = self.ranges@;
                assert forall|a: int, b: int|
                    0 <= a < b < r1.len() implies (#[trigger] r1[a]).1 + 1 < (
                #[trigger] r1[b]).0 by {
                    if b < idx {
                    } else if a >= idx + 1 {
                    } else if b == idx {
                        assert(r1[a] == r0[a]);
                        if a == idx - 1 {
                            assert(r0[a].1 + 1 != val);
                        } else {
                            assert(r0[a].1 + 1 < r0[idx - 1].0);
                        }
                    } else if a == idx {
                        assert(r1[b] == r0[b - 1]);
                        if b == idx + 1 {
                            assert(val + n != r0[idx as int].0);
                        } else {
                            assert(r0[idx as int].1 + 1 < r0[b - 1].0);
                            assert(r0[idx as int].0 >= val + n);
                        }
                    } else {
                        // a < idx < b
                        assert(r1[a] == r0[a]);
                        assert(r1[b] == r0[b - 1]);
                        assert(r0[idx as int].0 >= val + n);
                    }
                }
                assert forall|p: u64|
                    in_ranges(r1, p) <==> (in_ranges(r0, p) || (val <= p < val + n)) by {
                    if in_ranges(r1, p) {
                        let i = choose|i: int|
                            0 <= i < r1.len() && (#[trigger] r1[i]).0 <= p <= r1[i].1;
                        if i < idx {
                            assert(r1[i] == r0[i]);
                            assert(in_ranges(r0, p));
                        } else if i == idx {
                        } else {
                            assert(r1[i] == r0[i - 1]);
                            assert(in_ranges(r0, p));
                        }
                    }
                    if in_ranges(r0, p) {
                        let i = choose|i: int|
                            0 <= i < r0.len() && (#[trigger] r0[i]).0 <= p <= r0[i].1;
                        if i < idx {
                            assert(r1[i] == r0[i]);
                            assert(in_ranges(r1, p));
                        } else {
                            assert(r1[i + 1] == r0[i]);
                            assert(in_ranges(r1, p));
                        }
                    }
                    if val <= p < val + n {
                        assert(r1[idx as int] == (val, (val + n - 1) as u64));
                        assert(in_ranges(r1, p));
                    }
                }
                assert(final(self).avail() =~= old(self).avail() + Set::new(
                    |p: u64| val <= p < val + n,
                ));
            }
        }
    }
}

/// In a pool whose stored ranges are separated by non-free units, a wholly
/// free contiguous block lies inside one stored range.
proof fn lemma_block_in_one_range(ranges: Seq<(u64, u64)>, s: u64, n: u64)
    requires
        forall|a: int| 0 <= a < ranges.len() ==> (#[trigger] ranges[a]).0 <= ranges[a].1 < u64::MAX,
        forall|a: int, b: int|
            0 <= a < b < ranges.len() ==> (#[trigger] ranges[a]).1 + 1 < (#[trigger] ranges[b]).0,
        n >= 1,
        forall|p: u64| s <= p < s + n ==> in_ranges(ranges, p),
    ensures
        exists|i: int|
            0 <= i < ranges.len() && (#[trigger] ranges[i]).0 <= s && s + n - 1 <= ranges[i].1,
    decreases n,
{
    if s + n - 1 > u64::MAX {
        // The block would reach past the largest unit, which is never free.
        assert(in_ranges(ranges, u64::MAX));
        let i = choose|i: int|
            0 <= i < ranges.len() && (#[trigger] ranges[i]).0 <= u64::MAX <= ranges[i].1;
        assert(false);
    } else if n == 1 {
        assert(in_ranges(ranges, s));
        let i = choose|i: int| 0 <= i < ranges.len() && (#[trigger] ranges[i]).0 <= s <= ranges[i].1;
        assert(ranges[i].0 <= s && s + n - 1 <= ranges[i].1);
    } else {
        lemma_block_in_one_range(ranges, s, (n - 1) as u64);
        let i = choose|i: int|
            0 <= i < ranges.len() && (#[trigger] ranges[i]).0 <= s && s + (n - 1) - 1
                <= ranges[i].1;
        let last = (s + n - 1) as u64;
        assert(in_ranges(ranges, last));
        let j = choose|j: int|
            0 <= j < ranges.len() && (#[trigger] ranges[j]).0 <= last <= ranges[j].1;
        if j > i {
            // The gap between ranges `i` and `j` would cut the block.
            assert(ranges[i].1 + 1 < ranges[j].0);
            assert(false);
        } else if j < i {
            assert(ranges[j].1 + 1 < ranges[i].0);
            assert(false);
        }
        assert(ranges[i].0 <= s && s + n - 1 <= ranges[i].1);
    }
}

/// Removing block `[start, start + n)` from range `i` (dropping the range
/// when it is consumed whole, shrinking it otherwise) removes exactly that
/// block from the pool, and keeps the remaining ranges separated.
proof fn lemma_alloc_carves_block(
    r0: Seq<(u64, u64)>,
    r1: Seq<(u64, u64)>,
    i: int,
    start: u64,
    n: u64,
)
    requires
        forall|a: int| 0 <= a < r0.len() ==> (#[trigger] r0[a]).0 <= r0[a].1 < u64::MAX,
        forall|a: int, b: int|
            0 <= a < b < r0.len() ==> (#[trigger] r0[a]).1 + 1 < (#[trigger] r0[b]).0,
        0 <= i < r0.len(),
        n >= 1,
        r0[i].0 == start,
        r0[i].1 >= start + n - 1,
        if r0[i].1 == start + n - 1 {
            r1 == r0.remove(i)
        } else {
            r1 == r0.update(i, ((start + n) as u64, r0[i].1))
        },
    ensures
        forall|a: int| 0 <= a < r1.len() ==> (#[trigger] r1[a]).0 <= r1[a].1 < u64::MAX,
        forall|a: int, b: int|
            0 <= a < b < r1.len() ==> (#[trigger] r1[a]).1 + 1 < (#[trigger] r1[b]).0,
        forall|p: u64| start <= p < start + n ==> in_ranges(r0, p),
        forall|p: u64|
            #[trigger] in_ranges(r1, p) <==> (in_ranges(r0, p) && !(start <= p < start + n)),
{
    let consumed = r0[i].1 == start + n - 1;
    assert forall|p: u64| start <= p < start + n implies in_ranges(r0, p) by {
        assert(r0[i].0 <= p <= r0[i].1);
    }
    if consumed {
        assert forall|a: int, b: int|
            0 <= a < b < r1.len() implies (#[trigger] r1[a]).1 + 1 < (#[trigger] r1[b]).0 by {
            if a < i && b < i {
            } else if a < i {
                assert(r1[b] == r0[b + 1]);
            } else {
                assert(r1[a] == r0[a + 1]);
                assert(r1[b] == r0[b + 1]);
            }
        }
    }
    assert forall|p: u64|
        #[trigger] in_ranges(r1, p) <==> (in_ranges(r0, p) && !(start <= p < start + n)) by {
        if in_ranges(r1, p) {
            let a = choose|a: int| 0 <= a < r1.len() && (#[trigger] r1[a]).0 <= p <= r1[a].1;
            if consumed {
                let a0: int = if a < i {
                    a
                } else {
                    a + 1
                };
                assert(r1[a] == r0[a0]);
                assert(in_ranges(r0, p));
                // p is in a range other than i, so it is outside the block.
                if start <= p < start + n {
                    assert(r0[i].0 <= p <= r0[i].1);
                    if a0 < i {
                        assert(r0[a0].1 + 1 < r0[i].0);
                    } else {
                        assert(r0[i].1 + 1 < r0[a0].0);
                    }
                    assert(false);
                }
            } else {
                if a == i {
                    assert(r0[i].0 <= p <= r0[i].1);
                    assert(in_ranges(r0, p));
                } else {
                    assert(r1[a] == r0[a]);
                    assert(in_ranges(r0, p));
                    if start <= p < start + n {
                        assert(r0[i].0 <= p <= r0[i].1);
                        if a < i {
                            assert(r0[a].1 + 1 < r0[i].0);
                        } else {
                            assert(r0[i].1 + 1 < r0[a].0);
                        }
                        assert(false);
                    }
                }
            }
        }
        if in_ranges(r0, p) && !(start <= p < start + n) {
            let a = choose|a: int| 0 <= a < r0.len() && (#[trigger] r0[a]).0 <= p <= r0[a].1;
            if a == i {
                // p sits in the tail of the shrunk range.
                assert(!consumed);
                assert(r1[i] == ((start + n) as u64, r0[i].1));
                assert(in_ranges(r1, p));
            } else if consumed {
                let a1: int = if a < i {
                    a
                } else {
                    a - 1
                };
                assert(r1[a1] == r0[a]);
                assert(in_ranges(r1, p));
            } else {
                assert(r1[a] == r0[a]);
                assert(in_ranges(r1, p));
            }
        }
    }
}


/// A virtual-address pool is in bounds: it hands out page numbers above the
/// null page and within the lower half of the address space.
pub open spec fn virt_pages_wf(a: &BuddyAllocator) -> bool {
    forall|p: u64| a.avail().contains(p) ==> 0 < p <= VIRT_AVAIL_LAST_PAGE
}

impl VirtualMemoryRegion {
    /// Allocate a region of virtual memory (but not backed by physical
    /// memory): specifically, the given number of pages, drawn from the
    /// virtual address allocator.  These allocations are basically
    /// permanent.
    ///
    /// No page table mappings are created.  It is the user's responsibility
    /// to make sure the memory is mapped before it is used.
    ///
    /// Returns a capability for the allocated region.  `None` comes back
    /// only when the address space cannot supply `npages` contiguous pages
    /// — out of virtual memory, which the kernel treats as fatal.
    pub fn allocate(vmem: &mut BuddyAllocator, npages: u64) -> (r: Option<
        UnregisteredResourceHandle<VirtualMemoryRegion>,
    >)
        requires
            old(vmem).wf(),
            virt_pages_wf(old(vmem)),
            npages >= 1,
        ensures
            final(vmem).wf(),
            virt_pages_wf(final(vmem)),
            match r {
                Option::Some(h) => {
                    let first_page = h.resource.spec_start() / PAGE_SIZE;
                    &&& h.resource.wf()
                    &&& h.resource.spec_len() == npages * PAGE_SIZE
                    &&& h.resource.spec_start() == first_page * PAGE_SIZE
                    &&& forall|p: u64|
                        first_page <= p < first_page + npages ==> old(vmem).avail().contains(p)
                    &&& final(vmem).avail() == old(vmem).avail() - Set::new(
                        |p: u64| first_page <= p < first_page + npages,
                    )
                },
                Option::None => {
                    &&& *final(vmem) == *old(vmem)
                    &&& exhausted(old(vmem).avail(), npages)
                },
            },
    {
        let ghost avail0 = vmem.avail();
        match vmem.allocate(npages) {
            Option::Some(mem) => {
                proof {
                    assert(avail0.contains(mem));
                    assert(avail0.contains((mem + npages - 1) as u64));
                    assert(0 < mem && mem + npages - 1 <= VIRT_AVAIL_LAST_PAGE);
                    vstd::arithmetic::div_mod::lemma_mod_multiples_basic(
                        mem as int,
                        PAGE_SIZE as int,
                    );
                    vstd::arithmetic::div_mod::lemma_mod_multiples_basic(
                        npages as int,
                        PAGE_SIZE as int,
                    );
                    vstd::arithmetic::div_mod::lemma_div_by_multiple(mem as int, PAGE_SIZE as int);
                    assert(mem * PAGE_SIZE >= PAGE_SIZE && npages * PAGE_SIZE >= PAGE_SIZE
                        && mem * PAGE_SIZE + npages * PAGE_SIZE <= VIRT_ADDR_LIMIT)
                        by (nonlinear_arith)
                        requires
                            0 < mem,
                            npages >= 1,
                            mem + npages - 1 <= VIRT_AVAIL_LAST_PAGE,
                            VIRT_AVAIL_LAST_PAGE == 0x7_FFFF_FFFF,
                            PAGE_SIZE == 4096,
                            VIRT_ADDR_LIMIT == 0x8000_0000_0000,
                    ;
                }
                let addr = mem * PAGE_SIZE;
                let len = npages * PAGE_SIZE;
                let region = VirtualMemoryRegion::new(addr, len);
                proof {
                    assert(region.spec_start() / PAGE_SIZE == mem);
                    assert(final(vmem).avail() =~= avail0 - Set::new(
                        |p: u64| mem <= p < mem + npages,
                    ));
                }
                Option::Some(UnregisteredResourceHandle::new(region))
            },
            Option::None => Option::None,
        }
    }

    /// Like `allocate`, but allocates two more pages and shrinks the region
    /// by one page at each end, so that the returned region is bracketed by
    /// two guard pages: allocated — so nothing else will ever live there —
    /// but outside the region's reported span, hence never demand-paged.
    /// `None` comes back only when no `npages + 2` contiguous pages are
    /// free.
    pub fn alloc_with_guard(vmem: &mut BuddyAllocator, npages: u64) -> (r: Option<
        UnregisteredResourceHandle<VirtualMemoryRegion>,
    >)
        requires
            old(vmem).wf(),
            virt_pages_wf(old(vmem)),
            npages >= 1,
            npages <= u64::MAX - 2,
        ensures
            final(vmem).wf(),
            virt_pages_wf(final(vmem)),
            match r {
                Option::Some(h) => {
                    let first_page = h.resource.spec_start() / PAGE_SIZE;
                    &&& h.resource.wf()
                    &&& h.resource.spec_len() == npages * PAGE_SIZE
                    &&& h.resource.spec_start() == first_page * PAGE_SIZE
                    &&& h.resource.spec_start() > PAGE_SIZE
                    &&& forall|p: u64|
                        first_page - 1 <= p < first_page + npages + 1 ==> old(
                            vmem,
                        ).avail().contains(p)
                    &&& final(vmem).avail() == old(vmem).avail() - Set::new(
                        |p: u64| first_page - 1 <= p < first_page + npages + 1,
                    )
                },
                Option::None => {
                    &&& *final(vmem) == *old(vmem)
                    &&& exhausted(old(vmem).avail(), (npages + 2) as u64)
                },
            },
    {
        match Self::allocate(vmem, npages + 2) {
            Option::Some(mut mem) => {
                let ghost whole = mem.resource;
                let region = mem.as_mut_ref();
                region.guard();
                proof {
                    let sp0 = whole.spec_start() / PAGE_SIZE;
                    let sp1 = mem.resource.spec_start() / PAGE_SIZE;
                    assert(mem.resource.spec_start() == whole.spec_start() + PAGE_SIZE);
                    assert(whole.spec_start() == sp0 * PAGE_SIZE);
                    assert(mem.resource.spec_start() == (sp0 + 1) * PAGE_SIZE)
                        by (nonlinear_arith)
                        requires
                            mem.resource.spec_start() == whole.spec_start() + PAGE_SIZE,
                            whole.spec_start() == sp0 * PAGE_SIZE,
                    ;
                    vstd::arithmetic::div_mod::lemma_div_by_multiple(
                        sp0 + 1,
                        PAGE_SIZE as int,
                    );
                    assert(sp1 == sp0 + 1);
                    assert(final(vmem).avail() =~= old(vmem).avail() - Set::new(
                        |p: u64| sp1 - 1 <= p < sp1 + npages + 1,
                    ));
                }
                Option::Some(mem)
            },
            Option::None => Option::None,
        }
    }
}


/// Whether some entry of `entries` is keyed by start address `s`.
pub open spec fn has_start(entries: Seq<(u64, u64, u64)>, s: u64) -> bool {
    exists|i: int| 0 <= i < entries.len() && (#[trigger] entries[i]).0 == s
}

/// The `(length, flags)` recorded for start address `s`.
pub open spec fn payload_at(entries: Seq<(u64, u64, u64)>, s: u64) -> (u64, u64) {
    let i = choose|i: int| 0 <= i < entries.len() && (#[trigger] entries[i]).0 == s;
    (entries[i].1, entries[i].2)
}

/// The set of allowed ranges: a map from committed-range start address to
/// `(length in bytes, page-table flags)`, populated only by `map_region`.
/// It is the authority the page-fault handler consults, by a predecessor
/// query on the start addresses.
pub struct AllowedRanges {
    entries: Vec<(u64, u64, u64)>,
}

/// `s` is the predecessor of `addr` in `m`: the greatest recorded start
/// address not above `addr`.
pub open spec fn is_pred(m: Map<u64, (u64, u64)>, addr: u64, s: u64) -> bool {
    &&& m.dom().contains(s)
    &&& s <= addr
    &&& forall|k: u64| m.dom().contains(k) && k <= addr ==> k <= s
}

/// The fault at `addr` is covered: the predecessor range contains `addr`.
pub open spec fn resolves(m: Map<u64, (u64, u64)>, addr: u64) -> bool {
    exists|s: u64| #[trigger] is_pred(m, addr, s) && addr < s + m[s].0
}

/// A predecessor, where one exists, is unique.
pub proof fn lemma_pred_unique(m: Map<u64, (u64, u64)>, addr: u64, s1: u64, s2: u64)
    requires
        is_pred(m, addr, s1),
        is_pred(m, addr, s2),
    ensures
        s1 == s2,
{
}

impl AllowedRanges {
    /// The recorded ranges: start address to `(length, flags)`.
    pub closed spec fn view(&self) -> Map<u64, (u64, u64)> {
        Map::new(
            |s: u64| has_start(self.entries@, s),
            |s: u64| payload_at(self.entries@, s),
        )
    }

    /// Entries are keyed by distinct, page-aligned start addresses, and stay
    /// within the lower half of the address space.
    pub closed spec fn wf(&self) -> bool {
        &&& forall|i: int, j: int|
            0 <= i < j < self.entries@.len() ==> (#[trigger] self.entries@[i]).0 != (
            #[trigger] self.entries@[j]).0
        &&& forall|i: int|
            0 <= i < self.entries@.len() ==> {
                let (s, l, f) = #[trigger] self.entries@[i];
                s % PAGE_SIZE == 0 && l > 0 && s + l <= VIRT_ADDR_LIMIT
            }
    }

    /// An empty set of allowed ranges.
    pub fn new() -> (r: Self)
        ensures
            r.wf(),
            r@ == Map::<u64, (u64, u64)>::empty(),
    {
        let r = AllowedRanges { entries: Vec::new() };
        proof {
            assert(r@ =~= Map::<u64, (u64, u64)>::empty());
        }
        r
    }

    /// With distinct start addresses, the payload recorded for an entry's
    /// start is that entry's.
    proof fn lemma_payload(&self, i: int)
        requires
            self.wf(),
            0 <= i < self.entries@.len(),
        ensures
            has_start(self.entries@, self.entries@[i].0),
            payload_at(self.entries@, self.entries@[i].0) == (
                self.entries@[i].1,
                self.entries@[i].2,
            ),
    {
        let e = self.entries@;
        assert(has_start(e, e[i].0));
        let j = choose|j: int| 0 <= j < e.len() && (#[trigger] e[j]).0 == e[i].0;
        assert(j == i);
    }

    /// Record `(start, (len, flags))`, replacing what `start` was mapped to
    /// before, as a keyed store does.
    pub fn insert(&mut self, start: u64, len: u64, flags: u64)
        requires
            old(self).wf(),
            start % PAGE_SIZE == 0,
            len > 0,
            start + len <= VIRT_ADDR_LIMIT,
        ensures
            final(self).wf(),
            final(self)@ == old(self)@.insert(start, (len, flags)),
    {
        let ghost e0 = self.entries@;
        let n = self.entries.len();
        let mut i: usize = 0;
        while i < n && self.entries[i].0 != start
            invariant
                i <= n,
                n == self.entries@.len(),
                self.entries@ == e0,
                forall|j: int| 0 <= j < i ==> (#[trigger] e0[j]).0 != start,
            decreases n - i,
        {
            i = i + 1;
        }
        if i < n {
            self.entries[i] = (start, len, flags);
            proof {
                let e1 = self.entries@;
                assert(e0[i as int].0 == start);
                assert forall|s: u64| has_start(e1, s) == has_start(e0, s) by {
                    if has_start(e1, s) {
                        let a = choose|a: int| 0 <= a < e1.len() && (#[trigger] e1[a]).0 == s;
                        if a == i {
                            assert(e0[i as int].0 == s);
                        }
                        assert(has_start(e0, s));
                    }
                    if has_start(e0, s) {
                        let a = choose|a: int| 0 <= a < e0.len() && (#[trigger] e0[a]).0 == s;
                        if a == i {
                            assert(e1[i as int].0 == s);
                        } else {
                            assert(e1[a] == e0[a]);
                        }
                        assert(has_start(e1, s));
                    }
                }
                assert forall|a: int, b: int|
                    0 <= a < b < e1.len() implies (#[trigger] e1[a]).0 != (
                #[trigger] e1[b]).0 by {
                    assert(e0[a].0 != e0[b].0);
                }
                assert(self.wf());
                assert forall|s: u64| #[trigger]
                    has_start(e1, s) implies payload_at(e1, s) == old(self)@.insert(
                    start,
                    (len, flags),
                )[s] by {
                    let a = choose|a: int| 0 <= a < e1.len() && (#[trigger] e1[a]).0 == s;
                    self.lemma_payload(a);
                    if s == start {
                        assert(a == i);
                    } else {
                        assert(a != i);
                        assert(e0[a] == e1[a]);
                        old(self).lemma_payload(a);
                    }
                }
                assert(final(self)@ =~= old(self)@.insert(start, (len, flags)));
            }
        } else {
            self.entries.push((start, len, flags));
            proof {
                let e1 = self.entries@;
                assert forall|a: int, b: int|
                    0 <= a < b < e1.len() implies (#[trigger] e1[a]).0 != (
                #[trigger] e1[b]).0 by {
                    if b < e0.len() {
                        assert(e0[a].0 != e0[b].0);
                    } else {
                        assert(e1[b].0 == start);
                        assert(e1[a] == e0[a]);
                    }
                }
                assert(self.wf());
                assert forall|s: u64| has_start(e1, s) == (has_start(e0, s) || s == start) by {
                    if has_start(e1, s) {
                        let a = choose|a: int| 0 <= a < e1.len() && (#[trigger] e1[a]).0 == s;
                        if a < e0.len() {
                            assert(has_start(e0, s));
                        }
                    }
                    if has_start(e0, s) {
                        let a = choose|a: int| 0 <= a < e0.len() && (#[trigger] e0[a]).0 == s;
                        assert(e1[a] == e0[a]);
                        assert(has_start(e1, s));
                    }
                    if s == start {
                        assert(e1[e0.len() as int].0 == s);
                        assert(has_start(e1, s));
                    }
                }
                assert forall|s: u64| #[trigger]
                    has_start(e1, s) implies payload_at(e1, s) == old(self)@.insert(
                    start,
                    (len, flags),
                )[s] by {
                    let a = choose|a: int| 0 <= a < e1.len() && (#[trigger] e1[a]).0 == s;
                    self.lemma_payload(a);
                    if s == start {
                        assert(a == e0.len());
                    } else {
                        assert(a < e0.len());
                        assert(e0[a] == e1[a]);
                        old(self).lemma_payload(a);
                    }
                }
                assert(final(self)@ =~= old(self)@.insert(start, (len, flags)));
            }
        }
    }

    /// The predecessor query: the recorded entry with the greatest start
    /// address not above `addr`, or `None` where every recorded start lies
    /// above `addr`.
    pub fn pred(&self, addr: u64) -> (r: Option<(u64, u64, u64)>)
        requires
            self.wf(),
        ensures
            match r {
                Option::Some((s, l, f)) => is_pred(self@, addr, s) && self@[s] == (l, f),
                Option::None => forall|k: u64| self@.dom().contains(k) ==> k > addr,
            },
    {
        let ghost e = self.entries@;
        let n = self.entries.len();
        let mut best: Option<(u64, u64, u64)> = Option::None;
        let mut i: usize = 0;
        while i < n
            invariant
                i <= n,
                n == e.len(),
                e == self.entries@,
                self.wf(),
                match best {
                    Option::None => forall|j: int| 0 <= j < i ==> (#[trigger] e[j]).0 > addr,
                    Option::Some((s, l, f)) => {
                        &&& exists|j: int| 0 <= j < i && #[trigger] e[j] == (s, l, f)
                        &&& s <= addr
                        &&& forall|j: int|
                            0 <= j < i && (#[trigger] e[j]).0 <= addr ==> e[j].0 <= s
                    },
                },
            decreases n - i,
        {
            let (s, l, f) = self.entries[i];
            if s <= addr {
                match best {
                    Option::None => {
                        best = Option::Some((s, l, f));
                    },
                    Option::Some((bs, bl, bf)) => {
                        if s > bs {
                            best = Option::Some((s, l, f));
                        }
                    },
                }
            }
            proof {
                if let Option::Some((bs, bl, bf)) = best {
                    let j = choose|j: int| 0 <= j <= i && #[trigger] e[j] == (bs, bl, bf);
                }
            }
            i = i + 1;
        }
        proof {
            match best {
                Option::None => {
                    assert forall|k: u64| self@.dom().contains(k) implies k > addr by {
                        let j = choose|j: int| 0 <= j < e.len() && (#[trigger] e[j]).0 == k;
                    }
                },
                Option::Some((s, l, f)) => {
                    let j = choose|j: int| 0 <= j < n && #[trigger] e[j] == (s, l, f);
                    self.lemma_payload(j);
                    assert forall|k: u64| self@.dom().contains(k) && k <= addr implies k
                        <= s by {
                        let a = choose|a: int| 0 <= a < e.len() && (#[trigger] e[a]).0 == k;
                    }
                },
            }
        }
        best
    }
}

/// The page tables: which virtual page the kernel has decided to map to
/// which physical frame, with which flags.  Writing the entries into the
/// hardware tables is the collaborator's job; this records the decisions the
/// hardware must reflect.
pub struct PageTables {
    mapped: BTreeMap<u64, (u64, u64)>,
}

impl PageTables {
    /// Which page is mapped to which `(frame, flags)`.
    pub closed spec fn view(&self) -> Map<u64, (u64, u64)> {
        self.mapped@
    }

    /// Page tables with no recorded mapping.
    pub fn new() -> (r: Self)
        ensures
            r@ == Map::<u64, (u64, u64)>::empty(),
    {
        PageTables { mapped: BTreeMap::new() }
    }

    /// Record that `page` is mapped to `frame` with `flags`.
    pub fn map_to(&mut self, page: u64, frame: u64, flags: u64)
        ensures
            final(self)@ == old(self)@.insert(page, (frame, flags)),
    {
        self.mapped.insert(page, (frame, flags));
    }
}

/// Why a page fault was fatal.
#[derive(Copy, Clone, PartialEq, Eq, Structural, Debug)]
pub enum PageFaultError {
    /// The faulting address is not covered by any allowed range: a segfault.
    NotAllowed,
    /// No physical frame was left to commit.
    OutOfFrames,
}

/// Mark the `region` as usable with the given `flags`.  This does not
/// allocate any physical memory; pages will be allocated by demand paging.
pub fn map_region(
    region: ResourceHandle<VirtualMemoryRegion>,
    flags: u64,
    registry: &CapRegistry,
    allowed: &mut AllowedRanges,
)
    requires
        old(allowed).wf(),
        registry@.contains_key(region.spec_key()),
        registry@[region.spec_key()] matches Capability::VirtualMemoryRegion(r) && r.wf(),
    ensures
        final(allowed).wf(),
        forall|r: VirtualMemoryRegion|
            registry@[region.spec_key()] == Capability::VirtualMemoryRegion(r) ==> final(allowed)@
                == old(allowed)@.insert(r.spec_start(), (r.spec_len(), flags)),
{
    let (start, len) = match region.with(registry) {
        Capability::VirtualMemoryRegion(r) => (r.start(), r.len()),
        Capability::CapabilityGroup(_) => vstd::pervasive::unreached(),
    };
    allowed.insert(start, len, flags);
}

/// Handle a page fault at virtual address `addr`.
///
/// The handler consults the allowed ranges: the nearest recorded range
/// starting at or below the fault address must contain it, else the fault is
/// fatal (a segfault).  For a covered fault it commits exactly one physical
/// frame and records a mapping of the faulting page with exactly the range's
/// recorded flags; running out of frames is fatal too.  Returns what was
/// installed: `(page number, frame number, flags)`.
pub fn handle_page_fault(
    allowed: &AllowedRanges,
    phys: &mut BuddyAllocator,
    page_tables: &mut PageTables,
    addr: u64,
) -> (r: Result<(u64, u64, u64), PageFaultError>)
    requires
        allowed.wf(),
        old(phys).wf(),
    ensures
        final(phys).wf(),
        match r {
            Result::Ok((page, frame, flags)) => {
                &&& resolves(allowed@, addr)
                &&& page == addr / PAGE_SIZE
                &&& exists|s: u64|
                    #[trigger] is_pred(allowed@, addr, s) && addr < s + allowed@[s].0 && flags
                        == allowed@[s].1
                &&& old(phys).avail().contains(frame)
                &&& final(phys).avail() == old(phys).avail().remove(frame)
                &&& final(page_tables)@ == old(page_tables)@.insert(page, (frame, flags))
            },
            Result::Err(PageFaultError::NotAllowed) => {
                &&& !resolves(allowed@, addr)
                &&& *final(phys) == *old(phys)
                &&& final(page_tables)@ == old(page_tables)@
            },
            Result::Err(PageFaultError::OutOfFrames) => {
                &&& resolves(allowed@, addr)
                &&& old(phys).avail().is_empty()
                &&& *final(phys) == *old(phys)
                &&& final(page_tables)@ == old(page_tables)@
            },
        },
{
    // Check if the fault address is allowed: find the nearest range at or
    // below it.
    match allowed.pred(addr) {
        Option::Some((s, l, f)) => {
            if addr < s + l {
                // Commit one frame and record the mapping for the faulting
                // page with the recorded flags.
                match phys.allocate(1) {
                    Option::Some(frame) => {
                        proof {
                            assert(final(phys).avail() =~= old(phys).avail().remove(frame));
                        }
                        let page = addr / PAGE_SIZE;
                        page_tables.map_to(page, frame, f);
                        Result::Ok((page, frame, f))
                    },
                    Option::None => Result::Err(PageFaultError::OutOfFrames),
                }
            } else {
                proof {
                    if resolves(allowed@, addr) {
                        let s2 = choose|s2: u64| #[trigger]
                            is_pred(allowed@, addr, s2) && addr < s2 + allowed@[s2].0;
                        lemma_pred_unique(allowed@, addr, s, s2);
                    }
                }
                Result::Err(PageFaultError::NotAllowed)
            }
        },
        Option::None => {
            proof {
                if resolves(allowed@, addr) {
                    let s2 = choose|s2: u64| #[trigger]
                        is_pred(allowed@, addr, s2) && addr < s2 + allowed@[s2].0;
                }
            }
            Result::Err(PageFaultError::NotAllowed)
        },
    }
}


/// The frame number of the first frame past the kernel-reserved region: the
/// kernel text, page tables and heap live below it, so the physical
/// allocator never hands those frames out.
pub const KERNEL_RESERVED_FRAMES: u64 = 0x2400;

/// Whether frame `f` is handed to the physical allocator when seeding it
/// from the normalized memory map: some usable region reaching beyond the
/// kernel-reserved frames holds it, past the reserved boundary.
pub open spec fn seeded_frame(regions: Seq<(u64, u64)>, f: u64) -> bool {
    exists|i: int|
        0 <= i < regions.len() && (#[trigger] regions[i]).1 > KERNEL_RESERVED_FRAMES
            && regions[i].0 <= f <= regions[i].1 && KERNEL_RESERVED_FRAMES <= f
}

/// Initialize the memory subsystem from the normalized memory map.
///
/// The physical allocator receives every usable frame beyond the
/// kernel-reserved frames — a region wholly inside the reserved area is
/// dropped, one straddling the boundary is chopped at it.  The virtual
/// allocator receives the page numbers between the kernel heap and the top
/// of the lower half of the address space.  No range is allowed yet and no
/// mapping is recorded yet.
pub fn init(e820: &crate::memory::e820::E820Info) -> (r: (
    BuddyAllocator,
    BuddyAllocator,
    AllowedRanges,
    PageTables,
))
    requires
        e820.wf(),
    ensures
        ({
            let (phys, virt, allowed, page_tables) = r;
            {
                &&& phys.wf()
                &&& forall|f: u64|
                    phys.avail().contains(f) <==> seeded_frame(e820.regions@, f)
                &&& virt.wf()
                &&& virt_pages_wf(&virt)
                &&& virt.avail() == Set::new(
                    |p: u64| VIRT_AVAIL_FIRST_PAGE <= p <= VIRT_AVAIL_LAST_PAGE,
                )
                &&& allowed.wf()
                &&& allowed@ == Map::<u64, (u64, u64)>::empty()
                &&& page_tables@ == Map::<u64, (u64, u64)>::empty()
            }
        }),
{
    let regions = &e820.regions;
    let n = regions.len();
    let mut phys = BuddyAllocator::new();
    let mut i: usize = 0;
    while i < n
        invariant
            e820.wf(),
            phys.wf(),
            n == regions@.len(),
            regions == e820.regions,
            i <= n,
            forall|f: u64|
                phys.avail().contains(f) <==> seeded_frame(regions@.take(i as int), f),
            forall|f: u64|
                phys.avail().contains(f) ==> i > 0 && f <= (#[trigger] regions@[i - 1]).1,
        decreases n - i,
    {
        let ghost pre = regions@.take(i as int);
        let ghost post = regions@.take(i as int + 1);
        proof {
            assert(post.drop_last() =~= pre);
            assert(post.last() == regions@[i as int]);
            assert(forall|j: int| 0 <= j < i ==> post[j] == regions@[j]);
        }
        let (s, e) = regions[i];
        if e <= KERNEL_RESERVED_FRAMES {
            // Wholly inside the kernel-reserved region: contribute nothing.
            proof {
                assert forall|f: u64|
                    seeded_frame(post, f) <==> seeded_frame(pre, f) by {
                    if seeded_frame(post, f) {
                        let j = choose|j: int|
                            0 <= j < post.len() && (#[trigger] post[j]).1 > KERNEL_RESERVED_FRAMES
                                && post[j].0 <= f <= post[j].1 && KERNEL_RESERVED_FRAMES <= f;
                        assert(j < i);
                        assert(pre[j] == post[j]);
                        assert(seeded_frame(pre, f));
                    }
                    if seeded_frame(pre, f) {
                        let j = choose|j: int|
                            0 <= j < pre.len() && (#[trigger] pre[j]).1 > KERNEL_RESERVED_FRAMES
                                && pre[j].0 <= f <= pre[j].1 && KERNEL_RESERVED_FRAMES <= f;
                        assert(post[j] == pre[j]);
                        assert(seeded_frame(post, f));
                    }
                }
            }
        } else {
            let chop_start = if s > KERNEL_RESERVED_FRAMES {
                s
            } else {
                KERNEL_RESERVED_FRAMES
            };
            proof {
                assert forall|f: u64| phys.avail().contains(f) implies f < chop_start by {
                    assert(regions@[i - 1].1 < regions@[i as int].0);
                }
            }
            phys.extend(chop_start, e);
            proof {
                assert forall|f: u64|
                    seeded_frame(post, f) <==> (seeded_frame(pre, f) || (chop_start <= f
                        <= e)) by {
                    if seeded_frame(post, f) {
                        let j = choose|j: int|
                            0 <= j < post.len() && (#[trigger] post[j]).1 > KERNEL_RESERVED_FRAMES
                                && post[j].0 <= f <= post[j].1 && KERNEL_RESERVED_FRAMES <= f;
                        if j < i {
                            assert(pre[j] == post[j]);
                            assert(seeded_frame(pre, f));
                        }
                    }
                    if seeded_frame(pre, f) {
                        let j = choose|j: int|
                            0 <= j < pre.len() && (#[trigger] pre[j]).1 > KERNEL_RESERVED_FRAMES
                                && pre[j].0 <= f <= pre[j].1 && KERNEL_RESERVED_FRAMES <= f;
                        assert(post[j] == pre[j]);
                        assert(seeded_frame(post, f));
                    }
                    if chop_start <= f <= e {
                        assert(post[i as int] == (s, e));
                        assert(seeded_frame(post, f));
                    }
                }
            }
        }
        i = i + 1;
    }
    proof {
        assert(regions@.take(n as int) =~= regions@);
    }

    let mut virt = BuddyAllocator::new();
    virt.extend(VIRT_AVAIL_FIRST_PAGE, VIRT_AVAIL_LAST_PAGE);
    proof {
        assert(virt.avail() =~= Set::new(
            |p: u64| VIRT_AVAIL_FIRST_PAGE <= p <= VIRT_AVAIL_LAST_PAGE,
        ));
    }

    (phys, virt, AllowedRanges::new(), PageTables::new())
}

/// Faults on two different pages consume two distinct physical frames: each
/// fault removes exactly its frame from the pool, and the second draws from
/// the pool the first left behind — so no frame is committed twice and no
/// frame is committed for a page that never faulted.
pub proof fn lemma_faults_consume_distinct_frames(
    a0: Set<u64>,
    a1: Set<u64>,
    a2: Set<u64>,
    f1: u64,
    f2: u64,
)
    requires
        a0.contains(f1),
        a1 == a0.remove(f1),
        a1.contains(f2),
        a2 == a1.remove(f2),
    ensures
        f1 != f2,
        a2 == a0.remove(f1).remove(f2),
{
}


/// Allocate a region of `npages` pages of virtual memory and register a
/// capability for it in one step.  Returns the handle; `None` comes back
/// only when no `npages` contiguous pages are free — out of virtual
/// memory, which the kernel treats as fatal.
pub fn valloc(
    npages: u64,
    vmem: &mut BuddyAllocator,
    registry: &mut CapRegistry,
) -> (r: Option<ResourceHandle<VirtualMemoryRegion>>)
    requires
        old(vmem).wf(),
        virt_pages_wf(old(vmem)),
        npages >= 1,
    ensures
        final(vmem).wf(),
        virt_pages_wf(final(vmem)),
        match r {
            Option::Some(h) => {
                &&& !old(registry)@.contains_key(h.spec_key())
                &&& exists|region: VirtualMemoryRegion|
                    {
                        &&& #[trigger] region.wf()
                        &&& region.spec_len() == npages * PAGE_SIZE
                        &&& final(registry)@ == old(registry)@.insert(
                            h.spec_key(),
                            Capability::VirtualMemoryRegion(region),
                        )
                    }
            },
            Option::None => {
                &&& *final(vmem) == *old(vmem)
                &&& final(registry)@ == old(registry)@
                &&& exhausted(old(vmem).avail(), npages)
            },
        },
{
    match VirtualMemoryRegion::allocate(vmem, npages) {
        Option::Some(mem) => {
            let ghost region = mem.resource;
            let handle = mem.register(registry);
            proof {
                assert(region.wf());
            }
            Option::Some(handle)
        },
        Option::None => Option::None,
    }
}

} // verus!
