//! The 64-bit task-state segment and its GDT descriptor.
//!
//! Loading the descriptor into the CPU (`ltr`) is a collaborator's job; this
//! module computes the exact bit layout the hardware expects.

use vstd::prelude::*;

verus! {

/// Number of 32-bit entries in a 64-bit TSS.
pub const TSS_ENTRIES: usize = 25;

/// The size of the TSS in bytes, used as the descriptor limit.
pub const TSS_LIMIT: u32 = 100;

/// The GDT descriptor that points at the TSS.
#[derive(Copy, Clone, PartialEq, Eq, Structural)]
pub struct TSSDescriptor {
    pub f0: u32,
    pub f1: u32,
    pub f2: u32,
    pub f3: u32,
}

/// The base address packed into a TSS descriptor: bits 16..32 of `f0` hold
/// the low 16 bits, bits 0..8 and 24..32 of `f1` hold the next two bytes,
/// and `f2` holds the upper 32 bits.
pub open spec fn descriptor_base(d: TSSDescriptor) -> u64 {
    (((d.f0 >> 16) & 0xFFFF) as u64) | (((d.f1 & 0xFF) as u64) << 16) | ((d.f1
        & 0xFF00_0000) as u64) | ((d.f2 as u64) << 32)
}

/// The segment limit packed into a TSS descriptor: bits 0..16 of `f0` and
/// bits 16..20 of `f1`.
pub open spec fn descriptor_limit(d: TSSDescriptor) -> u32 {
    (d.f0 & 0xFFFF) | (d.f1 & 0x000F_0000)
}

impl TSSDescriptor {
    /// Point this descriptor at a TSS at address `base`, with the fixed TSS
    /// limit, marked present, executable, 64-bit, and of TSS (not LDT) kind.
    pub fn set(&mut self, base: u64)
        ensures
            descriptor_base(*final(self)) == base,
            descriptor_limit(*final(self)) == TSS_LIMIT,
            final(self).f1 & ((1u32 << 8) | (1u32 << 11) | (1u32 << 21) | (1u32 << 15)) == ((1u32
                << 8) | (1u32 << 11) | (1u32 << 21) | (1u32 << 15)),
            final(self).f3 == 0,
    {
        let limit: u32 = TSS_LIMIT;
        let base_lower: u32 = (base & 0xFFFF_FFFF) as u32;
        let base_upper: u32 = (base >> 32) as u32;

        // clear
        self.f0 = 0;
        self.f1 = 0;
        self.f2 = 0;
        self.f3 = 0;

        // f0 [bbbbbbbbbbbbbbbbllllllllllllllll]
        // f1 [bbbbbbbb    llllp   ttttbbbbbbbb]
        // f2 [bbbbbbbbbbbbbbbbbbbbbbbbbbbbbbbb]
        // f3 [00000000000000000000000000000000]
        // set base
        self.f0 = (self.f0 & 0x0000_FFFF) | ((base_lower << 16) & 0xFFFF_0000);
        self.f1 = (self.f1 & 0xFFFF_FF00) | ((base_lower >> 16) & 0x0000_00FF);
        self.f1 = (self.f1 & 0x00FF_FFFF) | (base_lower & 0xFF00_0000);
        self.f2 = base_upper;

        // set limit
        self.f0 = (self.f0 & 0xFFFF_0000) | (limit & 0x0000_FFFF);
        self.f1 = (self.f1 & 0xFFF0_FFFF) | (limit & 0x000F_0000);

        // set "accessed" to indicate TSS, not LDT
        self.f1 = self.f1 | (1u32 << 8);

        // set "executable"
        self.f1 = self.f1 | (1u32 << 11);

        // 64-bit TSS
        self.f1 = self.f1 | (1u32 << 21);

        // set present
        self.f1 = self.f1 | (1u32 << 15);

        proof {
            let f0 = self.f0;
            let f1 = self.f1;
            let f2 = self.f2;
            assert((((f0 >> 16) & 0xFFFF) as u64) | (((f1 & 0xFF) as u64) << 16) | ((f1
                & 0xFF00_0000) as u64) | ((f2 as u64) << 32) == base && (f0 & 0xFFFF) | (f1
                & 0x000F_0000) == 100u32 && f1 & ((1u32 << 8) | (1u32 << 11) | (1u32 << 21) | (1u32
                << 15)) == ((1u32 << 8) | (1u32 << 11) | (1u32 << 21) | (1u32 << 15)))
                by (bit_vector)
                requires
                    f0 == (((0u32 & 0x0000_FFFF) | ((((base & 0xFFFF_FFFF) as u32) << 16)
                        & 0xFFFF_0000)) & 0xFFFF_0000) | (100u32 & 0x0000_FFFF),
                    f1 == (((((0u32 & 0xFFFF_FF00) | ((((base & 0xFFFF_FFFF) as u32) >> 16)
                        & 0x0000_00FF)) & 0x00FF_FFFF) | (((base & 0xFFFF_FFFF) as u32)
                        & 0xFF00_0000)) & 0xFFF0_FFFF) | (100u32 & 0x000F_0000) | (1u32 << 8) | (
                    1u32 << 11) | (1u32 << 21) | (1u32 << 15),
                    f2 == (base >> 32) as u32,
            ;
        }
    }
}

/// The task-state segment: 25 32-bit entries; entries 1 and 2 hold the
/// kernel stack pointer loaded on a ring transition (RSP0).
pub struct TSS {
    pub entries: Vec<u32>,
}

impl TSS {
    /// A TSS with every entry zeroed.
    pub fn new() -> (t: TSS)
        ensures
            t.entries@.len() == TSS_ENTRIES,
            forall|i: int| 0 <= i < TSS_ENTRIES ==> t.entries@[i] == 0,
    {
        let mut entries: Vec<u32> = Vec::new();
        let mut i: usize = 0;
        while i < TSS_ENTRIES
            invariant
                i <= TSS_ENTRIES,
                entries@.len() == i,
                forall|j: int| 0 <= j < i ==> entries@[j] == 0,
            decreases TSS_ENTRIES - i,
        {
            entries.push(0);
            i = i + 1;
        }
        TSS { entries }
    }

    /// Record `v` as RSP0: the low half in entry 1, the high half in entry 2.
    pub fn rsp0(&mut self, v: u64)
        requires
            old(self).entries@.len() == TSS_ENTRIES,
        ensures
            final(self).entries@ == old(self).entries@.update(1, (v & 0xFFFF_FFFF) as u32).update(
                2,
                (v >> 32) as u32,
            ),
            ((final(self).entries@[2] as u64) << 32) | (final(self).entries@[1] as u64) == v,
    {
        let lower: u32 = (v & 0xFFFF_FFFF) as u32;
        let upper: u32 = (v >> 32) as u32;

        self.entries[1] = lower;
        self.entries[2] = upper;

        proof {
            assert(((((v >> 32) as u32) as u64) << 32) | (((v & 0xFFFF_FFFF) as u32) as u64) == v)
                by (bit_vector);
        }
    }
}

} // verus!
