//! Entries of the interrupt descriptor table.

use vstd::prelude::*;

verus! {

/// An entry in the IDT.
#[derive(Copy, Clone, PartialEq, Eq, Structural, Debug)]
pub struct IDTDescr {
    /// Offset bits 0..15.
    pub offset_1: u16,
    /// A code segment selector in GDT or LDT.
    pub selector: u16,
    /// Unused, set to 0.
    pub zero: u8,
    /// Type and attributes.
    pub type_attr: u8,
    /// Offset bits 16..31.
    pub offset_2: u16,
}

impl IDTDescr {
    /// Create an empty `IDTDescr`.
    pub fn new() -> (d: IDTDescr)
        ensures
            d == (IDTDescr { offset_1: 0, selector: 0, zero: 0, type_attr: 0, offset_2: 0 }),
    {
        IDTDescr { offset_1: 0, offset_2: 0, zero: 0, type_attr: 0, selector: 0 }
    }

    /// Set the offset of the descriptor to `offset`.
    pub fn set_offset(&mut self, offset: u32)
        ensures
            final(self).offset_1 == offset & 0xFFFF,
            final(self).offset_2 == (offset >> 16) & 0xFFFF,
            final(self).selector == old(self).selector,
            final(self).zero == old(self).zero,
            final(self).type_attr == old(self).type_attr,
    {
        proof {
            assert((offset & 0xFFFF) <= 0xFFFF && ((offset >> 16) & 0xFFFF) <= 0xFFFF)
                by (bit_vector);
        }
        self.offset_1 = (offset & 0xFFFF) as u16;
        self.offset_2 = ((offset >> 16) & 0xFFFF) as u16;
    }

    /// Set the type and attributes of the descriptor.
    pub fn set_type_attr(&mut self, present: bool, dpl: u8, storage_seg: bool, gate_type: u8)
        requires
            dpl <= 3,
            gate_type <= 15,
        ensures
            final(self).type_attr == ((if present { 1u8 } else { 0u8 }) << 7) | (dpl << 5) | ((
            if storage_seg {
                1u8
            } else {
                0u8
            }) << 4) | gate_type,
            final(self).offset_1 == old(self).offset_1,
            final(self).offset_2 == old(self).offset_2,
            final(self).selector == old(self).selector,
            final(self).zero == old(self).zero,
    {
        let p: u8 = if present { 1 } else { 0 };
        let s: u8 = if storage_seg { 1 } else { 0 };
        proof {
            assert((p << 7) | (dpl << 5) | (s << 4) | gate_type <= 0xFF) by (bit_vector)
                requires
                    p <= 1 && s <= 1 && dpl <= 3 && gate_type <= 15,
            ;
        }
        self.type_attr = (p << 7) | (dpl << 5) | (s << 4) | gate_type;
    }

    /// Set the segment selector of the descriptor.
    pub fn set_selector(&mut self, selector: u16)
        ensures
            *final(self) == (IDTDescr { selector, ..*old(self) }),
    {
        self.selector = selector;
    }
}

/// Register an interrupt handler for the given IRQ number.
///
/// The handler is identified by the 32-bit offset of its entry point; loading
/// the table into the CPU is the collaborator's job.
pub fn add_interrupt_handler(idt: &mut Vec<IDTDescr>, irq: u8, handler: u32, selector: u16)
    requires
        old(idt).len() == 256,
    ensures
        final(idt).len() == 256,
        final(idt)@[irq as int].offset_1 == handler & 0xFFFF,
        final(idt)@[irq as int].offset_2 == (handler >> 16) & 0xFFFF,
        final(idt)@[irq as int].selector == selector,
        final(idt)@[irq as int].type_attr == (1u8 << 7) | 0xE,
        forall|i: int| 0 <= i < 256 && i != irq as int ==> final(idt)@[i] == old(idt)@[i],
{
    let idx = irq as usize;
    let mut d = IDTDescr::new();
    d.set_offset(handler);
    d.set_selector(selector);
    d.set_type_attr(true, 0, false, 0xE);
    proof {
        assert((1u8 << 7) | (0u8 << 5) | (0u8 << 4) | 0xE == (1u8 << 7) | 0xE) by (bit_vector);
    }
    idt[idx] = d;
}

/// Register a trap handler for the given trap number with the given privilege level.
pub fn add_trap_handler(idt: &mut Vec<IDTDescr>, index: u8, handler: u32, selector: u16, dpl: u8)
    requires
        old(idt).len() == 256,
        dpl <= 3,
    ensures
        final(idt).len() == 256,
        final(idt)@[index as int].offset_1 == handler & 0xFFFF,
        final(idt)@[index as int].offset_2 == (handler >> 16) & 0xFFFF,
        final(idt)@[index as int].selector == selector,
        final(idt)@[index as int].type_attr == (1u8 << 7) | (dpl << 5) | 0xF,
        forall|i: int| 0 <= i < 256 && i != index as int ==> final(idt)@[i] == old(idt)@[i],
{
    let idx = index as usize;
    let mut d = IDTDescr::new();
    d.set_offset(handler);
    d.set_selector(selector);
    d.set_type_attr(true, dpl, false, 0xF);
    proof {
        assert((1u8 << 7) | (dpl << 5) | (0u8 << 4) | 0xF == (1u8 << 7) | (dpl << 5) | 0xF)
            by (bit_vector);
    }
    idt[idx] = d;
}

} // verus!
