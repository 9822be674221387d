//! The machine interface.
//!
//! Port reads and writes, descriptor-table loads, the `hlt`, `cli` and
//! `sti` instructions, and the naked interrupt entry stubs are hardware
//! collaborators; what the kernel keeps of them is the register file an
//! interrupt entry stub saves before dispatching, in the order the stub
//! pushes it.

use vstd::prelude::*;

verus! {

/// The registers saved on the interrupt stack by the common interrupt entry
/// path, handed to the dispatcher so the interrupted context can be
/// restored unchanged.
pub struct IrqContext {
    pub cr2: u64,
    pub r15: u64,
    pub r14: u64,
    pub r13: u64,
    pub r12: u64,
    pub r11: u64,
    pub r10: u64,
    pub r9: u64,
    pub r8: u64,
    pub rbp: u64,
    pub rdi: u64,
    pub rsi: u64,
    pub rdx: u64,
    pub rcx: u64,
    pub rbx: u64,
    pub rax: u64,
}

} // verus!
