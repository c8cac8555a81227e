//! Model-specific registers.

use vstd::prelude::*;

verus! {

pub const IA32_EFER: u32 = 0xC000_0080;

pub const IA32_STAR: u32 = 0xC000_0081;

pub const IA32_LSTAR: u32 = 0xC000_0082;

pub const IA32_FMASK: u32 = 0xC000_0084;

/// What `swapgs` swaps in: the kernel's per-CPU pointer while user code runs.
pub const IA32_KERNEL_GS_BASE: u32 = 0xC000_0102;

/// One value on its way to a register.
#[derive(Debug, Clone, Copy, PartialEq, Eq, Structural)]
pub struct MsrWrite {
    pub msr: u32,
    pub value: u64,
}

} // verus!
