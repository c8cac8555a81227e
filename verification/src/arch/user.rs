//! Leaving the kernel for ring 3.

use vstd::prelude::*;

verus! {

/// Interrupts on, and bit 1, which is always set.
pub const USER_RFLAGS: u64 = 0x202;

} // verus!
