//! Offsets inside the available ring.

use vstd::prelude::*;

verus! {

/// Interrupt suppression. Left at zero.
pub const FLAGS: u64 = 0;

/// How many entries have ever been published. A window, not a count.
pub const INDEX: u64 = 2;

/// The entries themselves, one `u16` each.
pub const RING: u64 = 4;

} // verus!
