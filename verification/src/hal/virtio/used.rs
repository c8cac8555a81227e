//! Offsets inside the used ring.

use vstd::prelude::*;

verus! {

pub const FLAGS: u64 = 0;

/// How many entries the device has ever returned.
pub const INDEX: u64 = 2;

/// The entries, eight bytes each: the head descriptor's index, then how many
/// bytes were written.
pub const RING: u64 = 4;

pub const ENTRY_BYTES: u64 = 8;

} // verus!
