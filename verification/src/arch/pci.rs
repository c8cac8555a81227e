//! Reaching PCI configuration space on x86_64: write which function and which
//! dword to one port, read the four bytes from another.

use crate::hal::pci::MAX_DEVICES;
use vstd::prelude::*;

verus! {

/// Where the address of what to read goes.
pub const CONFIG_ADDRESS: u16 = 0xCF8;

/// And where the four bytes come back.
pub const CONFIG_DATA: u16 = 0xCFC;

/// How many functions a scan can keep, for whoever reports the result.
pub const KEPT_AT_MOST: usize = MAX_DEVICES;

} // verus!
