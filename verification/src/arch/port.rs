//! I/O ports, as plain values: which byte goes to which port.

use vstd::prelude::*;

verus! {

/// One byte on its way to a port.
#[derive(Debug, Clone, Copy, PartialEq, Eq, Structural)]
pub struct PortWrite {
    pub port: u16,
    pub value: u8,
}

} // verus!
