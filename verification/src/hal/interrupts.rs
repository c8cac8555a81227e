//! Turning interrupts off and on.

use vstd::prelude::*;

verus! {

/// Critical sections: anything that must not be interrupted midway uses this
/// instead of inventing its own disable/enable pattern.
pub trait InterruptControl {
    /// Disables interrupts and returns whether they were enabled before this
    /// call, so callers can restore the prior state instead of
    /// unconditionally re-enabling (which would be wrong inside a nested
    /// critical section).
    fn disable(&self) -> bool;

    fn enable(&self);

    fn are_enabled(&self) -> bool;
}

} // verus!
