//! Ticks.

use vstd::prelude::*;

verus! {

/// Read-only view of a monotonic tick counter driven by a hardware timer
/// interrupt. The counter itself is only ever written by the timer's own
/// interrupt handler.
pub trait TickCounter {
    /// The ticks counted so far.
    open spec fn counted(&self) -> u64 {
        arbitrary()
    }

    fn ticks(&self) -> (r: u64)
        ensures
            r == self.counted(),
    ;
}

} // verus!
