//! What the processor's flags say.

use vstd::prelude::*;

verus! {

/// Whether interrupts are enabled: `IF` is bit 9 of the flags.
pub fn interrupts_enabled(rflags: u64) -> (r: bool)
    ensures
        r == (rflags / 0x200 % 2 == 1),
{
    assert(rflags & 0x200 != 0 <==> rflags / 0x200 % 2 == 1) by (bit_vector);
    rflags & 0x200 != 0
}

} // verus!
