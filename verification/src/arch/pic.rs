//! Legacy 8259 interrupt controllers.

use crate::arch::port::PortWrite;
use vstd::prelude::*;

verus! {

pub const MASTER_PIC_DATA: u16 = 0x21;

pub const SLAVE_PIC_DATA: u16 = 0xA1;

/// The writes that mask every line of both controllers.
///
/// Masking only reduces which lines can reach the processor, whatever state
/// the controllers were in before.
pub fn mask_all() -> (r: [PortWrite; 2])
    ensures
        r@ == seq![
            PortWrite { port: MASTER_PIC_DATA, value: 0xFF },
            PortWrite { port: SLAVE_PIC_DATA, value: 0xFF },
        ],
        r@[0].port == 0x21 && r@[0].value == 0xFF,
        r@[1].port == 0xA1 && r@[1].value == 0xFF,
{
    let writes = [
        PortWrite { port: MASTER_PIC_DATA, value: 0xFF },
        PortWrite { port: SLAVE_PIC_DATA, value: 0xFF },
    ];
    assert(writes@ =~= seq![
        PortWrite { port: MASTER_PIC_DATA, value: 0xFF },
        PortWrite { port: SLAVE_PIC_DATA, value: 0xFF },
    ]);
    writes
}

} // verus!
