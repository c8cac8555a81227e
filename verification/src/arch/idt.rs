//! Minimal 64-bit interrupt descriptor table.

use vstd::prelude::*;

verus! {

pub const GATE_TYPE_INTERRUPT: u8 = 0b1110;

/// What the table's register takes as its limit: the last byte of 256
/// entries of 16 bytes.
pub const IDT_LIMIT: u16 = 4095;

/// One 16-byte interrupt/trap gate descriptor.
#[derive(Debug, Clone, Copy, PartialEq, Eq, Structural)]
pub struct IdtEntry {
    pub offset_low: u16,
    pub selector: u16,
    /// Bits 0-2: IST index (0 = don't switch stacks). Bits 3-7: reserved, 0.
    pub ist: u8,
    /// Present | DPL(2) | 0 (S bit) | gate type(4).
    pub type_attr: u8,
    pub offset_mid: u16,
    pub offset_high: u32,
    pub reserved: u32,
}

/// The fields of a gate, cut out of the handler's address.
proof fn address_bits(handler: u64)
    by (bit_vector)
    ensures
        handler & 0xFFFF == handler % 0x1_0000,
        (handler >> 16) & 0xFFFF == handler / 0x1_0000 % 0x1_0000,
        (handler >> 32) & 0xFFFF_FFFF == handler / 0x1_0000_0000,
{
}

/// The small fields of a gate.
proof fn attribute_bits(ist: u8, kind: u8)
    by (bit_vector)
    ensures
        ist & 0b111 == ist % 8,
        kind & 0b1111 == kind % 16,
        kind % 16 == kind ==> 128u8 | 0 | kind == 128 + kind,
        1u8 << 7 == 128,
        0u8 << 5 == 0,
{
}

impl IdtEntry {
    /// The address that this descriptor leads to.
    pub open spec fn handler(self) -> int {
        self.offset_low + 0x1_0000 * self.offset_mid + 0x1_0000_0000 * self.offset_high
    }

    /// Whether the processor may use this descriptor.
    pub open spec fn is_present(self) -> bool {
        self.type_attr >= 0x80
    }

    /// A ring 0 gate to `handler`.
    pub open spec fn gate(self, handler: u64, selector: u16, ist: u8, gate_type: u8) -> bool {
        &&& self.handler() == handler
        &&& self.selector == selector
        &&& self.ist == ist % 8
        &&& self.type_attr == 0x80 + gate_type % 16
        &&& self.reserved == 0
    }

    pub fn missing() -> (r: Self)
        ensures
            r == (IdtEntry {
                offset_low: 0,
                selector: 0,
                ist: 0,
                type_attr: 0,
                offset_mid: 0,
                offset_high: 0,
                reserved: 0,
            }),
            !r.is_present(),
    {
        IdtEntry {
            offset_low: 0,
            selector: 0,
            ist: 0,
            type_attr: 0,
            offset_mid: 0,
            offset_high: 0,
            reserved: 0,
        }
    }

    /// `ist`: 0 for "use the current stack" (no forced switch), 1-7 to force
    /// switching to `TaskStateSegment::ist[ist - 1]`.
    pub fn new(handler: u64, selector: u16, ist: u8, gate_type: u8) -> (r: Self)
        ensures
            r.gate(handler, selector, ist, gate_type),
            r.is_present(),
            r.offset_low + 0x1_0000 * r.offset_mid + 0x1_0000_0000 * r.offset_high == handler,
            r.selector == selector,
            r.ist == ist % 8,
            r.type_attr == 0x80 + gate_type % 16,
            r.reserved == 0,
    {
        proof {
            address_bits(handler);
            attribute_bits(ist, gate_type);
            attribute_bits(ist, gate_type & 0b1111);
        }
        let present: u8 = 1u8 << 7;
        let dpl_ring0: u8 = 0u8 << 5;
        let type_attr: u8 = present | dpl_ring0 | (gate_type & 0b1111);
        IdtEntry {
            offset_low: (handler & 0xFFFF) as u16,
            selector,
            ist: ist & 0b111,
            type_attr,
            offset_mid: ((handler >> 16) & 0xFFFF) as u16,
            offset_high: ((handler >> 32) & 0xFFFF_FFFF) as u32,
            reserved: 0,
        }
    }

    /// The 16 bytes of the descriptor as the processor reads them, as two
    /// words, the one at the lower address first.
    pub fn words(self) -> (r: (u64, u64))
        ensures
            r.0 == self.offset_low + 0x1_0000 * self.selector + 0x1_0000_0000 * self.ist
                + 0x100_0000_0000 * self.type_attr + 0x1_0000_0000_0000 * self.offset_mid,
            r.1 == self.offset_high + 0x1_0000_0000 * self.reserved,
    {
        (
            self.offset_low as u64 + 0x1_0000 * (self.selector as u64) + 0x1_0000_0000 * (
            self.ist as u64) + 0x100_0000_0000 * (self.type_attr as u64) + 0x1_0000_0000_0000 * (
            self.offset_mid as u64),
            self.offset_high as u64 + 0x1_0000_0000 * (self.reserved as u64),
        )
    }
}

/// A gate is told by where it leads and how: nothing else is left open.
pub proof fn gates_are_unique(
    a: IdtEntry,
    b: IdtEntry,
    handler: u64,
    selector: u16,
    ist: u8,
    gate_type: u8,
)
    requires
        a.gate(handler, selector, ist, gate_type),
        b.gate(handler, selector, ist, gate_type),
    ensures
        a == b,
{
}

pub struct Idt(pub [IdtEntry; 256]);

impl Idt {
    /// A table without a single gate.
    pub fn new() -> (r: Self)
        ensures
            forall|v: int|
                0 <= v < 256 ==> (#[trigger] r.0@[v]) == (IdtEntry {
                    offset_low: 0,
                    selector: 0,
                    ist: 0,
                    type_attr: 0,
                    offset_mid: 0,
                    offset_high: 0,
                    reserved: 0,
                }),
            forall|v: int| 0 <= v < 256 ==> !(#[trigger] r.0@[v]).is_present(),
    {
        Idt([IdtEntry::missing();256])
    }
}

} // verus!
