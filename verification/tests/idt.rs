use core::mem::size_of;
use harlan::arch::idt::{IdtEntry, GATE_TYPE_INTERRUPT};

#[test]
fn idt_entry_is_16_bytes() {
    assert_eq!(size_of::<IdtEntry>(), 16);
}

#[test]
fn new_entry_splits_handler_address_across_three_fields() {
    let entry = IdtEntry::new(0x1122_3344_5566_7788, 0x08, 0, GATE_TYPE_INTERRUPT);
    assert_eq!(entry.offset_low, 0x7788);
    assert_eq!(entry.offset_mid, 0x5566);
    assert_eq!(entry.offset_high, 0x1122_3344);
    assert_eq!(entry.selector, 0x08);
}

#[test]
fn new_entry_sets_present_bit() {
    let entry = IdtEntry::new(0, 0x08, 0, GATE_TYPE_INTERRUPT);
    assert_ne!(entry.type_attr & 0x80, 0);
}

#[test]
fn new_entry_encodes_gate_type_in_low_nibble() {
    let entry = IdtEntry::new(0, 0x08, 0, GATE_TYPE_INTERRUPT);
    assert_eq!(entry.type_attr & 0x0F, GATE_TYPE_INTERRUPT);
}

#[test]
fn new_entry_masks_ist_to_three_bits() {
    let entry = IdtEntry::new(0, 0x08, 0xFF, GATE_TYPE_INTERRUPT);
    assert_eq!(entry.ist, 0b111);
}

#[test]
fn missing_entry_has_present_bit_clear() {
    let entry = IdtEntry::missing();
    assert_eq!(entry.type_attr & 0x80, 0);
}
