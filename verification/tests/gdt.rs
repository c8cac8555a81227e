use core::mem::size_of;
use harlan::arch::gdt::{flat_descriptor, tss_descriptor, TaskStateSegment};

/// Extracts byte `n` (0 = least significant) from a descriptor value,
/// so field-level assertions don't depend on hand-transcribing a full
/// 16-hex-digit literal (an easy way to introduce an untested typo).
fn byte_at(value: u64, n: u32) -> u64 {
    (value >> (n * 8)) & 0xFF
}

#[test]
fn code_segment_matches_known_good_reference_byte_by_byte() {
    // Reference layout for a flat, present, ring-0, 64-bit code segment
    // (readable, executable), per the well-known 0x00AF9A000000FFFF
    // used throughout OS-dev long-mode bring-up code: limit=0xFFFF,
    // base=0, access=0x9A, flags+limit_high=0xAF, base_high=0x00.
    let desc = flat_descriptor(true, true, true);
    assert_eq!(byte_at(desc, 0), 0xFF, "limit byte 0");
    assert_eq!(byte_at(desc, 1), 0xFF, "limit byte 1");
    assert_eq!(byte_at(desc, 2), 0x00, "base byte 0");
    assert_eq!(byte_at(desc, 3), 0x00, "base byte 1");
    assert_eq!(byte_at(desc, 4), 0x00, "base byte 2");
    assert_eq!(byte_at(desc, 5), 0x9A, "access byte");
    assert_eq!(byte_at(desc, 6), 0xAF, "flags nibble + limit high nibble");
    assert_eq!(byte_at(desc, 7), 0x00, "base byte 3");
}

#[test]
fn data_segment_matches_known_good_reference_byte_by_byte() {
    // Reference: 0x00CF92000000FFFF (access=0x92, flags+limit_high=0xCF).
    let desc = flat_descriptor(false, true, false);
    assert_eq!(byte_at(desc, 0), 0xFF, "limit byte 0");
    assert_eq!(byte_at(desc, 1), 0xFF, "limit byte 1");
    assert_eq!(byte_at(desc, 5), 0x92, "access byte");
    assert_eq!(byte_at(desc, 6), 0xCF, "flags nibble + limit high nibble");
}

#[test]
fn code_segment_present_bit_is_set() {
    let desc = flat_descriptor(true, true, true);
    assert_ne!(desc & (1 << 47), 0, "present bit must be set");
}

#[test]
fn code_segment_long_mode_bit_is_set_and_size32_is_clear() {
    let desc = flat_descriptor(true, true, true);
    assert_ne!(
        desc & (1 << 53),
        0,
        "L bit must be set for the 64-bit code segment"
    );
    assert_eq!(desc & (1 << 54), 0, "D/B bit must be clear when L is set");
}

#[test]
fn data_segment_long_mode_bit_is_clear() {
    let desc = flat_descriptor(false, true, false);
    assert_eq!(
        desc & (1 << 53),
        0,
        "L bit is meaningless for data segments and must be 0"
    );
}

#[test]
fn tss_descriptor_encodes_address_and_limit() {
    let (low, high) = tss_descriptor(0x1122_3344_5566_7788, 104);
    assert_eq!(low & 0xFFFF, 103, "limit must be size - 1");
    assert_eq!((low >> 16) & 0xFFFF, 0x7788, "base bits 15:0");
    assert_eq!((low >> 32) & 0xFF, 0x66, "base bits 23:16");
    assert_eq!((low >> 56) & 0xFF, 0x55, "base bits 31:24");
    assert_eq!(high, 0x1122_3344, "base bits 63:32");
    assert_ne!(low & (1 << 47), 0, "present bit must be set");
    assert_eq!(
        (low >> 40) & 0xF,
        0b1001,
        "type must be 'available 64-bit TSS'"
    );
}

#[test]
fn task_state_segment_is_104_bytes() {
    assert_eq!(size_of::<TaskStateSegment>(), 104);
}
