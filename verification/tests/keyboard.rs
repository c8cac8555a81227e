use harlan::arch::keyboard::{
    Decoder, Keyboard, ScancodeQueue, KEY_TABLE, QUEUE_CAPACITY, SC_LEFT_SHIFT,
};
use harlan::hal::console::ConsoleKey;

// ---- ScancodeQueue -------------------------------------------------

#[test]
fn empty_queue_pops_nothing() {
    assert_eq!(ScancodeQueue::new().pop(), None);
}

#[test]
fn queue_is_first_in_first_out() {
    let mut q = ScancodeQueue::new();
    for byte in [1, 2, 3] {
        assert!(q.push(byte));
    }
    assert_eq!(q.pop(), Some(1));
    assert_eq!(q.pop(), Some(2));
    assert_eq!(q.pop(), Some(3));
    assert_eq!(q.pop(), None);
}

#[test]
fn full_queue_rejects_new_bytes_and_keeps_the_old_ones() {
    let mut q = ScancodeQueue::new();
    for i in 0..QUEUE_CAPACITY {
        assert!(q.push(i as u8));
    }
    assert!(!q.push(0xFF), "a full queue must refuse, not overwrite");
    for i in 0..QUEUE_CAPACITY {
        assert_eq!(q.pop(), Some(i as u8));
    }
    assert_eq!(q.pop(), None);
}

#[test]
fn queue_survives_many_wraps_of_its_slot_array() {
    let mut q = ScancodeQueue::new();
    // Keep it half full while cycling ~50x through the slot array.
    for i in 0..QUEUE_CAPACITY / 2 {
        assert!(q.push(i as u8));
    }
    for i in 0..QUEUE_CAPACITY * 50 {
        assert!(q.push((i + QUEUE_CAPACITY / 2) as u8));
        assert_eq!(q.pop(), Some(i as u8));
    }
}

#[test]
fn a_slot_freed_by_pop_can_be_pushed_again_when_full() {
    let mut q = ScancodeQueue::new();
    for i in 0..QUEUE_CAPACITY {
        assert!(q.push(i as u8));
    }
    assert_eq!(q.pop(), Some(0));
    assert!(q.push(0xAA));
    assert!(!q.push(0xBB));
}

// ---- Decoder -------------------------------------------------------

fn decode(bytes: &[u8]) -> Vec<ConsoleKey> {
    let mut d = Decoder::new();
    bytes.iter().filter_map(|&b| d.feed(b)).collect()
}

#[test]
fn letters_digits_and_space_decode_unshifted() {
    // h e l l o SPACE 1
    assert_eq!(
        decode(&[0x23, 0x12, 0x26, 0x26, 0x18, 0x39, 0x02]),
        vec![
            ConsoleKey::Char('h'),
            ConsoleKey::Char('e'),
            ConsoleKey::Char('l'),
            ConsoleKey::Char('l'),
            ConsoleKey::Char('o'),
            ConsoleKey::Char(' '),
            ConsoleKey::Char('1'),
        ]
    );
}

#[test]
fn enter_and_backspace_have_their_own_variants() {
    assert_eq!(
        decode(&[0x1C, 0x0E]),
        vec![ConsoleKey::Enter, ConsoleKey::Backspace]
    );
}

#[test]
fn key_releases_produce_nothing() {
    // 'a' down, 'a' up (0x1E | 0x80)
    assert_eq!(decode(&[0x1E, 0x9E]), vec![ConsoleKey::Char('a')]);
}

#[test]
fn shift_makes_uppercase_and_symbols_only_while_held() {
    // LShift down, 'a', '1', LShift up, 'a', '1'
    assert_eq!(
        decode(&[0x2A, 0x1E, 0x02, 0xAA, 0x1E, 0x02]),
        vec![
            ConsoleKey::Char('A'),
            ConsoleKey::Char('!'),
            ConsoleKey::Char('a'),
            ConsoleKey::Char('1'),
        ]
    );
}

#[test]
fn right_shift_works_and_the_two_shifts_are_independent() {
    // RShift down, LShift down, LShift up, 'a' (RShift still held),
    // RShift up, 'a'
    assert_eq!(
        decode(&[0x36, 0x2A, 0xAA, 0x1E, 0xB6, 0x1E]),
        vec![ConsoleKey::Char('A'), ConsoleKey::Char('a')]
    );
}

/// The rows of a US keyboard, in scancode order, checked against the
/// physical layout independently of how `KEY_TABLE` is written — so a
/// table that is internally consistent but wrong (a swapped pair, an
/// off-by-one row) cannot pass.
#[test]
fn keyboard_rows_decode_to_the_physical_us_layout() {
    let rows: [(u8, &str, &str); 6] = [
        (0x02, "1234567890-=", "!@#$%^&*()_+"),
        (0x10, "qwertyuiop[]", "QWERTYUIOP{}"),
        (0x1E, "asdfghjkl;'`", "ASDFGHJKL:\"~"),
        (0x2B, "\\", "|"),
        (0x2C, "zxcvbnm,./", "ZXCVBNM<>?"),
        (0x39, " ", " "),
    ];
    for (first_code, unshifted, shifted) in rows {
        for (i, (lo, hi)) in unshifted.chars().zip(shifted.chars()).enumerate() {
            let code = first_code + i as u8;
            assert_eq!(
                decode(&[code]),
                vec![ConsoleKey::Char(lo)],
                "code {code:#x}"
            );
            assert_eq!(
                decode(&[SC_LEFT_SHIFT, code]),
                vec![ConsoleKey::Char(hi)],
                "code {code:#x} shifted"
            );
        }
    }
}

#[test]
fn every_table_entry_is_shell_typable_ascii() {
    let mut printable = 0;
    for &(lo, hi) in KEY_TABLE.iter().filter(|&&(lo, _)| lo != 0) {
        printable += 1;
        assert!(lo.is_ascii_graphic() || lo == b' ', "{lo:#x}");
        assert!(hi.is_ascii_graphic() || hi == b' ', "{hi:#x}");
    }
    // 26 letters + 10 digits + 11 symbols + space.
    assert_eq!(printable, 48);
}

#[test]
fn keys_without_a_mapping_are_unknown_not_silent() {
    // Esc, Tab, Left Ctrl, Left Alt, Caps Lock, F1
    assert_eq!(
        decode(&[0x01, 0x0F, 0x1D, 0x38, 0x3A, 0x3B]),
        vec![ConsoleKey::Unknown; 6]
    );
}

#[test]
fn extended_keys_are_unknown_and_their_releases_are_silent() {
    // Up arrow: E0 48 (down), E0 C8 (up)
    assert_eq!(decode(&[0xE0, 0x48, 0xE0, 0xC8]), vec![ConsoleKey::Unknown]);
}

#[test]
fn extended_prefix_does_not_let_the_next_byte_act_as_a_normal_key() {
    // E0 1C is keypad Enter, E0 2A a "fake shift": neither may be
    // decoded as the plain key/modifier with the same low byte.
    assert_eq!(decode(&[0xE0, 0x1C]), vec![ConsoleKey::Unknown]);
    assert_eq!(
        decode(&[0xE0, 0x2A, 0x1E, 0xE0, 0xAA]),
        vec![ConsoleKey::Unknown, ConsoleKey::Char('a')],
        "a fake shift must not capitalize the next key"
    );
}

#[test]
fn extended_prefix_state_does_not_leak_past_one_byte() {
    // E0 48 consumed the prefix; 'a' afterwards is a plain 'a'.
    assert_eq!(
        decode(&[0xE0, 0x48, 0x1E]),
        vec![ConsoleKey::Unknown, ConsoleKey::Char('a')]
    );
}

#[test]
fn out_of_table_codes_are_unknown() {
    assert_eq!(decode(&[0x7F]), vec![ConsoleKey::Unknown]);
}

// ---- Keyboard (queue + decoder together) ---------------------------

#[test]
fn keyboard_skips_non_key_bytes_and_returns_the_first_real_key() {
    let mut q = ScancodeQueue::new();
    // shift down, 'h', release, 'i'
    for byte in [0x2A, 0x23, 0xA3, 0x17] {
        assert!(q.push(byte));
    }
    let mut kb = Keyboard::new();
    assert_eq!(kb.read_key_from(&mut q), Some(ConsoleKey::Char('H')));
    assert_eq!(kb.read_key_from(&mut q), Some(ConsoleKey::Char('I')));
    assert_eq!(kb.read_key_from(&mut q), None);
}

#[test]
fn keyboard_reports_none_when_only_modifier_bytes_are_pending() {
    let mut q = ScancodeQueue::new();
    assert!(q.push(0x2A)); // Shift down: state only
    let mut kb = Keyboard::new();
    assert_eq!(kb.read_key_from(&mut q), None);
    assert!(q.push(0x1E));
    assert_eq!(
        kb.read_key_from(&mut q),
        Some(ConsoleKey::Char('A')),
        "decoder state must persist across calls"
    );
}
