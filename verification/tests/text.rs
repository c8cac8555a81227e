use harlan::hal::addr::{PhysAddr, VirtAddr};
use harlan::hal::console::Console;
use harlan::hal::hex::{alternate_hex, decimal, lower_hex};
use harlan::hal::klog::Level;
use harlan::vga::{VgaConsole, VGA_CELLS, VGA_WIDTH};

#[test]
fn numbers_are_written_in_the_base_asked_for() {
    for value in [0, 1, 9, 10, 15, 16, 255, 0x1234, 0xABCDEF, u64::MAX - 1, u64::MAX] {
        assert_eq!(lower_hex(value), format!("{value:x}"));
        assert_eq!(alternate_hex(value), format!("{value:#x}"));
        assert_eq!(decimal(value), format!("{value}"));
    }
}

#[test]
fn addresses_say_which_kind_they_are() {
    assert_eq!(VirtAddr::new(0xBEEF).to_debug(), "VirtAddr(0xbeef)");
    assert_eq!(VirtAddr::new(0).to_display(), "0x0");
    assert_eq!(VirtAddr::new(0xBEEF).to_lower_hex(), "beef");
    assert_eq!(PhysAddr::new(u64::MAX).to_display(), "0xffffffffffffffff");
}

#[test]
fn only_address_zero_is_a_multiple_of_zero() {
    assert!(PhysAddr::new(0).is_aligned_to(0));
    assert!(!PhysAddr::new(8).is_aligned_to(0));
    assert_eq!(PhysAddr::new(17).align_down(5), PhysAddr::new(15));
    assert_eq!(PhysAddr::new(7).saturating_sub(PhysAddr::new(9)), 0);
    assert_eq!(VirtAddr::new(7) + 9, VirtAddr::new(16));
    assert_eq!(VirtAddr::new(7).checked_add(9), Some(VirtAddr::new(16)));
    assert_eq!(VirtAddr::new(9).checked_add(u64::MAX), None);
    assert!(VirtAddr::new(0x3000).is_aligned_to(0x1000));
}

#[test]
fn levels_line_up() {
    assert_eq!(Level::Error.name(), "ERROR");
    assert_eq!(Level::Warn.name(), " WARN");
    assert_eq!(Level::Info.name(), " INFO");
}

fn cell(byte: u8) -> u16 {
    0x0F00 | u16::from(byte)
}

#[test]
fn vga_text_wraps_and_scrolls() {
    let mut cells = vec![0u16; VGA_CELLS + 5];
    let mut console = VgaConsole::new(&mut cells);
    console.clear();
    assert_eq!(console.read_key(), None);
    for line in 0..24u8 {
        let text = [b'a' + line, b'\n'];
        console.write_str(core::str::from_utf8(&text).unwrap());
    }
    // The last line is full: it wraps only when another byte comes.
    let full: String = (0..VGA_WIDTH).map(|_| 'z').collect();
    console.write_str(&full);
    console.write_str("!");
    assert_eq!(cells[0], cell(b'b'), "the first line has scrolled away");
    assert_eq!(cells[22 * VGA_WIDTH], cell(b'x'));
    for col in 0..VGA_WIDTH {
        assert_eq!(cells[23 * VGA_WIDTH + col], cell(b'z'));
    }
    assert_eq!(cells[24 * VGA_WIDTH], cell(b'!'));
    assert_eq!(cells[24 * VGA_WIDTH + 1], cell(b' '));
    assert_eq!(cells[VGA_CELLS..], [0; 5], "nothing past the buffer");
}

#[test]
fn clearing_vga_blanks_every_cell_and_goes_back_to_the_first() {
    let mut cells = vec![1u16; VGA_CELLS];
    let mut console = VgaConsole::new(&mut cells);
    console.write_str("ab\nc");
    console.clear();
    console.write_str("x");
    assert_eq!(cells[0], cell(b'x'));
    assert!(cells[1..].iter().all(|c| *c == cell(b' ')));
}
