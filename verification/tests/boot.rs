use harlan::arch::keyboard::ScancodeQueue;
use harlan::boot::console::{read_key, Polled};
use harlan::boot::console_hw::HardwareConsole;
use harlan::boot::framebuffer::{check_format, query, Mode, ModeError, PixelFormat};
use harlan::boot::image::{locate_code, query_with_code, CodeError};
use harlan::boot::memory::{build_memory_map, Descriptor};
use harlan::boot::runtime::{relocate, RelocateError, MAX_RUNTIME};
use harlan::fbcon::{FramebufferSurface, FOREGROUND};
use harlan::hal::addr::{PhysAddr, VirtAddr};
use harlan::hal::console::ConsoleKey;
use harlan::hal::frame::PhysRange;
use harlan::hal::framebuffer::FramebufferInfo;
use harlan::hal::memory_map::{MemoryMap, MemoryRegion, MemoryRegionKind};
use harlan::hal::pe::PeError;

const RUNTIME: u64 = 1 << 63;

fn descriptor(ty: u32, phys_start: u64, attributes: u64) -> Descriptor {
    Descriptor {
        ty,
        phys_start,
        virt_start: 0,
        page_count: 3,
        attributes,
    }
}

#[test]
fn the_firmwares_map_becomes_the_kernels() {
    let entries = [
        descriptor(7, 0x1000, 0xF),
        descriptor(4, 0x9000, 0xF),
        descriptor(5, 0xF000, RUNTIME),
        descriptor(0, 0x2_0000, 0),
    ];
    let (map, dropped) = build_memory_map(&entries);
    assert_eq!(dropped, 0);
    let region = |start, kind| MemoryRegion {
        start_phys_addr: PhysAddr::new(start),
        page_count: 3,
        kind,
    };
    assert_eq!(
        map.as_slice(),
        [
            region(0x1000, MemoryRegionKind::Usable),
            region(0x9000, MemoryRegionKind::BootServices),
            region(0xF000, MemoryRegionKind::RuntimeCode),
            region(0x2_0000, MemoryRegionKind::Reserved),
        ]
    );
    assert_eq!(map.iter().count(), 4);
}

#[test]
fn regions_that_do_not_fit_are_counted() {
    let entries: Vec<Descriptor> = (0..MemoryMap::CAPACITY as u64 + 3)
        .map(|n| descriptor(7, n * 0x3000, 0))
        .collect();
    let (map, dropped) = build_memory_map(&entries);
    assert_eq!(map.len(), MemoryMap::CAPACITY);
    assert_eq!(dropped, 3);
    assert_eq!(map.as_slice()[255].start_phys_addr, PhysAddr::new(255 * 0x3000));
}

#[test]
fn only_what_the_firmware_still_runs_in_moves() {
    let base = 0xFFFF_8280_0000_0000;
    let mut map = vec![
        descriptor(7, 0x1000, 0xF),
        descriptor(5, 0x9000, RUNTIME | 0xF),
        descriptor(6, 0xF000, RUNTIME),
    ];
    let moved = relocate(&mut map, VirtAddr::new(base)).unwrap();
    let at = |descriptor: Descriptor, virt_start| Descriptor {
        virt_start,
        ..descriptor
    };
    assert_eq!(
        moved,
        [
            at(descriptor(5, 0x9000, RUNTIME | 0xF), base + 0x9000),
            at(descriptor(6, 0xF000, RUNTIME), base + 0xF000),
        ]
    );
    assert_eq!(map[0], descriptor(7, 0x1000, 0xF));
    assert_eq!(map[1..], moved[..]);
}

#[test]
fn a_map_with_nothing_to_move_or_too_much_is_refused() {
    let mut none = vec![descriptor(7, 0x1000, !RUNTIME)];
    assert_eq!(
        relocate(&mut none, VirtAddr::new(0x100)),
        Err(RelocateError::NothingToMove)
    );
    assert_eq!(none, [descriptor(7, 0x1000, !RUNTIME)]);
    let mut full = vec![descriptor(5, 0x1000, RUNTIME); MAX_RUNTIME];
    assert_eq!(
        relocate(&mut full, VirtAddr::new(0)).map(|moved| moved.len()),
        Ok(MAX_RUNTIME)
    );
    let mut many = vec![descriptor(5, 0x1000, RUNTIME); MAX_RUNTIME + 1];
    assert_eq!(
        relocate(&mut many, VirtAddr::new(0)),
        Err(RelocateError::TooMany)
    );
    // What lies past the last that can be carried is not even added up.
    many[MAX_RUNTIME].phys_start = u64::MAX;
    assert_eq!(
        relocate(&mut many, VirtAddr::new(0x10)),
        Err(RelocateError::TooMany)
    );
    assert_eq!(many[0].virt_start, 0x1010);
    assert_eq!(many[MAX_RUNTIME], descriptor(5, u64::MAX, RUNTIME));
}

#[test]
fn only_formats_that_agree_on_white_are_drawn_on() {
    assert_eq!(check_format(PixelFormat::Rgb), Ok(()));
    let mode = |format| Mode {
        format,
        width: 1280,
        height: 800,
        stride: 1288,
    };
    for format in [PixelFormat::Rgb, PixelFormat::Bgr] {
        assert_eq!(
            query(mode(format), 0x8000_0000, 0x40_0000),
            Ok(FramebufferInfo {
                base_addr: 0x8000_0000,
                width: 1280,
                height: 800,
                stride: 1288,
                size_bytes: 0x40_0000,
            })
        );
    }
    for format in [PixelFormat::Bitmask, PixelFormat::BltOnly] {
        assert_eq!(
            query(mode(format), 0, 0),
            Err(ModeError::UnsupportedFormat(format))
        );
    }
    let huge = Mode {
        stride: 1 << 32,
        ..mode(PixelFormat::Rgb)
    };
    assert_eq!(query(huge, 0, 0), Err(ModeError::TooLarge));
}

/// An image with one executable section of 0x2000 bytes at 0x1000.
fn image() -> Vec<u8> {
    let mut image = vec![0; 0x200];
    image[0x3C] = 0x40;
    image[0x40..0x44].copy_from_slice(b"PE\0\0");
    image[0x46] = 1;
    image[0x54] = 0x20;
    image[0x58..0x5A].copy_from_slice(&[0x0B, 0x02]);
    let header = 0x40 + 24 + 0x20;
    image[header + 9] = 0x20;
    image[header + 13] = 0x10;
    image[header + 39] = 0x20;
    image
}

#[test]
fn the_code_of_an_image_is_located_or_all_of_it_stays_executable() {
    let base = PhysAddr::new(0x100_0000);
    let range = PhysRange::new(base, 0x200);
    let code = locate_code(&image(), base).unwrap();
    assert_eq!(
        code.as_slice(),
        [PhysRange::new(PhysAddr::new(0x100_1000), 0x2000)]
    );
    assert_eq!(query_with_code(range, &image()).code, Some(code));
    assert_eq!(query_with_code(range, &image()).range, range);

    let top = PhysAddr::new(u64::MAX - 0x2000);
    assert_eq!(locate_code(&image(), top), Err(CodeError::OutsideMemory));
    assert_eq!(
        locate_code(&[0; 0x20], base),
        Err(CodeError::Headers(PeError::Truncated))
    );
    assert_eq!(query_with_code(range, &[0; 0x20]).code, None);
}

#[test]
fn the_firmwares_keys_become_the_kernels() {
    assert_eq!(
        read_key(Polled::Printable(0x41)),
        Some(ConsoleKey::Char('A'))
    );
    assert_eq!(
        read_key(Polled::Printable(0xF1)),
        Some(ConsoleKey::Char('ñ'))
    );
    assert_eq!(
        read_key(Polled::Printable(0x20AC)),
        Some(ConsoleKey::Char('€'))
    );
    assert_eq!(read_key(Polled::Printable(0x0D)), Some(ConsoleKey::Enter));
    assert_eq!(
        read_key(Polled::Printable(0x08)),
        Some(ConsoleKey::Backspace)
    );
    assert_eq!(read_key(Polled::Printable(0xD800)), None);
    assert_eq!(read_key(Polled::Special), Some(ConsoleKey::Unknown));
    assert_eq!(read_key(Polled::Nothing), None);
    assert_eq!(read_key(Polled::Failed), None);
}

#[test]
fn the_hardware_console_draws_and_reads() {
    let mut pixels = vec![7u32; 64 * 48];
    let info = FramebufferInfo {
        base_addr: 0x1000,
        width: 64,
        height: 48,
        stride: 64,
        size_bytes: 64 * 48 * 4,
    };
    let surface = FramebufferSurface::new(&info, &mut pixels);
    let mut console = HardwareConsole::new(surface);
    console.write_str("A");
    let mut queue = ScancodeQueue::new();
    assert!(queue.push(0x1C));
    assert_eq!(console.read_key(&mut queue), Some(ConsoleKey::Enter));
    assert_eq!(console.read_key(&mut queue), None);
    assert!(pixels.contains(&FOREGROUND));
    assert!(!pixels.contains(&7), "it was cleared first");
}

#[test]
fn a_console_without_a_display_drops_its_output() {
    let mut console: HardwareConsole<FramebufferSurface<'static>> = HardwareConsole::new(None);
    console.write_str("nobody sees this\u{8}");
    console.clear();
    let mut queue = ScancodeQueue::new();
    assert!(queue.push(0x39));
    assert_eq!(console.read_key(&mut queue), Some(ConsoleKey::Char(' ')));
}
