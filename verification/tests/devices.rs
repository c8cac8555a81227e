use harlan::hal::frame::{PhysFrame, PhysRange};
use harlan::hal::addr::{PhysAddr, VirtAddr};
use harlan::hal::memory_map::{CachePolicy, MemoryMap};
use harlan::hal::paging::{MappedRange, PageFlags};
use harlan::hal::pci::simulated::{Dword, SimulatedSpace};
use harlan::hal::pci::{
    capabilities, read_header, scan, Address, Bar, Capability, ConfigSpace, Devices, Header,
    CAPABILITY_LIMIT,
};
use harlan::hal::pe::{code_sections, relocations, CodeRanges, PeError, MAX_CODE_SECTIONS};
use harlan::hal::virtio::{
    available, common_config_location, locations, used, Access, CommonConfig, QueueLayout, Queue,
    Structure, Width, COMMON_CONFIG_BYTES, DESCRIPTOR_BYTES,
};

const AT: Address = Address {
    bus: 0,
    device: 3,
    function: 0,
};

fn dword(offset: u8, value: u32) -> Dword {
    Dword {
        at: AT,
        offset,
        value,
    }
}

/// A function with a header and a capability list that starts at `first`.
fn function(first: u32, more: &[(u8, u32)]) -> SimulatedSpace {
    let mut dwords = vec![dword(0, 0x1042_1AF4), dword(4, 1 << 20), dword(0x34, first)];
    dwords.extend(more.iter().map(|(offset, value)| dword(*offset, *value)));
    SimulatedSpace::new(dwords)
}

#[test]
fn nothing_on_the_bus_reads_as_all_ones() {
    let mut space = function(0, &[]);
    let nobody = Address { device: 4, ..AT };
    assert_eq!(space.read_dword(nobody, 0), 0xFFFF_FFFF);
    assert_eq!(space.read_dword(AT, 0), 0x1042_1AF4);
    assert_eq!(space.log, [(nobody, 0), (AT, 0)]);
    assert_eq!(read_header(&mut space, nobody), None);
    assert_eq!(space.log.len(), 3, "the vendor was asked for, and no more");
}

#[test]
fn the_simulated_bus_can_be_scanned() {
    let mut space = function(0, &[]);
    let devices = scan(&mut space);
    assert_eq!(devices.len(), 1);
    assert_eq!(devices.get(0).map(|f| f.at), Some(AT));
    assert_eq!(devices.get(1), None);
    assert_eq!(devices.iter().len(), 1);
    // All other dwords read as ones, so the header claims to be of a device
    // with several functions; the other seven are asked about and not there.
    assert_eq!(space.log.len(), 256 * 32 + 15 + 7);
}

#[test]
fn every_class_has_some_name() {
    let named = |class: u8, subclass: u8| {
        let mut words = [0u32; 16];
        words[2] = u32::from(class) << 24 | u32::from(subclass) << 16;
        Header::from_config(&words).unwrap().class_name()
    };
    for (class, subclass, name) in [
        (0x00, 0x05, "unclassified"),
        (0x01, 0x00, "SCSI storage"),
        (0x01, 0x01, "IDE storage"),
        (0x01, 0x06, "SATA storage"),
        (0x01, 0x08, "NVMe storage"),
        (0x01, 0x02, "storage"),
        (0x02, 0x00, "network"),
        (0x03, 0x00, "display"),
        (0x04, 0x01, "multimedia"),
        (0x06, 0x00, "host bridge"),
        (0x06, 0x01, "ISA bridge"),
        (0x06, 0x04, "PCI-to-PCI bridge"),
        (0x06, 0x07, "bridge"),
        (0x0C, 0x03, "USB controller"),
        (0x0C, 0x05, "serial bus"),
        (0xFF, 0xFF, "something else"),
    ] {
        assert_eq!(named(class, subclass), name);
    }
}

#[test]
fn an_empty_table_of_devices_finds_nothing() {
    let devices = Devices::default();
    assert!(devices.is_empty());
    assert_eq!(devices.find_class(1, 0), None);
    assert_eq!(Bar::Ports { base: 0x10 }.entries(), 1);
}

#[test]
fn a_list_of_one_capability_that_names_itself_is_followed_to_the_limit() {
    let mut space = function(0x40, &[(0x40, 0x11 | 0x40 << 8)]);
    let found = capabilities(&mut space, AT);
    assert_eq!(found.len(), CAPABILITY_LIMIT);
    assert!(found
        .iter()
        .all(|c| *c == Capability { id: 0x11, offset: 0x40 }));
}

#[test]
fn a_common_structure_too_short_for_its_registers_is_passed_over() {
    let common = |next: u32| 0x0110_0009 | next << 8;
    let mut space = function(
        0x40,
        &[
            (0x40, common(0x60)),
            (0x44, 2),
            (0x48, 0),
            (0x4C, COMMON_CONFIG_BYTES - 1),
            (0x60, common(0)),
            (0x64, 4),
            (0x68, 0x100),
            (0x6C, COMMON_CONFIG_BYTES),
        ],
    );
    assert_eq!(locations(&mut space, AT).len(), 2);
    let found = common_config_location(&mut space, AT).unwrap();
    assert_eq!((found.bar, found.offset), (4, 0x100));
    let mut short = function(
        0x40,
        &[(0x40, common(0)), (0x44, 2), (0x48, 0), (0x4C, 1)],
    );
    assert_eq!(common_config_location(&mut short, AT), None);
}

#[test]
fn a_capability_at_the_end_of_configuration_space_is_read_as_far_as_it_goes() {
    // At 0xF0 four dwords fit and a multiplier does not; at 0xF4 not even
    // the four.
    let mut space = function(
        0xF0,
        &[
            (0xF0, 0x0214_0009),
            (0xF4, 0x0000_0001),
            (0xF8, 0x3000),
            (0xFC, 0x1000),
        ],
    );
    let found = locations(&mut space, AT);
    assert_eq!(found.len(), 1);
    assert_eq!(found[0].structure, Structure::Notify);
    assert_eq!(found[0].notify_multiplier, None);
    let mut space = function(0xF4, &[(0xF4, 0x0214_0009), (0xF8, 1), (0xFC, 1)]);
    assert_eq!(locations(&mut space, AT), []);
    let offsets: Vec<u8> = space.log.iter().map(|(_, offset)| *offset).collect();
    assert_eq!(offsets, [0x04, 0x34, 0xF4, 0xF4, 0xF8, 0xFC]);
}

#[test]
fn registers_have_their_widths() {
    let config = CommonConfig::new(VirtAddr::new(0x1000));
    assert_eq!(
        config.status(),
        Access::Read {
            at: VirtAddr::new(0x1014),
            width: Width::Byte
        }
    );
    assert_eq!(
        config.set_queue_addresses(1, 2, 3)[2],
        Access::Write {
            at: VirtAddr::new(0x1030),
            width: Width::Qword,
            value: 3
        }
    );
    assert!(!CommonConfig::is_enabled(0));
}

#[test]
fn a_structure_may_end_with_the_address_space() {
    let base = u64::MAX - u64::from(COMMON_CONFIG_BYTES) + 1;
    let config = CommonConfig::new(VirtAddr::new(base));
    assert_eq!(
        config.set_queue_addresses(1, 2, 3)[2],
        Access::Write {
            at: VirtAddr::new(base + 0x30),
            width: Width::Qword,
            value: 3
        }
    );
    let layout = QueueLayout {
        size: 4,
        descriptors: 0,
        available: 0x40,
        used: 0x60,
    };
    let base = u64::MAX - (0x60 + used::RING + 4 * used::ENTRY_BYTES) + 1;
    let queue = Queue::new(VirtAddr::new(base), layout);
    assert_eq!(
        queue.completion(3)[1],
        Access::Read {
            at: VirtAddr::new(u64::MAX - 3),
            width: Width::Dword
        }
    );
}

#[test]
fn the_parts_of_every_queue_stay_apart() {
    for size in [1u16, 2, 4, 8, 16, 32, 64] {
        let layout = QueueLayout::in_one_frame(size, 4096).unwrap();
        let last = layout.descriptor(size - 1).unwrap();
        assert!(last + DESCRIPTOR_BYTES <= layout.available);
        for index in [0, 1, size - 1, size, u16::MAX] {
            let slot = layout.available_slot(index);
            assert!(layout.available + available::RING <= slot && slot + 2 <= layout.used);
            let slot = layout.used_slot(index);
            assert!(layout.used + used::RING <= slot && slot + used::ENTRY_BYTES <= 4096);
        }
        // Going round the ring comes back to the same slot, also where the
        // sixteen bits of the index wrap.
        assert_eq!(
            layout.used_slot(u16::MAX.wrapping_add(size)),
            layout.used_slot(u16::MAX)
        );
    }
}

#[test]
fn no_two_entries_of_a_queue_share_a_byte() {
    let layout = QueueLayout::in_one_frame(8, 4096).unwrap();
    for i in 0..7 {
        assert_eq!(
            layout.descriptor(i).unwrap() + DESCRIPTOR_BYTES,
            layout.descriptor(i + 1).unwrap()
        );
        assert_eq!(layout.available_slot(i) + 2, layout.available_slot(i + 1));
        assert_eq!(
            layout.used_slot(i) + used::ENTRY_BYTES,
            layout.used_slot(i + 1)
        );
    }
    assert_eq!(layout.descriptor(8), None);
}

#[test]
fn publishing_wraps_the_index_and_fences_in_between() {
    let layout = QueueLayout::in_one_frame(4, 4096).unwrap();
    let queue = Queue::new(VirtAddr::new(0x10_0000), layout);
    assert_eq!(queue.layout(), layout);
    let publication = queue.publish(u16::MAX, 2);
    assert_eq!(publication.index, 0);
    assert_eq!(
        publication.accesses,
        [
            Access::Write {
                at: VirtAddr::new(0x10_040A),
                width: Width::Word,
                value: 2
            },
            Access::Fence,
            Access::Write {
                at: VirtAddr::new(0x10_0402),
                width: Width::Word,
                value: 0
            },
        ]
    );
}

#[test]
fn an_image_with_too_many_sections_is_refused_before_its_missing_headers() {
    let mut image = vec![0u8; 0x40 + 24 + 5 * 40];
    image[0x3C] = 0x40;
    image[0x40..0x44].copy_from_slice(b"PE\0\0");
    image[0x46] = 9;
    // The section table follows the COFF header at once, and the magic of
    // the optional header is the first field of the first section.
    image[0x58..0x5A].copy_from_slice(&[0x0B, 0x02]);
    for section in 0..5 {
        let header = 0x58 + section * 40;
        image[header + 8] = 1;
        image[header + 39] = 0x20;
    }
    assert_eq!(code_sections(&image), Err(PeError::TooManySections));
    // With one fewer there is room, and then the sixth header is missed.
    image[0x58 + 39] = 0;
    assert_eq!(code_sections(&image), Err(PeError::Truncated));
    image[0x46] = 5;
    let code = code_sections(&image).unwrap();
    assert_eq!(code.len(), MAX_CODE_SECTIONS);
    assert_eq!(code.total_bytes(), 4);
    assert!(!code.is_empty());
    assert_eq!(relocations(&image), Err(PeError::NotRelocatable));
}

#[test]
fn a_set_of_ranges_may_be_empty() {
    let none = CodeRanges::new(&[]).unwrap();
    assert!(none.is_empty());
    assert_eq!(none.total_bytes(), 0);
    assert_eq!(none.len(), 0);
    assert!(MemoryMap::default().is_empty());
}

#[test]
fn ranges_meet_where_they_share_an_address() {
    let range = PhysRange::new(PhysAddr::new(0x1800), 0x10);
    for start in (0..0x4000).step_by(0x800) {
        let end = start + 0x800;
        let shared = (start..end).any(|addr| range.contains(PhysAddr::new(addr)));
        assert_eq!(
            range.overlaps(PhysAddr::new(start), PhysAddr::new(end)),
            shared
        );
    }
}

#[test]
fn nothing_overlaps_an_empty_range() {
    let at = |addr| PhysAddr::new(addr);
    let range = PhysRange::new(at(0x2000), 0x1000);
    assert!(!range.overlaps(at(0x2800), at(0x2800)));
    assert!(!range.overlaps(at(0x2900), at(0x2800)));
    assert!(range.overlaps(at(0x2800), at(0x2801)));
    let empty = PhysRange::new(at(0x2800), 0);
    assert!(!empty.overlaps(at(0x2000), at(0x3000)));
}

#[test]
fn the_low_two_bits_of_an_offset_are_ignored() {
    let mut space = SimulatedSpace::new(vec![dword(4, 0x1234_5678)]);
    for offset in 4..8 {
        assert_eq!(space.read_dword(AT, offset), 0x1234_5678);
    }
    assert_eq!(space.read_dword(AT, 3), 0xFFFF_FFFF);
    assert_eq!(space.read_dword(AT, 8), 0xFFFF_FFFF);
}

#[test]
fn mappings_say_what_they_are_for() {
    let range = PhysRange::new(PhysAddr::new(0x1000), 0x1000);
    let code = MappedRange::read_only_code(range);
    assert_eq!((code.writable, code.executable), (false, true));
    let firmware = MappedRange::writable_code(range, CachePolicy::Uncacheable);
    assert_eq!((firmware.writable, firmware.executable), (true, true));
    assert_eq!(firmware.cache, CachePolicy::Uncacheable);
    let data = MappedRange::data(range, CachePolicy::WriteThrough);
    assert_eq!((data.writable, data.executable), (true, false));
    let flags = PageFlags::user(true, false).cached_as(CachePolicy::WriteCombining);
    assert_eq!(
        (flags.user, flags.writable, flags.executable, flags.cache),
        (true, true, false, CachePolicy::WriteCombining)
    );
    assert!(!PageFlags::kernel(false, true).user);
    assert_eq!(
        PhysFrame::containing_address(PhysAddr::new(0x3FFF)).number(),
        3
    );
}
