use harlan::hal::pci::{
    capabilities, decode_bar, scan, Address, Bar, Capability, ConfigSpace, Devices, Function,
    Header, CAPABILITY_LIMIT, HEADER_DWORDS, MAX_DEVICES,
};

/// The word the kernel writes to `0xCF8`. Every field has its own
/// shift, and a wrong one reads a different device — quietly, because
/// the bus answers whatever is there.
#[test]
fn a_configuration_address_puts_every_field_where_it_belongs() {
    let at = Address::new(0, 0, 0).unwrap();
    assert_eq!(at.config_address(0), 0x8000_0000, "the enable bit");

    let at = Address::new(1, 2, 3).unwrap();
    assert_eq!(
        at.config_address(0x10),
        0x8000_0000 | 1 << 16 | 2 << 11 | 3 << 8 | 0x10
    );

    // The offset keeps only its dword-aligned part: that port reads
    // four bytes at a time and the low two bits would name a byte
    // inside them.
    let at = Address::new(0, 0, 0).unwrap();
    assert_eq!(at.config_address(0x13), at.config_address(0x10));
    assert_eq!(at.config_address(0x14) & 0xFF, 0x14);

    // The widest of everything, to show the fields do not collide.
    let at = Address::new(255, 31, 7).unwrap();
    assert_eq!(at.config_address(0xFC), 0x80FF_FFFC);
}

/// Five bits for the device and three for the function: a number that
/// does not fit would land on a different function of a different
/// device, which is worse than being refused.
#[test]
fn an_address_that_would_not_fit_is_refused() {
    assert!(Address::new(0, 31, 7).is_some());
    assert!(Address::new(0, 32, 0).is_none());
    assert!(Address::new(0, 0, 8).is_none());
    assert!(Address::new(255, 255, 255).is_none());
}

fn config_of(vendor: u16, device: u16, class: u32, header_type: u8) -> [u32; 16] {
    let mut words = [0u32; 16];
    words[0] = u32::from(vendor) | u32::from(device) << 16;
    words[2] = class;
    words[3] = u32::from(header_type) << 16;
    words
}

#[test]
fn a_header_says_who_the_device_is_and_what_it_does() {
    // virtio-blk as QEMU presents it: Red Hat's vendor id, a modern
    // virtio device id, mass storage / SCSI.
    let mut config = config_of(0x1AF4, 0x1042, 0x0100_0002, 0x00);
    config[4] = 0xFEBD_1000;
    config[5] = 0x0000_C041;
    let header = Header::from_config(&config).expect("a device is there");
    assert_eq!(header.vendor, 0x1AF4);
    assert_eq!(header.device, 0x1042);
    assert_eq!(header.class, 0x01, "mass storage");
    assert_eq!(header.subclass, 0x00, "SCSI");
    assert_eq!(header.prog_if, 0x00);
    assert_eq!(header.revision, 0x02);
    assert_eq!(header.class_name(), "SCSI storage");
    assert_eq!(header.bars[0], 0xFEBD_1000);
    assert_eq!(header.bars[1], 0x0000_C041);
    assert_eq!(header.bars[5], 0);
    assert!(!header.is_multifunction());
    assert_eq!(header.layout(), 0);
}

#[test]
fn nothing_there_is_not_a_device() {
    let mut config = [0u32; 16];
    config[0] = 0xFFFF_FFFF;
    assert_eq!(Header::from_config(&config), None);
    // Only the vendor half decides: a device id of all ones with a
    // real vendor is a real device.
    config[0] = 0xFFFF_1AF4;
    assert!(Header::from_config(&config).is_some());
}

#[test]
fn multifunction_is_the_top_bit_and_the_layout_is_the_rest() {
    let bridge =
        Header::from_config(&config_of(0x8086, 0x7000, 0x0601_0000, 0x81)).expect("a bridge");
    assert!(bridge.is_multifunction());
    assert_eq!(bridge.layout(), 1, "a PCI-to-PCI bridge header");
    assert_eq!(bridge.class_name(), "ISA bridge");

    let plain =
        Header::from_config(&config_of(0x8086, 0x7000, 0x0601_0000, 0x01)).expect("a device");
    assert!(!plain.is_multifunction());
    assert_eq!(plain.layout(), 1);
}

fn function(bus: u8, vendor: u16, device: u16) -> Function {
    Function {
        at: Address::new(bus, 0, 0).unwrap(),
        header: Header::from_config(&config_of(vendor, device, 0x0100_0000, 0)).unwrap(),
    }
}

#[test]
fn a_driver_asks_for_the_hardware_it_knows() {
    let mut devices = Devices::new();
    assert!(devices.is_empty());
    assert_eq!(devices.find(0x1AF4, 0x1042), None);

    assert!(devices.add(function(0, 0x8086, 0x1237)));
    assert!(devices.add(function(1, 0x1AF4, 0x1042)));
    assert_eq!(devices.len(), 2);
    assert_eq!(devices.lost(), 0);

    let found = devices.find(0x1AF4, 0x1042).expect("the disk");
    assert_eq!(found.at.bus, 1);
    assert_eq!(devices.find(0x1AF4, 0x1041), None, "a different device");
    assert_eq!(
        devices.find_class(0x01, 0x00).map(|f| f.header.vendor),
        Some(0x8086),
        "the first of that class, whoever made it"
    );
    assert_eq!(devices.find_class(0x02, 0x00), None);
}

/// Running out of room is a number to report, not a panic and not a
/// silent truncation.
#[test]
fn what_does_not_fit_is_counted() {
    let mut devices = Devices::new();
    for n in 0..MAX_DEVICES {
        assert!(devices.add(function(n as u8, 0x1AF4, 0x1042)), "{n}");
    }
    assert_eq!(devices.len(), MAX_DEVICES);
    assert_eq!(devices.lost(), 0);

    assert!(!devices.add(function(200, 0x8086, 0x1237)), "no room left");
    assert!(!devices.add(function(201, 0x8086, 0x1237)));
    assert_eq!(devices.len(), MAX_DEVICES, "and it kept what it had");
    assert_eq!(devices.lost(), 2);
    // What was already there is still findable.
    assert!(devices.find(0x1AF4, 0x1042).is_some());
    assert_eq!(devices.find(0x8086, 0x1237), None, "the lost ones are lost");
}

/// A machine that does not exist: a table of what answers where, and a
/// record of every read, so a test can say not only what the walk
/// found but what it asked.
/// All 256 bytes the ports reach, because capabilities live above the
/// header.
const CONFIG_DWORDS: usize = 64;

#[derive(Default)]
struct FakeMachine {
    functions: std::collections::BTreeMap<(u8, u8, u8), [u32; CONFIG_DWORDS]>,
    reads: Vec<(u8, u8, u8, u8)>,
}

impl FakeMachine {
    /// A function with only a header, and zeroes above it.
    fn with(mut self, bus: u8, device: u8, function: u8, header: [u32; HEADER_DWORDS]) -> Self {
        let mut space = [0u32; CONFIG_DWORDS];
        space[..HEADER_DWORDS].copy_from_slice(&header);
        self.functions.insert((bus, device, function), space);
        self
    }

    /// A function whose whole configuration space is spelled out.
    fn with_space(
        mut self,
        bus: u8,
        device: u8,
        function: u8,
        space: [u32; CONFIG_DWORDS],
    ) -> Self {
        self.functions.insert((bus, device, function), space);
        self
    }

    fn asked_about(&self, bus: u8, device: u8, function: u8) -> bool {
        self.reads
            .iter()
            .any(|r| (r.0, r.1, r.2) == (bus, device, function))
    }
    fn asked_about_offset(&self, offset: u8) -> bool {
        self.reads.iter().any(|r| r.3 == offset)
    }
}

impl ConfigSpace for FakeMachine {
    fn read_dword(&mut self, at: Address, offset: u8) -> u32 {
        self.reads
            .push((at.bus, at.device, at.function, offset));
        match self.functions.get(&(at.bus, at.device, at.function)) {
            Some(config) => config[(offset / 4) as usize],
            // What a PCI bus answers for a function that is not there:
            // nobody claims the read, so every line is high.
            None => 0xFFFF_FFFF,
        }
    }
}

/// Everything on the machine, wherever it is, and nothing that is not.
#[test]
fn the_walk_finds_what_is_there_and_nothing_else() {
    let mut machine = FakeMachine::default()
        .with(0, 0, 0, config_of(0x8086, 0x1237, 0x0600_0000, 0x00))
        .with(0, 3, 0, config_of(0x1AF4, 0x1001, 0x0100_0000, 0x00))
        // Far from the others, to show the walk really visits them all.
        .with(255, 31, 0, config_of(0x1234, 0x1111, 0x0300_0000, 0x00));

    let found = scan(&mut machine);
    assert_eq!(found.len(), 3);
    assert_eq!(found.find(0x8086, 0x1237).map(|f| f.at.device), Some(0));
    assert_eq!(found.find(0x1AF4, 0x1001).map(|f| f.at.device), Some(3));
    let far = found
        .find(0x1234, 0x1111)
        .expect("the last device of the last bus");
    assert_eq!((far.at.bus, far.at.device), (255, 31));
    assert_eq!(found.lost(), 0);
}

/// A device that does not say it is multifunction is not asked about
/// its other seven: a single-function device may answer for all of
/// them, and the same disk would be found eight times.
#[test]
fn only_multifunction_devices_are_asked_about_their_other_functions() {
    let mut quiet =
        FakeMachine::default().with(0, 1, 0, config_of(0x8086, 0x7010, 0x0101_0000, 0x00));
    let found = scan(&mut quiet);
    assert_eq!(found.len(), 1, "one device, once");
    assert!(quiet.asked_about(0, 1, 0));
    assert!(
        !quiet.asked_about(0, 1, 1),
        "it never said it had a function 1"
    );

    let mut talkative = FakeMachine::default()
        .with(0, 1, 0, config_of(0x8086, 0x7000, 0x0601_0000, 0x80))
        .with(0, 1, 1, config_of(0x8086, 0x7010, 0x0101_0000, 0x00))
        .with(0, 1, 3, config_of(0x8086, 0x7113, 0x0680_0000, 0x00));
    let found = scan(&mut talkative);
    assert_eq!(found.len(), 3, "the function that said so, and its others");
    assert!(talkative.asked_about(0, 1, 7), "all seven were asked");
    assert_eq!(found.find(0x8086, 0x7113).map(|f| f.at.function), Some(3));
}

/// A bus with nothing on it is asked once per device and costs nothing
/// else: the header of a function that is not there is never read past
/// its vendor.
#[test]
fn nothing_there_is_read_once_and_left_alone() {
    let mut empty = FakeMachine::default();
    let found = scan(&mut empty);
    assert!(found.is_empty());
    let reads = &empty.reads;
    assert_eq!(
        reads.len(),
        256 * 32,
        "one read per device slot, and not one more"
    );
    assert!(
        reads.iter().all(|r| r.3 == 0),
        "only the vendor was ever asked for"
    );
}

/// More functions than the table holds: what fits is kept, the rest is
/// counted, and the walk does not stop early.
#[test]
fn a_crowded_machine_fills_the_table_and_counts_the_rest() {
    let mut machine = FakeMachine::default();
    for device in 0..(MAX_DEVICES as u8 + 4) {
        machine = machine.with(
            0,
            device % 32,
            device / 32,
            config_of(0x1AF4, 0x1000 + u16::from(device), 0x0100_0000, 0x80),
        );
    }
    let found = scan(&mut machine);
    assert_eq!(found.len(), MAX_DEVICES);
    assert_eq!(found.lost(), 4);
    assert!(
        found.find(0x1AF4, 0x1000).is_some(),
        "the first still there"
    );
}

#[test]
fn a_memory_bar_is_an_address_and_a_port_bar_is_not() {
    // A 32-bit memory BAR: bit 0 clear, type 0, address from bit 4.
    let bars = [0xFEBD_1000, 0, 0, 0, 0, 0];
    assert_eq!(
        decode_bar(&bars, 0),
        Some(Bar::Memory {
            address: 0xFEBD_1000,
            wide: false,
            prefetchable: false
        })
    );
    assert_eq!(decode_bar(&bars, 0).unwrap().entries(), 1);

    // Prefetchable is bit 3, and is not part of the address.
    let bars = [0xFEBD_1008, 0, 0, 0, 0, 0];
    assert_eq!(
        decode_bar(&bars, 0),
        Some(Bar::Memory {
            address: 0xFEBD_1000,
            wide: false,
            prefetchable: true
        })
    );

    // An I/O BAR: bit 0 set. The low two bits are not part of the port
    // number, which is what `0xc001` in a boot log really means.
    assert_eq!(
        decode_bar(&[0x0000_C001, 0, 0, 0, 0, 0], 0),
        Some(Bar::Ports { base: 0xC000 })
    );
    assert_eq!(
        decode_bar(&[0x0000_C001, 0, 0, 0, 0, 0], 0)
            .unwrap()
            .memory_address(),
        None,
        "a port number is not an address"
    );
}

/// The case that is not theoretical: virtio's modern BAR in QEMU is a
/// 64-bit one, so the entry after it is the high half of this address
/// and not a BAR at all.
#[test]
fn a_sixty_four_bit_bar_takes_two_entries() {
    // Type 2 in bits 2:1 means 64-bit: 0b100 = 0x4.
    let bars = [0, 0, 0, 0, 0xFE00_0004, 0x0000_0001];
    let bar = decode_bar(&bars, 4).expect("a wide BAR");
    assert_eq!(
        bar,
        Bar::Memory {
            address: 0x1_FE00_0000,
            wide: true,
            prefetchable: false
        }
    );
    assert_eq!(bar.entries(), 2, "the next entry is its high half");

    // The same bits as a 32-bit BAR would name a different address
    // entirely, which is the mistake this guards.
    let narrow = [0, 0, 0, 0, 0xFE00_0000, 0x0000_0001];
    assert_eq!(
        decode_bar(&narrow, 4).unwrap().memory_address(),
        Some(0xFE00_0000)
    );

    // A wide BAR in the last entry has nowhere to keep its high half.
    let truncated = [0, 0, 0, 0, 0, 0xFE00_0004];
    assert_eq!(decode_bar(&truncated, 5), None);
}

/// The boot log is read by people, and an address in decimal is one
/// nobody can check against what a device's documentation says.
#[test]
fn a_bar_says_where_it_is_in_hexadecimal() {
    let wide = decode_bar(&[0, 0, 0, 0, 0xC000_000C, 0x0000_00C0], 4).unwrap();
    assert_eq!(
        wide.to_display(),
        "memory at 0xc0c0000000, 64-bit, prefetchable"
    );
    let plain = decode_bar(&[0x8100_0000, 0, 0, 0, 0, 0], 0).unwrap();
    assert_eq!(plain.to_display(), "memory at 0x81000000");
    let ports = decode_bar(&[0x0000_C001, 0, 0, 0, 0, 0], 0).unwrap();
    assert_eq!(ports.to_display(), "ports at 0xc000");
}

#[test]
fn what_is_not_a_bar() {
    assert_eq!(decode_bar(&[0; 6], 0), None, "unassigned");
    assert_eq!(decode_bar(&[1; 6], 6), None, "past the end");
    assert_eq!(decode_bar(&[1; 6], 99), None);
}

/// The capability list, as virtio devices really present it: several
/// vendor-specific entries chained through their `next` pointers.
#[test]
fn the_capability_list_is_walked_to_its_end() {
    let mut config = [0u32; CONFIG_DWORDS];
    config[..HEADER_DWORDS].copy_from_slice(&config_of(0x1AF4, 0x1042, 0x0100_0000, 0x00));
    // The status register says there is a list. It is the high half of
    // the dword at 0x04, so its bit 4 is this dword's bit 20.
    config[1] = 1 << 20;
    config[0x34 / 4] = 0x40;
    // Three capabilities at 0x40, 0x50 and 0x60, the last one ending
    // the list with a `next` of zero.
    config[0x40 / 4] = 0x09 | 0x50 << 8;
    config[0x50 / 4] = 0x09 | 0x60 << 8;
    config[0x60 / 4] = 0x11;
    let mut machine = FakeMachine::default().with_space(0, 3, 0, config);

    let found = capabilities(&mut machine, Address::new(0, 3, 0).unwrap());
    assert_eq!(
        found,
        vec![
            Capability {
                id: 0x09,
                offset: 0x40
            },
            Capability {
                id: 0x09,
                offset: 0x50
            },
            Capability {
                id: 0x11,
                offset: 0x60
            },
        ]
    );
}

/// A function that does not claim a capability list is not asked for
/// one: the pointer at `0x34` means nothing when the status bit is
/// clear, and following it would walk whatever happened to be there.
#[test]
fn a_function_without_a_list_is_left_alone() {
    let mut config = [0u32; CONFIG_DWORDS];
    config[..HEADER_DWORDS].copy_from_slice(&config_of(0x8086, 0x1237, 0x0600_0000, 0x00));
    // A pointer, and no status bit saying it means anything.
    config[0x34 / 4] = 0x40;
    config[0x40 / 4] = 0x09;
    let mut machine = FakeMachine::default().with_space(0, 0, 0, config);

    let found = capabilities(&mut machine, Address::new(0, 0, 0).unwrap());
    assert!(found.is_empty(), "the status bit said there was no list");
    assert!(
        !machine.asked_about_offset(0x40),
        "and the pointer was never followed"
    );
}

/// The low two bits of a next pointer are reserved, and a device that
/// sets them is not naming an offset three bytes further on. Masking
/// them is what the bus asks for; keeping them would report a
/// capability at an address that is not where it starts.
#[test]
fn the_reserved_bits_of_a_next_pointer_are_not_part_of_it() {
    let mut config = [0u32; CONFIG_DWORDS];
    config[..HEADER_DWORDS].copy_from_slice(&config_of(0x1AF4, 0x1042, 0x0100_0000, 0x00));
    config[1] = 1 << 20;
    // Both pointers carry rubbish in the two bits that are not theirs.
    config[0x34 / 4] = 0x43;
    config[0x40 / 4] = 0x09 | 0x52 << 8;
    config[0x50 / 4] = 0x09;
    let mut machine = FakeMachine::default().with_space(0, 3, 0, config);

    let found = capabilities(&mut machine, Address::new(0, 3, 0).unwrap());
    assert_eq!(
        found,
        vec![
            Capability {
                id: 0x09,
                offset: 0x40
            },
            Capability {
                id: 0x09,
                offset: 0x50
            },
        ],
        "0x43 is the capability at 0x40, and 0x52 the one at 0x50"
    );
}

/// A list that points at itself is a device saying something
/// impossible. Ignoring the rest of it is better than never finishing
/// the boot.
#[test]
fn a_capability_list_that_loops_does_not_hang() {
    let mut config = [0u32; CONFIG_DWORDS];
    config[..HEADER_DWORDS].copy_from_slice(&config_of(0x1AF4, 0x1042, 0x0100_0000, 0x00));
    config[1] = 1 << 20;
    config[0x34 / 4] = 0x40;
    config[0x40 / 4] = 0x09 | 0x50 << 8;
    config[0x50 / 4] = 0x09 | 0x40 << 8;
    let mut machine = FakeMachine::default().with_space(0, 3, 0, config);

    let found = capabilities(&mut machine, Address::new(0, 3, 0).unwrap()).len();
    assert_eq!(found, CAPABILITY_LIMIT, "it stopped, and said how far");
}
