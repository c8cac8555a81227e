use harlan::hal::addr::VirtAddr;
use harlan::hal::pci::{Address, ConfigSpace};
use harlan::hal::virtio::{
    available, block, common_config_location, decode_capability, locations, used, Access,
    CommonConfig, Completion, Descriptor, Location, Notify, Queue, QueueLayout, Structure, Width,
    AVAILABLE_AT, COMMON_CONFIG_BYTES, DESCRIPTOR_BYTES, DESC_NEXT, DESC_WRITE, DEVICE_BLOCK,
    FEATURE_VERSION_1, FEATURE_VERSION_1_SELECT, QUEUE_NOTIFY_OFF, STATUS_ACKNOWLEDGE,
    STATUS_DRIVER, VENDOR,
};

/// Where the memory of the tests' devices is said to be.
const BASE: u64 = 0xFFFF_8200_0000_0000;

fn bytes_of(width: Width) -> usize {
    match width {
        Width::Byte => 1,
        Width::Word => 2,
        Width::Dword => 4,
        Width::Qword => 8,
    }
}

/// Performs accesses on ordinary memory, in order, and answers what was read.
fn perform(memory: &mut [u8], accesses: &[Access]) -> Vec<u64> {
    let mut answers = Vec::new();
    for access in accesses {
        match *access {
            Access::Read { at, width } => {
                let start = (at.as_u64() - BASE) as usize;
                let mut value = 0;
                for (n, byte) in memory[start..start + bytes_of(width)].iter().enumerate() {
                    value |= u64::from(*byte) << (8 * n);
                }
                answers.push(value);
            }
            Access::Write { at, width, value } => {
                let start = (at.as_u64() - BASE) as usize;
                let bytes = bytes_of(width);
                memory[start..start + bytes].copy_from_slice(&value.to_le_bytes()[..bytes]);
            }
            Access::Fence => {}
        }
    }
    answers
}


/// A virtio capability as QEMU really writes one: the common
/// configuration structure, in BAR 4, at offset 0.
#[test]
fn a_capability_says_which_bar_and_where_in_it() {
    // vndr 0x09, next 0x60, len 0x10, cfg_type 1 (common).
    let words = [0x0110_6009, 0x0000_0004, 0x0000_0000, 0x0000_0038];
    assert_eq!(
        decode_capability(&words, None),
        Some(Location {
            structure: Structure::Common,
            bar: 4,
            offset: 0,
            length: 0x38,
            notify_multiplier: None,
        })
    );
    // A common capability is not sixteen bytes long *and* carrying a
    // multiplier: a fifth dword read after it belongs to whatever
    // comes next, and taking it as a stride would ring nothing.
    assert_eq!(
        decode_capability(&words, Some(4)).and_then(|l| l.notify_multiplier),
        None,
        "the multiplier is a notify capability's alone"
    );

    // The notify structure, further into the same BAR.
    // A notify capability of twenty bytes carries a multiplier; the
    // same capability declaring only sixteen does not, whatever is in
    // the memory after it.
    let words = [0x0214_7009, 0x0000_0004, 0x0000_3000, 0x0000_1000];
    let notify = decode_capability(&words, Some(4)).expect("a notify structure");
    assert_eq!(notify.structure, Structure::Notify);
    assert_eq!((notify.offset, notify.length), (0x3000, 0x1000));
    assert_eq!(notify.notify_multiplier, Some(4));

    let short = [0x0210_7009, 0x0000_0004, 0x0000_3000, 0x0000_1000];
    assert_eq!(
        decode_capability(&short, Some(4)).and_then(|l| l.notify_multiplier),
        None,
        "it said it was only sixteen bytes long"
    );
    assert_eq!(
        decode_capability(&words, None).and_then(|l| l.notify_multiplier),
        None,
        "and there was no room to read one"
    );
}

#[test]
fn every_structure_the_specification_names() {
    for (cfg_type, expected) in [
        (1u8, Structure::Common),
        (2, Structure::Notify),
        (3, Structure::Isr),
        (4, Structure::Device),
        (5, Structure::PciConfig),
        (9, Structure::Unknown(9)),
    ] {
        let words = [0x0000_0009 | u32::from(cfg_type) << 24, 0, 0, 0x0000_0010];
        assert_eq!(
            decode_capability(&words, None).map(|l| l.structure),
            Some(expected),
            "cfg_type {cfg_type}"
        );
    }
}

#[test]
fn what_is_not_a_virtio_capability() {
    // Somebody else's capability, chained in the same list.
    let words = [0x0000_0011, 0, 0, 0x10];
    assert_eq!(decode_capability(&words, None), None, "not vendor-specific");

    // A BAR that cannot exist.
    let words = [0x0110_0009, 0x0000_0006, 0, 0x10];
    assert_eq!(decode_capability(&words, None), None, "there is no BAR 6");

    // A structure of no length describes nothing.
    let words = [0x0110_0009, 0x0000_0004, 0, 0];
    assert_eq!(decode_capability(&words, None), None);
}

/// A device made of ordinary memory, so that a host test can check
/// that every register is read and written where virtio
/// puts it and at the width it says.
struct FakeDevice {
    bytes: [u8; 0x40],
}

impl FakeDevice {
    fn new() -> Self {
        Self { bytes: [0; 0x40] }
    }

    fn config(&mut self) -> CommonConfig {
        CommonConfig::new(VirtAddr::new(BASE))
    }

    fn perform(&mut self, accesses: &[Access]) -> Vec<u64> {
        perform(&mut self.bytes, accesses)
    }

    fn byte(&self, offset: usize) -> u8 {
        self.bytes[offset]
    }

    fn word(&self, offset: usize) -> u16 {
        u16::from_le_bytes([self.bytes[offset], self.bytes[offset + 1]])
    }

    fn qword(&self, offset: usize) -> u64 {
        u64::from(self.dword(offset)) | u64::from(self.dword(offset + 4)) << 32
    }

    fn dword(&self, offset: usize) -> u32 {
        u32::from_le_bytes([
            self.bytes[offset],
            self.bytes[offset + 1],
            self.bytes[offset + 2],
            self.bytes[offset + 3],
        ])
    }
}

/// The handshake is written to one byte at `0x14`, and nothing else
/// moves. A status written to the wrong offset is a device that never
/// starts, with nothing in the log to say why.
#[test]
fn the_status_register_is_one_byte_at_its_own_offset() {
    let mut device = FakeDevice::new();
    let config = device.config();
    device.perform(&[config.set_status(STATUS_ACKNOWLEDGE | STATUS_DRIVER)]);
    assert_eq!(device.byte(0x14), 3);
    assert_eq!(device.byte(0x13), 0, "nothing below it");
    assert_eq!(device.byte(0x15), 0, "nothing above it");

    let config = device.config();
    assert_eq!(device.perform(&[config.status()]), [3], "and it reads back");

    // A reset is a zero written to the same place.
    device.perform(&[config.set_status(0)]);
    assert_eq!(device.byte(0x14), 0);
}

/// Features are sixty-four bits reached thirty-two at a time, and the
/// select register decides which half. Writing the select to the wrong
/// offset would read the wrong half — and the half that matters,
/// holding `VERSION_1`, is the second one.
#[test]
fn features_go_through_a_select_register() {
    let mut device = FakeDevice::new();
    let config = device.config();
    device.perform(&config.set_driver_features(FEATURE_VERSION_1_SELECT, FEATURE_VERSION_1));
    assert_eq!(device.dword(0x08), 1, "the driver's select");
    assert_eq!(device.dword(0x0C), 1, "and what it accepted");

    // Reading the device's features writes the other select.
    let config = device.config();
    let read = device.perform(&config.device_features(1));
    assert_eq!(device.dword(0x00), 1, "the device's select");
    assert_eq!(read, [0], "nothing offered by a device of zeroes");

    // The two selects are different registers: writing one must not
    // disturb the other.
    assert_eq!(device.dword(0x08), 1);
}

#[test]
fn the_queue_registers_are_where_the_specification_puts_them() {
    let mut device = FakeDevice::new();
    let config = device.config();
    device.perform(&[config.select_queue(7)]);
    assert_eq!(device.word(0x16), 7);

    // The ones the driver reads: sizes and offsets the device fills
    // in. Written here by hand, since this device answers nothing.
    device.bytes[0x12..0x14].copy_from_slice(&2u16.to_le_bytes());
    device.bytes[0x18..0x1A].copy_from_slice(&128u16.to_le_bytes());
    device.bytes[0x1C..0x1E].copy_from_slice(&1u16.to_le_bytes());
    device.bytes[0x1E..0x20].copy_from_slice(&3u16.to_le_bytes());
    device.bytes[0x15] = 9;
    let config = device.config();
    assert_eq!(device.perform(&[config.queue_count()]), [2]);
    assert_eq!(device.perform(&[config.queue_size()]), [128]);
    let enabled = device.perform(&[config.queue_enabled()])[0];
    assert!(CommonConfig::is_enabled(enabled as u16));
    assert_eq!(device.perform(&[config.queue_notify_offset()]), [3]);
    assert_eq!(device.perform(&[config.config_generation()]), [9]);
}

/// The structure the kernel maps has to be at least as long as the
/// registers it reaches into, or the last of them is outside it.
#[test]
fn the_common_structure_is_long_enough_for_its_registers() {
    assert!(COMMON_CONFIG_BYTES as u64 > QUEUE_NOTIFY_OFF + 2);
    assert_eq!(COMMON_CONFIG_BYTES, 0x38, "what virtio defines");
}

/// A machine with one virtio function on it, so that the walk from
/// the capability pointer to a decoded structure can be checked
/// end to end.
struct FakeFunction {
    space: [u32; 64],
}

impl ConfigSpace for FakeFunction {
    fn read_dword(&mut self, _at: Address, offset: u8) -> u32 {
        self.space[(offset / 4) as usize]
    }
}

fn virtio_function() -> FakeFunction {
    let mut space = [0u32; 64];
    space[0] = u32::from(VENDOR) | u32::from(DEVICE_BLOCK) << 16;
    // The status register's capability bit: bit 4 of the high half.
    space[1] = 1 << 20;
    space[0x34 / 4] = 0x40;
    // Common at 0x40, then somebody else's capability, then notify.
    space[0x40 / 4] = 0x09 | 0x50 << 8 | 0x10 << 16 | 0x01 << 24;
    space[0x44 / 4] = 0x04;
    space[0x48 / 4] = 0x0000_0000;
    space[0x4C / 4] = 0x0000_0038;
    // A power-management capability in the middle of the list.
    space[0x50 / 4] = 0x01 | 0x60 << 8;
    // And the notify structure, ending the list: its next pointer —
    // the second byte — stays zero, which is what "no more" is. It
    // declares twenty bytes, so it carries a multiplier.
    space[0x60 / 4] = 0x09 | 0x14 << 16 | 0x02 << 24;
    space[0x64 / 4] = 0x04;
    space[0x68 / 4] = 0x0000_3000;
    space[0x6C / 4] = 0x0000_1000;
    space[0x70 / 4] = 0x0000_0004;
    FakeFunction { space }
}

#[test]
fn the_structures_of_a_device_are_found_through_its_capabilities() {
    let mut function = virtio_function();
    let at = Address::new(0, 3, 0).unwrap();
    let found = locations(&mut function, at);
    assert_eq!(
        found,
        vec![
            Location {
                structure: Structure::Common,
                bar: 4,
                offset: 0,
                length: 0x38,
                notify_multiplier: None
            },
            Location {
                structure: Structure::Notify,
                bar: 4,
                offset: 0x3000,
                length: 0x1000,
                notify_multiplier: Some(4)
            },
        ],
        "the two virtio ones, and not the power-management entry"
    );

    let common = common_config_location(&mut function, at);
    assert_eq!(common.map(|l| (l.bar, l.offset)), Some((4, 0)));
    assert!(
        common.map(|l| l.length).unwrap_or(0) >= COMMON_CONFIG_BYTES,
        "long enough for the registers the driver reaches"
    );
}

/// A device with no common configuration structure is one this driver
/// cannot start, and saying so beats reading registers at a guess.
#[test]
fn a_device_without_a_common_structure_says_so() {
    let mut function = virtio_function();
    // Turn the common capability into a notify one.
    function.space[0x40 / 4] = 0x09 | 0x50 << 8 | 0x10 << 16 | 0x02 << 24;
    let at = Address::new(0, 3, 0).unwrap();
    assert_eq!(common_config_location(&mut function, at), None);
}

/// Where the three parts of a queue go, and what will not fit.
#[test]
fn a_queue_of_four_fits_in_a_frame_with_room_to_spare() {
    let layout = QueueLayout::in_one_frame(4, 4096).expect("four fits");
    assert_eq!(layout.descriptors, 0);
    assert_eq!(layout.available, 0x400);
    assert_eq!(layout.used, 0x800);
    assert_eq!(layout.size, 4);

    // Every part ends before the next begins. The middle one holds
    // for every size this can answer with, which is why the compiler
    // checks it instead of `in_one_frame`.
    assert!(4 * DESCRIPTOR_BYTES <= layout.available);
    assert!(layout.available + available::RING + 2 * 4 + 2 <= layout.used);
    assert!(layout.used + used::RING + used::ENTRY_BYTES * 4 + 2 <= 4096);
    // The largest queue the descriptor table allows, to show the
    // available ring still ends before the used one.
    let biggest = (AVAILABLE_AT / DESCRIPTOR_BYTES) as u16;
    let layout = QueueLayout::in_one_frame(biggest, 8192).expect("the biggest that fits");
    assert!(layout.available + available::RING + 2 * u64::from(biggest) + 2 <= layout.used);

    // It has to be a power of two, because the ring
    // index is taken modulo the size.
    assert_eq!(QueueLayout::in_one_frame(3, 4096), None);
    assert_eq!(QueueLayout::in_one_frame(0, 4096), None);
    assert!(QueueLayout::in_one_frame(64, 4096).is_some());
    // A queue whose descriptors would run into the available ring.
    assert_eq!(QueueLayout::in_one_frame(256, 4096), None);
    assert_eq!(QueueLayout::in_one_frame(128, 4096), None);
    // And a frame smaller than the layout assumes, which is the only
    // way the used ring runs past the end: for any size the
    // descriptor table allows, it fits in a frame of 4 KiB.
    assert_eq!(QueueLayout::in_one_frame(4, 2048), None);
    assert_eq!(QueueLayout::in_one_frame(4, 0), None);
}

#[test]
fn a_descriptor_index_past_the_end_is_refused() {
    let layout = QueueLayout::in_one_frame(4, 4096).unwrap();
    assert_eq!(layout.descriptor(0), Some(0));
    assert_eq!(layout.descriptor(3), Some(48));
    assert_eq!(layout.descriptor(4), None, "there is no descriptor 4");
    assert_eq!(layout.descriptor(u16::MAX), None);
}

/// The index is a window over the ring, not a counter: it grows for
/// ever and wraps at sixteen bits. Treating it as a counter works for
/// the first sixty-five thousand requests.
#[test]
fn the_ring_indices_wrap_around_the_ring() {
    let layout = QueueLayout::in_one_frame(4, 4096).unwrap();
    assert_eq!(layout.available_slot(0), 0x404);
    assert_eq!(layout.available_slot(3), 0x40A);
    assert_eq!(
        layout.available_slot(4),
        layout.available_slot(0),
        "round again"
    );
    assert_eq!(layout.available_slot(u16::MAX), layout.available_slot(3));

    assert_eq!(layout.used_slot(0), 0x804);
    assert_eq!(layout.used_slot(1), 0x80C);
    assert_eq!(layout.used_slot(4), layout.used_slot(0));
}

/// A frame of ordinary memory, so that a host test can lay a queue out
/// in it, play the device's part by hand, and read the bytes back.
struct FakeQueue {
    frame: Box<[u8; 4096]>,
    layout: QueueLayout,
}

impl FakeQueue {
    fn new(size: u16) -> Self {
        Self {
            frame: Box::new([0; 4096]),
            layout: QueueLayout::in_one_frame(size, 4096).expect("a size that fits"),
        }
    }

    fn queue(&mut self) -> Queue {
        Queue::new(VirtAddr::new(BASE), self.layout)
    }

    fn perform(&mut self, accesses: &[Access]) -> Vec<u64> {
        perform(&mut self.frame[..], accesses)
    }

    /// Reads the published index and publishes a chain after it.
    fn publish(&mut self, handle: &Queue, head: u16) -> u16 {
        let index = self.perform(&[handle.available_index()])[0] as u16;
        let publication = handle.publish(index, head);
        self.perform(&publication.accesses);
        publication.index
    }

    fn used_index(&mut self, handle: &Queue) -> u16 {
        self.perform(&handle.used_index())[0] as u16
    }

    fn completion(&mut self, handle: &Queue, index: u16) -> Completion {
        let entry = self.perform(&handle.completion(index));
        Completion::from_entry(entry[0] as u32, entry[1] as u32)
    }

    fn word(&self, offset: u64) -> u16 {
        u16::from_le_bytes([self.frame[offset as usize], self.frame[offset as usize + 1]])
    }

    fn dword(&self, offset: u64) -> u32 {
        let at = offset as usize;
        u32::from_le_bytes([
            self.frame[at],
            self.frame[at + 1],
            self.frame[at + 2],
            self.frame[at + 3],
        ])
    }

    fn qword(&self, offset: u64) -> u64 {
        u64::from(self.dword(offset)) | u64::from(self.dword(offset + 4)) << 32
    }

    /// What the device does: take the chain, write an entry into the
    /// used ring and bump its index.
    fn device_completes(&mut self, head: u16, written: u32) {
        let index = self.word(self.layout.used + used::INDEX);
        let slot = self.layout.used_slot(index) as usize;
        self.frame[slot..slot + 4].copy_from_slice(&u32::from(head).to_le_bytes());
        self.frame[slot + 4..slot + 8].copy_from_slice(&written.to_le_bytes());
        let at = (self.layout.used + used::INDEX) as usize;
        self.frame[at..at + 2].copy_from_slice(&index.wrapping_add(1).to_le_bytes());
    }
}

/// A descriptor is four fields at fixed offsets, and the address in it
/// is sixty-four bits because it is physical.
#[test]
fn a_descriptor_is_written_field_by_field() {
    let mut queue = FakeQueue::new(4);
    let handle = queue.queue();
    let accesses = handle.set_descriptor(
        1,
            Descriptor {
                address: 0x1_2345_6000,
                length: 512,
                flags: DESC_NEXT | DESC_WRITE,
                next: 2,
            },
    );
    queue.perform(&accesses.expect("a descriptor of the queue"));
    assert_eq!(queue.qword(16), 0x1_2345_6000, "a 64-bit address");
    assert_eq!(queue.dword(16 + 8), 512);
    assert_eq!(queue.word(16 + 12), 3);
    assert_eq!(queue.word(16 + 14), 2);
    // And nothing outside that descriptor moved.
    assert_eq!(queue.qword(0), 0, "descriptor 0 is untouched");
    assert_eq!(queue.qword(32), 0, "and so is descriptor 2");

    // A descriptor the queue does not have is refused rather than
    // written over whatever follows the table.
    let handle = queue.queue();
    let accesses = handle.set_descriptor(
        4,
            Descriptor {
                address: 1,
                length: 1,
                flags: 0,
                next: 0,
            },
    );
    assert!(accesses.is_none());
    assert_eq!(queue.qword(64), 0, "nothing past the table was written");
}

/// Publishing is two writes in an order that matters: the slot, then
/// the index that makes it visible.
#[test]
fn publishing_puts_the_chain_in_the_ring_and_then_says_so() {
    let mut queue = FakeQueue::new(4);
    let handle = queue.queue();
    let published = queue.publish(&handle, 0);
    assert_eq!(published, 1, "one entry has ever been published");
    assert_eq!(queue.word(queue.layout.available_slot(0)), 0);
    assert_eq!(queue.word(queue.layout.available + available::INDEX), 1);

    // The next one goes in the next slot.
    let handle = queue.queue();
    assert_eq!(queue.publish(&handle, 3), 2);
    assert_eq!(queue.word(queue.layout.available_slot(1)), 3);
    assert_eq!(queue.word(queue.layout.available + available::INDEX), 2);
    assert_eq!(
        queue.word(queue.layout.available_slot(0)),
        0,
        "the first is still there"
    );
}

/// And collecting is reading what the device wrote, where it wrote it.
#[test]
fn a_completion_is_read_from_where_the_device_put_it() {
    let mut queue = FakeQueue::new(4);
    let handle = queue.queue();
    assert_eq!(queue.used_index(&handle), 0, "nothing done yet");

    queue.device_completes(0, 513);
    let handle = queue.queue();
    assert_eq!(queue.used_index(&handle), 1);
    let done = queue.completion(&handle, 0);
    assert_eq!(done.head, 0);
    assert_eq!(done.written, 513);

    // A second one, in the next slot.
    queue.device_completes(2, 1);
    let handle = queue.queue();
    assert_eq!(queue.used_index(&handle), 2);
    assert_eq!(
        queue.completion(&handle, 1),
        Completion {
            head: 2,
            written: 1
        }
    );
}

#[test]
fn the_queue_registers_are_written_where_the_device_reads_them() {
    let mut device = FakeDevice::new();
    let config = device.config();
    device.perform(&[config.set_queue_size(4)]);
    device.perform(&config.set_queue_addresses(0x1_0000, 0x1_0400, 0x1_0800));
    device.perform(&[config.enable_queue()]);
    assert_eq!(device.word(0x18), 4, "the size");
    assert_eq!(device.qword(0x20), 0x1_0000, "the descriptors");
    assert_eq!(device.qword(0x28), 0x1_0400, "the available ring");
    assert_eq!(device.qword(0x30), 0x1_0800, "the used ring");
    assert_eq!(device.word(0x1C), 1, "and it is on");
}

/// One notify structure serves every queue, strided by the multiplier
/// the device's own capability gave. A multiplier from somewhere else
/// rings a different queue's bell, or none at all.
#[test]
fn a_doorbell_is_strided_by_the_multiplier() {
    let mut bells = [0u8; 64];
    let notify = Notify::new(VirtAddr::new(BASE), 4);
    assert_eq!(notify.doorbell(0), 0);
    assert_eq!(notify.doorbell(3), 12);

    perform(&mut bells, &notify.ring(3, 1));
    assert_eq!(
        u16::from_le_bytes([bells[12], bells[13]]),
        1,
        "which queue, at that queue's bell"
    );
    assert_eq!(bells[0], 0, "and nobody else's bell rang");

    // A multiplier of zero is what QEMU uses when every queue shares
    // one bell, and the value written is what tells them apart.
    let shared = Notify::new(VirtAddr::new(BASE), 0);
    assert_eq!(shared.doorbell(7), 0);
}

#[test]
fn a_block_request_header_says_what_and_where() {
    let header = block::header(block::TYPE_IN, 0);
    assert_eq!(&header[0..4], &[0, 0, 0, 0], "a read");
    assert_eq!(&header[4..8], &[0, 0, 0, 0], "the reserved word");
    assert_eq!(&header[8..16], &[0; 8], "sector zero");

    // A sector number that needs more than one byte, to catch an
    // endianness the wrong way round.
    let header = block::header(block::TYPE_OUT, 0x1234);
    assert_eq!(u32::from_le_bytes(header[0..4].try_into().unwrap()), 1);
    assert_eq!(
        u64::from_le_bytes(header[8..16].try_into().unwrap()),
        0x1234
    );
    assert_eq!(header[8], 0x34, "little-endian, whatever the machine is");
    assert_eq!(header[9], 0x12);
    assert_eq!(header.len(), block::HEADER_BYTES);
}

#[test]
fn a_status_byte_has_a_name() {
    assert_eq!(block::status_name(block::STATUS_OK), "ok");
    assert_eq!(block::status_name(block::STATUS_IO_ERROR), "an I/O error");
    assert_eq!(block::status_name(block::STATUS_UNSUPPORTED), "unsupported");
    assert!(block::status_name(99).contains("does not define"));
}
