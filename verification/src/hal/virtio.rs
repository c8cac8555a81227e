//! Virtio over PCI, the modern way.
//!
//! A virtio device keeps its registers in memory and says where through PCI
//! capabilities: each one names a BAR, an offset into it and a length, and a
//! `cfg_type` saying which structure it describes.
//!
//! Two things live here. The decoding of those capabilities. And the layout
//! of the register structures and queues: given a base address, every offset
//! and every width is fixed, so each operation on a device is a list of
//! accesses, in the order in which they have to be made. Getting an offset
//! wrong is a mistake with no symptom: the device simply does something else.
//!
//! This is virtio 1.0 only. Legacy virtio keeps its registers behind I/O
//! ports and its queue addresses in 32 bits.

use crate::hal::addr::VirtAddr;
use crate::hal::pci::{Address, Capability, CapabilityWalk, ConfigSpace};
use vstd::prelude::*;

pub mod available;
pub mod block;
pub mod laws;
pub mod used;

verus! {

use crate::hal::pci::{list_from, list_start, start_reads, Space};

/// Every virtio device answers with this vendor id.
pub const VENDOR: u16 = 0x1AF4;

/// A modern virtio device's id is `0x1040` plus the device type. A block
/// device is type 2.
pub const DEVICE_BLOCK: u16 = 0x1042;

/// A transitional device answers with the legacy id instead, and speaks both
/// protocols. Recognised so the kernel can say so rather than fail to find
/// anything.
pub const DEVICE_BLOCK_TRANSITIONAL: u16 = 0x1001;

/// The PCI capability id virtio uses: vendor-specific.
pub const CAPABILITY_ID: u8 = 0x09;

/// Which structure a virtio capability describes.
#[derive(Debug, Clone, Copy, PartialEq, Eq, Structural)]
pub enum Structure {
    /// Status, features, and which queue is being configured.
    Common,
    /// Where to write to tell the device a queue has something new.
    Notify,
    /// Why the device raised an interrupt.
    Isr,
    /// Whatever this kind of device has of its own: for a disk, its size.
    Device,
    /// A window for reaching the others through configuration space. Nothing
    /// here uses it.
    PciConfig,
    Unknown(u8),
}

impl Structure {
    pub open spec fn of(cfg_type: u8) -> Structure {
        match cfg_type {
            1 => Structure::Common,
            2 => Structure::Notify,
            3 => Structure::Isr,
            4 => Structure::Device,
            5 => Structure::PciConfig,
            _ => Structure::Unknown(cfg_type),
        }
    }

    pub fn from_cfg_type(cfg_type: u8) -> (r: Self)
        ensures
            r == Structure::of(cfg_type),
    {
        match cfg_type {
            1 => Structure::Common,
            2 => Structure::Notify,
            3 => Structure::Isr,
            4 => Structure::Device,
            5 => Structure::PciConfig,
            other => Structure::Unknown(other),
        }
    }
}

/// Where one of a device's structures lives.
#[derive(Debug, Clone, Copy, PartialEq, Eq, Structural)]
pub struct Location {
    pub structure: Structure,
    /// Which of the six BARs it is in.
    pub bar: usize,
    /// Where in that BAR it starts, and how far it goes. The device says
    /// both; mapping more than the length would reach memory the device never
    /// claimed.
    pub offset: u32,
    pub length: u32,
    /// For a notify structure, the stride between queues' doorbells: a fifth
    /// dword the capability carries when it is long enough to. A multiplier
    /// of zero means every queue shares one doorbell and the value written is
    /// what tells them apart.
    ///
    /// `None` for every other structure, and for a notify capability too
    /// short to hold it: guessing would be worse than refusing to ring at
    /// all.
    pub notify_multiplier: Option<u32>,
}

/// How long a notify capability has to be to carry its multiplier: the
/// sixteen bytes every virtio capability has, plus one dword.
pub const NOTIFY_CAPABILITY_BYTES: u8 = 20;

/// What a virtio capability describes: the capability id, the next pointer,
/// the length and `cfg_type` in the first dword, the BAR in the second, then
/// the offset and the length of the structure.
pub open spec fn location_of(words: Seq<u32>, fifth: Option<u32>) -> Option<Location> {
    let id = words[0] as int % 0x100;
    let capability_bytes = words[0] as int / 0x1_0000 % 0x100;
    let structure = Structure::of((words[0] as int / 0x100_0000) as u8);
    let bar = words[1] as int % 0x100;
    if id != CAPABILITY_ID || bar >= 6 || words[3] == 0 {
        None
    } else {
        Some(
            Location {
                structure,
                bar: bar as usize,
                offset: words[2],
                length: words[3],
                notify_multiplier: if structure is Notify && capability_bytes
                    >= NOTIFY_CAPABILITY_BYTES {
                    fifth
                } else {
                    None
                },
            },
        )
    }
}

proof fn capability_parts(word: u32)
    by (bit_vector)
    ensures
        word as u8 == word % 0x100,
        (word & 0xFF) as u8 == word % 0x100,
        (word >> 16) as u8 == word / 0x1_0000 % 0x100,
        (word >> 24) as u8 == word / 0x100_0000,
{
}

/// Decodes a virtio PCI capability from the four dwords at its offset, and
/// the fifth if there was room to read one.
///
/// `None` when it is not a virtio capability, or names a BAR that cannot
/// exist, or describes nothing at all.
pub fn decode_capability(words: &[u32; 4], fifth: Option<u32>) -> (r: Option<Location>)
    ensures
        r == location_of(words@, fifth),
        r matches Some(location) ==> location.offset == words@[2] && location.length == words@[3]
            && location.bar == words@[1] % 0x100,
{
    proof {
        capability_parts(words@[0]);
        capability_parts(words@[1]);
    }
    if words[0] as u8 != CAPABILITY_ID {
        return None;
    }
    let bar: usize = ((words[1] & 0xFF) as u8) as usize;
    if bar >= 6 {
        return None;
    }
    let length: u32 = words[3];
    if length == 0 {
        return None;
    }
    let structure = Structure::from_cfg_type((words[0] >> 24) as u8);
    let capability_bytes: u8 = (words[0] >> 16) as u8;
    // The multiplier belongs to a notify capability and only when the
    // capability is long enough to hold one. Taking it from anywhere else
    // would be reading the next capability's first dword as a stride.
    let notify_multiplier = if matches!(structure, Structure::Notify) && capability_bytes
        >= NOTIFY_CAPABILITY_BYTES {
        fifth
    } else {
        None
    };
    Some(Location { structure, bar, offset: words[2], length, notify_multiplier })
}

/// The first four dwords of a capability.
pub open spec fn capability_words(space: Space, at: Address, offset: u8) -> Seq<u32> {
    Seq::new(4, |i: int| space(at, (offset + 4 * i) as u8))
}

/// What a capability of the list describes. One that would run past the end
/// of configuration space describes nothing; near the end there may be no
/// room for a fifth dword.
pub open spec fn described_by(space: Space, at: Address, capability: Capability) -> Option<
    Location,
> {
    if capability.id != CAPABILITY_ID || capability.offset + 12 > 0xFF {
        None
    } else {
        location_of(
            capability_words(space, at, capability.offset),
            if capability.offset + 16 <= 0xFF {
                Some(space(at, (capability.offset + 16) as u8))
            } else {
                None
            },
        )
    }
}

/// How many dwords of a capability lie inside configuration space, of the
/// five that are looked at.
pub open spec fn readable_dwords(offset: u8) -> int {
    let room = (0xFF - offset) / 4 + 1;
    if room < 5 {
        room
    } else {
        5
    }
}

/// The first `n` dwords from `offset` on, as they are read.
pub open spec fn dword_reads(at: Address, offset: u8, n: int) -> Seq<(Address, u8)> {
    Seq::new(n as nat, |i: int| (at, (offset + 4 * i) as u8))
}

/// What looking at a capability reads: the header that the walk reads, and
/// for a virtio one as much of it as there is.
pub open spec fn capability_reads(at: Address, capability: Capability) -> Seq<(Address, u8)> {
    seq![(at, capability.offset)] + if capability.id == CAPABILITY_ID {
        dword_reads(at, capability.offset, readable_dwords(capability.offset))
    } else {
        Seq::empty()
    }
}

/// What a list of capabilities describes.
pub open spec fn described(space: Space, at: Address, list: Seq<Capability>) -> Seq<Location>
    decreases list.len(),
{
    if list.len() == 0 {
        Seq::empty()
    } else {
        let rest = described(space, at, list.drop_first());
        match described_by(space, at, list[0]) {
            Some(location) => seq![location] + rest,
            None => rest,
        }
    }
}

/// What looking at a list of capabilities reads.
pub open spec fn described_reads(at: Address, list: Seq<Capability>) -> Seq<(Address, u8)>
    decreases list.len(),
{
    if list.len() == 0 {
        Seq::empty()
    } else {
        capability_reads(at, list[0]) + described_reads(at, list.drop_first())
    }
}

/// The capability list of a function.
pub open spec fn list_of(space: Space, at: Address) -> Seq<Capability> {
    list_from(space, at, list_start(space, at), 0)
}

/// The structure that a vendor-specific capability describes.
fn read_location<S: ConfigSpace>(space: &mut S, at: Address, capability: Capability) -> (r: Option<
    Location,
>)
    requires
        capability.id == CAPABILITY_ID,
    ensures
        r == described_by(old(space).space(), at, capability),
        final(space).space() == old(space).space(),
        final(space).reads() == old(space).reads() + dword_reads(
            at,
            capability.offset,
            readable_dwords(capability.offset),
        ),
{
    let ghost held = space.space();
    let ghost before = space.reads();
    let mut words: [u32; 4] = [0; 4];
    let mut index: u8 = 0;
    assert(space.reads() =~= before + dword_reads(at, capability.offset, 0));
    while index < 4
        invariant
            index <= 4,
            capability.id == CAPABILITY_ID,
            held == old(space).space(),
            before == old(space).reads(),
            space.space() == held,
            index <= readable_dwords(capability.offset),
            space.reads() == before + dword_reads(at, capability.offset, index as int),
            forall|i: int|
                0 <= i < index ==> words@[i] == #[trigger] capability_words(
                    held,
                    at,
                    capability.offset,
                )[i],
        decreases 4 - index,
    {
        // The capability is sixteen bytes from its own offset. An offset near
        // the end of configuration space would read past it, so the whole of
        // it has to fit.
        match capability.offset.checked_add(index * 4) {
            Some(offset) => {
                words[index as usize] = space.read_dword(at, offset);
            },
            None => {
                assert(index == readable_dwords(capability.offset));
                return None;
            },
        }
        index += 1;
        assert(space.reads() =~= before + dword_reads(at, capability.offset, index as int));
    }
    assert(words@ =~= capability_words(held, at, capability.offset));
    // And a notify capability has one dword more. Near the end of
    // configuration space there is no room for it, and then there is no
    // multiplier to be had.
    let fifth: Option<u32> = match capability.offset.checked_add(16) {
        Some(offset) => {
            let word: u32 = space.read_dword(at, offset);
            assert(space.reads() =~= before + dword_reads(at, capability.offset, 5));
            Some(word)
        },
        None => None,
    };
    decode_capability(&words, fifth)
}

/// Every virtio structure a function describes, in the order the capability
/// list gives them.
///
/// Walks the list and decodes the vendor-specific entries; anything else in
/// the list belongs to somebody else and is passed over.
pub fn locations<S: ConfigSpace>(space: &mut S, at: Address) -> (r: Vec<Location>)
    ensures
        r@ == described(old(space).space(), at, list_of(old(space).space(), at)),
        final(space).space() == old(space).space(),
        final(space).reads() == old(space).reads() + start_reads(old(space).space(), at)
            + described_reads(at, list_of(old(space).space(), at)),
{
    let ghost held = space.space();
    let mut found: Vec<Location> = Vec::new();
    let mut walk = CapabilityWalk::start(space, at);
    let ghost before = space.reads();
    let ghost all = walk.rest(held);
    proof {
        assert(found@ + described(held, at, all) =~= described(held, at, all));
    }
    loop
        invariant
            space.space() == held,
            walk.at == at,
            walk.seen <= 48,
            described(held, at, all) == found@ + described(held, at, walk.rest(held)),
            before + described_reads(at, all) == space.reads() + described_reads(
                at,
                walk.rest(held),
            ),
        ensures
            space.space() == held,
            described(held, at, all) == found@,
            before + described_reads(at, all) == space.reads(),
        decreases 48 - walk.seen,
    {
        let ghost rest = walk.rest(held);
        let ghost so_far = found@;
        let ghost reads_now = space.reads();
        match walk.next(space) {
            None => {
                proof {
                    assert(found@ + described(held, at, rest) =~= found@);
                    assert(space.reads() + described_reads(at, rest) =~= space.reads());
                }
                break ;
            },
            Some(capability) => {
                let ghost left = walk.rest(held);
                assert(rest.drop_first() =~= left);
                assert(rest[0] == capability);
                if capability.id == CAPABILITY_ID {
                    if let Some(location) = read_location(space, at, capability) {
                        found.push(location);
                    }
                }
                proof {
                    assert(found@ + described(held, at, left) =~= so_far + described(
                        held,
                        at,
                        rest,
                    ));
                    assert(space.reads() + described_reads(at, left) =~= reads_now
                        + described_reads(at, rest));
                }
            },
        }
    }
    found
}

/// Whether a structure is the common configuration, whole.
pub open spec fn is_common_config(location: Location) -> bool {
    location.structure is Common && location.length >= COMMON_CONFIG_BYTES
}

/// The one structure a driver cannot do without: where the common
/// configuration is, and long enough to hold the registers.
pub fn common_config_location<S: ConfigSpace>(space: &mut S, at: Address) -> (r: Option<Location>)
    ensures
        ({
            let found = described(old(space).space(), at, list_of(old(space).space(), at));
            match r {
                Some(location) => exists|i: int|
                    #![trigger found[i]]
                    0 <= i < found.len() && found[i] == location && is_common_config(found[i])
                        && forall|j: int| 0 <= j < i ==> !is_common_config(#[trigger] found[j]),
                None => forall|j: int| 0 <= j < found.len() ==> !is_common_config(#[trigger] found[j]),
            }
        }),
        final(space).space() == old(space).space(),
        final(space).reads() == old(space).reads() + start_reads(old(space).space(), at)
            + described_reads(at, list_of(old(space).space(), at)),
{
    let found = locations(space, at);
    let mut i: usize = 0;
    while i < found.len()
        invariant
            i <= found@.len(),
            found@ == described(old(space).space(), at, list_of(old(space).space(), at)),
            space.space() == old(space).space(),
            space.reads() == old(space).reads() + start_reads(old(space).space(), at)
                + described_reads(at, list_of(old(space).space(), at)),
            forall|j: int| 0 <= j < i ==> !is_common_config(#[trigger] found@[j]),
        decreases found.len() - i,
    {
        let location = found[i];
        if matches!(location.structure, Structure::Common) && location.length
            >= COMMON_CONFIG_BYTES {
            assert(is_common_config(found@[i as int]));
            return Some(location);
        }
        i += 1;
    }
    None
}

/// The driver has noticed the device.
pub const STATUS_ACKNOWLEDGE: u8 = 1;

/// And knows how to drive it.
pub const STATUS_DRIVER: u8 = 2;

/// The device is ready to be used. Not set until the queues are up.
pub const STATUS_DRIVER_OK: u8 = 4;

/// The driver has finished choosing features and will not change them.
pub const STATUS_FEATURES_OK: u8 = 8;

/// The device gave up. A driver that sees this has to reset and start again,
/// or say so and stop.
pub const STATUS_DEVICE_NEEDS_RESET: u8 = 64;

/// Something went wrong on this side.
pub const STATUS_FAILED: u8 = 128;

/// Feature bit 32: the device speaks virtio 1.0. A modern driver must
/// negotiate it; without it there is nothing to talk about.
pub const FEATURE_VERSION_1: u32 = 1;

/// Which half of the 64-bit feature space bit 32 lives in.
pub const FEATURE_VERSION_1_SELECT: u32 = 1;

/// Offsets inside the common configuration structure.
pub const DEVICE_FEATURE_SELECT: u64 = 0x00;

pub const DEVICE_FEATURE: u64 = 0x04;

pub const DRIVER_FEATURE_SELECT: u64 = 0x08;

pub const DRIVER_FEATURE: u64 = 0x0C;

pub const NUM_QUEUES: u64 = 0x12;

pub const DEVICE_STATUS: u64 = 0x14;

pub const CONFIG_GENERATION: u64 = 0x15;

pub const QUEUE_SELECT: u64 = 0x16;

pub const QUEUE_SIZE: u64 = 0x18;

pub const QUEUE_ENABLE: u64 = 0x1C;

pub const QUEUE_NOTIFY_OFF: u64 = 0x1E;

pub const QUEUE_DESC: u64 = 0x20;

pub const QUEUE_DRIVER: u64 = 0x28;

pub const QUEUE_DEVICE: u64 = 0x30;

/// How many bytes of it virtio defines. A capability that
/// describes less than this is describing something else.
pub const COMMON_CONFIG_BYTES: u32 = 0x38;

/// How many bytes an access moves at once.
#[derive(Debug, Clone, Copy, PartialEq, Eq, Structural)]
pub enum Width {
    Byte,
    Word,
    Dword,
    Qword,
}

impl Width {
    pub open spec fn bytes(self) -> int {
        match self {
            Width::Byte => 1,
            Width::Word => 2,
            Width::Dword => 4,
            Width::Qword => 8,
        }
    }

    /// Whether an offset is a multiple of the width.
    pub open spec fn aligns(self, offset: u64) -> bool {
        match self {
            Width::Byte => true,
            Width::Word => offset % 2 == 0,
            Width::Dword => offset % 4 == 0,
            Width::Qword => offset % 8 == 0,
        }
    }
}

/// One access to a device's memory. Every access is volatile and of the width
/// given: a 16-bit register read as two bytes, or a write moved past another,
/// is a device doing something other than what was asked.
#[derive(Debug, Clone, Copy, PartialEq, Eq, Structural)]
pub enum Access {
    Read { at: VirtAddr, width: Width },
    Write { at: VirtAddr, width: Width, value: u64 },
    /// What comes before has to be seen before what comes after.
    Fence,
}

/// The common configuration structure, wherever it has been mapped.
#[derive(Debug, Clone, Copy)]
pub struct CommonConfig {
    base: VirtAddr,
}

impl CommonConfig {
    /// The whole structure has addresses.
    #[verifier::type_invariant]
    spec fn fits(self) -> bool {
        self.base.0 + COMMON_CONFIG_BYTES <= 0x1_0000_0000_0000_0000
    }

    pub closed spec fn start(self) -> u64 {
        self.base.0
    }

    /// A read of the register at `offset`.
    pub open spec fn reading(self, offset: u64, width: Width) -> Access {
        Access::Read { at: VirtAddr((self.start() + offset) as u64), width }
    }

    /// A write of the register at `offset`.
    pub open spec fn writing(self, offset: u64, width: Width, value: u64) -> Access {
        Access::Write { at: VirtAddr((self.start() + offset) as u64), width, value }
    }

    /// `base` must be the mapped start of a device's common configuration
    /// structure, uncacheable and writable. Nothing else may be driving the
    /// same device.
    pub fn new(base: VirtAddr) -> (r: Self)
        requires
            base.0 + COMMON_CONFIG_BYTES <= 0x1_0000_0000_0000_0000,
        ensures
            r.start() == base.0,
    {
        CommonConfig { base }
    }

    fn read_at(&self, offset: u64, width: Width) -> (r: Access)
        requires
            offset + width.bytes() <= COMMON_CONFIG_BYTES,
        ensures
            r == self.reading(offset, width),
    {
        proof {
            use_type_invariant(self);
        }
        Access::Read { at: self.base + offset, width }
    }

    fn write_at(&self, offset: u64, width: Width, value: u64) -> (r: Access)
        requires
            offset + width.bytes() <= COMMON_CONFIG_BYTES,
        ensures
            r == self.writing(offset, width, value),
    {
        proof {
            use_type_invariant(self);
        }
        Access::Write { at: self.base + offset, width, value }
    }

    pub fn status(&self) -> (r: Access)
        ensures
            r == self.reading(DEVICE_STATUS, Width::Byte),
    {
        self.read_at(DEVICE_STATUS, Width::Byte)
    }

    /// Writing this register is how a device is reset and how it is told the
    /// driver is ready: the order of the writes is the handshake, and getting
    /// it wrong leaves a device that refuses.
    pub fn set_status(&self, status: u8) -> (r: Access)
        ensures
            r == self.writing(DEVICE_STATUS, Width::Byte, status as u64),
    {
        self.write_at(DEVICE_STATUS, Width::Byte, status as u64)
    }

    /// The device's features, thirty-two bits at a time: `select` says which
    /// half. The two accesses belong together: the select decides what the
    /// read answers.
    pub fn device_features(&self, select: u32) -> (r: [Access; 2])
        ensures
            r@ =~= seq![
                self.writing(DEVICE_FEATURE_SELECT, Width::Dword, select as u64),
                self.reading(DEVICE_FEATURE, Width::Dword),
            ],
    {
        [
            self.write_at(DEVICE_FEATURE_SELECT, Width::Dword, select as u64),
            self.read_at(DEVICE_FEATURE, Width::Dword),
        ]
    }

    /// What the driver accepts, thirty-two bits at a time.
    pub fn set_driver_features(&self, select: u32, features: u32) -> (r: [Access; 2])
        ensures
            r@ =~= seq![
                self.writing(DRIVER_FEATURE_SELECT, Width::Dword, select as u64),
                self.writing(DRIVER_FEATURE, Width::Dword, features as u64),
            ],
    {
        [
            self.write_at(DRIVER_FEATURE_SELECT, Width::Dword, select as u64),
            self.write_at(DRIVER_FEATURE, Width::Dword, features as u64),
        ]
    }

    pub fn queue_count(&self) -> (r: Access)
        ensures
            r == self.reading(NUM_QUEUES, Width::Word),
    {
        self.read_at(NUM_QUEUES, Width::Word)
    }

    /// The device's own configuration may change under a driver; this counter
    /// is how it says so.
    pub fn config_generation(&self) -> (r: Access)
        ensures
            r == self.reading(CONFIG_GENERATION, Width::Byte),
    {
        self.read_at(CONFIG_GENERATION, Width::Byte)
    }

    /// Chooses which queue the queue registers refer to.
    pub fn select_queue(&self, queue: u16) -> (r: Access)
        ensures
            r == self.writing(QUEUE_SELECT, Width::Word, queue as u64),
    {
        self.write_at(QUEUE_SELECT, Width::Word, queue as u64)
    }

    /// How many descriptors the selected queue holds. Zero means the device
    /// does not have that queue.
    pub fn queue_size(&self) -> (r: Access)
        ensures
            r == self.reading(QUEUE_SIZE, Width::Word),
    {
        self.read_at(QUEUE_SIZE, Width::Word)
    }

    /// Where to write to tell the device this queue has something new, as a
    /// multiple of the notify structure's stride.
    pub fn queue_notify_offset(&self) -> (r: Access)
        ensures
            r == self.reading(QUEUE_NOTIFY_OFF, Width::Word),
    {
        self.read_at(QUEUE_NOTIFY_OFF, Width::Word)
    }

    /// Whether the selected queue is in use: what is read is not zero (see
    /// `is_enabled`).
    pub fn queue_enabled(&self) -> (r: Access)
        ensures
            r == self.reading(QUEUE_ENABLE, Width::Word),
    {
        self.read_at(QUEUE_ENABLE, Width::Word)
    }

    /// What the value read for `queue_enabled` says.
    pub fn is_enabled(value: u16) -> (r: bool)
        ensures
            r == (value != 0),
    {
        value != 0
    }

    /// Tells the device how many descriptors the driver will use. The device
    /// offers a maximum; a smaller power of two is allowed, and the caller
    /// must read `queue_size` back to see that it was taken.
    pub fn set_queue_size(&self, size: u16) -> (r: Access)
        ensures
            r == self.writing(QUEUE_SIZE, Width::Word, size as u64),
    {
        self.write_at(QUEUE_SIZE, Width::Word, size as u64)
    }

    /// Where the three parts of the selected queue are, **physically**: the
    /// device does not walk page tables.
    pub fn set_queue_addresses(&self, descriptors: u64, available: u64, used: u64) -> (r: [Access;
        3])
        ensures
            r@ =~= seq![
                self.writing(QUEUE_DESC, Width::Qword, descriptors),
                self.writing(QUEUE_DRIVER, Width::Qword, available),
                self.writing(QUEUE_DEVICE, Width::Qword, used),
            ],
    {
        [
            self.write_at(QUEUE_DESC, Width::Qword, descriptors),
            self.write_at(QUEUE_DRIVER, Width::Qword, available),
            self.write_at(QUEUE_DEVICE, Width::Qword, used),
        ]
    }

    /// Turns the selected queue on. Everything about it has to be written
    /// first: from here the device may read it.
    pub fn enable_queue(&self) -> (r: Access)
        ensures
            r == self.writing(QUEUE_ENABLE, Width::Word, 1),
    {
        self.write_at(QUEUE_ENABLE, Width::Word, 1)
    }
}

/// The registers of the common configuration that are used, each with its
/// width, in the order of their offsets.
pub open spec fn registers() -> Seq<(u64, Width)> {
    seq![
        (DEVICE_FEATURE_SELECT, Width::Dword),
        (DEVICE_FEATURE, Width::Dword),
        (DRIVER_FEATURE_SELECT, Width::Dword),
        (DRIVER_FEATURE, Width::Dword),
        (NUM_QUEUES, Width::Word),
        (DEVICE_STATUS, Width::Byte),
        (CONFIG_GENERATION, Width::Byte),
        (QUEUE_SELECT, Width::Word),
        (QUEUE_SIZE, Width::Word),
        (QUEUE_ENABLE, Width::Word),
        (QUEUE_NOTIFY_OFF, Width::Word),
        (QUEUE_DESC, Width::Qword),
        (QUEUE_DRIVER, Width::Qword),
        (QUEUE_DEVICE, Width::Qword),
    ]
}

/// No register reaches into another, each is aligned to its width, and all of
/// them lie inside the structure.
pub proof fn registers_do_not_overlap(i: int, j: int)
    requires
        0 <= i < j < registers().len(),
    ensures
        registers()[i].0 + registers()[i].1.bytes() <= registers()[j].0,
        registers()[i].1.aligns(registers()[i].0),
        registers()[j].1.aligns(registers()[j].0),
        registers()[j].0 + registers()[j].1.bytes() <= COMMON_CONFIG_BYTES,
{
}

/// Where to write to tell a device that one of its queues has something new.
/// One structure serves every queue, strided: a queue's doorbell is at `its
/// notify offset * the multiplier`.
#[derive(Debug, Clone, Copy)]
pub struct Notify {
    pub base: VirtAddr,
    pub multiplier: u32,
}

impl Notify {
    /// How far into the structure a queue's doorbell is.
    pub open spec fn doorbell_at(self, notify_offset: u16) -> int {
        notify_offset * self.multiplier
    }

    /// `base` must be a device's mapped notify structure, uncacheable and
    /// writable, and `multiplier` the one its own capability gave. A
    /// multiplier from somewhere else would ring a different queue's bell, or
    /// none.
    pub fn new(base: VirtAddr, multiplier: u32) -> (r: Self)
        returns
            (Notify { base, multiplier }),
    {
        Notify { base, multiplier }
    }

    /// How far into the structure a queue's doorbell is.
    pub fn doorbell(&self, notify_offset: u16) -> (r: u64)
        ensures
            r == self.doorbell_at(notify_offset),
    {
        let offset: u64 = notify_offset as u64;
        let stride: u64 = self.multiplier as u64;
        assert(offset * stride <= 0xFFFF * 0xFFFF_FFFF) by (nonlinear_arith)
            requires
                0 <= offset <= 0xFFFF,
                0 <= stride <= 0xFFFF_FFFF,
        ;
        offset * stride
    }

    /// Rings it. What is written is which queue: the device looks at both the
    /// address and the value. Everything the queue's entry describes must be
    /// written and published already, and the fence keeps it so.
    pub fn ring(&self, notify_offset: u16, queue: u16) -> (r: [Access; 2])
        requires
            self.base.0 + self.doorbell_at(notify_offset) <= u64::MAX,
        ensures
            r@ =~= seq![
                Access::Fence,
                Access::Write {
                    at: VirtAddr((self.base.0 + self.doorbell_at(notify_offset)) as u64),
                    width: Width::Word,
                    value: queue as u64,
                },
            ],
    {
        let at = self.base + self.doorbell(notify_offset);
        [Access::Fence, Access::Write { at, width: Width::Word, value: queue as u64 }]
    }
}

/// A descriptor is sixteen bytes: address, length, flags, next.
pub const DESCRIPTOR_BYTES: u64 = 16;

/// This descriptor is not the last of its chain.
pub const DESC_NEXT: u16 = 1;

/// The device writes this one; without it, the device reads it.
pub const DESC_WRITE: u16 = 2;

/// Where the three parts of a queue go inside one frame.
///
/// Virtio 1.0 lets the three live at independent addresses, each given to the
/// device by its own register. Putting them at round offsets of one frame
/// keeps every alignment that is asked for.
#[derive(Debug, Clone, Copy, PartialEq, Eq, Structural)]
pub struct QueueLayout {
    pub size: u16,
    pub descriptors: u64,
    pub available: u64,
    pub used: u64,
}

/// Where each part goes in the frame.
pub const DESCRIPTORS_AT: u64 = 0;

pub const AVAILABLE_AT: u64 = 0x400;

pub const USED_AT: u64 = 0x800;

/// The powers of two that sixteen bits hold.
pub open spec fn is_power_of_two(n: u16) -> bool {
    n == 1 || n == 2 || n == 4 || n == 8 || n == 16 || n == 32 || n == 64 || n == 128 || n == 256
        || n == 512 || n == 1024 || n == 2048 || n == 4096 || n == 8192 || n == 16384 || n == 32768
}

proof fn power_of_two_bits(n: u16)
    by (bit_vector)
    requires
        n != 0,
    ensures
        n & ((n - 1) as u16) == 0 <==> (n == 1 || n == 2 || n == 4 || n == 8 || n == 16 || n == 32
            || n == 64 || n == 128 || n == 256 || n == 512 || n == 1024 || n == 2048 || n == 4096
            || n == 8192 || n == 16384 || n == 32768),
{
}

impl QueueLayout {
    /// Where the descriptor at `index` starts.
    pub open spec fn descriptor_at(self, index: u16) -> int {
        self.descriptors + index * DESCRIPTOR_BYTES
    }

    /// Where the available ring's slot for `index` is.
    pub open spec fn available_at(self, index: u16) -> int {
        self.available + available::RING + index as int % self.size as int * 2
    }

    /// Where the used ring's slot for `index` is.
    pub open spec fn used_at(self, index: u16) -> int {
        self.used + used::RING + index as int % self.size as int * used::ENTRY_BYTES
    }

    /// A queue with at least one descriptor, every byte of which has an
    /// address counted from the start of its frame.
    pub open spec fn wf(self) -> bool {
        &&& self.size > 0
        &&& self.descriptors + self.size * DESCRIPTOR_BYTES <= 0x1_0000_0000_0000_0000
        &&& self.available + available::RING + 2 * self.size <= 0x1_0000_0000_0000_0000
        &&& self.used + used::RING + used::ENTRY_BYTES * self.size <= 0x1_0000_0000_0000_0000
    }

    /// The layout of a queue of `size` descriptors in one frame.
    ///
    /// `None` unless `size` is a power of two (the ring index is taken modulo
    /// the size) and unless the descriptor table and the used ring fit where
    /// they have to.
    pub fn in_one_frame(size: u16, frame_bytes: u64) -> (r: Option<Self>)
        ensures
            r == if is_power_of_two(size) && size * DESCRIPTOR_BYTES <= AVAILABLE_AT && USED_AT
                + used::RING + used::ENTRY_BYTES * size + 2 <= frame_bytes {
                Some(
                    QueueLayout {
                        size,
                        descriptors: DESCRIPTORS_AT,
                        available: AVAILABLE_AT,
                        used: USED_AT,
                    },
                )
            } else {
                None
            },
            r matches Some(layout) ==> layout.wf(),
            r is Some <==> is_power_of_two(size) && size <= 64 && frame_bytes >= 0x806 + 8 * size,
            r matches Some(layout) ==> layout.size == size && layout.descriptors == 0
                && layout.available == 0x400 && layout.used == 0x800,
    {
        if size == 0 {
            return None;
        }
        proof {
            power_of_two_bits(size);
        }
        if size & (size - 1) != 0 {
            return None;
        }
        let size64: u64 = size as u64;
        // The descriptor table has to end before the available ring, and the
        // used ring before the frame does.
        if size64 * DESCRIPTOR_BYTES > AVAILABLE_AT || USED_AT + used::RING + used::ENTRY_BYTES
            * size64 + 2 > frame_bytes {
            return None;
        }
        Some(
            QueueLayout {
                size,
                descriptors: DESCRIPTORS_AT,
                available: AVAILABLE_AT,
                used: USED_AT,
            },
        )
    }

    /// Where the descriptor at `index` starts. `None` past the end of the
    /// table: an index the queue does not have would otherwise be written
    /// over whatever follows.
    pub fn descriptor(self, index: u16) -> (r: Option<u64>)
        requires
            index < self.size ==> self.descriptor_at(index) <= u64::MAX,
        ensures
            r is Some <==> index < self.size,
            r matches Some(at) ==> at == self.descriptor_at(index),
    {
        if index >= self.size {
            return None;
        }
        Some(self.descriptors + index as u64 * DESCRIPTOR_BYTES)
    }

    /// Where the available ring's slot for `index` is. The index is a window
    /// over the ring, so it wraps.
    pub fn available_slot(self, index: u16) -> (r: u64)
        requires
            self.size > 0,
            self.available_at(index) <= u64::MAX,
        ensures
            r == self.available_at(index),
    {
        self.available + available::RING + (index % self.size) as u64 * 2
    }

    /// And the used ring's.
    pub fn used_slot(self, index: u16) -> (r: u64)
        requires
            self.size > 0,
            self.used_at(index) <= u64::MAX,
        ensures
            r == self.used_at(index),
    {
        self.used + used::RING + (index % self.size) as u64 * used::ENTRY_BYTES
    }
}

/// The three parts of a queue in one frame never reach into each other, lie
/// inside the frame and keep the alignment that each needs, for every
/// descriptor and for every index.
pub proof fn the_parts_of_a_queue_stay_apart(size: u16, frame_bytes: u64, i: u16, j: u16, k: u16)
    requires
        is_power_of_two(size),
        size * DESCRIPTOR_BYTES <= AVAILABLE_AT,
        USED_AT + used::RING + used::ENTRY_BYTES * size + 2 <= frame_bytes,
        i < size,
    ensures
        ({
            let layout = QueueLayout {
                size,
                descriptors: DESCRIPTORS_AT,
                available: AVAILABLE_AT,
                used: USED_AT,
            };
            &&& layout.descriptor_at(i) % 16 == 0
            &&& layout.available_at(j) % 2 == 0
            &&& layout.used_at(k) % 4 == 0
            &&& 0 <= layout.descriptor_at(i)
            &&& layout.descriptor_at(i) + DESCRIPTOR_BYTES <= layout.available
            &&& layout.available + available::RING <= layout.available_at(j)
            &&& layout.available_at(j) + 2 <= layout.used
            &&& layout.used + used::RING <= layout.used_at(k)
            &&& layout.used_at(k) + used::ENTRY_BYTES <= frame_bytes
        }),
{
    assert(0 <= j % size && j % size < size);
    assert(0 <= k % size && k % size < size);
}

/// No two descriptors share a byte, and no two slots of a ring do.
pub proof fn no_two_entries_share_a_byte(layout: QueueLayout, i: u16, j: u16)
    requires
        layout.wf(),
    ensures
        i < j ==> layout.descriptor_at(i) + DESCRIPTOR_BYTES <= layout.descriptor_at(j),
        i as int % (layout.size as int) < j as int % (layout.size as int) ==> {
            &&& layout.available_at(i) + 2 <= layout.available_at(j)
            &&& layout.used_at(i) + used::ENTRY_BYTES <= layout.used_at(j)
        },
{
}

/// Indices that differ by less than the size of the queue have slots of their
/// own; one that has gone round has the same slot again, even across the
/// point where sixteen bits wrap.
pub proof fn slots_come_round(size: u16, index: u16, step: u16)
    requires
        is_power_of_two(size),
    ensures
        ({
            let later = (index + step) % 0x1_0000;
            &&& 0 < step < size ==> later % (size as int) != index as int % size as int
            &&& step as int % size as int == 0 ==> later % (size as int) == index as int
                % size as int
        }),
{
    let n = size as int;
    let total = index + step;
    let wrapped = total % 0x1_0000;
    assert(0x1_0000int % n == 0);
    let q = 0x1_0000int / n;
    assert(0x1_0000 == q * n) by (nonlinear_arith)
        requires
            0x1_0000int % n == 0,
            q == 0x1_0000int / n,
            n > 0,
    ;
    assert(wrapped % n == total % n) by {
        if total >= 0x1_0000 {
            assert(wrapped == total - q * n);
            vstd::arithmetic::div_mod::lemma_mod_multiples_vanish(-q, total, n);
            assert(n * -q + total == total - q * n) by (nonlinear_arith);
        }
    }
    vstd::arithmetic::div_mod::lemma_fundamental_div_mod(index as int, n);
    vstd::arithmetic::div_mod::lemma_fundamental_div_mod(total, n);
    vstd::arithmetic::div_mod::lemma_mod_bound(index as int, n);
    vstd::arithmetic::div_mod::lemma_mod_bound(total, n);
    if 0 < step < size && total % n == index as int % n {
        let d = total / n - index as int / n;
        assert(step == n * d) by (nonlinear_arith)
            requires
                total == n * (total / n) + total % n,
                index == n * (index as int / n) + index as int % n,
                total % n == index as int % n,
                total == index + step,
                d == total / n - index as int / n,
        ;
        assert(false) by (nonlinear_arith)
            requires
                step == n * d,
                0 < step < n,
        ;
    }
    if step as int % n == 0 {
        vstd::arithmetic::div_mod::lemma_fundamental_div_mod(step as int, n);
        vstd::arithmetic::div_mod::lemma_mod_multiples_vanish(step as int / n, index as int, n);
    }
}

/// One descriptor, as the driver fills it in.
#[derive(Debug, Clone, Copy, PartialEq, Eq, Structural)]
pub struct Descriptor {
    /// **Physical**, because the device does not walk page tables.
    pub address: u64,
    pub length: u32,
    pub flags: u16,
    /// The next descriptor of this chain, when `DESC_NEXT` is set.
    pub next: u16,
}

/// What the device returned: which chain, and how much it wrote.
#[derive(Debug, Clone, Copy, PartialEq, Eq, Structural)]
pub struct Completion {
    pub head: u16,
    pub written: u32,
}

impl Completion {
    /// A completion from the two dwords of its entry.
    pub fn from_entry(head: u32, written: u32) -> (r: Self)
        ensures
            r.head == head % 0x1_0000,
            r.written == written,
    {
        assert(head as u16 == head % 0x1_0000) by (bit_vector);
        Completion { head: head as u16, written }
    }
}

/// What publishing a chain takes: the accesses to make, and the index that is
/// then published.
#[derive(Debug, Clone, Copy, PartialEq, Eq)]
pub struct Publication {
    pub accesses: [Access; 3],
    pub index: u16,
}

/// A queue the kernel can put requests in, wherever it has been laid out.
///
/// `base` is where the frame holding it can be **read and written by the
/// kernel**; the addresses inside descriptors are physical, because they are
/// for the device. The two are different views of the same memory and that is
/// the point.
#[derive(Debug, Clone, Copy)]
pub struct Queue {
    base: VirtAddr,
    layout: QueueLayout,
}

impl Queue {
    /// The whole queue has addresses.
    #[verifier::type_invariant]
    spec fn fits(self) -> bool {
        queue_fits(self.base.0, self.layout)
    }

    pub closed spec fn start(self) -> u64 {
        self.base.0
    }

    pub closed spec fn parts(self) -> QueueLayout {
        self.layout
    }

    pub open spec fn reading(self, offset: int, width: Width) -> Access {
        Access::Read { at: VirtAddr((self.start() + offset) as u64), width }
    }

    pub open spec fn writing(self, offset: int, width: Width, value: u64) -> Access {
        Access::Write { at: VirtAddr((self.start() + offset) as u64), width, value }
    }

    /// `base` must be a frame the kernel owns, mapped readable and writable,
    /// laid out as `layout` says and given to no one but this device.
    pub fn new(base: VirtAddr, layout: QueueLayout) -> (r: Self)
        requires
            queue_fits(base.0, layout),
        ensures
            r.start() == base.0,
            r.parts() == layout,
    {
        Queue { base, layout }
    }

    pub fn layout(&self) -> (r: QueueLayout)
        ensures
            r == self.parts(),
    {
        self.layout
    }

    /// The accesses that write one descriptor, or `None` if there is no such
    /// descriptor. It must not be one the device is using.
    pub fn set_descriptor(&self, index: u16, descriptor: Descriptor) -> (r: Option<[Access; 4]>)
        ensures
            r is Some <==> index < self.parts().size,
            r matches Some(accesses) ==> {
                let at = self.parts().descriptor_at(index);
                accesses@ =~= seq![
                    self.writing(at, Width::Qword, descriptor.address),
                    self.writing(at + 8, Width::Dword, descriptor.length as u64),
                    self.writing(at + 12, Width::Word, descriptor.flags as u64),
                    self.writing(at + 14, Width::Word, descriptor.next as u64),
                ]
            },
    {
        proof {
            use_type_invariant(self);
        }
        match self.layout.descriptor(index) {
            None => None,
            Some(offset) => Some(
                [
                    Access::Write {
                        at: self.base + offset,
                        width: Width::Qword,
                        value: descriptor.address,
                    },
                    Access::Write {
                        at: self.base + (offset + 8),
                        width: Width::Dword,
                        value: descriptor.length as u64,
                    },
                    Access::Write {
                        at: self.base + (offset + 12),
                        width: Width::Word,
                        value: descriptor.flags as u64,
                    },
                    Access::Write {
                        at: self.base + (offset + 14),
                        width: Width::Word,
                        value: descriptor.next as u64,
                    },
                ],
            ),
        }
    }

    /// Puts the chain starting at `head` in the available ring and publishes
    /// it. `index` is what reading `available_index` gave.
    ///
    /// The order is the protocol: the slot is written, then the index that
    /// makes it visible. The device may be looking in between, so a fence
    /// separates them. The chain must be written already.
    pub fn publish(&self, index: u16, head: u16) -> (r: Publication)
        ensures
            r.index == (index + 1) % 0x1_0000,
            r.accesses@ =~= seq![
                self.writing(self.parts().available_at(index), Width::Word, head as u64),
                Access::Fence,
                self.writing(
                    self.parts().available + available::INDEX,
                    Width::Word,
                    ((index + 1) % 0x1_0000) as u64,
                ),
            ],
    {
        proof {
            use_type_invariant(self);
        }
        let slot: u64 = self.layout.available_slot(index);
        let next: u16 = index.wrapping_add(1);
        Publication {
            accesses: [
                Access::Write { at: self.base + slot, width: Width::Word, value: head as u64 },
                Access::Fence,
                Access::Write {
                    at: self.base + (self.layout.available + available::INDEX),
                    width: Width::Word,
                    value: next as u64,
                },
            ],
            index: next,
        }
    }

    /// How many entries the device has returned, ever. The device writes
    /// this, so nothing read after it may be older than it.
    pub fn used_index(&self) -> (r: [Access; 2])
        ensures
            r@ =~= seq![
                self.reading(self.parts().used + used::INDEX, Width::Word),
                Access::Fence,
            ],
    {
        proof {
            use_type_invariant(self);
        }
        [
            Access::Read {
                at: self.base + (self.layout.used + used::INDEX),
                width: Width::Word,
            },
            Access::Fence,
        ]
    }

    /// The entry the device wrote at `index`, which must be one that
    /// `used_index` has reached: an entry the device has not written yet
    /// holds whatever was there. See `Completion::from_entry`.
    pub fn completion(&self, index: u16) -> (r: [Access; 2])
        ensures
            r@ =~= seq![
                self.reading(self.parts().used_at(index), Width::Dword),
                self.reading(self.parts().used_at(index) + 4, Width::Dword),
            ],
    {
        proof {
            use_type_invariant(self);
        }
        let offset: u64 = self.layout.used_slot(index);
        [
            Access::Read { at: self.base + offset, width: Width::Dword },
            Access::Read { at: self.base + (offset + 4), width: Width::Dword },
        ]
    }

    /// The available ring's published index.
    pub fn available_index(&self) -> (r: Access)
        ensures
            r == self.reading(self.parts().available + available::INDEX, Width::Word),
    {
        proof {
            use_type_invariant(self);
        }
        Access::Read {
            at: self.base + (self.layout.available + available::INDEX),
            width: Width::Word,
        }
    }
}

/// Whether every byte of a queue has an address, in a frame at `base`.
pub open spec fn queue_fits(base: u64, layout: QueueLayout) -> bool {
    &&& layout.wf()
    &&& base + layout.descriptors + layout.size * DESCRIPTOR_BYTES <= 0x1_0000_0000_0000_0000
    &&& base + layout.available + available::RING + 2 * layout.size <= 0x1_0000_0000_0000_0000
    &&& base + layout.used + used::RING + used::ENTRY_BYTES * layout.size <= 0x1_0000_0000_0000_0000
}

} // verus!
