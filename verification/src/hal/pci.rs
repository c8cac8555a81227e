//! What a PCI function says about itself, and where it lives.
//!
//! From the first sixty-four bytes of a function's configuration space to
//! something with names. The reading of those bytes is the architecture's
//! business; the meaning of them, and the walk over the bus, are here.

use crate::hal::hex::alternate_hex;
use vstd::prelude::*;
use vstd::string::*;

pub mod laws;
pub mod simulated;

verus! {

use crate::hal::hex::prefixed_hex;

/// How many functions the kernel will keep. Enumerating is not allocating:
/// running out is something to say, not something to grow a list for in the
/// middle of the boot.
pub const MAX_DEVICES: usize = 32;

/// A vendor of `0xFFFF` is how the bus says "nothing here": the read is
/// unclaimed and the bus returns all ones.
pub const NO_VENDOR: u16 = 0xFFFF;

/// Where a function lives on the bus.
#[derive(Debug, Clone, Copy, PartialEq, Eq, Structural, PartialOrd, Ord)]
pub struct Address {
    pub bus: u8,
    pub device: u8,
    pub function: u8,
}

impl Address {
    /// Whether the numbers fit the five and the three bits that an address
    /// has for them.
    pub open spec fn fits(self) -> bool {
        self.device < 32 && self.function < 8
    }

    /// `device` must be below 32 and `function` below 8: the address has five
    /// bits for one and three for the other, and a number that does not fit
    /// would silently land on a different function.
    pub fn new(bus: u8, device: u8, function: u8) -> (r: Option<Self>)
        ensures
            r == if device < 32 && function < 8 {
                Some(Address { bus, device, function })
            } else {
                None
            },
    {
        if device < 32 && function < 8 {
            Some(Address { bus, device, function })
        } else {
            None
        }
    }

    /// The fields of a configuration address, put side by side.
    pub open spec fn selector(self, offset: u8) -> u32 {
        1u32 << 31 | (self.bus as u32) << 16 | (self.device as u32) << 11 | (self.function as u32)
            << 8 | (offset as u32 & 0xFC)
    }

    /// The value to write to `0xCF8` to make `0xCFC` read the dword at
    /// `offset`. Bit 31 enables the mapping; the offset keeps only its
    /// dword-aligned part, because that port reads four bytes at a time.
    pub fn config_address(self, offset: u8) -> (r: u32)
        ensures
            r == self.selector(offset),
            r == 1u32 << 31 | (self.bus as u32) << 16 | (self.device as u32) << 11 | (
            self.function as u32) << 8 | (offset as u32 & 0xFC),
            self.fits() ==> r == 0x8000_0000 + 0x1_0000 * self.bus + 0x800 * self.device + 0x100
                * self.function + (offset - offset % 4),
    {
        proof {
            let bus = self.bus as u32;
            let device = self.device as u32;
            let function = self.function as u32;
            let at = offset as u32;
            assert(bus < 256 && device < 32 && function < 8 && at < 256 ==> 1u32 << 31 | bus << 16
                | device << 11 | function << 8 | (at & 0xFC) == 0x8000_0000 + 0x1_0000 * bus + 0x800
                * device + 0x100 * function + (at - at % 4)) by (bit_vector);
        }
        1u32 << 31 | (self.bus as u32) << 16 | (self.device as u32) << 11 | (self.function as u32)
            << 8 | (offset as u32 & 0xFC)
    }
}

/// Two functions, or two dwords of one, never share a configuration address.
pub proof fn configuration_addresses_do_not_collide(a: Address, b: Address, x: u8, y: u8)
    requires
        a.fits(),
        b.fits(),
        0x8000_0000 + 0x1_0000 * a.bus + 0x800 * a.device + 0x100 * a.function + (x - x % 4)
            == 0x8000_0000 + 0x1_0000 * b.bus + 0x800 * b.device + 0x100 * b.function + (y - y % 4),
    ensures
        a == b,
        x / 4 == y / 4,
{
}

/// The header of a PCI function: who it is and what it is.
#[derive(Debug, Clone, Copy, PartialEq, Eq)]
pub struct Header {
    pub vendor: u16,
    pub device: u16,
    /// What it does, coarsest first: class, then subclass, then the
    /// programming interface within that subclass.
    pub class: u8,
    pub subclass: u8,
    pub prog_if: u8,
    pub revision: u8,
    /// Bit 7 says the device has more than one function; the low bits say
    /// what shape the rest of the header is.
    pub header_type: u8,
    /// Where its registers are, as the firmware left them. Untouched and
    /// unsized.
    pub bars: [u32; 6],
}

/// The contents of a header.
pub struct HeaderView {
    pub vendor: u16,
    pub device: u16,
    pub class: u8,
    pub subclass: u8,
    pub prog_if: u8,
    pub revision: u8,
    pub header_type: u8,
    pub bars: Seq<u32>,
}

impl View for Header {
    type V = HeaderView;

    open spec fn view(&self) -> HeaderView {
        HeaderView {
            vendor: self.vendor,
            device: self.device,
            class: self.class,
            subclass: self.subclass,
            prog_if: self.prog_if,
            revision: self.revision,
            header_type: self.header_type,
            bars: self.bars@,
        }
    }
}

/// What the first sixteen dwords of configuration space say, if anything is
/// there at all.
pub open spec fn header_of(words: Seq<u32>) -> Option<HeaderView> {
    if words[0] % 0x1_0000 == NO_VENDOR {
        None
    } else {
        Some(
            HeaderView {
                vendor: (words[0] % 0x1_0000) as u16,
                device: (words[0] / 0x1_0000) as u16,
                revision: (words[2] % 0x100) as u8,
                prog_if: (words[2] / 0x100 % 0x100) as u8,
                subclass: (words[2] / 0x1_0000 % 0x100) as u8,
                class: (words[2] / 0x100_0000) as u8,
                header_type: (words[3] / 0x1_0000 % 0x100) as u8,
                bars: words.subrange(4, 10),
            },
        )
    }
}

/// The parts of a dword.
proof fn dword_parts(word: u32)
    by (bit_vector)
    ensures
        word as u16 == word % 0x1_0000,
        (word >> 16) as u16 == word / 0x1_0000,
        word as u8 == word % 0x100,
        (word >> 8) as u8 == word / 0x100 % 0x100,
        (word >> 16) as u8 == word / 0x1_0000 % 0x100,
        (word >> 24) as u8 == word / 0x100_0000,
{
}

impl HeaderView {
    pub open spec fn is_multifunction(self) -> bool {
        self.header_type >= 0x80
    }
}

impl Header {
    /// Decodes the first sixteen dwords of configuration space, or `None`
    /// when there is no function there.
    pub fn from_config(words: &[u32; 16]) -> (r: Option<Self>)
        ensures
            match header_of(words@) {
                Some(header) => r is Some && r->Some_0@ == header,
                None => r is None,
            },
            r matches Some(header) ==> forall|i: int|
                0 <= i < 6 ==> #[trigger] header.bars@[i] == words@[4 + i],
    {
        proof {
            dword_parts(words@[0]);
            dword_parts(words@[2]);
            dword_parts(words@[3]);
        }
        let vendor: u16 = words[0] as u16;
        if vendor == NO_VENDOR {
            return None;
        }
        let header = Header {
            vendor,
            device: (words[0] >> 16) as u16,
            revision: words[2] as u8,
            prog_if: (words[2] >> 8) as u8,
            subclass: (words[2] >> 16) as u8,
            class: (words[2] >> 24) as u8,
            header_type: (words[3] >> 16) as u8,
            bars: [words[4], words[5], words[6], words[7], words[8], words[9]],
        };
        assert(header.bars@ =~= words@.subrange(4, 10));
        Some(header)
    }

    /// Whether functions 1 to 7 are worth looking at. Asking a
    /// single-function device about its other functions can answer with a
    /// copy of function 0, which would list the same device eight times.
    pub fn is_multifunction(self) -> (r: bool)
        ensures
            r == self@.is_multifunction(),
            r == (self.header_type >= 0x80),
    {
        let kind: u8 = self.header_type;
        assert(kind & 0x80 != 0 <==> kind >= 0x80) by (bit_vector);
        kind & 0x80 != 0
    }

    /// The header layout below bit 7: 0 is an ordinary device, 1 a PCI-to-PCI
    /// bridge, 2 a CardBus bridge. Only 0 has six BARs.
    pub fn layout(self) -> (r: u8)
        ensures
            r == self.header_type % 0x80,
    {
        let kind: u8 = self.header_type;
        assert(kind & 0x7F == kind % 0x80) by (bit_vector);
        kind & 0x7F
    }

    /// What the class and the subclass are called.
    pub open spec fn name_of(class: u8, subclass: u8) -> &'static str {
        match class {
            0x00 => "unclassified",
            0x01 => match subclass {
                0x00 => "SCSI storage",
                0x01 => "IDE storage",
                0x06 => "SATA storage",
                0x08 => "NVMe storage",
                _ => "storage",
            },
            0x02 => "network",
            0x03 => "display",
            0x04 => "multimedia",
            0x06 => match subclass {
                0x00 => "host bridge",
                0x01 => "ISA bridge",
                0x04 => "PCI-to-PCI bridge",
                _ => "bridge",
            },
            0x0C => match subclass {
                0x03 => "USB controller",
                _ => "serial bus",
            },
            _ => "something else",
        }
    }

    /// Enough of a name to make the boot log readable. Not a full table: the
    /// classes this kernel can meet, and a shrug for the rest.
    pub fn class_name(self) -> (r: &'static str)
        ensures
            r == Self::name_of(self.class, self.subclass),
    {
        match (self.class, self.subclass) {
            (0x00, _) => "unclassified",
            (0x01, 0x00) => "SCSI storage",
            (0x01, 0x01) => "IDE storage",
            (0x01, 0x06) => "SATA storage",
            (0x01, 0x08) => "NVMe storage",
            (0x01, _) => "storage",
            (0x02, _) => "network",
            (0x03, _) => "display",
            (0x04, _) => "multimedia",
            (0x06, 0x00) => "host bridge",
            (0x06, 0x01) => "ISA bridge",
            (0x06, 0x04) => "PCI-to-PCI bridge",
            (0x06, _) => "bridge",
            (0x0C, 0x03) => "USB controller",
            (0x0C, _) => "serial bus",
            _ => "something else",
        }
    }
}

/// What a function turned out to be, and where.
#[derive(Debug, Clone, Copy, PartialEq, Eq)]
pub struct Function {
    pub at: Address,
    pub header: Header,
}

/// A function with the contents of its header.
pub struct FunctionView {
    pub at: Address,
    pub header: HeaderView,
}

impl View for Function {
    type V = FunctionView;

    open spec fn view(&self) -> FunctionView {
        FunctionView { at: self.at, header: self.header@ }
    }
}

/// Every function the kernel found, in a table it never grows.
pub struct Devices {
    found: [Option<Function>; 32],
    /// How many there were, including the ones that did not fit. The
    /// difference from `len()` is what was lost.
    seen: usize,
}

impl View for Devices {
    type V = Seq<FunctionView>;

    /// The functions that were kept, in the order they were found.
    closed spec fn view(&self) -> Seq<FunctionView> {
        Seq::new(self.kept() as nat, |i: int| self.found@[i]->Some_0@)
    }
}

impl Devices {
    spec fn kept(&self) -> int {
        if self.seen < 32 {
            self.seen as int
        } else {
            32
        }
    }

    /// The table is filled from the front, and full before anything is lost.
    #[verifier::type_invariant]
    spec fn filled(self) -> bool {
        forall|i: int| 0 <= i < 32 ==> ((#[trigger] self.found@[i]) is Some <==> i < self.kept())
    }

    /// How many functions there were, kept or not.
    pub closed spec fn total(self) -> nat {
        self.seen as nat
    }

    pub fn new() -> (r: Self)
        ensures
            r@ == Seq::<FunctionView>::empty(),
            r.total() == 0,
    {
        let devices = Devices { found: [None; 32], seen: 0 };
        assert(devices@ =~= Seq::<FunctionView>::empty());
        devices
    }

    /// Records a function, answering whether there was room. Counting happens
    /// either way: the number that did not fit is the useful part of running
    /// out.
    pub fn add(&mut self, function: Function) -> (r: bool)
        requires
            old(self).total() < usize::MAX,
        ensures
            r == (old(self)@.len() < MAX_DEVICES),
            r == (old(self)@.len() < 32),
            final(self).total() == old(self).total() + 1,
            final(self)@ == if r {
                old(self)@.push(function@)
            } else {
                old(self)@
            },
    {
        proof {
            use_type_invariant(&*self);
        }
        let seen: usize = self.seen;
        let mut found = self.found;
        if seen < MAX_DEVICES {
            found[seen] = Some(function);
            *self = Devices { found, seen: seen + 1 };
            assert(self@ =~= old(self)@.push(function@));
            true
        } else {
            *self = Devices { found, seen: seen + 1 };
            assert(self@ =~= old(self)@);
            false
        }
    }

    pub fn len(&self) -> (r: usize)
        ensures
            r == self@.len(),
            r <= MAX_DEVICES,
            r <= self.total(),
            self.total() <= MAX_DEVICES ==> r == self.total(),
    {
        if self.seen < MAX_DEVICES {
            self.seen
        } else {
            MAX_DEVICES
        }
    }

    pub fn is_empty(&self) -> (r: bool)
        ensures
            r == (self@.len() == 0),
    {
        self.len() == 0
    }

    /// How many were found but not kept.
    pub fn lost(&self) -> (r: usize)
        ensures
            r == self.total() - self@.len(),
    {
        self.seen - self.len()
    }

    /// The function at `index` of those that were kept.
    pub fn get(&self, index: usize) -> (r: Option<Function>)
        ensures
            r is Some <==> index < self@.len(),
            r matches Some(function) ==> function@ == self@[index as int],
    {
        proof {
            use_type_invariant(self);
        }
        if index < self.len() {
            self.found[index]
        } else {
            None
        }
    }

    /// The functions that were kept, in the order they were found.
    pub fn iter(&self) -> (r: Vec<Function>)
        ensures
            r@.len() == self@.len(),
            forall|i: int| 0 <= i < r@.len() ==> (#[trigger] r@[i])@ == self@[i],
    {
        let mut all: Vec<Function> = Vec::new();
        let mut i: usize = 0;
        while i < self.len()
            invariant
                i <= self@.len(),
                all@.len() == i,
                forall|j: int| 0 <= j < i ==> (#[trigger] all@[j])@ == self@[j],
            decreases self@.len() - i,
        {
            if let Some(function) = self.get(i) {
                all.push(function);
            }
            i += 1;
        }
        all
    }

    /// The first function with this vendor and device id, which is how a
    /// driver asks for the hardware it knows how to talk to.
    pub fn find(&self, vendor: u16, device: u16) -> (r: Option<Function>)
        ensures
            match r {
                Some(function) => exists|i: int|
                    #![trigger self@[i]]
                    0 <= i < self@.len() && self@[i] == function@ && is_device(
                        self@[i],
                        vendor,
                        device,
                    ) && forall|j: int| 0 <= j < i ==> !is_device(#[trigger] self@[j], vendor, device),
                None => forall|j: int|
                    0 <= j < self@.len() ==> !is_device(#[trigger] self@[j], vendor, device),
            },
    {
        let mut i: usize = 0;
        while i < self.len()
            invariant
                i <= self@.len(),
                forall|j: int| 0 <= j < i ==> !is_device(#[trigger] self@[j], vendor, device),
            decreases self@.len() - i,
        {
            if let Some(function) = self.get(i) {
                if function.header.vendor == vendor && function.header.device == device {
                    assert(is_device(self@[i as int], vendor, device));
                    return Some(function);
                }
            }
            i += 1;
        }
        None
    }

    /// The first function of this class and subclass, for a driver that cares
    /// what a device does rather than who made it.
    pub fn find_class(&self, class: u8, subclass: u8) -> (r: Option<Function>)
        ensures
            match r {
                Some(function) => exists|i: int|
                    #![trigger self@[i]]
                    0 <= i < self@.len() && self@[i] == function@ && is_of_class(
                        self@[i],
                        class,
                        subclass,
                    ) && forall|j: int|
                        0 <= j < i ==> !is_of_class(#[trigger] self@[j], class, subclass),
                None => forall|j: int|
                    0 <= j < self@.len() ==> !is_of_class(#[trigger] self@[j], class, subclass),
            },
    {
        let mut i: usize = 0;
        while i < self.len()
            invariant
                i <= self@.len(),
                forall|j: int| 0 <= j < i ==> !is_of_class(#[trigger] self@[j], class, subclass),
            decreases self@.len() - i,
        {
            if let Some(function) = self.get(i) {
                if function.header.class == class && function.header.subclass == subclass {
                    assert(is_of_class(self@[i as int], class, subclass));
                    return Some(function);
                }
            }
            i += 1;
        }
        None
    }
}

pub open spec fn is_device(function: FunctionView, vendor: u16, device: u16) -> bool {
    function.header.vendor == vendor && function.header.device == device
}

pub open spec fn is_of_class(function: FunctionView, class: u8, subclass: u8) -> bool {
    function.header.class == class && function.header.subclass == subclass
}

impl Default for Devices {
    fn default() -> (r: Self)
        ensures
            r@ == Seq::<FunctionView>::empty(),
            r.total() == 0,
    {
        Self::new()
    }
}

/// What configuration space holds: the dword at an offset of a function.
pub type Space = spec_fn(Address, u8) -> u32;

/// Where the configuration of a function is read from. The architecture
/// implements it (two port instructions on x86_64) and says what it holds;
/// everything else here is the same on any machine with a PCI bus.
pub trait ConfigSpace {
    /// What configuration space holds. Reading has no effect on it.
    open spec fn space(&self) -> Space {
        arbitrary()
    }

    /// What has been read so far, in order.
    open spec fn reads(&self) -> Seq<(Address, u8)> {
        arbitrary()
    }

    /// The dword at `offset` of the function at `at`. Offsets are
    /// dword-aligned by construction; the low two bits are ignored.
    fn read_dword(&mut self, at: Address, offset: u8) -> (r: u32)
        ensures
            r == old(self).space()(at, offset),
            r == old(self).space()(at, (offset - offset % 4) as u8),
            final(self).space() == old(self).space(),
            final(self).reads() == old(self).reads().push((at, offset)),
    ;
}

/// How many buses there can be. All of them are visited: a bus with nothing
/// on it costs thirty-two reads and says so.
pub const BUSES: u16 = 256;

pub const DEVICES_PER_BUS: u8 = 32;

pub const FUNCTIONS_PER_DEVICE: u8 = 8;

/// The header is the first sixteen dwords.
pub const HEADER_DWORDS: usize = 16;

/// The first sixteen dwords of a function.
pub open spec fn header_words(space: Space, at: Address) -> Seq<u32> {
    Seq::new(16, |i: int| space(at, (4 * i) as u8))
}

/// The header of a function, if there is one.
pub open spec fn header_at(space: Space, at: Address) -> Option<HeaderView> {
    header_of(header_words(space, at))
}

/// The first `n` dwords of a function, as they are read.
pub open spec fn header_reads(at: Address, n: int) -> Seq<(Address, u8)> {
    Seq::new(n as nat, |i: int| (at, (4 * i) as u8))
}

/// What reading a header reads: the vendor alone where nothing answers, all
/// sixteen dwords otherwise.
pub open spec fn reads_of(space: Space, at: Address) -> Seq<(Address, u8)> {
    if header_at(space, at) is None {
        header_reads(at, 1)
    } else {
        header_reads(at, 16)
    }
}

/// Reads a function's header, or `None` when there is nothing there.
///
/// The vendor is read first, alone: if nothing answers, the other fifteen
/// reads would be fifteen reads of nothing.
pub fn read_header<S: ConfigSpace>(space: &mut S, at: Address) -> (r: Option<Header>)
    ensures
        match header_at(old(space).space(), at) {
            Some(header) => r is Some && r->Some_0@ == header,
            None => r is None,
        },
        final(space).space() == old(space).space(),
        final(space).reads() == old(space).reads() + reads_of(old(space).space(), at),
{
    let ghost before = space.reads();
    let ghost held = space.space();
    let mut words: [u32; 16] = [0; 16];
    words[0] = space.read_dword(at, 0);
    proof {
        dword_parts(words@[0]);
        assert(header_words(held, at)[0] == words@[0]);
    }
    if words[0] as u16 == NO_VENDOR {
        assert(space.reads() =~= before + header_reads(at, 1));
        return None;
    }
    let mut index: usize = 1;
    assert(space.reads() =~= before + header_reads(at, 1));
    while index < HEADER_DWORDS
        invariant
            1 <= index <= HEADER_DWORDS,
            space.space() == held,
            held == old(space).space(),
            before == old(space).reads(),
            space.reads() == before + header_reads(at, index as int),
            words@.len() == 16,
            forall|i: int| 0 <= i < index ==> words@[i] == #[trigger] header_words(held, at)[i],
        decreases HEADER_DWORDS - index,
    {
        words[index] = space.read_dword(at, (index * 4) as u8);
        index += 1;
        assert(space.reads() =~= before + header_reads(at, index as int));
    }
    assert(words@ =~= header_words(held, at));
    Header::from_config(&words)
}

/// The functions from `function` on of a device that has several.
pub open spec fn others_of(space: Space, bus: u8, device: u8, function: int) -> Seq<FunctionView>
    decreases 8 - function,
{
    if function >= 8 {
        Seq::empty()
    } else {
        let at = Address { bus, device, function: function as u8 };
        let rest = others_of(space, bus, device, function + 1);
        match header_at(space, at) {
            Some(header) => seq![FunctionView { at, header }] + rest,
            None => rest,
        }
    }
}

/// What is read of them.
pub open spec fn others_reads(space: Space, bus: u8, device: u8, function: int) -> Seq<
    (Address, u8),
>
    decreases 8 - function,
{
    if function >= 8 {
        Seq::empty()
    } else {
        reads_of(space, Address { bus, device, function: function as u8 }) + others_reads(
            space,
            bus,
            device,
            function + 1,
        )
    }
}

/// The functions of a device. Functions 1 to 7 count only where function 0
/// says there are several.
pub open spec fn device_functions(space: Space, bus: u8, device: u8) -> Seq<FunctionView> {
    let at = Address { bus, device, function: 0 };
    match header_at(space, at) {
        None => Seq::empty(),
        Some(header) => seq![FunctionView { at, header }] + if header.is_multifunction() {
            others_of(space, bus, device, 1)
        } else {
            Seq::empty()
        },
    }
}

/// What is read of a device.
pub open spec fn device_reads(space: Space, bus: u8, device: u8) -> Seq<(Address, u8)> {
    let at = Address { bus, device, function: 0 };
    reads_of(space, at) + match header_at(space, at) {
        None => Seq::empty(),
        Some(header) => if header.is_multifunction() {
            others_reads(space, bus, device, 1)
        } else {
            Seq::empty()
        },
    }
}

/// The functions of the devices from `n` on, counting the devices of every
/// bus.
pub open spec fn functions_from(space: Space, n: int) -> Seq<FunctionView>
    decreases 0x2000 - n,
{
    if n >= 0x2000 {
        Seq::empty()
    } else {
        device_functions(space, (n / 32) as u8, (n % 32) as u8) + functions_from(space, n + 1)
    }
}

/// What is read of them.
pub open spec fn reads_from(space: Space, n: int) -> Seq<(Address, u8)>
    decreases 0x2000 - n,
{
    if n >= 0x2000 {
        Seq::empty()
    } else {
        device_reads(space, (n / 32) as u8, (n % 32) as u8) + reads_from(space, n + 1)
    }
}

/// What a table holds of all that were found: as many of the first as fit.
pub open spec fn first_of(all: Seq<FunctionView>) -> Seq<FunctionView> {
    if all.len() <= MAX_DEVICES {
        all
    } else {
        all.take(MAX_DEVICES as int)
    }
}

/// Every function on every bus, in the order they were found.
///
/// Functions 1 to 7 of a device are only asked about when function 0 says the
/// device is multifunction: a device with one function may answer for all
/// eight, and the same disk would be listed eight times.
pub fn scan<S: ConfigSpace>(space: &mut S) -> (r: Devices)
    ensures
        r@ == first_of(functions_from(old(space).space(), 0)),
        r.total() == functions_from(old(space).space(), 0).len(),
        final(space).space() == old(space).space(),
        final(space).reads() == old(space).reads() + reads_from(old(space).space(), 0),
{
    let ghost held = space.space();
    let ghost before = space.reads();
    let ghost mut found = Seq::<FunctionView>::empty();
    let mut devices = Devices::new();
    let mut bus: u16 = 0;
    proof {
        assert(found + functions_from(held, 0) =~= functions_from(held, 0));
        assert(space.reads() + reads_from(held, 0) =~= before + reads_from(held, 0));
    }
    while bus < BUSES
        invariant
            bus <= BUSES,
            space.space() == held,
            devices@ == first_of(found),
            devices.total() == found.len(),
            found.len() <= 256 * bus,
            functions_from(held, 0) == found + functions_from(held, 32 * bus),
            before + reads_from(held, 0) == space.reads() + reads_from(held, 32 * bus),
        decreases BUSES - bus,
    {
        let mut device: u8 = 0;
        while device < DEVICES_PER_BUS
            invariant
                bus < BUSES,
                device <= DEVICES_PER_BUS,
                space.space() == held,
                devices@ == first_of(found),
                devices.total() == found.len(),
                found.len() <= 256 * bus + 8 * device,
                functions_from(held, 0) == found + functions_from(held, 32 * bus + device),
                before + reads_from(held, 0) == space.reads() + reads_from(
                    held,
                    32 * bus + device,
                ),
            decreases DEVICES_PER_BUS - device,
        {
            let ghost n: int = 32 * bus + device;
            let ghost b = bus as u8;
            let ghost old_found = found;
            let ghost old_reads = space.reads();
            assert((n / 32) as u8 == b && (n % 32) as u8 == device);
            scan_device(space, bus as u8, device, &mut devices, Ghost(found));
            proof {
                found = found + device_functions(held, b, device);
                assert(found + functions_from(held, n + 1) =~= old_found + functions_from(held, n));
                assert(space.reads() + reads_from(held, n + 1) =~= old_reads + reads_from(held, n));
            }
            device += 1;
        }
        bus += 1;
    }
    proof {
        assert(found + functions_from(held, 0x2000) =~= found);
        assert(space.reads() + reads_from(held, 0x2000) =~= space.reads());
    }
    devices
}

/// Keeps what fits of one more function.
proof fn one_more(found: Seq<FunctionView>, function: FunctionView)
    ensures
        first_of(found.push(function)) == if first_of(found).len() < MAX_DEVICES {
            first_of(found).push(function)
        } else {
            first_of(found)
        },
{
    assert(first_of(found.push(function)) =~= if first_of(found).len() < MAX_DEVICES {
        first_of(found).push(function)
    } else {
        first_of(found)
    });
}

proof fn others_are_few(space: Space, bus: u8, device: u8, function: int)
    requires
        1 <= function <= 8,
    ensures
        others_of(space, bus, device, function).len() <= 8 - function,
    decreases 8 - function,
{
    if function < 8 {
        others_are_few(space, bus, device, function + 1);
    }
}

/// Adds the functions of one device to those that were found before.
fn scan_device<S: ConfigSpace>(
    space: &mut S,
    bus: u8,
    device: u8,
    devices: &mut Devices,
    Ghost(found): Ghost<Seq<FunctionView>>,
)
    requires
        device < 32,
        old(devices)@ == first_of(found),
        old(devices).total() == found.len(),
        found.len() <= 0x1_0000,
    ensures
        final(space).space() == old(space).space(),
        final(space).reads() == old(space).reads() + device_reads(
            old(space).space(),
            bus,
            device,
        ),
        final(devices)@ == first_of(
            found + device_functions(old(space).space(), bus, device),
        ),
        final(devices).total() == (found + device_functions(
            old(space).space(),
            bus,
            device,
        )).len(),
        device_functions(old(space).space(), bus, device).len() <= 8,
{
    let ghost held = space.space();
    let ghost before = space.reads();
    let ghost mut now = found;
    proof {
        others_are_few(held, bus, device, 1);
    }
    let at = Address { bus, device, function: 0 };
    let header = match read_header(space, at) {
        Some(header) => header,
        None => {
            proof {
                assert(found + Seq::empty() =~= found);
                assert(space.reads() =~= before + device_reads(held, bus, device));
            }
            return ;
        },
    };
    let multifunction = header.is_multifunction();
    let first = Function { at, header };
    proof {
        one_more(now, first@);
        now = now.push(first@);
    }
    devices.add(first);
    if !multifunction {
        proof {
            assert(now =~= found + device_functions(held, bus, device));
            assert(space.reads() =~= before + device_reads(held, bus, device));
        }
        return ;
    }
    let mut function: u8 = 1;
    proof {
        assert(now + others_of(held, bus, device, 1) =~= found + device_functions(
            held,
            bus,
            device,
        ));
        assert(space.reads() + others_reads(held, bus, device, 1) =~= before + device_reads(
            held,
            bus,
            device,
        ));
    }
    while function < FUNCTIONS_PER_DEVICE
        invariant
            1 <= function <= FUNCTIONS_PER_DEVICE,
            space.space() == held,
            devices@ == first_of(now),
            devices.total() == now.len(),
            now.len() <= 0x1_0000 + function,
            found + device_functions(held, bus, device) == now + others_of(
                held,
                bus,
                device,
                function as int,
            ),
            before + device_reads(held, bus, device) == space.reads() + others_reads(
                held,
                bus,
                device,
                function as int,
            ),
        decreases FUNCTIONS_PER_DEVICE - function,
    {
        let at = Address { bus, device, function };
        let ghost reads_now = space.reads();
        let ghost found_now = now;
        let ghost rest = others_of(held, bus, device, function + 1);
        let ghost rest_reads = others_reads(held, bus, device, function + 1);
        if let Some(header) = read_header(space, at) {
            let next = Function { at, header };
            proof {
                one_more(now, next@);
                now = now.push(next@);
            }
            devices.add(next);
            assert(now + rest =~= found_now + (seq![next@] + rest));
        }
        assert(space.reads() + rest_reads =~= reads_now + (reads_of(held, at) + rest_reads));
        function += 1;
    }
    proof {
        assert(now + others_of(held, bus, device, 8) =~= now);
        assert(space.reads() + others_reads(held, bus, device, 8) =~= space.reads());
    }
}

/// Whether the walk lists the function at `at`: something answers there, and
/// it is either function 0 or one of a device whose function 0 says there are
/// several.
pub open spec fn answers(space: Space, at: Address) -> bool {
    let first = header_at(space, Address { function: 0, ..at });
    &&& at.fits()
    &&& header_at(space, at) is Some
    &&& at.function == 0 || (first is Some && first->Some_0.is_multifunction())
}

/// Where a function comes in the order of the bus.
pub open spec fn place(at: Address) -> int {
    256 * at.bus + 8 * at.device + at.function
}

/// Functions that really are there, in ascending order, all of them from
/// `low` on and before `high`.
spec fn in_order(space: Space, found: Seq<FunctionView>, low: int, high: int) -> bool {
    &&& forall|i: int|
        0 <= i < found.len() ==> answers(space, (#[trigger] found[i]).at) && header_at(
            space,
            found[i].at,
        ) == Some(found[i].header) && low <= place(found[i].at) < high
    &&& forall|i: int, j: int|
        0 <= i < j < found.len() ==> place((#[trigger] found[i]).at) < place(
            (#[trigger] found[j]).at,
        )
}

spec fn lists(found: Seq<FunctionView>, at: Address) -> bool {
    exists|i: int| 0 <= i < found.len() && (#[trigger] found[i]).at == at
}

proof fn joining_keeps_the_order(
    space: Space,
    a: Seq<FunctionView>,
    b: Seq<FunctionView>,
    low: int,
    middle: int,
    high: int,
)
    requires
        in_order(space, a, low, middle),
        in_order(space, b, middle, high),
        low <= middle <= high,
    ensures
        in_order(space, a + b, low, high),
        forall|at: Address| lists(a, at) || lists(b, at) ==> #[trigger] lists(a + b, at),
{
    assert forall|at: Address| lists(a, at) || lists(b, at) implies #[trigger] lists(a + b, at) by {
        if lists(a, at) {
            let i = choose|i: int| 0 <= i < a.len() && (#[trigger] a[i]).at == at;
            assert((a + b)[i].at == at);
        } else {
            let i = choose|i: int| 0 <= i < b.len() && (#[trigger] b[i]).at == at;
            assert((a + b)[a.len() + i].at == at);
        }
    }
}

proof fn others_are_in_order(space: Space, bus: u8, device: u8, function: int)
    requires
        device < 32,
        1 <= function <= 8,
        header_at(space, Address { bus, device, function: 0 }) is Some,
        header_at(space, Address { bus, device, function: 0 })->Some_0.is_multifunction(),
    ensures
        ({
            let found = others_of(space, bus, device, function);
            let start = 256 * bus + 8 * device;
            &&& in_order(space, found, start + function, start + 8)
            &&& forall|at: Address| #[trigger]
                answers(space, at) && at.bus == bus && at.device == device && at.function
                    >= function ==> lists(found, at)
        }),
    decreases 8 - function,
{
    if function < 8 {
        others_are_in_order(space, bus, device, function + 1);
        let start = 256 * bus + 8 * device;
        let at = Address { bus, device, function: function as u8 };
        let rest = others_of(space, bus, device, function + 1);
        if let Some(header) = header_at(space, at) {
            let one = seq![FunctionView { at, header }];
            assert(in_order(space, one, start + function, start + function + 1));
            joining_keeps_the_order(
                space,
                one,
                rest,
                start + function,
                start + function + 1,
                start + 8,
            );
            assert(one[0].at == at);
            assert(lists(one, at));
        }
        assert forall|a: Address| #[trigger]
            answers(space, a) && a.bus == bus && a.device == device && a.function
                >= function implies lists(others_of(space, bus, device, function), a) by {
            if a.function != function {
                assert(lists(rest, a));
            } else {
                assert(a == at);
            }
        }
    }
}

proof fn a_device_is_in_order(space: Space, bus: u8, device: u8)
    requires
        device < 32,
    ensures
        ({
            let found = device_functions(space, bus, device);
            let start = 256 * bus + 8 * device;
            &&& in_order(space, found, start, start + 8)
            &&& forall|at: Address| #[trigger]
                answers(space, at) && at.bus == bus && at.device == device ==> lists(found, at)
        }),
{
    let start = 256 * bus + 8 * device;
    let at = Address { bus, device, function: 0 };
    let found = device_functions(space, bus, device);
    if let Some(header) = header_at(space, at) {
        let one = seq![FunctionView { at, header }];
        assert(in_order(space, one, start, start + 1));
        assert(one[0].at == at);
        assert(lists(one, at));
        let rest: Seq<FunctionView> = if header.is_multifunction() {
            others_of(space, bus, device, 1)
        } else {
            Seq::empty()
        };
        if header.is_multifunction() {
            others_are_in_order(space, bus, device, 1);
        }
        joining_keeps_the_order(space, one, rest, start, start + 1, start + 8);
        assert forall|a: Address| #[trigger]
            answers(space, a) && a.bus == bus && a.device == device implies lists(found, a) by {
            assert(Address { function: 0, ..a } == at);
            if a.function == 0 {
                assert(a == at);
            } else {
                assert(lists(rest, a));
            }
        }
    } else {
        assert forall|a: Address| #[trigger]
            answers(space, a) && a.bus == bus && a.device == device implies lists(found, a) by {
            assert(Address { function: 0, ..a } == at);
            if a.function == 0 {
                assert(a == at);
            }
        }
    }
}

proof fn the_bus_is_in_order(space: Space, n: int)
    requires
        0 <= n <= 0x2000,
    ensures
        ({
            let found = functions_from(space, n);
            &&& in_order(space, found, 8 * n, 0x1_0000)
            &&& forall|at: Address| #[trigger]
                answers(space, at) && place(at) >= 8 * n ==> lists(found, at)
        }),
    decreases 0x2000 - n,
{
    if n < 0x2000 {
        let bus = (n / 32) as u8;
        let device = (n % 32) as u8;
        let one = device_functions(space, bus, device);
        let rest = functions_from(space, n + 1);
        assert(256 * bus + 8 * device == 8 * n);
        a_device_is_in_order(space, bus, device);
        the_bus_is_in_order(space, n + 1);
        joining_keeps_the_order(space, one, rest, 8 * n, 8 * n + 8, 0x1_0000);
        assert forall|at: Address| #[trigger] answers(space, at) && place(at) >= 8 * n implies lists(
            functions_from(space, n),
            at,
        ) by {
            if place(at) >= 8 * n + 8 {
                assert(lists(rest, at));
            } else {
                assert(at.bus == bus && at.device == device);
                assert(lists(one, at));
            }
        }
    }
}

/// The walk finds what is there and nothing else, each function once, in the
/// order of the bus.
pub proof fn the_walk_finds_what_is_there_and_nothing_else(space: Space, at: Address)
    ensures
        ({
            let found = functions_from(space, 0);
            &&& answers(space, at) <==> exists|i: int|
                0 <= i < found.len() && (#[trigger] found[i]).at == at
            &&& forall|i: int|
                0 <= i < found.len() ==> header_at(space, (#[trigger] found[i]).at) == Some(
                    found[i].header,
                )
            &&& forall|i: int, j: int|
                0 <= i < j < found.len() ==> place((#[trigger] found[i]).at) < place(
                    (#[trigger] found[j]).at,
                )
        }),
{
    the_bus_is_in_order(space, 0);
    let found = functions_from(space, 0);
    if answers(space, at) {
        assert(lists(found, at));
    }
}

/// A machine with nothing on it is asked once per device slot, for the vendor
/// alone.
pub proof fn nothing_there_is_read_once(space: Space, n: int)
    requires
        0 <= n <= 0x2000,
        forall|at: Address| at.function == 0 ==> #[trigger] header_at(space, at) is None,
    ensures
        functions_from(space, n) == Seq::<FunctionView>::empty(),
        reads_from(space, n) == Seq::new(
            (0x2000 - n) as nat,
            |i: int|
                (
                    Address { bus: ((n + i) / 32) as u8, device: ((n + i) % 32) as u8, function: 0 },
                    0u8,
                ),
        ),
    decreases 0x2000 - n,
{
    let all = Seq::new(
        (0x2000 - n) as nat,
        |i: int|
            (
                Address { bus: ((n + i) / 32) as u8, device: ((n + i) % 32) as u8, function: 0 },
                0u8,
            ),
    );
    if n < 0x2000 {
        nothing_there_is_read_once(space, n + 1);
        let at = Address { bus: (n / 32) as u8, device: (n % 32) as u8, function: 0 };
        assert(header_at(space, at) is None);
        assert(functions_from(space, n) =~= Seq::<FunctionView>::empty());
        assert(reads_from(space, n) =~= all);
    } else {
        assert(reads_from(space, n) =~= all);
    }
}

/// Where a device keeps its registers, as one BAR describes it.
#[derive(Debug, Clone, Copy, PartialEq, Eq, Structural)]
pub enum Bar {
    /// Registers in the memory address space, which is what a modern device
    /// uses. `wide` means the BAR was a 64-bit one and took two entries.
    Memory { address: u64, wide: bool, prefetchable: bool },
    /// Registers behind `in`/`out`, which is where a legacy device keeps
    /// them. Named so that a driver can refuse it rather than read a port
    /// number as an address.
    Ports { base: u16 },
}

impl Bar {
    /// How many of the six entries this BAR used up. The entry after a 64-bit
    /// BAR is not a BAR: it is the high half of this one, and reading it as
    /// one gives an address in the middle of nowhere.
    pub fn entries(self) -> (r: usize)
        ensures
            r == match self {
                Bar::Memory { wide, .. } => if wide {
                    2int
                } else {
                    1
                },
                Bar::Ports { .. } => 1,
            },
    {
        match self {
            Bar::Memory { wide: true, .. } => 2,
            _ => 1,
        }
    }

    /// The memory address, or `None` for a BAR that is not memory.
    pub fn memory_address(self) -> (r: Option<u64>)
        ensures
            r == match self {
                Bar::Memory { address, .. } => Some(address),
                Bar::Ports { .. } => None,
            },
    {
        match self {
            Bar::Memory { address, .. } => Some(address),
            Bar::Ports { .. } => None,
        }
    }

    pub open spec fn text(self) -> Seq<char> {
        match self {
            Bar::Memory { address, wide, prefetchable } => "memory at "@ + prefixed_hex(
                address as nat,
            ) + (if wide {
                ", 64-bit"@
            } else {
                Seq::empty()
            }) + (if prefetchable {
                ", prefetchable"@
            } else {
                Seq::empty()
            }),
            Bar::Ports { base } => "ports at "@ + prefixed_hex(base as nat),
        }
    }

    /// How a BAR reads in a log. Addresses in hexadecimal, because an address
    /// in decimal is an address nobody can check against a device's
    /// documentation.
    pub fn to_display(self) -> (r: String)
        ensures
            r@ == self.text(),
    {
        match self {
            Bar::Memory { address, wide, prefetchable } => {
                let mut text = String::from_str("memory at ");
                text.append(alternate_hex(address).as_str());
                if wide {
                    text.append(", 64-bit");
                }
                if prefetchable {
                    text.append(", prefetchable");
                }
                assert(text@ =~= self.text());
                text
            },
            Bar::Ports { base } => {
                let mut text = String::from_str("ports at ");
                text.append(alternate_hex(base as u64).as_str());
                text
            },
        }
    }
}

/// What the BAR at `index` describes. A 64-bit one takes the entry after it
/// as its upper half, and is nothing where there is none.
pub open spec fn bar_at(bars: Seq<u32>, index: int) -> Option<Bar> {
    let raw = bars[index];
    let wide = raw / 2 % 4 == 2;
    if index >= 6 || raw == 0 {
        None
    } else if raw % 2 == 1 {
        Some(Bar::Ports { base: ((raw - raw % 4) % 0x1_0000) as u16 })
    } else if wide && index + 1 >= 6 {
        None
    } else {
        Some(
            Bar::Memory {
                address: if wide {
                    (raw - raw % 16 + 0x1_0000_0000 * bars[index + 1]) as u64
                } else {
                    (raw - raw % 16) as u64
                },
                wide,
                prefetchable: raw / 8 % 2 == 1,
            },
        )
    }
}

proof fn bar_bits(raw: u32)
    by (bit_vector)
    ensures
        raw & 1 != 0 <==> raw % 2 == 1,
        raw & 0xFFFF_FFFC == raw / 4 * 4,
        (raw >> 1) & 0x3 == raw / 2 % 4,
        raw & 0xFFFF_FFF0 == raw / 16 * 16,
        raw & 0x8 != 0 <==> raw / 8 % 2 == 1,
{
}

/// Decodes the BAR at `index`, or `None` when there is nothing there.
///
/// A BAR of zero is one the firmware left unassigned, which for this kernel
/// means unusable: it does not assign addresses.
pub fn decode_bar(bars: &[u32; 6], index: usize) -> (r: Option<Bar>)
    ensures
        r == bar_at(bars@, index as int),
{
    if index >= 6 {
        return None;
    }
    let raw: u32 = bars[index];
    proof {
        bar_bits(raw);
    }
    if raw == 0 {
        return None;
    }
    // Bit 0 says which address space, and the meaning of every bit above it
    // depends on the answer.
    if raw & 1 != 0 {
        // The low two bits are not part of a port number.
        proof {
            dword_parts(raw & 0xFFFF_FFFC);
        }
        return Some(Bar::Ports { base: (raw & 0xFFFF_FFFC) as u16 });
    }
    // Bits 2:1 are the type: 0 for 32-bit, 2 for 64-bit. Bit 3 is
    // prefetchable, and the address starts at bit 4.
    let wide = (raw >> 1) & 0x3 == 0x2;
    let low: u64 = (raw & 0xFFFF_FFF0) as u64;
    let address: u64 = if wide {
        if index + 1 >= 6 {
            // A 64-bit BAR whose high half would be past the end of the
            // header. Nothing this kernel can use.
            return None;
        }
        let high: u64 = bars[index + 1] as u64;
        assert(low <= 0xFFFF_FFFF && high <= 0xFFFF_FFFF ==> low | high << 32 == low + 0x1_0000_0000
            * high) by (bit_vector);
        low | high << 32
    } else {
        low
    };
    Some(Bar::Memory { address, wide, prefetchable: raw & 0x8 != 0 })
}

/// Bit 4 of the status register: the function has a capability list.
///
/// The status register is the **upper** half of the dword at `0x04` (the
/// lower half is the command register), so the bit sits sixteen places
/// further up than its number suggests.
pub const STATUS_CAPABILITIES: u32 = 0x10_0000;

/// Where the status register is, in the dword that also holds the command.
pub const STATUS_DWORD: u8 = 0x04;

/// And where the first capability's offset is.
pub const CAPABILITY_POINTER: u8 = 0x34;

/// A capability's offset is dword-aligned; the two low bits are reserved.
pub const CAPABILITY_MASK: u8 = 0xFC;

/// How many capabilities to follow before deciding the list is a loop. A
/// device whose `next` pointers form a cycle would otherwise hang the boot.
pub const CAPABILITY_LIMIT: usize = 48;

/// One entry of a function's capability list.
#[derive(Debug, Clone, Copy, PartialEq, Eq, Structural)]
pub struct Capability {
    /// What kind it is. `0x09` is vendor-specific, which is where virtio
    /// keeps everything that matters.
    pub id: u8,
    /// Where it starts in configuration space.
    pub offset: u8,
}

/// The dword-aligned offset that a byte names.
pub open spec fn aligned(offset: int) -> u8 {
    (offset - offset % 4) as u8
}

/// Where the capability list of a function starts; zero where it has none.
pub open spec fn list_start(space: Space, at: Address) -> u8 {
    if space(at, STATUS_DWORD) / STATUS_CAPABILITIES % 2 == 0 {
        0
    } else {
        aligned(space(at, CAPABILITY_POINTER) as int % 0x100)
    }
}

/// The capability whose header is `word`.
pub open spec fn capability_of(word: u32, offset: u8) -> Capability {
    Capability { id: (word % 0x100) as u8, offset }
}

/// Where a capability says the next one is.
pub open spec fn next_offset(word: u32) -> u8 {
    aligned(word as int / 0x100 % 0x100)
}

/// The capabilities from `offset` on, `seen` of which have been followed.
pub open spec fn list_from(space: Space, at: Address, offset: u8, seen: int) -> Seq<Capability>
    decreases CAPABILITY_LIMIT - seen,
{
    if offset == 0 || seen >= CAPABILITY_LIMIT {
        Seq::empty()
    } else {
        let word = space(at, offset);
        seq![capability_of(word, offset)] + list_from(space, at, next_offset(word), seen + 1)
    }
}

/// What finding the start of the list reads.
pub open spec fn start_reads(space: Space, at: Address) -> Seq<(Address, u8)> {
    if space(at, STATUS_DWORD) / STATUS_CAPABILITIES % 2 == 0 {
        seq![(at, STATUS_DWORD)]
    } else {
        seq![(at, STATUS_DWORD), (at, CAPABILITY_POINTER)]
    }
}

/// A walk along the capability list of one function.
///
/// It stops at a `next` of zero or after `CAPABILITY_LIMIT` entries: a list
/// that points at itself is a device saying something impossible, and hanging
/// the boot over it would be worse than ignoring the rest.
#[derive(Debug, Clone, Copy, PartialEq, Eq, Structural)]
pub struct CapabilityWalk {
    pub at: Address,
    /// Where the next capability is, or zero.
    pub offset: u8,
    pub seen: usize,
}

proof fn capability_bits(word: u32)
    by (bit_vector)
    ensures
        word & 0x10_0000 == 0 <==> word / 0x10_0000 % 2 == 0,
        word as u8 == word % 0x100,
        (word >> 8) as u8 == word / 0x100 % 0x100,
{
}

fn align(offset: u8) -> (r: u8)
    ensures
        r == aligned(offset as int),
{
    assert(offset & 0xFC == offset / 4 * 4) by (bit_vector);
    offset & CAPABILITY_MASK
}

impl CapabilityWalk {
    /// What is still to come.
    pub open spec fn rest(self, space: Space) -> Seq<Capability> {
        list_from(space, self.at, self.offset, self.seen as int)
    }

    /// Finds where the list of a function starts.
    pub fn start<S: ConfigSpace>(space: &mut S, at: Address) -> (r: Self)
        ensures
            r == (CapabilityWalk { at, offset: list_start(old(space).space(), at), seen: 0 }),
            final(space).space() == old(space).space(),
            final(space).reads() == old(space).reads() + start_reads(old(space).space(), at),
    {
        let ghost before = space.reads();
        let ghost held = space.space();
        let status: u32 = space.read_dword(at, STATUS_DWORD);
        proof {
            capability_bits(status);
        }
        if status & STATUS_CAPABILITIES == 0 {
            assert(space.reads() =~= before + start_reads(held, at));
            return CapabilityWalk { at, offset: 0, seen: 0 };
        }
        let pointer: u32 = space.read_dword(at, CAPABILITY_POINTER);
        proof {
            capability_bits(pointer);
        }
        assert(space.reads() =~= before + start_reads(held, at));
        CapabilityWalk { at, offset: align(pointer as u8), seen: 0 }
    }

    /// The next capability, or `None` at the end of the list.
    pub fn next<S: ConfigSpace>(&mut self, space: &mut S) -> (r: Option<Capability>)
        ensures
            final(space).space() == old(space).space(),
            ({
                let held = old(space).space();
                if old(self).offset == 0 || old(self).seen >= CAPABILITY_LIMIT {
                    &&& r is None
                    &&& *final(self) == *old(self)
                    &&& final(space).reads() == old(space).reads()
                } else {
                    let word = held(old(self).at, old(self).offset);
                    &&& r == Some(capability_of(word, old(self).offset))
                    &&& *final(self) == (CapabilityWalk {
                        at: old(self).at,
                        offset: next_offset(word),
                        seen: (old(self).seen + 1) as usize,
                    })
                    &&& final(space).reads() == old(space).reads().push(
                        (old(self).at, old(self).offset),
                    )
                }
            }),
    {
        if self.offset == 0 || self.seen >= CAPABILITY_LIMIT {
            return None;
        }
        let offset: u8 = self.offset;
        let header: u32 = space.read_dword(self.at, offset);
        proof {
            capability_bits(header);
        }
        self.offset = align((header >> 8) as u8);
        self.seen = self.seen + 1;
        Some(Capability { id: header as u8, offset })
    }
}

/// What walking along the list reads.
pub open spec fn list_reads(found: Seq<Capability>, at: Address) -> Seq<(Address, u8)> {
    found.map_values(|capability: Capability| (at, capability.offset))
}

/// The capabilities of a function, in the order of its list.
pub fn capabilities<S: ConfigSpace>(space: &mut S, at: Address) -> (r: Vec<Capability>)
    ensures
        r@ == list_from(old(space).space(), at, list_start(old(space).space(), at), 0),
        final(space).space() == old(space).space(),
        final(space).reads() == old(space).reads() + start_reads(old(space).space(), at)
            + list_reads(r@, at),
{
    let ghost held = space.space();
    let mut found: Vec<Capability> = Vec::new();
    let mut walk = CapabilityWalk::start(space, at);
    let ghost before = space.reads();
    let ghost all = walk.rest(held);
    proof {
        assert(found@ + walk.rest(held) =~= all);
        assert(space.reads() =~= before + list_reads(found@, at));
    }
    loop
        invariant
            space.space() == held,
            walk.at == at,
            walk.seen <= CAPABILITY_LIMIT,
            all == found@ + walk.rest(held),
            space.reads() == before + list_reads(found@, at),
        ensures
            space.space() == held,
            all == found@,
            space.reads() == before + list_reads(found@, at),
        decreases CAPABILITY_LIMIT - walk.seen,
    {
        let ghost rest = walk.rest(held);
        let ghost so_far = found@;
        let ghost reads_now = space.reads();
        match walk.next(space) {
            None => {
                assert(found@ + walk.rest(held) =~= found@);
                break ;
            },
            Some(capability) => {
                found.push(capability);
                proof {
                    assert(found@ + walk.rest(held) =~= so_far + rest);
                    assert(space.reads() =~= before + list_reads(found@, at));
                }
            },
        }
    }
    found
}

/// However its pointers run, the list of a function ends: no more than
/// `CAPABILITY_LIMIT` of its entries are followed, and each lies inside the
/// configuration space, on a dword boundary and past its start.
pub proof fn a_list_that_points_at_itself_ends(space: Space, at: Address, offset: u8, seen: int)
    requires
        0 <= seen <= CAPABILITY_LIMIT,
        offset % 4 == 0,
    ensures
        list_from(space, at, offset, seen).len() <= CAPABILITY_LIMIT - seen,
        forall|i: int|
            0 <= i < list_from(space, at, offset, seen).len() ==> (#[trigger] list_from(
                space,
                at,
                offset,
                seen,
            )[i]).offset % 4 == 0 && list_from(space, at, offset, seen)[i].offset != 0,
    decreases CAPABILITY_LIMIT - seen,
{
    if offset != 0 && seen < CAPABILITY_LIMIT {
        let next = next_offset(space(at, offset));
        a_list_that_points_at_itself_ends(space, at, next, seen + 1);
        let rest = list_from(space, at, next, seen + 1);
        let all = list_from(space, at, offset, seen);
        assert forall|i: int| 0 <= i < all.len() implies (#[trigger] all[i]).offset % 4 == 0
            && all[i].offset != 0 by {
            if i > 0 {
                assert(all[i] == rest[i - 1]);
            }
        }
    }
}

} // verus!
