//! Just enough PE to find the code inside a loaded image.
//!
//! The firmware loads the kernel as a PE32+ executable and tells us where it
//! put it, but not what is inside. Without that, the whole image has to be
//! mapped executable, including its data. Reading the section table says
//! which parts are code, so everything else can be marked no-execute and the
//! code itself read-only.
//!
//! Plain data in, plain data out. It parses an image the firmware has already
//! loaded and relocated, so offsets are relative to the image base.

use crate::hal::addr::PhysAddr;
use crate::hal::bytes::{u16_at, u32_at};
use crate::hal::frame::PhysRange;
use vstd::prelude::*;
use vstd::slice::*;
use vstd::std_specs::iter::IteratorSpec;

pub mod laws;

verus! {

use crate::hal::bytes::{le16, le32};

/// Where the DOS stub records the offset of the PE signature.
pub const LFANEW: u64 = 0x3C;

/// Fields inside the COFF header, from the signature.
pub const NUMBER_OF_SECTIONS: u64 = 6;

pub const SIZE_OF_OPTIONAL_HEADER: u64 = 20;

/// Where the optional header starts, from the signature.
pub const OPTIONAL_HEADER: u64 = 24;

/// Section headers, each `SECTION_SIZE` bytes, follow the optional header.
pub const SECTION_SIZE: u64 = 40;

pub const SECTION_VIRTUAL_SIZE: u64 = 8;

pub const SECTION_VIRTUAL_ADDRESS: u64 = 12;

pub const SECTION_CHARACTERISTICS: u64 = 36;

/// Data directories follow the fixed part of a PE32+ optional header.
pub const DATA_DIRECTORIES: u64 = OPTIONAL_HEADER + 112;

/// The base relocation table is the sixth directory.
pub const BASE_RELOCATION_DIRECTORY: u64 = 5;

/// Each data directory is an RVA and a size.
pub const DATA_DIRECTORY_SIZE: u64 = 8;

/// PE32+ (64-bit). A 32-bit image would not be running on this CPU.
pub const MAGIC_PE32_PLUS: u16 = 0x20B;

/// The characteristic of a section that may be executed.
pub const EXECUTABLE: u32 = 0x2000_0000;

/// Padding inside a relocation block; carries no address.
pub const RELOCATION_ABSOLUTE: u16 = 0;

/// The whole 64-bit value at the address gets the delta added. The only kind
/// of relocation an x86_64 image needs.
pub const RELOCATION_DIR64: u16 = 10;

/// A relocation block starts with the page RVA and its own size.
pub const RELOCATION_BLOCK_HEADER: usize = 8;

/// How many code sections are kept. Linkers produce one (`.text`); a handful
/// covers anything unusual, and going over is reported rather than silently
/// dropping code.
pub const MAX_CODE_SECTIONS: usize = 4;

#[derive(Debug, Clone, Copy, PartialEq, Eq, Structural)]
pub enum PeError {
    /// Too short, or a header pointing outside the image.
    Truncated,
    /// Not a PE32+ image: no signature, or the wrong magic.
    NotPe32Plus,
    /// No section is marked executable, which cannot be right for a program
    /// the firmware just ran.
    NoCode,
    /// More executable sections than `MAX_CODE_SECTIONS`.
    TooManySections,
    /// The image cannot be moved: it has no relocation table.
    NotRelocatable,
    /// A relocation this code does not know how to apply. Refusing beats
    /// leaving an address behind pointing at the old place.
    UnsupportedRelocation(u16),
}

/// Where the PE signature of an image is, or why it has none.
pub open spec fn signature_of(image: Seq<u8>) -> Result<int, PeError> {
    let signature = le32(image, LFANEW as int);
    if LFANEW + 4 > image.len() || signature + 4 > image.len() {
        Err(PeError::Truncated)
    } else if image.subrange(signature, signature + 4) != seq![0x50u8, 0x45, 0, 0] {
        Err(PeError::NotPe32Plus)
    } else if signature + OPTIONAL_HEADER + 2 > image.len() {
        Err(PeError::Truncated)
    } else if le16(image, signature + OPTIONAL_HEADER) != MAGIC_PE32_PLUS {
        Err(PeError::NotPe32Plus)
    } else {
        Ok(signature)
    }
}

/// How many sections an image announces.
pub open spec fn section_count(image: Seq<u8>, signature: int) -> int {
    le16(image, signature + NUMBER_OF_SECTIONS)
}

/// Where the header of section `index` is.
pub open spec fn section_header(image: Seq<u8>, signature: int, index: int) -> int {
    signature + OPTIONAL_HEADER + le16(image, signature + SIZE_OF_OPTIONAL_HEADER) + index
        * SECTION_SIZE
}

/// Whether the section at `header` is code: executable, and not empty.
pub open spec fn is_code(image: Seq<u8>, header: int) -> bool {
    (le32(image, header + SECTION_CHARACTERISTICS) as u32) & EXECUTABLE != 0 && le32(
        image,
        header + SECTION_VIRTUAL_SIZE,
    ) != 0
}

/// The section at `header`: its offset from the image base and its length.
pub open spec fn section_at(image: Seq<u8>, header: int) -> (u64, u64) {
    (
        le32(image, header + SECTION_VIRTUAL_ADDRESS) as u64,
        le32(image, header + SECTION_VIRTUAL_SIZE) as u64,
    )
}

/// The code among the first `n` sections, in the order of the table.
pub open spec fn code_among(image: Seq<u8>, signature: int, n: int) -> Seq<(u64, u64)>
    decreases n,
{
    if n <= 0 {
        Seq::empty()
    } else {
        let header = section_header(image, signature, n - 1);
        let before = code_among(image, signature, n - 1);
        if is_code(image, header) {
            before.push(section_at(image, header))
        } else {
            before
        }
    }
}

/// How many of the announced section headers lie inside the image.
pub open spec fn readable_sections(image: Seq<u8>, signature: int) -> int {
    let table = section_header(image, signature, 0);
    let room = if table <= image.len() {
        (image.len() - table) / SECTION_SIZE as int
    } else {
        0
    };
    if room < section_count(image, signature) {
        room
    } else {
        section_count(image, signature)
    }
}

/// The code of an image, or why it cannot be told. Too many sections are
/// reported as soon as they are seen, before a header further on that is not
/// there.
pub open spec fn code_of(image: Seq<u8>) -> Result<Seq<(u64, u64)>, PeError> {
    match signature_of(image) {
        Err(error) => Err(error),
        Ok(signature) => {
            let readable = readable_sections(image, signature);
            let code = code_among(image, signature, readable);
            if code.len() > MAX_CODE_SECTIONS {
                Err(PeError::TooManySections)
            } else if readable < section_count(image, signature) {
                Err(PeError::Truncated)
            } else if code.len() == 0 {
                Err(PeError::NoCode)
            } else {
                Ok(code)
            }
        },
    }
}

/// The lengths of some sections, added up.
pub open spec fn total_of(sections: Seq<(u64, u64)>) -> int
    decreases sections.len(),
{
    if sections.len() == 0 {
        0
    } else {
        total_of(sections.drop_last()) + sections.last().1
    }
}

/// Where the code lives inside an image, as `(offset from the image base,
/// length)` pairs in the order the section table lists them.
#[derive(Debug, Clone, Copy, PartialEq, Eq)]
pub struct CodeSections {
    ranges: [(u64, u64); 4],
    len: usize,
}

impl View for CodeSections {
    type V = Seq<(u64, u64)>;

    closed spec fn view(&self) -> Seq<(u64, u64)> {
        self.ranges@.take(self.len as int)
    }
}

impl CodeSections {
    #[verifier::type_invariant]
    spec fn fits(self) -> bool {
        &&& self.len <= 4
        &&& forall|i: int| 0 <= i < self.len ==> (#[trigger] self.ranges@[i]).1 <= u32::MAX
    }

    fn empty() -> (r: Self)
        ensures
            r@ == Seq::<(u64, u64)>::empty(),
    {
        let sections = CodeSections { ranges: [(0, 0); 4], len: 0 };
        assert(sections@ =~= Seq::<(u64, u64)>::empty());
        sections
    }

    /// The same sections and one more. There must be room for it.
    fn with(self, start: u64, len: u64) -> (r: Self)
        requires
            self@.len() < MAX_CODE_SECTIONS,
            len <= u32::MAX,
        ensures
            r@ == self@.push((start, len)),
    {
        proof {
            use_type_invariant(&self);
        }
        let mut ranges = self.ranges;
        ranges[self.len] = (start, len);
        let sections = CodeSections { ranges, len: self.len + 1 };
        assert(sections@ =~= self@.push((start, len)));
        sections
    }

    /// The sections, in the order of the table.
    pub fn as_slice(&self) -> (r: &[(u64, u64)])
        ensures
            r@ == self@,
            self@.len() <= MAX_CODE_SECTIONS,
            forall|i: int| 0 <= i < self@.len() ==> (#[trigger] self@[i]).1 <= u32::MAX,
    {
        proof {
            use_type_invariant(self);
        }
        slice_subrange(self.ranges.as_slice(), 0, self.len)
    }

    pub fn iter(&self) -> (r: core::slice::Iter<'_, (u64, u64)>)
        ensures
            r.remaining() == self@.as_ref(),
    {
        self.as_slice().iter()
    }

    pub fn len(&self) -> (r: usize)
        ensures
            r == self@.len(),
    {
        proof {
            use_type_invariant(self);
        }
        self.len
    }

    pub fn is_empty(&self) -> (r: bool)
        ensures
            r == (self@.len() == 0),
    {
        proof {
            use_type_invariant(self);
        }
        self.len == 0
    }

    /// Total number of bytes of code, for the boot log.
    pub fn total_bytes(&self) -> (r: u64)
        ensures
            r == total_of(self@),
    {
        let sections = self.as_slice();
        let mut total: u64 = 0;
        let mut i: usize = 0;
        while i < sections.len()
            invariant
                i <= sections@.len() <= 4,
                sections@ == self@,
                forall|i: int| 0 <= i < self@.len() ==> (#[trigger] self@[i]).1 <= u32::MAX,
                total <= i * u32::MAX,
                total == total_of(self@.take(i as int)),
            decreases sections.len() - i,
        {
            assert(self@.take(i + 1).drop_last() =~= self@.take(i as int));
            assert(self@[i as int].1 <= u32::MAX);
            total += sections[i].1;
            i += 1;
        }
        assert(self@.take(i as int) =~= self@);
        total
    }

    /// The same sections as physical ranges, given where the firmware put the
    /// image. `None` if any of them would run past the end of the address
    /// space, which would mean a header that cannot be trusted.
    pub fn at(&self, base: PhysAddr) -> (r: Option<CodeRanges>)
        ensures
            match r {
                Some(ranges) => {
                    &&& forall|i: int|
                        0 <= i < self@.len() ==> base.0 + (#[trigger] self@[i]).0 + self@[i].1
                            <= u64::MAX
                    &&& ranges@ == placed(self@, base.0)
                },
                None => exists|i: int|
                    0 <= i < self@.len() && base.0 + (#[trigger] self@[i]).0 + self@[i].1
                        > u64::MAX,
            },
    {
        let sections = self.as_slice();
        let mut ranges = CodeRanges::empty();
        let mut i: usize = 0;
        while i < sections.len()
            invariant
                i <= sections@.len() <= MAX_CODE_SECTIONS,
                sections@ == self@,
                forall|j: int|
                    0 <= j < i ==> base.0 + (#[trigger] self@[j]).0 + self@[j].1 <= u64::MAX,
                ranges@ == placed(self@, base.0).take(i as int),
            decreases sections.len() - i,
        {
            let (offset, len) = sections[i];
            assert(self@[i as int] == (offset, len));
            let start = match base.checked_add(offset) {
                Some(start) => start,
                None => {
                    return None;
                },
            };
            if start.checked_add(len).is_none() {
                return None;
            }
            ranges = ranges.with(PhysRange::new(start, len));
            i += 1;
            assert(ranges@ =~= placed(self@, base.0).take(i as int));
        }
        assert(placed(self@, base.0).take(i as int) =~= placed(self@, base.0));
        Some(ranges)
    }
}

/// Sections as the ranges they occupy in an image loaded at `base`.
pub open spec fn placed(sections: Seq<(u64, u64)>, base: u64) -> Seq<PhysRange> {
    sections.map_values(
        |section: (u64, u64)|
            PhysRange { start: PhysAddr((base + section.0) as u64), len: section.1 },
    )
}

/// The lengths of some ranges, added up.
pub open spec fn bytes_of(ranges: Seq<PhysRange>) -> int
    decreases ranges.len(),
{
    if ranges.len() == 0 {
        0
    } else {
        bytes_of(ranges.drop_last()) + ranges.last().len
    }
}

/// A longer list of ranges never has fewer bytes.
proof fn bytes_of_prefix_is_no_more(ranges: Seq<PhysRange>, n: int)
    requires
        0 <= n <= ranges.len(),
    ensures
        0 <= bytes_of(ranges.take(n)) <= bytes_of(ranges),
    decreases ranges.len(),
{
    if n < ranges.len() {
        assert(ranges.drop_last().take(n) =~= ranges.take(n));
        bytes_of_prefix_is_no_more(ranges.drop_last(), n);
    } else {
        assert(ranges.take(n) =~= ranges);
        if n > 0 {
            bytes_of_prefix_is_no_more(ranges.drop_last(), n - 1);
        }
    }
}

/// The code of an image already placed in memory: what the kernel needs to
/// keep executable, and nothing else.
#[derive(Debug, Clone, Copy, PartialEq, Eq)]
pub struct CodeRanges {
    ranges: [PhysRange; 4],
    len: usize,
}

impl View for CodeRanges {
    type V = Seq<PhysRange>;

    closed spec fn view(&self) -> Seq<PhysRange> {
        self.ranges@.take(self.len as int)
    }
}

impl CodeRanges {
    #[verifier::type_invariant]
    spec fn fits(self) -> bool {
        self.len <= 4
    }

    fn empty() -> (r: Self)
        ensures
            r@ == Seq::<PhysRange>::empty(),
    {
        let nothing = PhysRange::new(PhysAddr::new(0), 0);
        let ranges = CodeRanges { ranges: [nothing; 4], len: 0 };
        assert(ranges@ =~= Seq::<PhysRange>::empty());
        ranges
    }

    /// The same ranges and one more. There must be room for it.
    fn with(self, range: PhysRange) -> (r: Self)
        requires
            self@.len() < MAX_CODE_SECTIONS,
        ensures
            r@ == self@.push(range),
    {
        proof {
            use_type_invariant(&self);
        }
        let mut ranges = self.ranges;
        ranges[self.len] = range;
        let longer = CodeRanges { ranges, len: self.len + 1 };
        assert(longer@ =~= self@.push(range));
        longer
    }

    /// A set built from ranges already placed in memory, for a caller that
    /// learned where the code is some other way. `None` if there are more
    /// than `MAX_CODE_SECTIONS`.
    pub fn new(ranges: &[PhysRange]) -> (r: Option<Self>)
        ensures
            r is Some <==> ranges@.len() <= MAX_CODE_SECTIONS,
            r matches Some(built) ==> built@ == ranges@,
    {
        if ranges.len() > MAX_CODE_SECTIONS {
            return None;
        }
        let mut built = CodeRanges::empty();
        let mut i: usize = 0;
        while i < ranges.len()
            invariant
                i <= ranges@.len() <= MAX_CODE_SECTIONS,
                built@ == ranges@.take(i as int),
            decreases ranges.len() - i,
        {
            built = built.with(ranges[i]);
            i += 1;
            assert(built@ =~= ranges@.take(i as int));
        }
        assert(ranges@.take(i as int) =~= ranges@);
        Some(built)
    }

    /// The ranges, in order.
    pub fn as_slice(&self) -> (r: &[PhysRange])
        ensures
            r@ == self@,
            self@.len() <= MAX_CODE_SECTIONS,
    {
        proof {
            use_type_invariant(self);
        }
        slice_subrange(self.ranges.as_slice(), 0, self.len)
    }

    pub fn iter(&self) -> (r: core::slice::Iter<'_, PhysRange>)
        ensures
            r.remaining() == self@.as_ref(),
    {
        self.as_slice().iter()
    }

    pub fn len(&self) -> (r: usize)
        ensures
            r == self@.len(),
    {
        proof {
            use_type_invariant(self);
        }
        self.len
    }

    pub fn is_empty(&self) -> (r: bool)
        ensures
            r == (self@.len() == 0),
    {
        proof {
            use_type_invariant(self);
        }
        self.len == 0
    }

    /// Total number of bytes of code.
    pub fn total_bytes(&self) -> (r: u64)
        requires
            bytes_of(self@) <= u64::MAX,
        ensures
            r == bytes_of(self@),
    {
        let ranges = self.as_slice();
        let mut total: u64 = 0;
        let mut i: usize = 0;
        while i < ranges.len()
            invariant
                i <= ranges@.len(),
                ranges@ == self@,
                bytes_of(self@) <= u64::MAX,
                total == bytes_of(self@.take(i as int)),
            decreases ranges.len() - i,
        {
            proof {
                bytes_of_prefix_is_no_more(self@, i + 1);
                assert(self@.take(i + 1).drop_last() =~= self@.take(i as int));
            }
            total += ranges[i].len;
            i += 1;
        }
        assert(self@.take(i as int) =~= self@);
        total
    }
}

/// The 16-bit number at `at`, if it is inside the image.
fn read_u16(image: &[u8], at: u64) -> (r: Result<u16, PeError>)
    requires
        at <= 0x2_0000_0000,
    ensures
        match r {
            Ok(value) => at + 2 <= image@.len() && value == le16(image@, at as int),
            Err(error) => at + 2 > image@.len() && error == PeError::Truncated,
        },
{
    if at + 2 > image.len() as u64 {
        return Err(PeError::Truncated);
    }
    Ok(u16_at(image, at as usize))
}

/// The 32-bit number at `at`, if it is inside the image.
fn read_u32(image: &[u8], at: u64) -> (r: Result<u32, PeError>)
    requires
        at <= 0x2_0000_0000,
    ensures
        match r {
            Ok(value) => at + 4 <= image@.len() && value == le32(image@, at as int),
            Err(error) => at + 4 > image@.len() && error == PeError::Truncated,
        },
{
    if at + 4 > image.len() as u64 {
        return Err(PeError::Truncated);
    }
    Ok(u32_at(image, at as usize))
}

/// Where the PE signature is, once it and the magic have been checked.
pub fn signature_offset(image: &[u8]) -> (r: Result<u64, PeError>)
    ensures
        match signature_of(image@) {
            Ok(at) => r is Ok && r->Ok_0 == at,
            Err(error) => r == Err::<u64, PeError>(error),
        },
{
    let signature: u64 = match read_u32(image, LFANEW) {
        Ok(signature) => signature as u64,
        Err(error) => {
            return Err(error);
        },
    };
    if signature + 4 > image.len() as u64 {
        return Err(PeError::Truncated);
    }
    let at: usize = signature as usize;
    let ghost mark = image@.subrange(at as int, at + 4);
    if image[at] != 0x50 || image[at + 1] != 0x45 || image[at + 2] != 0 || image[at + 3] != 0 {
        proof {
            let pe = seq![0x50u8, 0x45, 0, 0];
            assert(mark[0] == image@[at as int] && mark[1] == image@[at + 1]);
            assert(mark[2] == image@[at + 2] && mark[3] == image@[at + 3]);
            assert(pe[0] == 0x50 && pe[1] == 0x45 && pe[2] == 0 && pe[3] == 0);
        }
        return Err(PeError::NotPe32Plus);
    }
    assert(mark =~= seq![0x50u8, 0x45, 0, 0]);
    match read_u16(image, signature + OPTIONAL_HEADER) {
        Ok(magic) => {
            if magic != MAGIC_PE32_PLUS {
                return Err(PeError::NotPe32Plus);
            }
        },
        Err(error) => {
            return Err(error);
        },
    }
    Ok(signature)
}

/// The code among more sections holds at least the code among fewer.
proof fn code_only_grows(image: Seq<u8>, signature: int, n: int, m: int)
    requires
        0 <= n <= m,
    ensures
        code_among(image, signature, n).len() <= code_among(image, signature, m).len(),
    decreases m,
{
    if n < m {
        code_only_grows(image, signature, n, m - 1);
    }
}

/// Finds the executable sections of `image`, which must be the bytes of a
/// loaded PE32+ image starting at its base.
///
/// Nothing here trusts the image: every offset is checked against the slice
/// before it is read, so a malformed header is an error and never a read out
/// of bounds.
pub fn code_sections(image: &[u8]) -> (r: Result<CodeSections, PeError>)
    ensures
        match code_of(image@) {
            Ok(code) => r is Ok && r->Ok_0@ == code,
            Err(error) => r is Err && r->Err_0 == error,
        },
{
    let signature: u64 = match signature_offset(image) {
        Ok(signature) => signature,
        Err(error) => {
            return Err(error);
        },
    };
    let ghost sig = signature as int;
    let ghost readable = readable_sections(image@, sig);
    let count: u64 = match read_u16(image, signature + NUMBER_OF_SECTIONS) {
        Ok(count) => count as u64,
        Err(error) => {
            return Err(error);
        },
    };
    let optional_size: u64 = match read_u16(image, signature + SIZE_OF_OPTIONAL_HEADER) {
        Ok(size) => size as u64,
        Err(error) => {
            return Err(error);
        },
    };
    let table: u64 = signature + OPTIONAL_HEADER + optional_size;
    let mut found = CodeSections::empty();
    let mut index: u64 = 0;
    while index < count
        invariant
            index <= count <= u16::MAX,
            signature <= u32::MAX,
            sig == signature,
            signature_of(image@) == Ok::<int, PeError>(sig),
            readable == readable_sections(image@, sig),
            count == section_count(image@, sig),
            table == section_header(image@, sig, 0),
            table <= signature + 24 + u16::MAX,
            index <= readable,
            found@ == code_among(image@, sig, index as int),
            found@.len() <= MAX_CODE_SECTIONS,
        decreases count - index,
    {
        let header: u64 = table + index * SECTION_SIZE;
        assert(header == section_header(image@, sig, index as int));
        assert(header + 40 <= image@.len() <==> index < readable);
        let characteristics: u32 = match read_u32(image, header + SECTION_CHARACTERISTICS) {
            Ok(characteristics) => characteristics,
            Err(error) => {
                return Err(error);
            },
        };
        proof {
            code_only_grows(image@, sig, index + 1, readable);
        }
        if characteristics & EXECUTABLE != 0 {
            let start: u64 = match read_u32(image, header + SECTION_VIRTUAL_ADDRESS) {
                Ok(start) => start as u64,
                Err(error) => {
                    return Err(error);
                },
            };
            let len: u64 = match read_u32(image, header + SECTION_VIRTUAL_SIZE) {
                Ok(len) => len as u64,
                Err(error) => {
                    return Err(error);
                },
            };
            if len != 0 {
                if found.len() == MAX_CODE_SECTIONS {
                    return Err(PeError::TooManySections);
                }
                found = found.with(start, len);
            }
        }
        index += 1;
    }
    if found.is_empty() {
        return Err(PeError::NoCode);
    }
    Ok(found)
}

/// The code that is found is never empty, never more than there is room for,
/// and never a section without bytes.
pub proof fn code_is_found_or_refused(image: Seq<u8>)
    ensures
        code_of(image) matches Ok(code) ==> {
            &&& 1 <= code.len() <= MAX_CODE_SECTIONS
            &&& forall|i: int| 0 <= i < code.len() ==> (#[trigger] code[i]).1 != 0
        },
{
    if let Ok(code) = code_of(image) {
        let signature = signature_of(image)->Ok_0;
        code_has_bytes(image, signature, readable_sections(image, signature));
    }
}

proof fn code_has_bytes(image: Seq<u8>, signature: int, n: int)
    ensures
        forall|i: int|
            0 <= i < code_among(image, signature, n).len() ==> (#[trigger] code_among(
                image,
                signature,
                n,
            )[i]).1 != 0,
    decreases n,
{
    if n > 0 {
        code_has_bytes(image, signature, n - 1);
        let before = code_among(image, signature, n - 1);
        let header = section_header(image, signature, n - 1);
        let code = code_among(image, signature, n);
        assert(0 <= le32(image, header + SECTION_VIRTUAL_SIZE) <= u32::MAX);
        assert forall|i: int| 0 <= i < code.len() implies (#[trigger] code[i]).1 != 0 by {
            if i < before.len() {
                assert(code[i] == before[i]);
            }
        }
    }
}

/// The kind of the relocation entry at `i` of a block's entries.
pub open spec fn relocation_kind(entries: Seq<u8>, i: int) -> u16 {
    (le16(entries, 2 * i) as u16) >> 12
}

/// Whether an entry can be handled: padding, or a 64-bit address.
pub open spec fn is_supported(kind: u16) -> bool {
    kind == RELOCATION_ABSOLUTE || kind == RELOCATION_DIR64
}

/// The kind of the first entry from `i` on that cannot be handled.
pub open spec fn unsupported_from(entries: Seq<u8>, i: int) -> Option<u16>
    decreases entries.len() - 2 * i,
{
    if 2 * i + 2 > entries.len() {
        None
    } else if !is_supported(relocation_kind(entries, i)) {
        Some(relocation_kind(entries, i))
    } else {
        unsupported_from(entries, i + 1)
    }
}

/// The size that a block of relocations gives itself.
pub open spec fn block_size(blocks: Seq<u8>) -> int {
    le32(blocks, 4)
}

/// What is wrong with a relocation table, if anything: the first block that
/// does not fit or would cut an entry in half, or the first entry of a kind
/// that cannot be applied.
pub open spec fn table_error(blocks: Seq<u8>) -> Option<PeError>
    decreases blocks.len(),
{
    let size = block_size(blocks);
    if blocks.len() == 0 {
        None
    } else if blocks.len() < RELOCATION_BLOCK_HEADER || size < RELOCATION_BLOCK_HEADER || size
        > blocks.len() || size % 2 != 0 {
        Some(PeError::Truncated)
    } else {
        match unsupported_from(blocks.subrange(8, size), 0) {
            Some(kind) => Some(PeError::UnsupportedRelocation(kind)),
            None => table_error(blocks.skip(size)),
        }
    }
}

/// The addresses in the first `n` entries of a block, the padding left out.
pub open spec fn block_slots(page: int, entries: Seq<u8>, n: int) -> Seq<u64>
    decreases n,
{
    if n <= 0 {
        Seq::empty()
    } else {
        let before = block_slots(page, entries, n - 1);
        if relocation_kind(entries, n - 1) == RELOCATION_ABSOLUTE {
            before
        } else {
            before.push((page + le16(entries, 2 * (n - 1)) % 0x1000) as u64)
        }
    }
}

/// The addresses in a relocation table, block by block.
pub open spec fn table_slots(blocks: Seq<u8>) -> Seq<u64>
    decreases blocks.len(),
{
    let size = block_size(blocks);
    if table_error(blocks) is Some || blocks.len() == 0 {
        Seq::empty()
    } else {
        block_slots(le32(blocks, 0), blocks.subrange(8, size), (size - 8) / 2) + table_slots(
            blocks.skip(size),
        )
    }
}

/// The relocation table of an image, or why it has none.
pub open spec fn relocations_of(image: Seq<u8>) -> Result<Seq<u8>, PeError> {
    match signature_of(image) {
        Err(error) => Err(error),
        Ok(signature) => {
            let directory = signature + DATA_DIRECTORIES + BASE_RELOCATION_DIRECTORY
                * DATA_DIRECTORY_SIZE;
            let start = le32(image, directory);
            let size = le32(image, directory + 4);
            if directory + 8 > image.len() {
                Err(PeError::Truncated)
            } else if start == 0 || size == 0 {
                Err(PeError::NotRelocatable)
            } else if start + size > image.len() {
                Err(PeError::Truncated)
            } else {
                let blocks = image.subrange(start, start + size);
                match table_error(blocks) {
                    Some(error) => Err(error),
                    None => Ok(blocks),
                }
            }
        },
    }
}

/// The base relocation table of a loaded image: where every absolute 64-bit
/// address sits, so the image can be moved.
///
/// The firmware already relocated the image once, to where it loaded it.
/// Applying the table again, with the difference to a new address, is what
/// lets the kernel run from somewhere else.
#[derive(Debug, Clone, Copy, PartialEq, Eq)]
pub struct Relocations<'a> {
    blocks: &'a [u8],
}

impl View for Relocations<'_> {
    type V = Seq<u8>;

    closed spec fn view(&self) -> Seq<u8> {
        self.blocks@
    }
}

impl<'a> Relocations<'a> {
    /// The whole table has been walked: every block and entry fits and is of
    /// a kind that can be applied.
    #[verifier::type_invariant]
    spec fn walked(self) -> bool {
        table_error(self.blocks@) is None
    }

    /// Offsets from the image base of the 64-bit slots to fix up.
    pub fn iter(&self) -> (r: Vec<u64>)
        ensures
            r@ == table_slots(self@),
            table_error(self@) is None,
    {
        proof {
            use_type_invariant(self);
        }
        let mut slots: Vec<u64> = Vec::new();
        let mut blocks: &[u8] = self.blocks;
        while blocks.len() > 0
            invariant
                table_error(blocks@) is None,
                table_slots(self@) == slots@ + table_slots(blocks@),
            decreases blocks@.len(),
        {
            let page: u32 = u32_at(blocks, 0);
            let size: usize = u32_at(blocks, 4) as usize;
            let entries: &[u8] = slice_subrange(blocks, RELOCATION_BLOCK_HEADER, size);
            let ghost before = slots@;
            let count: usize = entries.len() / 2;
            let mut i: usize = 0;
            while i < count
                invariant
                    i <= count,
                    2 * count == entries@.len(),
                    entries@.len() <= usize::MAX,
                    slots@ == before + block_slots(page as int, entries@, i as int),
                decreases count - i,
            {
                let value: u16 = u16_at(entries, 2 * i);
                if value >> 12 != RELOCATION_ABSOLUTE {
                    assert(value & 0xFFF == value % 0x1000) by (bit_vector);
                    slots.push(page as u64 + (value & 0xFFF) as u64);
                }
                i += 1;
                assert(slots@ =~= before + block_slots(page as int, entries@, i as int));
            }
            let ghost rest = blocks@.skip(size as int);
            blocks = slice_subrange(blocks, size, blocks.len());
            proof {
                assert(blocks@ =~= rest);
                assert(table_slots(self@) =~= slots@ + table_slots(blocks@));
            }
        }
        assert(table_slots(self@) =~= slots@);
        slots
    }
}

/// Reads the base relocation table of `image`.
///
/// Walks it completely, so a table that runs off the end of the image or
/// carries a relocation kind this code cannot apply is an error here rather
/// than a bad write later.
pub fn relocations(image: &[u8]) -> (r: Result<Relocations<'_>, PeError>)
    ensures
        match relocations_of(image@) {
            Ok(blocks) => r is Ok && r->Ok_0@ == blocks,
            Err(error) => r is Err && r->Err_0 == error,
        },
{
    let signature: u64 = match signature_offset(image) {
        Ok(signature) => signature,
        Err(error) => {
            return Err(error);
        },
    };
    let directory: u64 = signature + DATA_DIRECTORIES + BASE_RELOCATION_DIRECTORY
        * DATA_DIRECTORY_SIZE;
    let start: u64 = match read_u32(image, directory) {
        Ok(start) => start as u64,
        Err(error) => {
            return Err(error);
        },
    };
    let size: u64 = match read_u32(image, directory + 4) {
        Ok(size) => size as u64,
        Err(error) => {
            return Err(error);
        },
    };
    if start == 0 || size == 0 {
        return Err(PeError::NotRelocatable);
    }
    if start + size > image.len() as u64 {
        return Err(PeError::Truncated);
    }
    let blocks: &[u8] = slice_subrange(image, start as usize, (start + size) as usize);
    // Walk it once to reject anything the iterator could not handle.
    let mut rest: &[u8] = blocks;
    while rest.len() > 0
        invariant
            table_error(blocks@) == table_error(rest@),
            relocations_of(image@) == match table_error(blocks@) {
                Some(error) => Err(error),
                None => Ok(blocks@),
            },
        decreases rest@.len(),
    {
        if rest.len() < RELOCATION_BLOCK_HEADER {
            return Err(PeError::Truncated);
        }
        let block: u64 = u32_at(rest, 4) as u64;
        if block < RELOCATION_BLOCK_HEADER as u64 || block > rest.len() as u64 || block % 2 != 0 {
            return Err(PeError::Truncated);
        }
        let entries: &[u8] = slice_subrange(rest, RELOCATION_BLOCK_HEADER, block as usize);
        let count: usize = entries.len() / 2;
        let mut i: usize = 0;
        while i < count
            invariant
                i <= count,
                2 * count == entries@.len(),
                entries@ == rest@.subrange(8, block as int),
                rest@.len() >= 8,
                8 <= block <= rest@.len(),
                block % 2 == 0,
                block == block_size(rest@),
                unsupported_from(entries@, 0) == unsupported_from(entries@, i as int),
                table_error(blocks@) == table_error(rest@),
                relocations_of(image@) == match table_error(blocks@) {
                    Some(error) => Err(error),
                    None => Ok(blocks@),
                },
            decreases count - i,
        {
            let kind: u16 = u16_at(entries, 2 * i) >> 12;
            if kind != RELOCATION_ABSOLUTE && kind != RELOCATION_DIR64 {
                return Err(PeError::UnsupportedRelocation(kind));
            }
            i += 1;
        }
        let ghost next = rest@.skip(block as int);
        rest = slice_subrange(rest, block as usize, rest.len());
        assert(rest@ =~= next);
    }
    Ok(Relocations { blocks })
}

} // verus!
