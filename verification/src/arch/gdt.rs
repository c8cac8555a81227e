//! Minimal 64-bit GDT and TSS. In long mode the base and limit of code and
//! data segments are ignored, so this only needs to get the access byte and
//! the flags right.

use vstd::prelude::*;

verus! {

pub const KERNEL_CODE_SELECTOR: u16 = 0x08;

pub const KERNEL_DATA_SELECTOR: u16 = 0x10;

pub const TSS_SELECTOR: u16 = 0x18;

/// What `sysret` counts from: the selector of a program's stack is 8 past
/// this, that of its code 16 past it.
pub const SYSRET_SELECTOR_BASE: u16 = 0x20;

/// A program's data and stack, at privilege level 3.
pub const USER_DATA_SELECTOR: u16 = 0x2B;

/// A program's code, at privilege level 3.
pub const USER_CODE_SELECTOR: u16 = 0x33;

/// Index into `TaskStateSegment::ist` (IST1) reserved for the double-fault
/// handler, so it always runs on a known-good stack even if the current
/// stack is the one that's corrupted or overflowed.
pub const DOUBLE_FAULT_IST_INDEX: u8 = 1;

pub const DOUBLE_FAULT_STACK_SIZE: usize = 16384;

/// How many bytes a task state segment has.
pub const TSS_SIZE: u64 = 104;

/// What the table's register takes as its limit: the last byte of five
/// descriptors of 8 bytes.
pub const GDT_LIMIT: u16 = 39;

/// A flat segment descriptor, from its access byte and its flags.
proof fn flat_descriptor_bits(access: u64, flags: u64)
    by (bit_vector)
    requires
        access < 0x100,
        flags < 0x10,
    ensures
        0xFFFFu64 | (access << 40) | (0xFu64 << 48) | (flags << 52) == 0xFFFF + access
            * 0x100_0000_0000 + 0xF_0000_0000_0000 + flags * 0x10_0000_0000_0000,
{
}

proof fn flat_descriptor_flags(executable: u64, writable: u64, long: u64, short: u64)
    by (bit_vector)
    requires
        executable <= 1,
        writable <= 1,
        long <= 1,
        short == 1 - long,
    ensures
        (executable << 3) | (writable << 1) | 0u64 | (1u64 << 4) | (0u64 << 5) | (1u64 << 7) == 0x90
            + 8 * executable + 2 * writable,
        0u64 | (long << 1) | (short << 2) | (1u64 << 3) == 8 + 2 * long + 4 * short,
{
}

/// The access byte of a present ring 0 code or data segment.
pub open spec fn access_byte(executable: bool, writable: bool) -> int {
    0x90 + (if executable {
        8int
    } else {
        0
    }) + (if writable {
        2int
    } else {
        0
    })
}

/// The flags of a segment with 4 KiB granularity: a 64-bit one, or a 32-bit
/// one.
pub open spec fn segment_flags(long_mode: bool) -> int {
    if long_mode {
        0xA
    } else {
        0xC
    }
}

/// Builds a flat (base=0, limit=max) code or data segment descriptor.
///
/// `executable` selects code vs. data. `writable` is the Read/Write bit: for
/// code segments this means "readable" (never used as writable code), for
/// data segments it means "writable". `long_mode` sets the L bit (only
/// meaningful for code segments), which excludes the D/B bit.
pub fn flat_descriptor(executable: bool, writable: bool, long_mode: bool) -> (r: u64)
    ensures
        r == 0xFFFF + access_byte(executable, writable) * 0x100_0000_0000 + 0xF_0000_0000_0000
            + segment_flags(long_mode) * 0x10_0000_0000_0000,
{
    let limit_low: u64 = 0xFFFF;
    let limit_high: u64 = 0xF;
    let accessed: u64 = 0;
    let code: u64 = if executable {
        1
    } else {
        0
    };
    let read_write: u64 = if writable {
        1
    } else {
        0
    };
    let long: u64 = if long_mode {
        1
    } else {
        0
    };
    let short: u64 = if long_mode {
        0
    } else {
        1
    };
    proof {
        flat_descriptor_flags(code, read_write, long, short);
    }
    let type_bits: u64 = (code << 3) | (read_write << 1) | accessed;
    let descriptor_type_is_code_or_data: u64 = 1u64 << 4;
    let dpl_ring0: u64 = 0u64 << 5;
    let present: u64 = 1u64 << 7;
    let access: u64 = type_bits | descriptor_type_is_code_or_data | dpl_ring0 | present;
    let avl: u64 = 0;
    // D/B is set for the data segment, clear for the 64-bit code segment.
    let granularity_4k: u64 = 1u64 << 3;
    let flags: u64 = avl | (long << 1) | (short << 2) | granularity_4k;
    proof {
        flat_descriptor_bits(access, flags);
    }
    limit_low | (access << 40) | (limit_high << 48) | (flags << 52)
}

proof fn tss_descriptor_bits(addr: u64, limit: u64)
    by (bit_vector)
    ensures
        0b1001u64 | (0u64 << 4) | (0u64 << 5) | (1u64 << 7) == 0x89,
        (addr >> 32) & 0xFFFF_FFFF == addr / 0x1_0000_0000,
        (limit & 0xFFFF) | ((addr & 0xFFFF) << 16) | (((addr >> 16) & 0xFF) << 32) | (0x89u64 << 40)
            | (((limit >> 16) & 0xF) << 48) | (0u64 << 52) | (((addr >> 24) & 0xFF) << 56) == (limit
            % 0x1_0000) + (addr % 0x1_0000) * 0x1_0000 + (addr / 0x1_0000 % 0x100) * 0x1_0000_0000
            + 0x89 * 0x100_0000_0000 + (limit / 0x1_0000 % 0x10) * 0x1_0000_0000_0000 + (addr
            / 0x100_0000 % 0x100) * 0x100_0000_0000_0000,
{
}

/// The first 8 bytes of the descriptor of a task state segment: its limit,
/// the low half of its base, and that it is an available 64-bit TSS, present,
/// ring 0, its limit counted in bytes.
pub open spec fn tss_low_of(addr: int, size: int) -> int {
    (size - 1) % 0x1_0000 + (addr % 0x1_0000) * 0x1_0000 + (addr / 0x1_0000 % 0x100) * 0x1_0000_0000
        + 0x89 * 0x100_0000_0000 + ((size - 1) / 0x1_0000 % 0x10) * 0x1_0000_0000_0000 + (addr
        / 0x100_0000 % 0x100) * 0x100_0000_0000_0000
}

/// Builds the two 8-byte halves of a 64-bit TSS descriptor: an available
/// 64-bit TSS, present, ring 0, its limit counted in bytes.
pub fn tss_descriptor(tss_addr: u64, tss_size: u64) -> (r: (u64, u64))
    requires
        tss_size >= 1,
    ensures
        r.0 == tss_low_of(tss_addr as int, tss_size as int),
        r.1 == tss_addr as int / 0x1_0000_0000,
{
    let limit: u64 = tss_size - 1;
    let base_low16: u64 = tss_addr & 0xFFFF;
    let base_mid8: u64 = (tss_addr >> 16) & 0xFF;
    let base_high8: u64 = (tss_addr >> 24) & 0xFF;
    let base_upper32: u64 = (tss_addr >> 32) & 0xFFFF_FFFF;
    let ty_available_64bit_tss: u64 = 0b1001;
    let system_descriptor: u64 = 0u64 << 4;
    let dpl_ring0: u64 = 0u64 << 5;
    let present: u64 = 1u64 << 7;
    let access: u64 = ty_available_64bit_tss | system_descriptor | dpl_ring0 | present;
    let limit_low: u64 = limit & 0xFFFF;
    let limit_high: u64 = (limit >> 16) & 0xF;
    // AVL=0, G=0: the TSS is far smaller than 4 KiB.
    let flags_nibble: u64 = 0;
    proof {
        tss_descriptor_bits(tss_addr, limit);
    }
    let low: u64 = limit_low | (base_low16 << 16) | (base_mid8 << 32) | (access << 40) | (limit_high
        << 48) | (flags_nibble << 52) | (base_high8 << 56);
    (low, base_upper32)
}

/// A descriptor of a task state segment gives back its base and its limit
/// from where the processor looks for them, and says that it is an available
/// 64-bit one, present, with a limit counted in bytes.
pub proof fn a_task_segment_is_found_where_it_is(addr: u64, size: u64)
    requires
        1 <= size <= 0x10_0000,
    ensures
        ({
            let low = tss_low_of(addr as int, size as int);
            let high = addr as int / 0x1_0000_0000;
            &&& 0 <= low < 0x1_0000_0000_0000_0000
            &&& low % 0x1_0000 + 0x1_0000 * (low / 0x1_0000_0000_0000 % 0x10) == size - 1
            &&& low / 0x1_0000 % 0x100_0000 + 0x100_0000 * (low / 0x100_0000_0000_0000)
                + 0x1_0000_0000 * high == addr
            &&& low / 0x100_0000_0000 % 0x100 == 0x89
            &&& low / 0x10_0000_0000_0000 % 0x10 == 0
        }),
{
    let a = addr as int;
    let l = size as int - 1;
    let l0 = l % 0x1_0000;
    let l1 = l / 0x1_0000;
    assert(0 <= l1 < 0x10 && l1 % 0x10 == l1);
    let b0 = a % 0x1_0000;
    let b1 = a / 0x1_0000 % 0x100;
    let b2 = a / 0x100_0000 % 0x100;
    let low = tss_low_of(a, size as int);
    assert(low == l0 + 0x1_0000 * b0 + 0x1_0000_0000 * b1 + 0x89 * 0x100_0000_0000
        + 0x1_0000_0000_0000 * l1 + 0x100_0000_0000_0000 * b2);
    let base = b0 + 0x1_0000 * b1;
    assert(low / 0x1_0000 == base + 0x89 * 0x100_0000 + 0x1_0000_0000 * l1 + 0x100_0000_0000 * b2);
    assert(low / 0x1_0000 % 0x100_0000 == base);
    assert(low / 0x100_0000_0000 == 0x89 + 0x100 * l1 + 0x1_0000 * b2);
    assert(low / 0x1_0000_0000_0000 == l1 + 0x100 * b2);
    assert(low / 0x10_0000_0000_0000 == 0x10 * b2);
    assert(low / 0x100_0000_0000_0000 == b2);
    assert(a / 0x1_0000 / 0x100 == a / 0x100_0000);
    assert(a / 0x100_0000 / 0x100 == a / 0x1_0000_0000);
    assert(a == b0 + 0x1_0000 * (a / 0x1_0000));
    assert(a / 0x1_0000 == b1 + 0x100 * (a / 0x100_0000));
    assert(a / 0x100_0000 == b2 + 0x100 * (a / 0x1_0000_0000));
}

/// The bits of a flat segment: present, code or data, the type bits as asked,
/// 64-bit or 32-bit, all of memory in pages of 4 KiB.
pub proof fn a_flat_segment_covers_all(executable: bool, writable: bool, long_mode: bool)
    ensures
        ({
            let d = 0xFFFF + access_byte(executable, writable) * 0x100_0000_0000
                + 0xF_0000_0000_0000 + segment_flags(long_mode) * 0x10_0000_0000_0000;
            let access = d / 0x100_0000_0000 % 0x100;
            let flags = d / 0x10_0000_0000_0000;
            &&& d % 0x100_0000_0000 == 0xFFFF
            &&& d / 0x1_0000_0000_0000 % 0x10 == 0xF
            &&& access / 0x80 == 1
            &&& access / 0x20 % 4 == 0
            &&& access / 0x10 % 2 == 1
            &&& access / 8 % 2 == 1 <==> executable
            &&& access / 4 % 2 == 0
            &&& access / 2 % 2 == 1 <==> writable
            &&& access % 2 == 0
            &&& flags / 8 == 1
            &&& flags / 4 % 2 == 1 <==> !long_mode
            &&& flags / 2 % 2 == 1 <==> long_mode
            &&& flags % 2 == 0
        }),
{
}

/// 64-bit Task State Segment. Only `ist[0]` (IST1) is populated; there is no
/// I/O permission bitmap.
#[derive(Debug, Clone, Copy, PartialEq, Eq)]
pub struct TaskStateSegment {
    pub reserved0: u32,
    pub rsp: [u64; 3],
    pub reserved1: u64,
    pub ist: [u64; 7],
    pub reserved2: u64,
    pub reserved3: u16,
    /// Points past the end of the structure: "no I/O permission bitmap
    /// present".
    pub iomap_base: u16,
}

impl TaskStateSegment {
    /// A segment that knows no stack but the one for double faults, which
    /// ends at `double_fault_stack_top`.
    pub fn new(double_fault_stack_top: u64) -> (r: Self)
        ensures
            r.reserved0 == 0,
            r.rsp@ == seq![0u64, 0, 0],
            r.reserved1 == 0,
            r.ist@ == seq![double_fault_stack_top, 0, 0, 0, 0, 0, 0],
            r.reserved2 == 0,
            r.reserved3 == 0,
            r.iomap_base == TSS_SIZE,
    {
        let mut ist: [u64; 7] = [0; 7];
        ist[(DOUBLE_FAULT_IST_INDEX - 1) as usize] = double_fault_stack_top;
        let tss = TaskStateSegment {
            reserved0: 0,
            rsp: [0; 3],
            reserved1: 0,
            ist,
            reserved2: 0,
            reserved3: 0,
            iomap_base: TSS_SIZE as u16,
        };
        assert(tss.rsp@ =~= seq![0u64, 0, 0]);
        assert(tss.ist@ =~= seq![double_fault_stack_top, 0, 0, 0, 0, 0, 0]);
        tss
    }

    /// The segment as the processor reads it: 26 double words without
    /// padding, lowest address first.
    pub fn dwords(&self) -> (r: [u32; 26])
        ensures
            r@[0] == self.reserved0,
            forall|i: int| #![auto] 0 <= i < 3 ==> dword_pair(r@, 1 + 2 * i, self.rsp@[i]),
            dword_pair(r@, 7, self.reserved1),
            forall|i: int| #![auto] 0 <= i < 7 ==> dword_pair(r@, 9 + 2 * i, self.ist@[i]),
            dword_pair(r@, 23, self.reserved2),
            r@[25] == self.reserved3 + 0x1_0000 * self.iomap_base,
    {
        let last: u32 = self.reserved3 as u32 + 0x1_0000 * (self.iomap_base as u32);
        [
            self.reserved0,
            low_half(self.rsp[0]),
            high_half(self.rsp[0]),
            low_half(self.rsp[1]),
            high_half(self.rsp[1]),
            low_half(self.rsp[2]),
            high_half(self.rsp[2]),
            low_half(self.reserved1),
            high_half(self.reserved1),
            low_half(self.ist[0]),
            high_half(self.ist[0]),
            low_half(self.ist[1]),
            high_half(self.ist[1]),
            low_half(self.ist[2]),
            high_half(self.ist[2]),
            low_half(self.ist[3]),
            high_half(self.ist[3]),
            low_half(self.ist[4]),
            high_half(self.ist[4]),
            low_half(self.ist[5]),
            high_half(self.ist[5]),
            low_half(self.ist[6]),
            high_half(self.ist[6]),
            low_half(self.reserved2),
            high_half(self.reserved2),
            last,
        ]
    }
}

/// Whether the two double words from `at` on are `value`, low half first.
pub open spec fn dword_pair(dwords: Seq<u32>, at: int, value: u64) -> bool {
    dwords[at] + 0x1_0000_0000 * dwords[at + 1] == value
}

/// The double words of a pair are the halves of its value.
pub proof fn a_pair_is_two_halves(dwords: Seq<u32>, at: int, value: u64)
    ensures
        dword_pair(dwords, at, value) <==> dwords[at] == value % 0x1_0000_0000 && dwords[at + 1]
            == value / 0x1_0000_0000,
{
}

fn low_half(value: u64) -> (r: u32)
    ensures
        r == value % 0x1_0000_0000,
{
    (value % 0x1_0000_0000) as u32
}

fn high_half(value: u64) -> (r: u32)
    ensures
        r == value / 0x1_0000_0000,
{
    (value / 0x1_0000_0000) as u32
}

/// The descriptor table. The selectors are offsets into it.
#[derive(Debug, Clone, Copy, PartialEq, Eq, Structural)]
pub struct Gdt {
    pub null: u64,
    pub kernel_code: u64,
    pub kernel_data: u64,
    pub tss_low: u64,
    pub tss_high: u64,
}

impl Gdt {
    /// The kernel's two segments and the task state segment at `tss_addr`.
    pub fn new(tss_addr: u64) -> (r: Self)
        ensures
            r.null == 0,
            r.kernel_code == 0x00AF_9A00_0000_FFFF,
            r.kernel_data == 0x00CF_9200_0000_FFFF,
            r.tss_low == tss_low_of(tss_addr as int, TSS_SIZE as int),
            r.tss_high == tss_addr as int / 0x1_0000_0000,
    {
        let (tss_low, tss_high) = tss_descriptor(tss_addr, TSS_SIZE);
        Gdt {
            null: 0,
            kernel_code: flat_descriptor(true, true, true),
            kernel_data: flat_descriptor(false, true, false),
            tss_low,
            tss_high,
        }
    }

    /// The table as the processor reads it.
    pub fn words(&self) -> (r: [u64; 5])
        ensures
            r@[0] == self.null,
            r@[KERNEL_CODE_SELECTOR as int / 8] == self.kernel_code,
            r@[KERNEL_DATA_SELECTOR as int / 8] == self.kernel_data,
            r@[TSS_SELECTOR as int / 8] == self.tss_low,
            r@[TSS_SELECTOR as int / 8 + 1] == self.tss_high,
    {
        [self.null, self.kernel_code, self.kernel_data, self.tss_low, self.tss_high]
    }
}

} // verus!
