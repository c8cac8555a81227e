//! x86_64 4-level paging: the kernel's page mapper.
//!
//! The kernel boots on the firmware's page tables: an identity map whose own
//! table pages are mapped read-only. Writing any of those tables would
//! fault, so the kernel never does. `KernelPageTable::take_over` copies the
//! firmware's root table into a frame of the kernel's own: every translation
//! stays the same, the lower-level firmware tables are shared read-only, and
//! from then on each table the kernel writes is its own.
//!
//! The walking logic (`PageTables`) is generic over how table memory is
//! reached (`TableAccess`). Only an implementation of that trait touches the
//! hardware.

use crate::hal::addr::{PhysAddr, VirtAddr};
use crate::hal::frame::{FrameAllocator, PhysFrame};
use crate::hal::memory_map::CachePolicy;
use crate::hal::paging::{MapError, MappedRange, Page, PageFlags, PageMapper, UnmapError, PAGE_SIZE};
use vstd::prelude::*;

pub mod counts;
pub mod halves;
pub mod kept;
pub mod laws;
pub mod meaning;
pub mod model;
pub mod moments;
pub mod plan;
pub mod reasons;
pub mod simulated;
pub mod tidy;

verus! {

use model::{
    canonical, entry_table, fill, index_at, is_present, lookup, map_error, nothing, offers_fit,
    page_size, path_entry, policy_bits, put, target, unmap_table, walk, Change, Flush, Leaf, Machine,
    Memory, TableError, ADDRESS_MASK, CACHE_DISABLE, ENTRIES, GIB, HUGE, KERNEL_SLOT,
    KERNEL_SPACE_BASE, LARGE_PAGE, NO_EXECUTE, PAGE, PRESENT, USER, WRITABLE, WRITE_THROUGH,
};

use laws::{
    a_failed_mapping_leaves_the_page_as_it_was, a_mapped_page_leads_to_its_frame,
    an_unmapped_page_leads_nowhere, is_frame, mapping_changes_no_answer,
    unmapping_finds_what_the_walk_finds, walk_ends_at_a_page,
};
use plan::{
    all_below, any_meets, any_runs, any_writes, code_covers, code_pages, entries_of, first_index, first_page,
    good_limit, identity_entries, kept_entry, kept_pages, kept_pages_grow, kernel_space_in_use,
    large_base, large_entry, last_page, link_entry, page_counts_are_bounded, paging_error,
    read_only_pages, window_entries, Tally,
};

/// First address of kernel space: slot 256 of the root table.
pub const KERNEL_SPACE_START: u64 = 0xFFFF_8000_0000_0000;

/// Where the kernel heap starts: slot 257 of the root table, a slot of its
/// own.
pub const KERNEL_HEAP_START: u64 = 0xFFFF_8080_0000_0000;

/// Where the kernel's stacks live: slot 258, again a slot of its own, so a
/// stack that runs off its guard page can only ever land on an unmapped
/// page.
pub const KERNEL_STACKS_START: u64 = 0xFFFF_8100_0000_0000;

/// Where the kernel's own image is mapped so that it can stop running from
/// wherever the firmware put it: slot 259.
pub const KERNEL_IMAGE_START: u64 = 0xFFFF_8180_0000_0000;

/// Where all of physical memory is readable and writable, so the kernel can
/// reach a frame without the identity map of the lower half, which becomes
/// user space: slot 260.
pub const KERNEL_PHYSMAP_START: u64 = 0xFFFF_8200_0000_0000;

/// Where the firmware's runtime services are mapped once they have been told
/// to move there: slot 261. A physical address `p` of theirs becomes
/// `KERNEL_RUNTIME_START + p`.
pub const KERNEL_RUNTIME_START: u64 = 0xFFFF_8280_0000_0000;

/// How much physical address space `rebuild_identity_map` covers by default:
/// enough for the RAM the frame allocator can manage, the framebuffer and
/// legacy MMIO.
pub const DEFAULT_IDENTITY_LIMIT: u64 = 0x1_0000_0000;

/// The CR3 bits (PWT and PCD) that say how the root itself is cached.
pub const CR3_FLAGS: u64 = 0x18;

pub const CR4_PCIDE: u64 = 0x2_0000;

pub const CR4_LA57: u64 = 0x1000;

pub const IA32_EFER: u32 = 0xC000_0080;

pub const EFER_NXE: u64 = 0x800;

/// The kernel areas are root slots 256 to 261, one each, and no two share a
/// slot.
pub proof fn kernel_areas_have_slots_of_their_own()
    ensures
        index_at(KERNEL_SPACE_START as int, 0) == 256,
        index_at(KERNEL_HEAP_START as int, 0) == 257,
        index_at(KERNEL_STACKS_START as int, 0) == 258,
        index_at(KERNEL_IMAGE_START as int, 0) == 259,
        index_at(KERNEL_PHYSMAP_START as int, 0) == 260,
        index_at(KERNEL_RUNTIME_START as int, 0) == 261,
        KERNEL_SPACE_START == KERNEL_SPACE_BASE,
        KERNEL_HEAP_START == KERNEL_SPACE_BASE + page_size(0),
        KERNEL_STACKS_START == KERNEL_SPACE_BASE + 2 * page_size(0),
        KERNEL_IMAGE_START == KERNEL_SPACE_BASE + 3 * page_size(0),
        KERNEL_PHYSMAP_START == KERNEL_SPACE_BASE + 4 * page_size(0),
        KERNEL_RUNTIME_START == KERNEL_SPACE_BASE + 5 * page_size(0),
{
}

/// Why the mapper refused. The kernel keeps running on the tables it had.
#[derive(Debug, Clone, Copy, PartialEq, Eq, Structural)]
pub enum PagingError {
    FiveLevelPaging,
    PcidEnabled,
    /// EFER.NXE is off: the no-execute bit would be a reserved-bit fault.
    NoExecuteDisabled,
    /// A translation the walker relies on is not the identity.
    NotIdentityMapped,
    /// The firmware already maps something in kernel space.
    KernelSpaceInUse,
    OutOfFrames,
    TableFrameNotWritable,
    /// The identity limit must be a whole number of GiB, at most 512.
    BadIdentityLimit,
    /// A range that must stay executable falls outside the new map, which
    /// would leave the kernel without the code it is about to run.
    RequiredRangeOutsideIdentityMap,
    /// The physical window has to start at a PML4 slot of kernel space.
    WindowOutsideKernelSpace,
    /// Something is already mapped where the physical window would go.
    WindowSlotTaken,
}

/// What `rebuild_identity_map` built.
#[derive(Debug, Clone, Copy, PartialEq, Eq, Structural)]
pub struct IdentityMapStats {
    /// Page tables the new map took (all of them the kernel's own).
    pub tables: u64,
    /// Physical address space it covers, from 0.
    pub limit: u64,
    /// 4 KiB pages left executable; everything else in the map is
    /// no-execute.
    pub executable_pages: u64,
    /// Of those, the ones that hold nothing but code and are therefore
    /// mapped read-only. A page that mixes code and data cannot be, so the
    /// two numbers differ if any section is not page-aligned.
    pub read_only_pages: u64,
}

/// How the walker reaches table memory, given a table's physical address.
///
/// An entry reads back as it was last written. (The processor sets accessed
/// and dirty bits of its own; nothing here looks at them.) Each implementation
/// says what its memory is.
pub trait TableAccess {
    /// Table memory as it is now.
    open spec fn memory(&self) -> Memory {
        arbitrary()
    }

    /// What is added to a table's physical address to reach it.
    open spec fn base(&self) -> u64 {
        arbitrary()
    }

    /// Every write so far, in order.
    open spec fn changes(&self) -> Seq<Change> {
        arbitrary()
    }

    /// What has been dropped from the processor's cache so far.
    open spec fn flushes(&self) -> Seq<Flush> {
        arbitrary()
    }

    /// What is added to a table's physical address to reach it. Zero for
    /// anything that can read physical memory directly.
    fn window(&self) -> (r: u64)
        ensures
            r == self.base(),
    ;

    /// Reaches tables at `base` plus their physical address from now on.
    fn set_window(&mut self, base: u64)
        ensures
            final(self).base() == base,
            final(self).memory() == old(self).memory(),
            final(self).changes() == old(self).changes(),
            final(self).flushes() == old(self).flushes(),
    ;

    fn read(&self, table: u64, index: usize) -> (r: u64)
        requires
            index < ENTRIES,
        ensures
            r == self.memory()(table, index as int),
    ;

    fn write(&mut self, table: u64, index: usize, value: u64)
        requires
            index < ENTRIES,
        ensures
            final(self).memory() == put(old(self).memory(), table, index as int, value),
            final(self).changes() == old(self).changes().push(
                Change { table, index: index as int, value },
            ),
            final(self).base() == old(self).base(),
            final(self).flushes() == old(self).flushes(),
    ;

    /// Drops any cached translation of `va`.
    fn flush(&mut self, va: u64)
        ensures
            final(self).memory() == old(self).memory(),
            final(self).changes() == old(self).changes(),
            final(self).base() == old(self).base(),
            final(self).flushes() == old(self).flushes().push(Flush::Page(va)),
    ;

    /// Drops every cached translation (after replacing whole subtrees).
    fn flush_all(&mut self)
        ensures
            final(self).memory() == old(self).memory(),
            final(self).changes() == old(self).changes(),
            final(self).base() == old(self).base(),
            final(self).flushes() == old(self).flushes().push(Flush::All),
    ;
}

/// The four indices of a virtual address, as bit fields.
proof fn index_bits(va: u64)
    by (bit_vector)
    ensures
        (va >> 39) & 0x1FF == va / 0x80_0000_0000 % 512,
        (va >> 30) & 0x1FF == va / 0x4000_0000 % 512,
        (va >> 21) & 0x1FF == va / 0x20_0000 % 512,
        (va >> 12) & 0x1FF == va / 0x1000 % 512,
{
}

/// PML4, PDPT, PD and PT indices of `va`, in walk order.
pub fn table_indices(va: u64) -> (r: [usize; 4])
    ensures
        forall|level: int| 0 <= level < 4 ==> r[level] == #[trigger] index_at(va as int, level),
        forall|level: int| 0 <= level < 4 ==> #[trigger] r[level] < ENTRIES,
        r[0] == va / 0x80_0000_0000 % 512,
        r[1] == va / 0x4000_0000 % 512,
        r[2] == va / 0x20_0000 % 512,
        r[3] == va / 0x1000 % 512,
{
    proof {
        index_bits(va);
    }
    [
        ((va >> 39) & 0x1FF) as usize,
        ((va >> 30) & 0x1FF) as usize,
        ((va >> 21) & 0x1FF) as usize,
        ((va >> 12) & 0x1FF) as usize,
    ]
}

/// Bits 48-63 must repeat bit 47 (4-level paging).
pub fn is_canonical(va: u64) -> (r: bool)
    ensures
        r == canonical(va),
        r == (va < 0x8000_0000_0000 || va >= 0xFFFF_8000_0000_0000),
{
    assert((va >> 47 == 0 || va >> 47 == 0x1_FFFF) <==> (va < 0x8000_0000_0000 || va
        >= 0xFFFF_8000_0000_0000)) by (bit_vector);
    let top: u64 = va >> 47;
    top == 0 || top == 0x1_FFFF
}

/// The page-table bits that reproduce a cache policy.
///
/// Write-combining needs the PAT reprogrammed, which this kernel does not
/// do; until it does, a range that asked for it is mapped uncacheable:
/// slower, never wrong.
pub fn cache_bits(policy: CachePolicy) -> (r: u64)
    ensures
        r == policy_bits(policy),
{
    match policy {
        CachePolicy::WriteBack | CachePolicy::Unspecified => 0,
        CachePolicy::WriteThrough => WRITE_THROUGH,
        CachePolicy::WriteCombining | CachePolicy::Uncacheable => CACHE_DISABLE | WRITE_THROUGH,
    }
}

#[derive(Debug, Clone, Copy, PartialEq, Eq, Structural)]
pub struct Translation {
    pub phys: u64,
    pub writable: bool,
    /// Size of the page that resolved the walk (4 KiB, 2 MiB or 1 GiB).
    /// Whoever asks about a whole range can skip to that page's end instead
    /// of walking every frame inside it.
    pub page_size: u64,
}

/// What a translation reports of the leaf that a walk found.
pub open spec fn reported(leaf: Option<Leaf>) -> Option<Translation> {
    match leaf {
        Some(l) => Some(
            Translation { phys: l.phys as u64, writable: l.writable, page_size: l.page_size },
        ),
        None => None,
    }
}

/// The size of the page that an entry at `level` covers.
fn entry_span(level: usize) -> (r: u64)
    ensures
        r == page_size(level as int),
{
    match level {
        0 => 0x80_0000_0000,
        1 => GIB,
        2 => LARGE_PAGE,
        _ => PAGE,
    }
}

/// The offset of an address inside its page, and the bounds of a page's
/// address.
proof fn offset_bits(va: u64, entry: u64)
    by (bit_vector)
    ensures
        va & 0x3FFF_FFFF == va % 0x4000_0000,
        va & 0x1F_FFFF == va % 0x20_0000,
        va & 0xFFF == va % 0x1000,
        entry & 0x000F_FFFF_FFFF_F000 & !0x3FFF_FFFFu64 <= 0x000F_FFFF_FFFF_F000,
        entry & 0x000F_FFFF_FFFF_F000 & !0x1F_FFFFu64 <= 0x000F_FFFF_FFFF_F000,
        entry & 0x000F_FFFF_FFFF_F000 & !0xFFFu64 <= 0x000F_FFFF_FFFF_F000,
{
}

/// The address in an entry is a whole number of frames.
proof fn address_bits(entry: u64)
    by (bit_vector)
    ensures
        (entry & 0x000F_FFFF_FFFF_F000) % 4096 == 0,
{
}

fn to_map_error(error: TableError) -> (r: MapError)
    ensures
        r == map_error(error),
{
    match error {
        TableError::OutOfFrames => MapError::OutOfFrames,
        TableError::NotWritable => MapError::TableFrameNotWritable,
    }
}

fn to_paging_error(error: TableError) -> (r: PagingError)
    ensures
        r == paging_error(error),
{
    match error {
        TableError::OutOfFrames => PagingError::OutOfFrames,
        TableError::NotWritable => PagingError::TableFrameNotWritable,
    }
}

/// Whether any of `ranges` reaches into `[start, end)`.
fn meets_any(ranges: &[MappedRange], start: u64, end: u64) -> (r: bool)
    ensures
        r == any_meets(ranges@, start as int, end as int),
{
    let mut k: usize = 0;
    while k < ranges.len()
        invariant
            k <= ranges@.len(),
            forall|j: int|
                0 <= j < k ==> !(#[trigger] ranges@[j]).range.meets(start as int, end as int),
        decreases ranges.len() - k,
    {
        if ranges[k].range.overlaps(PhysAddr::new(start), PhysAddr::new(end)) {
            assert(ranges@[k as int].range.meets(start as int, end as int));
            return true;
        }
        k += 1;
    }
    false
}

/// Whether code runs in `[start, end)`.
fn runs_in_any(ranges: &[MappedRange], start: u64, end: u64) -> (r: bool)
    ensures
        r == any_runs(ranges@, start as int, end as int),
{
    let mut k: usize = 0;
    while k < ranges.len()
        invariant
            k <= ranges@.len(),
            forall|j: int|
                0 <= j < k ==> !((#[trigger] ranges@[j]).executable && ranges@[j].range.meets(
                    start as int,
                    end as int,
                )),
        decreases ranges.len() - k,
    {
        if ranges[k].executable && ranges[k].range.overlaps(
            PhysAddr::new(start),
            PhysAddr::new(end),
        ) {
            assert(ranges@[k as int].executable);
            return true;
        }
        k += 1;
    }
    false
}

/// Whether some range that is written reaches into `[start, end)`.
fn written_by_any(ranges: &[MappedRange], start: u64, end: u64) -> (r: bool)
    ensures
        r == any_writes(ranges@, start as int, end as int),
{
    let mut k: usize = 0;
    while k < ranges.len()
        invariant
            k <= ranges@.len(),
            forall|j: int|
                0 <= j < k ==> !((#[trigger] ranges@[j]).writable && ranges@[j].range.meets(
                    start as int,
                    end as int,
                )),
        decreases ranges.len() - k,
    {
        if ranges[k].writable && ranges[k].range.overlaps(
            PhysAddr::new(start),
            PhysAddr::new(end),
        ) {
            assert(ranges@[k as int].writable);
            return true;
        }
        k += 1;
    }
    false
}

/// Whether one range of code holds all of `[start, end)`.
fn covered_by_code(ranges: &[MappedRange], start: u64, end: u64) -> (r: bool)
    ensures
        r == code_covers(ranges@, start as int, end as int),
{
    let mut k: usize = 0;
    while k < ranges.len()
        invariant
            k <= ranges@.len(),
            forall|j: int|
                0 <= j < k ==> !((#[trigger] ranges@[j]).executable && ranges@[j].range.holds(
                    start as int,
                ) && ranges@[j].range.limit() >= end),
        decreases ranges.len() - k,
    {
        if ranges[k].executable && ranges[k].range.contains(PhysAddr::new(start))
            && ranges[k].range.end().as_u64() >= end {
            assert(ranges@[k as int].executable);
            return true;
        }
        k += 1;
    }
    false
}

/// Whether every range has something in it and ends at or below `limit`.
fn every_range_below(ranges: &[MappedRange], limit: u64) -> (r: bool)
    ensures
        r == all_below(ranges@, limit),
{
    let mut k: usize = 0;
    while k < ranges.len()
        invariant
            k <= ranges@.len(),
            forall|j: int|
                0 <= j < k ==> (#[trigger] ranges@[j]).range.len != 0 && ranges@[j].range.start.0
                    + ranges@[j].range.len <= limit,
        decreases ranges.len() - k,
    {
        let range = ranges[k].range;
        assert(range == ranges@[k as int].range);
        if range.len == 0 || range.start.as_u64() >= limit {
            return false;
        }
        match range.start.checked_add(range.len) {
            None => {
                return false;
            },
            Some(end) => {
                if end.as_u64() > limit {
                    return false;
                }
            },
        }
        k += 1;
    }
    true
}

/// The running counts of an identity map.
pub open spec fn tally_of(stats: IdentityMapStats) -> Tally {
    Tally {
        tables: stats.tables as int,
        executable: stats.executable_pages as int,
        read_only: stats.read_only_pages as int,
    }
}

pub struct PageTables<A: TableAccess> {
    pub root: u64,
    pub access: A,
}

/// What unmapping `page` did: nothing where there was nothing to unmap, and
/// otherwise one entry is gone, its translation is dropped from the
/// processor's cache and the frame it named is handed back.
pub open spec fn unmapped<A: TableAccess>(
    before: PageTables<A>,
    after: PageTables<A>,
    page: u64,
    r: Result<PhysFrame, UnmapError>,
) -> bool {
    let mem = before.access.memory();
    let index = index_at(page as int, 3);
    &&& after.root == before.root
    &&& after.access.base() == before.access.base()
    &&& match unmap_table(mem, before.root, page) {
        Err(error) => {
            &&& r is Err
            &&& r->Err_0 == error
            &&& after.access.memory() == mem
            &&& after.access.changes() == before.access.changes()
            &&& after.access.flushes() == before.access.flushes()
        },
        Ok(table) => {
            &&& r is Ok
            &&& r->Ok_0.addr() == target(mem(table, index))
            &&& after.access.memory() == put(mem, table, index, 0)
            &&& after.access.changes() == before.access.changes().push(
                Change { table, index, value: 0 },
            )
            &&& after.access.flushes() == before.access.flushes().push(Flush::Page(page))
        },
    }
}

impl<A: TableAccess> PageTables<A> {
    /// Where `va` leads under these tables.
    pub open spec fn lookup(&self, va: u64) -> Option<Leaf> {
        lookup(self.access.memory(), self.root, va)
    }

    /// The tables together with the allocator that new ones come from.
    pub open spec fn machine<F: FrameAllocator>(&self, frames: &F) -> Machine {
        Machine {
            root: self.root,
            window: self.access.base(),
            mem: self.access.memory(),
            changes: self.access.changes(),
            flushes: self.access.flushes(),
            offers: frames.offers(),
            taken: frames.taken(),
        }
    }

    pub fn translate(&self, va: u64) -> (r: Option<Translation>)
        ensures
            r == reported(self.lookup(va)),
            r == reported(lookup(self.access.memory(), self.root, va)),
            self.lookup(va) matches Some(leaf) ==> 0 <= leaf.phys <= u64::MAX,
    {
        if !is_canonical(va) {
            return None;
        }
        let indices = table_indices(va);
        let mut table: u64 = self.root;
        let mut writable = true;
        let mut level: usize = 0;
        loop
            invariant
                level < 4,
                canonical(va),
                forall|l: int| 0 <= l < 4 ==> indices[l] == #[trigger] index_at(va as int, l),
                forall|l: int| 0 <= l < 4 ==> #[trigger] indices[l] < ENTRIES,
                match walk(self.access.memory(), table, level as nat, va) {
                    Some(leaf) => self.lookup(va) matches Some(whole) && whole.phys == leaf.phys
                        && whole.page_size == leaf.page_size && whole.writable == (writable
                        && leaf.writable),
                    None => self.lookup(va) is None,
                },
            decreases 4 - level,
        {
            let entry: u64 = self.access.read(table, indices[level]);
            assert(entry == self.access.memory()(table, index_at(va as int, level as int)));
            if entry & PRESENT == 0 || (level == 0 && entry & HUGE != 0) {
                return None;
            }
            writable = writable && entry & WRITABLE != 0;
            if level == 3 || entry & HUGE != 0 {
                let size: u64 = entry_span(level);
                let page: u64 = entry & ADDRESS_MASK & !(size - 1);
                proof {
                    offset_bits(va, entry);
                }
                return Some(Translation { phys: page + (va & (size - 1)), writable, page_size: size });
            }
            table = entry & ADDRESS_MASK;
            level += 1;
        }
    }

    /// Whether these tables map `addr` to itself.
    fn maps_to_itself(&self, addr: u64) -> (r: bool)
        ensures
            r == is_identity(self.access.memory(), self.root, addr),
    {
        match self.translate(addr) {
            Some(t) => t.phys == addr,
            None => false,
        }
    }

    pub fn map<F: FrameAllocator>(
        &mut self,
        page: u64,
        frame: PhysFrame,
        flags: PageFlags,
        frames: &mut F,
    ) -> (r: Result<(), MapError>)
        requires
            old(self).machine(old(frames)).in_window(),
        ensures
            (final(self).machine(final(frames)), r) == old(self).machine(old(frames)).map(
                page,
                frame.addr(),
                flags,
            ),
    {
        // The lower half is user space: only a page that says so out loud
        // may be mapped there, and the kernel's own pages never may.
        if flags.user != (page < KERNEL_SPACE_BASE) {
            return Err(MapError::OutsideKernelSpace);
        }
        let ghost start = self.machine(frames);
        let indices = table_indices(page);
        let mut table: u64 = self.root;
        let mut upgraded = false;
        let mut level: usize = 0;
        // Every level of the walk has to allow it, so a user page carries
        // the bit all the way up.
        let reachable: u64 = if flags.user {
            PRESENT | WRITABLE | USER
        } else {
            PRESENT | WRITABLE
        };
        while level < 3
            invariant
                level <= 3,
                flags.user == (page < KERNEL_SPACE_BASE),
                start == old(self).machine(old(frames)),
                forall|l: int| 0 <= l < 4 ==> indices[l] == #[trigger] index_at(page as int, l),
                forall|l: int| 0 <= l < 4 ==> #[trigger] indices[l] < ENTRIES,
                reachable == if flags.user {
                    PRESENT | WRITABLE | USER
                } else {
                    PRESENT | WRITABLE
                },
                self.machine(frames).in_window(),
                start.map_from(start.root, 0, page, frame.addr(), flags, false) == self.machine(
                    frames,
                ).map_from(table, level as nat, page, frame.addr(), flags, upgraded),
            decreases 3 - level,
        {
            let index: usize = indices[level];
            let entry: u64 = self.access.read(table, index);
            assert(index == index_at(page as int, level as int));
            let ghost before = self.machine(frames);
            if entry & PRESENT == 0 {
                let new: u64 = match self.new_table(frames) {
                    Ok(new) => new,
                    Err(error) => {
                        return Err(to_map_error(error));
                    },
                };
                let ghost made = self.machine(frames);
                // Linked only once fully zeroed: the hardware walker never
                // sees a half-built table.
                self.access.write(table, index, new | reachable);
                assert(self.machine(frames) =~= made.put(
                    table,
                    index as int,
                    path_entry(new, flags.user),
                ));
                table = new;
            } else if entry & HUGE != 0 {
                return Err(MapError::HugePageInTheWay);
            } else {
                // A table built for the kernel and now on a program's path
                // has to allow ring 3 too.
                if flags.user && entry & USER == 0 {
                    self.access.write(table, index, entry | USER);
                    upgraded = true;
                    assert(self.machine(frames) =~= before.put(table, index as int, entry | USER));
                }
                table = entry & ADDRESS_MASK;
            }
            level += 1;
        }
        let index: usize = indices[3];
        assert(index == index_at(page as int, 3));
        let ghost before = self.machine(frames);
        if self.access.read(table, index) & PRESENT != 0 {
            return Err(MapError::AlreadyMapped);
        }
        let mut leaf: u64 = frame.start_address().as_u64() | PRESENT | cache_bits(flags.cache);
        if flags.writable {
            leaf = leaf | WRITABLE;
        }
        if !flags.executable {
            leaf = leaf | NO_EXECUTE;
        }
        if flags.user {
            leaf = leaf | USER;
        }
        self.access.write(table, index, leaf);
        self.access.flush(page);
        let ghost mapped = before.put(table, index as int, leaf).flush(Flush::Page(page));
        assert(self.machine(frames) =~= mapped);
        if upgraded {
            // Pages under those tables were cached with the old, stricter
            // permissions.
            self.access.flush_all();
            assert(self.machine(frames) =~= mapped.flush(Flush::All));
        }
        Ok(())
    }

    pub fn unmap(&mut self, page: u64) -> (r: Result<PhysFrame, UnmapError>)
        ensures
            unmapped(*old(self), *final(self), page, r),
    {
        if page < KERNEL_SPACE_BASE {
            return Err(UnmapError::OutsideKernelSpace);
        }
        let indices = table_indices(page);
        let mut table: u64 = self.root;
        let mut level: usize = 0;
        while level < 3
            invariant
                level <= 3,
                *self == *old(self),
                page >= KERNEL_SPACE_BASE,
                forall|l: int| 0 <= l < 4 ==> indices[l] == #[trigger] index_at(page as int, l),
                forall|l: int| 0 <= l < 4 ==> #[trigger] indices[l] < ENTRIES,
                entry_table(self.access.memory(), self.root, 0, page) == entry_table(
                    self.access.memory(),
                    table,
                    level as nat,
                    page,
                ),
            decreases 3 - level,
        {
            let entry: u64 = self.access.read(table, indices[level]);
            assert(indices[level as int] == index_at(page as int, level as int));
            if entry & PRESENT == 0 {
                return Err(UnmapError::NotMapped);
            }
            if entry & HUGE != 0 {
                return Err(UnmapError::HugePageInTheWay);
            }
            table = entry & ADDRESS_MASK;
            level += 1;
        }
        let leaf: u64 = self.access.read(table, indices[3]);
        assert(indices[3] == index_at(page as int, 3));
        if leaf & PRESENT == 0 {
            return Err(UnmapError::NotMapped);
        }
        self.access.write(table, indices[3], 0);
        self.access.flush(page);
        proof {
            address_bits(leaf);
        }
        Ok(PhysFrame::containing_address(PhysAddr::new(leaf & ADDRESS_MASK)))
    }

    /// The last-level table of the 2 MiB at `base`, in a table that
    /// `new_table` made. Answers how many pages it left executable and how
    /// many read-only.
    fn fill_identity_table<F: FrameAllocator>(
        &mut self,
        frames: &F,
        table: u64,
        base: u64,
        ranges: &[MappedRange],
    ) -> (r: (u64, u64))
        requires
            base <= 512 * GIB,
        ensures
            final(self).machine(frames) == old(self).machine(frames).fill(
                table,
                first_index(base as int),
                512,
                identity_entries(ranges@, base as int),
            ),
            r.0 == code_pages(ranges@, base as int, 512),
            r.1 == read_only_pages(ranges@, base as int, 512),
    {
        let ghost start = self.machine(frames);
        let ghost first = first_index(base as int);
        let mut executable: u64 = 0;
        let mut read_only: u64 = 0;
        let mut index: usize = 0;
        assert(start =~= start.fill(table, first, 0, identity_entries(ranges@, base as int)));
        while index < ENTRIES
            invariant
                index <= ENTRIES,
                base <= 512 * GIB,
                first == first_index(base as int),
                self.machine(frames) == start.fill(
                    table,
                    first,
                    index as int,
                    identity_entries(ranges@, base as int),
                ),
                executable == code_pages(ranges@, base as int, index as int),
                read_only == read_only_pages(ranges@, base as int, index as int),
                executable <= index,
                read_only <= index,
            decreases ENTRIES - index,
        {
            let page: u64 = base + index as u64 * PAGE;
            // The null page stays out, so a null dereference faults instead
            // of reading or writing real memory.
            if page != 0 {
                let runs = runs_in_any(ranges, page, page + PAGE);
                // A page that is code and nothing but code is never written,
                // so it is mapped read-only: the other half of write xor
                // execute. One that only overlaps a code range holds data too
                // and stays writable.
                let only = covered_by_code(ranges, page, page + PAGE) && !written_by_any(
                    ranges,
                    page,
                    page + PAGE,
                );
                if runs {
                    executable += 1;
                }
                if only {
                    read_only += 1;
                }
                let mut flags: u64 = PRESENT;
                if !only {
                    flags = flags | WRITABLE;
                }
                if !runs {
                    flags = flags | NO_EXECUTE;
                }
                self.access.write(table, index, page | flags);
            }
            index += 1;
            assert(self.machine(frames) =~= start.fill(
                table,
                first,
                index as int,
                identity_entries(ranges@, base as int),
            ));
        }
        (executable, read_only)
    }

    /// The directory of the GiB at `slot`, in a table that `new_table` made.
    fn fill_identity_directory<F: FrameAllocator>(
        &mut self,
        frames: &mut F,
        directory: u64,
        slot: usize,
        ranges: &[MappedRange],
        stats: &mut IdentityMapStats,
    ) -> (r: Result<(), TableError>)
        requires
            old(self).machine(old(frames)).in_window(),
            slot < 512,
            old(stats).tables <= 513 * slot + 2,
            old(stats).executable_pages <= 0x4_0000 * slot,
            old(stats).read_only_pages <= 0x4_0000 * slot,
        ensures
            final(self).machine(final(frames)).in_window(),
            final(stats).limit == old(stats).limit,
            match old(self).machine(old(frames)).identity_directory(
                directory,
                slot as int,
                0,
                ranges@,
                tally_of(*old(stats)),
            ) {
                (after, Ok(tally)) => r is Ok && final(self).machine(final(frames)) == after
                    && tally_of(*final(stats)) == tally && final(stats).tables <= 513 * slot
                    + 514 && final(stats).executable_pages <= 0x4_0000 * (slot + 1)
                    && final(stats).read_only_pages <= 0x4_0000 * (slot + 1),
                (after, Err(error)) => r == Err::<(), TableError>(error) && final(self).machine(
                    final(frames),
                ) == after,
            },
    {
        let ghost start = self.machine(frames);
        let mut entry: usize = 0;
        while entry < ENTRIES
            invariant
                entry <= ENTRIES,
                slot < 512,
                start == old(self).machine(old(frames)),
                self.machine(frames).in_window(),
                stats.limit == old(stats).limit,
                stats.tables <= 513 * slot + 2 + entry,
                stats.executable_pages <= 0x4_0000 * slot + 512 * entry,
                stats.read_only_pages <= 0x4_0000 * slot + 512 * entry,
                start.identity_directory(
                    directory,
                    slot as int,
                    0,
                    ranges@,
                    tally_of(*old(stats)),
                ) == self.machine(frames).identity_directory(
                    directory,
                    slot as int,
                    entry as int,
                    ranges@,
                    tally_of(*stats),
                ),
            decreases ENTRIES - entry,
        {
            let ghost before = self.machine(frames);
            let base: u64 = slot as u64 * GIB + entry as u64 * LARGE_PAGE;
            assert(base == large_base(slot as int, entry as int));
            // A 2 MiB page will do wherever the whole range is data. The
            // first 2 MiB (the null page has to be left out) and anything
            // holding code need 4 KiB granularity.
            if base == 0 || meets_any(ranges, base, base + LARGE_PAGE) {
                let table: u64 = match self.new_table(frames) {
                    Ok(table) => table,
                    Err(error) => {
                        return Err(error);
                    },
                };
                let ghost made = self.machine(frames);
                proof {
                    page_counts_are_bounded(ranges@, base as int, 512);
                }
                let (executable, read_only) = self.fill_identity_table(frames, table, base, ranges);
                let ghost filled = self.machine(frames);
                self.access.write(directory, entry, table | PRESENT | WRITABLE);
                assert(self.machine(frames) =~= filled.put(
                    directory,
                    entry as int,
                    link_entry(table),
                ));
                stats.tables = stats.tables + 1;
                stats.executable_pages = stats.executable_pages + executable;
                stats.read_only_pages = stats.read_only_pages + read_only;
            } else {
                self.access.write(
                    directory,
                    entry,
                    base | PRESENT | WRITABLE | HUGE | NO_EXECUTE,
                );
                assert(self.machine(frames) =~= before.put(
                    directory,
                    entry as int,
                    large_entry(base),
                ));
            }
            entry += 1;
        }
        Ok(())
    }

    /// Installs `entry` as the whole lower half, at the end of building it.
    fn install_lower_half<F: FrameAllocator>(&mut self, frames: &F, entry: u64)
        ensures
            final(self).machine(frames) == old(self).machine(frames).install_lower_half(entry),
    {
        let ghost start = self.machine(frames);
        self.access.write(self.root, 0, entry);
        let ghost linked = start.put(start.root, 0, entry);
        let mut slot: usize = 1;
        while slot < KERNEL_SLOT
            invariant
                1 <= slot <= KERNEL_SLOT,
                self.root == start.root,
                self.machine(frames) == linked.fill(start.root, 1, slot as int, nothing()),
            decreases KERNEL_SLOT - slot,
        {
            self.access.write(self.root, slot, 0);
            slot += 1;
            assert(self.machine(frames) =~= linked.fill(start.root, 1, slot as int, nothing()));
        }
        self.access.flush_all();
    }

    /// Builds an identity map for `0..limit` in fresh frames and installs it
    /// as the whole lower half, leaving the null page unmapped. The tables
    /// that were there before are simply dropped: nothing points at them any
    /// more.
    pub fn rebuild_identity<F: FrameAllocator>(
        &mut self,
        frames: &mut F,
        limit: u64,
        executable: &[MappedRange],
    ) -> (r: Result<IdentityMapStats, PagingError>)
        requires
            old(self).machine(old(frames)).in_window(),
        ensures
            (final(self).machine(final(frames)), r) == old(self).machine(
                old(frames),
            ).rebuild_identity(limit, executable@),
    {
        if limit == 0 || !limit.is_multiple_of(GIB) || limit > 512 * GIB {
            return Err(PagingError::BadIdentityLimit);
        }
        // Marking a range executable it cannot reach would build a map
        // without the code the caller says it still runs.
        if !every_range_below(executable, limit) {
            return Err(PagingError::RequiredRangeOutsideIdentityMap);
        }
        // Everything is built first and only linked into the root at the
        // end, so the map in use never loses a translation it is running on.
        let pdpt: u64 = match self.new_table(frames) {
            Ok(pdpt) => pdpt,
            Err(error) => {
                return Err(to_paging_error(error));
            },
        };
        let ghost start = self.machine(frames);
        let mut stats = IdentityMapStats {
            tables: 1,
            limit,
            executable_pages: 0,
            read_only_pages: 0,
        };
        let slots: usize = (limit / GIB) as usize;
        let ghost first = tally_of(stats);
        let mut slot: usize = 0;
        while slot < slots
            invariant
                slot <= slots <= 512,
                good_limit(limit),
                all_below(executable@, limit),
                slots == limit as int / GIB as int,
                old(self).machine(old(frames)).new_table() == (start, Ok::<u64, TableError>(pdpt)),
                first == (Tally { tables: 1, executable: 0, read_only: 0 }),
                self.machine(frames).in_window(),
                stats.limit == limit,
                stats.tables <= 513 * slot + 1,
                stats.executable_pages <= 0x4_0000 * slot,
                stats.read_only_pages <= 0x4_0000 * slot,
                start.identity_slots(pdpt, 0, slots as int, executable@, first) == self.machine(
                    frames,
                ).identity_slots(pdpt, slot as int, slots as int, executable@, tally_of(stats)),
            decreases slots - slot,
        {
            let directory: u64 = match self.new_table(frames) {
                Ok(directory) => directory,
                Err(error) => {
                    return Err(to_paging_error(error));
                },
            };
            stats.tables = stats.tables + 1;
            match self.fill_identity_directory(frames, directory, slot, executable, &mut stats) {
                Ok(()) => {},
                Err(error) => {
                    return Err(to_paging_error(error));
                },
            }
            let ghost filled = self.machine(frames);
            self.access.write(pdpt, slot, directory | PRESENT | WRITABLE);
            assert(self.machine(frames) =~= filled.put(pdpt, slot as int, link_entry(directory)));
            slot += 1;
        }
        self.install_lower_half(frames, pdpt | PRESENT | WRITABLE);
        Ok(stats)
    }

    /// Maps `[0, limit)` of physical memory at `base`, writable and
    /// no-execute, in 2 MiB pages. Nothing is executed through this window
    /// and nothing but the kernel can reach it.
    pub fn map_physical_window<F: FrameAllocator>(
        &mut self,
        frames: &mut F,
        base: u64,
        limit: u64,
    ) -> (r: Result<u64, PagingError>)
        requires
            old(self).machine(old(frames)).in_window(),
        ensures
            (final(self).machine(final(frames)), r) == old(self).machine(
                old(frames),
            ).map_physical_window(base, limit),
    {
        if limit == 0 || !limit.is_multiple_of(GIB) || limit > 512 * GIB {
            return Err(PagingError::BadIdentityLimit);
        }
        if base < KERNEL_SPACE_BASE || !base.is_multiple_of(512 * GIB) {
            return Err(PagingError::WindowOutsideKernelSpace);
        }
        // Asked before a single frame is spent, so a window that cannot be
        // placed costs nothing.
        let root_slot: usize = table_indices(base)[0];
        assert(root_slot == index_at(base as int, 0));
        if self.access.read(self.root, root_slot) & PRESENT != 0 {
            return Err(PagingError::WindowSlotTaken);
        }
        // Built whole and linked at the end, like the identity map: the
        // walker never sees a half-built window.
        let pdpt: u64 = match self.new_table(frames) {
            Ok(pdpt) => pdpt,
            Err(error) => {
                return Err(to_paging_error(error));
            },
        };
        let ghost start = self.machine(frames);
        let mut tables: u64 = 1;
        let slots: usize = (limit / GIB) as usize;
        let mut slot: usize = 0;
        while slot < slots
            invariant
                slot <= slots <= 512,
                good_limit(limit),
                slots == limit as int / GIB as int,
                base >= KERNEL_SPACE_BASE,
                base as int % (512 * GIB) == 0,
                !is_present(old(self).access.memory()(old(self).root, index_at(base as int, 0))),
                old(self).machine(old(frames)).new_table() == (start, Ok::<u64, TableError>(pdpt)),
                self.machine(frames).in_window(),
                self.root == start.root,
                tables == slot + 1,
                start.window_slots(pdpt, 0, slots as int, 1) == self.machine(frames).window_slots(
                    pdpt,
                    slot as int,
                    slots as int,
                    tables as int,
                ),
            decreases slots - slot,
        {
            let directory: u64 = match self.new_table(frames) {
                Ok(directory) => directory,
                Err(error) => {
                    return Err(to_paging_error(error));
                },
            };
            tables += 1;
            let ghost made = self.machine(frames);
            let mut entry: usize = 0;
            while entry < ENTRIES
                invariant
                    entry <= ENTRIES,
                    slot < 512,
                    self.machine(frames) == made.fill(
                        directory,
                        0,
                        entry as int,
                        window_entries(slot as int),
                    ),
                decreases ENTRIES - entry,
            {
                let physical: u64 = slot as u64 * GIB + entry as u64 * LARGE_PAGE;
                self.access.write(
                    directory,
                    entry,
                    physical | PRESENT | WRITABLE | HUGE | NO_EXECUTE,
                );
                assert(physical == large_base(slot as int, entry as int));
                entry += 1;
                assert(self.machine(frames) =~= made.fill(
                    directory,
                    0,
                    entry as int,
                    window_entries(slot as int),
                ));
            }
            let ghost filled = self.machine(frames);
            self.access.write(pdpt, slot, directory | PRESENT | WRITABLE);
            assert(self.machine(frames) =~= filled.put(pdpt, slot as int, link_entry(directory)));
            slot += 1;
        }
        let ghost built = self.machine(frames);
        self.access.write(self.root, root_slot, pdpt | PRESENT | WRITABLE);
        self.access.flush_all();
        assert(self.machine(frames) =~= built.put(
            built.root,
            root_slot as int,
            link_entry(pdpt),
        ).flush(Flush::All));
        Ok(tables)
    }

    /// Keeps one page under the new PDPT, one level down from the root.
    /// Answers how many tables that took.
    fn keep_page<F: FrameAllocator>(
        &mut self,
        frames: &mut F,
        pdpt: u64,
        page: u64,
        leaf: u64,
        tables: u64,
    ) -> (r: Result<u64, TableError>)
        requires
            old(self).machine(old(frames)).in_window(),
            tables + 2 <= u64::MAX,
        ensures
            final(self).machine(final(frames)).in_window(),
            match old(self).machine(old(frames)).keep_from(pdpt, 1, page, leaf, tables as int) {
                (after, Ok(count)) => r is Ok && r->Ok_0 == count && count <= tables + 2
                    && final(self).machine(final(frames)) == after,
                (after, Err(error)) => r == Err::<u64, TableError>(error) && final(self).machine(
                    final(frames),
                ) == after,
            },
    {
        let ghost start = self.machine(frames);
        let indices = table_indices(page);
        let mut table: u64 = pdpt;
        let mut count: u64 = tables;
        let mut level: usize = 1;
        while level < 3
            invariant
                1 <= level <= 3,
                count <= tables + (level - 1),
                tables + 2 <= u64::MAX,
                start == old(self).machine(old(frames)),
                forall|l: int| 0 <= l < 4 ==> indices[l] == #[trigger] index_at(page as int, l),
                forall|l: int| 0 <= l < 4 ==> #[trigger] indices[l] < ENTRIES,
                self.machine(frames).in_window(),
                start.keep_from(pdpt, 1, page, leaf, tables as int) == self.machine(
                    frames,
                ).keep_from(table, level as nat, page, leaf, count as int),
            decreases 3 - level,
        {
            let index: usize = indices[level];
            assert(index == index_at(page as int, level as int));
            let entry: u64 = self.access.read(table, index);
            if entry & PRESENT == 0 {
                let new: u64 = match self.new_table(frames) {
                    Ok(new) => new,
                    Err(error) => {
                        return Err(error);
                    },
                };
                let ghost made = self.machine(frames);
                count += 1;
                self.access.write(table, index, new | PRESENT | WRITABLE);
                assert(self.machine(frames) =~= made.put(table, index as int, link_entry(new)));
                table = new;
            } else {
                table = entry & ADDRESS_MASK;
            }
            level += 1;
        }
        let ghost before = self.machine(frames);
        assert(indices[3] == index_at(page as int, 3));
        self.access.write(table, indices[3], leaf);
        assert(self.machine(frames) =~= before.put(table, index_at(page as int, 3), leaf));
        Ok(count)
    }

    /// Leaves the lower half with `keep` mapped and nothing else.
    ///
    /// Everything the kernel needs is in kernel space by now; what is left
    /// down here is code that belongs to somebody else (the firmware's
    /// runtime services), and it has to stay reachable at the address it was
    /// compiled for.
    pub fn keep_only<F: FrameAllocator>(&mut self, frames: &mut F, keep: &[MappedRange]) -> (r:
        Result<u64, PagingError>)
        requires
            old(self).machine(old(frames)).in_window(),
            all_below(keep@, (512 * GIB) as u64) ==> 1 + 2 * kept_pages(keep@, keep@.len() as int)
                <= u64::MAX,
        ensures
            (final(self).machine(final(frames)), r) == old(self).machine(old(frames)).keep_only(
                keep@,
            ),
    {
        if !every_range_below(keep, 512 * GIB) {
            return Err(PagingError::RequiredRangeOutsideIdentityMap);
        }
        // Built whole while the old map is still usable (every table frame
        // has to be reachable to be zeroed) and linked at the end. The other
        // way round, emptying the lower half first, takes away the very
        // addresses the next table would be written through.
        let pdpt: u64 = match self.new_table(frames) {
            Ok(pdpt) => pdpt,
            Err(error) => {
                return Err(to_paging_error(error));
            },
        };
        let ghost start = self.machine(frames);
        let mut tables: u64 = 1;
        let mut k: usize = 0;
        while k < keep.len()
            invariant
                k <= keep@.len(),
                all_below(keep@, (512 * GIB) as u64),
                1 + 2 * kept_pages(keep@, keep@.len() as int) <= u64::MAX,
                old(self).machine(old(frames)).new_table() == (start, Ok::<u64, TableError>(pdpt)),
                self.machine(frames).in_window(),
                tables <= 1 + 2 * kept_pages(keep@, k as int),
                start.keep_ranges(pdpt, keep@, 0, 1) == self.machine(frames).keep_ranges(
                    pdpt,
                    keep@,
                    k as int,
                    tables as int,
                ),
            decreases keep.len() - k,
        {
            let code = keep[k];
            assert(code == keep@[k as int] && code.range.len != 0);
            proof {
                kept_pages_grow(keep@, k + 1, keep@.len() as int);
            }
            let ghost range_start = self.machine(frames);
            let ghost range_tables = tables as int;
            let first: u64 = code.range.start.as_u64() / PAGE * PAGE;
            let last: u64 = (code.range.end().as_u64() - 1) / PAGE * PAGE;
            assert(first == first_page(code) && last == last_page(code));
            let mut page: u64 = first;
            while page <= last
                invariant
                    k < keep@.len(),
                    code == keep@[k as int],
                    all_below(keep@, (512 * GIB) as u64),
                    1 + 2 * kept_pages(keep@, k + 1) <= u64::MAX,
                    old(self).machine(old(frames)).new_table() == (
                        start,
                        Ok::<u64, TableError>(pdpt),
                    ),
                    start.keep_ranges(pdpt, keep@, 0, 1) == range_start.keep_ranges(
                        pdpt,
                        keep@,
                        k as int,
                        range_tables,
                    ),
                    first == first_page(code),
                    last == last_page(code),
                    first <= page <= last + PAGE,
                    first as int % PAGE as int == 0,
                    last as int % PAGE as int == 0,
                    page as int % PAGE as int == 0,
                    last < 512 * GIB,
                    self.machine(frames).in_window(),
                    tables <= 1 + 2 * (kept_pages(keep@, k as int) + (page - first) / PAGE as int),
                    range_start.keep_range(pdpt, code, first as int, range_tables) == self.machine(
                        frames,
                    ).keep_range(pdpt, code, page as int, tables as int),
                decreases last + PAGE - page,
            {
                let mut leaf: u64 = page | PRESENT | cache_bits(code.cache);
                if code.writable {
                    leaf = leaf | WRITABLE;
                }
                if !code.executable {
                    leaf = leaf | NO_EXECUTE;
                }
                assert(leaf == kept_entry(code, page));
                tables = match self.keep_page(frames, pdpt, page, leaf, tables) {
                    Ok(tables) => tables,
                    Err(error) => {
                        return Err(to_paging_error(error));
                    },
                };
                page += PAGE;
            }
            k += 1;
        }
        // The lower half is user space from here on. What is actually
        // reachable from ring 3 is decided by the leaves, and the firmware's
        // have no user bit.
        self.install_lower_half(frames, pdpt | PRESENT | WRITABLE | USER);
        Ok(tables)
    }

    /// Page tables whose root is a fresh copy of `old_root`: the same
    /// translations, with the lower-level tables shared. Only the new root is
    /// written.
    pub fn adopt<F: FrameAllocator>(access: A, old_root: u64, frames: &mut F) -> (r: Result<
        Self,
        PagingError,
    >)
        requires
            offers_fit(old(frames).offers(), access.base()),
        ensures
            match (PageTables { root: old_root, access }).machine(old(frames)).adopt() {
                (after, Ok(())) => r is Ok && r->Ok_0.machine(final(frames)) == after,
                (after, Err(error)) => r is Err && r->Err_0 == error && final(frames).offers()
                    == after.offers && final(frames).taken() == after.taken,
            },
    {
        let mut tables = PageTables { root: old_root, access };
        let ghost start = tables.machine(frames);
        let mut slot: usize = KERNEL_SLOT;
        while slot < ENTRIES
            invariant
                KERNEL_SLOT <= slot <= ENTRIES,
                start == (PageTables { root: old_root, access }).machine(old(frames)),
                tables.machine(frames) == start,
                start.root == old_root,
                forall|s: int|
                    KERNEL_SLOT <= s < slot ==> !is_present(#[trigger] (start.mem)(old_root, s)),
            decreases ENTRIES - slot,
        {
            if tables.access.read(old_root, slot) & PRESENT != 0 {
                assert(is_present((start.mem)(old_root, slot as int)));
                return Err(PagingError::KernelSpaceInUse);
            }
            slot += 1;
        }
        assert(!kernel_space_in_use(start.mem, old_root));
        let new_root: u64 = match tables.new_table(frames) {
            Ok(new_root) => new_root,
            Err(error) => {
                return Err(to_paging_error(error));
            },
        };
        let ghost made = tables.machine(frames);
        let mut slot: usize = 0;
        while slot < ENTRIES
            invariant
                slot <= ENTRIES,
                tables.machine(frames) == made.fill(
                    new_root,
                    0,
                    slot as int,
                    entries_of(made.mem, old_root),
                ),
            decreases ENTRIES - slot,
        {
            let entry: u64 = tables.access.read(old_root, slot);
            tables.access.write(new_root, slot, entry);
            slot += 1;
            assert(tables.machine(frames) =~= made.fill(
                new_root,
                0,
                slot as int,
                entries_of(made.mem, old_root),
            ));
        }
        tables.root = new_root;
        Ok(tables)
    }

    /// A zeroed page table in a fresh frame. A frame that cannot be written
    /// through the window is refused (and not returned to `frames`, which
    /// has no way back).
    fn new_table<F: FrameAllocator>(&mut self, frames: &mut F) -> (r: Result<u64, TableError>)
        requires
            old(self).machine(old(frames)).in_window(),
        ensures
            (final(self).machine(final(frames)), r) == old(self).machine(old(frames)).new_table(),
            final(self).machine(final(frames)).in_window(),
    {
        let ghost start = self.machine(frames);
        let offer = frames.allocate_frame();
        let frame: u64 = match offer {
            Some(frame) => frame.start_address().as_u64(),
            None => {
                return Err(TableError::OutOfFrames);
            },
        };
        match self.translate(self.access.window() + frame) {
            Some(t) => {
                if t.phys != frame || !t.writable {
                    return Err(TableError::NotWritable);
                }
            },
            None => {
                return Err(TableError::NotWritable);
            },
        }
        let mut index: usize = 0;
        while index < ENTRIES
            invariant
                index <= ENTRIES,
                self.machine(frames) == start.take().fill(frame, 0, index as int, nothing()),
            decreases ENTRIES - index,
        {
            self.access.write(frame, index, 0);
            index += 1;
            assert(self.machine(frames) =~= start.take().fill(
                frame,
                0,
                index as int,
                nothing(),
            ));
        }
        Ok(frame)
    }
}

/// The registers that say how the processor pages.
#[derive(Debug, Clone, Copy, PartialEq, Eq, Structural)]
pub struct PagingRegisters {
    pub cr3: u64,
    pub cr4: u64,
    pub efer: u64,
}

impl PagingRegisters {
    /// The root table in use.
    pub open spec fn root(self) -> u64 {
        target(self.cr3)
    }

    /// What speaks against taking the tables over, if anything: a paging
    /// mode the walker does not know, or an address that it relies on and
    /// that the tables do not map to itself.
    pub open spec fn objection(self, mem: Memory, stack_addr: u64) -> Option<PagingError> {
        if self.cr4 & CR4_LA57 != 0 {
            Some(PagingError::FiveLevelPaging)
        } else if self.cr4 & CR4_PCIDE != 0 {
            Some(PagingError::PcidEnabled)
        } else if self.efer & EFER_NXE == 0 {
            Some(PagingError::NoExecuteDisabled)
        } else if !is_identity(mem, self.root(), self.root()) || !is_identity(
            mem,
            self.root(),
            stack_addr,
        ) {
            Some(PagingError::NotIdentityMapped)
        } else {
            None
        }
    }
}

/// Whether the tables at `root` map `addr` to itself.
pub open spec fn is_identity(mem: Memory, root: u64, addr: u64) -> bool {
    match lookup(mem, root, addr) {
        Some(leaf) => leaf.phys == addr,
        None => false,
    }
}

/// How many bytes from `addr` on are mapped to themselves, writable, by the
/// page that maps `addr`.
pub open spec fn identity_run(mem: Memory, root: u64, addr: u64) -> Option<int> {
    match lookup(mem, root, addr) {
        Some(leaf) => if leaf.writable && leaf.phys == addr {
            Some(leaf.page_size - addr as int % leaf.page_size as int)
        } else {
            None
        },
        None => None,
    }
}

/// The kernel's page tables, once it has taken over the root from the
/// firmware.
pub struct KernelPageTable<A: TableAccess> {
    pub tables: PageTables<A>,
}

impl<A: TableAccess> KernelPageTable<A> {
    /// How many bytes from `frame`'s start are identity-mapped writable by
    /// the page tables that `cr3` names, or `None` if `frame` itself is not.
    /// This is the invariant an identity window rests on, so the kernel
    /// checks it before writing through one.
    ///
    /// The answer runs to the end of the page that maps `frame`, so checking
    /// a whole range costs one walk per 2 MiB or 1 GiB page instead of one
    /// per frame.
    pub fn active_identity_writable_run(access: A, cr3: u64, frame: PhysFrame) -> (r: Option<u64>)
        ensures
            match identity_run(access.memory(), target(cr3), frame.addr()) {
                Some(run) => r is Some && r->Some_0 == run && run > 0,
                None => r is None,
            },
    {
        let tables = PageTables { root: cr3 & ADDRESS_MASK, access };
        let addr: u64 = frame.start_address().as_u64();
        match tables.translate(addr) {
            Some(t) => {
                if t.writable && t.phys == addr {
                    proof {
                        walk_ends_at_a_page(tables.access.memory(), tables.root, 0, addr);
                        offset_bits(addr, 0);
                    }
                    Some(t.page_size - (addr & (t.page_size - 1)))
                } else {
                    None
                }
            },
            None => None,
        }
    }

    /// Checks the paging mode and copies the firmware's root table into a
    /// frame from `frames`. Answers the kernel's tables and the value that
    /// makes CR3 name their root: its cache-control bits are carried over,
    /// and every translation is the same before and after it is loaded.
    ///
    /// The walker reads tables through their physical addresses, so the
    /// identity map must hold where it matters: the root table itself and the
    /// stack that `stack_addr` lies on.
    pub fn take_over<F: FrameAllocator>(
        access: A,
        registers: PagingRegisters,
        stack_addr: u64,
        frames: &mut F,
    ) -> (r: Result<(Self, u64), PagingError>)
        requires
            offers_fit(old(frames).offers(), access.base()),
        ensures
            match registers.objection(access.memory(), stack_addr) {
                Some(error) => r is Err && r->Err_0 == error && *final(frames) == *old(frames),
                None => match (PageTables { root: registers.root(), access }).machine(
                    old(frames),
                ).adopt() {
                    (after, Ok(())) => r is Ok && r->Ok_0.0.tables.machine(final(frames)) == after
                        && r->Ok_0.1 == after.root | (registers.cr3 & CR3_FLAGS),
                    (after, Err(error)) => r is Err && r->Err_0 == error && final(frames).offers()
                        == after.offers && final(frames).taken() == after.taken,
                },
            },
    {
        if registers.cr4 & CR4_LA57 != 0 {
            return Err(PagingError::FiveLevelPaging);
        }
        if registers.cr4 & CR4_PCIDE != 0 {
            return Err(PagingError::PcidEnabled);
        }
        if registers.efer & EFER_NXE == 0 {
            return Err(PagingError::NoExecuteDisabled);
        }
        let firmware = PageTables { root: registers.cr3 & ADDRESS_MASK, access };
        if !firmware.maps_to_itself(firmware.root) || !firmware.maps_to_itself(stack_addr) {
            return Err(PagingError::NotIdentityMapped);
        }
        let tables = match PageTables::adopt(firmware.access, firmware.root, frames) {
            Ok(tables) => tables,
            Err(error) => {
                return Err(error);
            },
        };
        let cr3: u64 = tables.root | (registers.cr3 & CR3_FLAGS);
        Ok((KernelPageTable { tables }, cr3))
    }

    /// Physical address of the kernel's root table (PML4).
    pub fn root(&self) -> (r: u64)
        ensures
            r == self.tables.root,
    {
        self.tables.root
    }

    /// Replaces the firmware's identity map with one built from the kernel's
    /// own frames, covering `0..limit`, leaving the null page unmapped and
    /// every page no-execute except the `executable` ranges. After this the
    /// kernel no longer reads or depends on any page table the firmware
    /// built.
    ///
    /// Everything the kernel runs on or reaches through the identity map must
    /// lie below `limit`, and `executable` must list every range of code the
    /// kernel still runs through this map.
    pub fn rebuild_identity_map<F: FrameAllocator>(
        &mut self,
        frames: &mut F,
        limit: u64,
        executable: &[MappedRange],
    ) -> (r: Result<IdentityMapStats, PagingError>)
        requires
            old(self).tables.machine(old(frames)).in_window(),
        ensures
            (final(self).tables.machine(final(frames)), r) == old(self).tables.machine(
                old(frames),
            ).rebuild_identity(limit, executable@),
    {
        self.tables.rebuild_identity(frames, limit, executable)
    }

    /// Opens the window onto physical memory at `base`, covering
    /// `[0, limit)`. Answers how many page tables it took.
    pub fn map_physical_window<F: FrameAllocator>(
        &mut self,
        frames: &mut F,
        base: VirtAddr,
        limit: u64,
    ) -> (r: Result<u64, PagingError>)
        requires
            old(self).tables.machine(old(frames)).in_window(),
        ensures
            (final(self).tables.machine(final(frames)), r) == old(self).tables.machine(
                old(frames),
            ).map_physical_window(base.0, limit),
    {
        self.tables.map_physical_window(frames, base.as_u64(), limit)
    }

    /// Reaches page tables through the window at `base` from now on, instead
    /// of at their physical addresses.
    ///
    /// The window must already map every page table, and every frame that may
    /// become one, writable at `base + physical address`.
    pub fn use_physical_window(&mut self, base: VirtAddr)
        ensures
            final(self).tables.access.base() == base.0,
            final(self).tables.root == old(self).tables.root,
            final(self).tables.access.memory() == old(self).tables.access.memory(),
            final(self).tables.access.changes() == old(self).tables.access.changes(),
            final(self).tables.access.flushes() == old(self).tables.access.flushes(),
    {
        self.tables.access.set_window(base.as_u64());
    }

    /// Unmaps the lower half except `keep`, which stays where it is.
    ///
    /// Nothing of the kernel's may still live in the lower half. `keep` is
    /// what somebody else's code needs, at the addresses it was compiled for.
    pub fn keep_only_in_lower_half<F: FrameAllocator>(
        &mut self,
        frames: &mut F,
        keep: &[MappedRange],
    ) -> (r: Result<u64, PagingError>)
        requires
            old(self).tables.machine(old(frames)).in_window(),
            all_below(keep@, (512 * GIB) as u64) ==> 1 + 2 * kept_pages(keep@, keep@.len() as int)
                <= u64::MAX,
        ensures
            (final(self).tables.machine(final(frames)), r) == old(self).tables.machine(
                old(frames),
            ).keep_only(keep@),
    {
        self.tables.keep_only(frames, keep)
    }
}

impl<A: TableAccess> PageMapper for KernelPageTable<A> {
    open spec fn mapping_of(&self, addr: u64) -> Option<u64> {
        match self.tables.lookup(addr) {
            Some(leaf) => Some(leaf.phys as u64),
            None => None,
        }
    }

    open spec fn bears(
        &self,
        page: u64,
        frame: u64,
        offers: spec_fn(nat) -> Option<PhysFrame>,
        taken: nat,
    ) -> bool {
        let m = Machine {
            root: self.tables.root,
            window: self.tables.access.base(),
            mem: self.tables.access.memory(),
            changes: self.tables.access.changes(),
            flushes: self.tables.access.flushes(),
            offers,
            taken,
        };
        &&& m.sound()
        &&& m.keeps_walk(page)
        &&& canonical(page)
        &&& is_frame(frame)
    }

    open spec fn can_use(&self, offers: spec_fn(nat) -> Option<PhysFrame>) -> bool {
        offers_fit(offers, self.tables.access.base())
    }

    fn map<F: FrameAllocator>(
        &mut self,
        page: Page,
        frame: PhysFrame,
        flags: PageFlags,
        frames: &mut F,
    ) -> (r: Result<(), MapError>)
        ensures
            (final(self).tables.machine(final(frames)), r) == old(self).tables.machine(
                old(frames),
            ).map(page.addr(), frame.addr(), flags),
    {
        let ghost m = self.tables.machine(frames);
        let r = self.tables.map(page.start_address().as_u64(), frame, flags, frames);
        proof {
            let (at, to) = (page.addr(), frame.addr());
            if flags.user == (at < KERNEL_SPACE_BASE) {
                mapping_changes_no_answer(m, m.root, 0, at, to, flags, false);
            }
            if m.sound() && m.keeps_walk(at) && canonical(at) && is_frame(to) {
                assert forall|addr: u64|
                    addr as int / PAGE_SIZE as int == at as int / PAGE_SIZE as int implies (
                #[trigger] self.mapping_of(addr)) == if r is Ok {
                    Some((to + addr % PAGE_SIZE) as u64)
                } else {
                    old(self).mapping_of(addr)
                } by {
                    let after = m.map(at, to, flags).0;
                    assert(after == self.tables.machine(frames));
                    assert(self.tables.lookup(addr) == lookup(after.mem, m.root, addr));
                    assert(old(self).tables.lookup(addr) == lookup(m.mem, m.root, addr));
                    if r is Ok {
                        a_mapped_page_leads_to_its_frame(m, at, to, flags, addr);
                    } else {
                        a_failed_mapping_leaves_the_page_as_it_was(m, at, to, flags, addr);
                    }
                }
            }
        }
        r
    }

    fn unmap(&mut self, page: Page) -> (r: Result<PhysFrame, UnmapError>)
        ensures
            unmapped(old(self).tables, final(self).tables, page.addr(), r),
    {
        let ghost mem = self.tables.access.memory();
        let ghost root = self.tables.root;
        let r = self.tables.unmap(page.start_address().as_u64());
        proof {
            let at = page.addr();
            if r is Ok {
                unmapping_finds_what_the_walk_finds(mem, root, at);
                assert forall|addr: u64|
                    addr as int / PAGE_SIZE as int == at as int / PAGE_SIZE as int implies #[trigger] self.mapping_of(
                addr) is None by {
                    an_unmapped_page_leads_nowhere(mem, root, at, addr);
                }
            }
        }
        r
    }

    fn translate(&self, addr: VirtAddr) -> (r: Option<PhysAddr>)
        ensures
            r is Some <==> lookup(
                self.tables.access.memory(),
                self.tables.root,
                addr.0,
            ) is Some,
            r matches Some(phys) ==> phys.0 == lookup(
                self.tables.access.memory(),
                self.tables.root,
                addr.0,
            )->Some_0.phys,
    {
        match self.tables.translate(addr.as_u64()) {
            Some(t) => Some(PhysAddr::new(t.phys)),
            None => None,
        }
    }
}

} // verus!
