//! What the mapper builds when it replaces a whole half of the address
//! space: the identity map, the window onto physical memory, and the ranges
//! that stay in the lower half.

use super::model::{
    index_at, is_present, leaf_entry, nothing, target, Flush, Machine, Memory, TableError, GIB, HUGE,
    KERNEL_SLOT, KERNEL_SPACE_BASE, LARGE_PAGE, NO_EXECUTE, PAGE, PRESENT, USER, WRITABLE,
};
use super::{IdentityMapStats, PagingError};
use crate::hal::paging::MappedRange;
use vstd::prelude::*;

verus! {

/// Whether any of `ranges` reaches into `[start, end)`.
pub open spec fn any_meets(ranges: Seq<MappedRange>, start: int, end: int) -> bool {
    exists|k: int| 0 <= k < ranges.len() && (#[trigger] ranges[k]).range.meets(start, end)
}

/// Whether code runs in `[start, end)`.
pub open spec fn any_runs(ranges: Seq<MappedRange>, start: int, end: int) -> bool {
    exists|k: int|
        0 <= k < ranges.len() && (#[trigger] ranges[k]).executable && ranges[k].range.meets(
            start,
            end,
        )
}

/// Whether some range that is written reaches into `[start, end)`.
pub open spec fn any_writes(ranges: Seq<MappedRange>, start: int, end: int) -> bool {
    exists|k: int|
        0 <= k < ranges.len() && (#[trigger] ranges[k]).writable && ranges[k].range.meets(
            start,
            end,
        )
}

/// Whether one range of code holds all of `[start, end)`.
pub open spec fn code_covers(ranges: Seq<MappedRange>, start: int, end: int) -> bool {
    exists|k: int|
        0 <= k < ranges.len() && (#[trigger] ranges[k]).executable && ranges[k].range.holds(start)
            && ranges[k].range.limit() >= end
}

/// Whether the page at `page` holds code.
pub open spec fn runs_code(ranges: Seq<MappedRange>, page: int) -> bool {
    any_runs(ranges, page, page + PAGE)
}

/// Whether the page at `page` is code and nothing but code, which is never
/// written: one range of code covers it and no range writes it.
pub open spec fn only_code(ranges: Seq<MappedRange>, page: int) -> bool {
    code_covers(ranges, page, page + PAGE) && !any_writes(ranges, page, page + PAGE)
}

/// Whether the 2 MiB at `base` need 4 KiB pages: the first ones, where the
/// null page has to be left out, and any that a range reaches into.
pub open spec fn fine_grained(ranges: Seq<MappedRange>, base: int) -> bool {
    base == 0 || any_meets(ranges, base, base + LARGE_PAGE)
}

/// The entry of a 4 KiB page of the identity map. The null page stays out,
/// so a null dereference faults instead of reaching real memory.
pub open spec fn identity_entry(ranges: Seq<MappedRange>, page: int) -> u64 {
    if page == 0 {
        0
    } else {
        let flags = if only_code(ranges, page) {
            PRESENT
        } else {
            PRESENT | WRITABLE
        };
        let flags = if runs_code(ranges, page) {
            flags
        } else {
            flags | NO_EXECUTE
        };
        (page as u64) | flags
    }
}

/// Where the pages of the 2 MiB at `base` start: after the null page, for the
/// first ones.
pub open spec fn first_index(base: int) -> int {
    if base == 0 {
        1
    } else {
        0
    }
}

/// The last-level table of the 2 MiB at `base`.
pub open spec fn identity_entries(ranges: Seq<MappedRange>, base: int) -> spec_fn(int) -> u64 {
    |i: int| identity_entry(ranges, base + i * PAGE)
}

/// The entry of a 2 MiB page of plain data.
pub open spec fn large_entry(base: u64) -> u64 {
    base | PRESENT | WRITABLE | HUGE | NO_EXECUTE
}

/// The entry that links one table of the map to the next.
pub open spec fn link_entry(table: u64) -> u64 {
    table | PRESENT | WRITABLE
}

/// What the identity map took and what it left executable.
pub struct Tally {
    pub tables: int,
    pub executable: int,
    pub read_only: int,
}

/// How many of the first `n` pages from `base` hold code.
pub open spec fn code_pages(ranges: Seq<MappedRange>, base: int, n: int) -> int
    decreases n,
{
    if n <= 0 {
        0
    } else {
        let page = base + (n - 1) * PAGE;
        code_pages(ranges, base, n - 1) + if page != 0 && runs_code(ranges, page) {
            1int
        } else {
            0
        }
    }
}

/// How many of the first `n` pages from `base` are mapped read-only.
pub open spec fn read_only_pages(ranges: Seq<MappedRange>, base: int, n: int) -> int
    decreases n,
{
    if n <= 0 {
        0
    } else {
        let page = base + (n - 1) * PAGE;
        read_only_pages(ranges, base, n - 1) + if page != 0 && only_code(ranges, page) {
            1int
        } else {
            0
        }
    }
}

/// The address that an entry of the directory of a GiB stands for.
pub open spec fn large_base(slot: int, entry: int) -> int {
    slot * GIB + entry * LARGE_PAGE
}

pub open spec fn paging_error(error: TableError) -> PagingError {
    match error {
        TableError::OutOfFrames => PagingError::OutOfFrames,
        TableError::NotWritable => PagingError::TableFrameNotWritable,
    }
}

/// A limit that the identity map and the window accept.
pub open spec fn good_limit(limit: u64) -> bool {
    limit != 0 && limit % GIB == 0 && limit <= 512 * GIB
}

/// Whether every range has something in it and ends at or below `limit`.
pub open spec fn all_below(ranges: Seq<MappedRange>, limit: u64) -> bool {
    forall|k: int|
        0 <= k < ranges.len() ==> (#[trigger] ranges[k]).range.len != 0
            && ranges[k].range.start.0 + ranges[k].range.len <= limit
}

impl Machine {
    /// The directory of one GiB of the identity map, from `entry` on.
    pub open spec fn identity_directory(
        self,
        directory: u64,
        slot: int,
        entry: int,
        ranges: Seq<MappedRange>,
        tally: Tally,
    ) -> (Machine, Result<Tally, TableError>)
        decreases 512 - entry,
    {
        let base = large_base(slot, entry);
        if entry >= 512 {
            (self, Ok(tally))
        } else if !fine_grained(ranges, base) {
            self.put(directory, entry, large_entry(base as u64)).identity_directory(
                directory,
                slot,
                entry + 1,
                ranges,
                tally,
            )
        } else {
            match self.new_table() {
                (after, Err(error)) => (after, Err(error)),
                (after, Ok(table)) => after.fill(
                    table,
                    first_index(base),
                    512,
                    identity_entries(ranges, base),
                ).put(directory, entry, link_entry(table)).identity_directory(
                    directory,
                    slot,
                    entry + 1,
                    ranges,
                    Tally {
                        tables: tally.tables + 1,
                        executable: tally.executable + code_pages(ranges, base, 512),
                        read_only: tally.read_only + read_only_pages(ranges, base, 512),
                    },
                ),
            }
        }
    }

    /// The GiBs `slot..slots` of the identity map.
    pub open spec fn identity_slots(
        self,
        pdpt: u64,
        slot: int,
        slots: int,
        ranges: Seq<MappedRange>,
        tally: Tally,
    ) -> (Machine, Result<Tally, TableError>)
        decreases slots - slot,
    {
        if slot >= slots {
            (self, Ok(tally))
        } else {
            match self.new_table() {
                (after, Err(error)) => (after, Err(error)),
                (after, Ok(directory)) => match after.identity_directory(
                    directory,
                    slot,
                    0,
                    ranges,
                    Tally { tables: tally.tables + 1, ..tally },
                ) {
                    (after, Err(error)) => (after, Err(error)),
                    (after, Ok(tally)) => after.put(
                        pdpt,
                        slot,
                        link_entry(directory),
                    ).identity_slots(pdpt, slot + 1, slots, ranges, tally),
                },
            }
        }
    }

    /// Installs `entry` as the whole lower half. Whatever was there before
    /// is dropped.
    pub open spec fn install_lower_half(self, entry: u64) -> Machine {
        self.put(self.root, 0, entry).fill(self.root, 1, KERNEL_SLOT as int, nothing()).flush(
            Flush::All,
        )
    }

    /// An identity map for `0..limit` as the whole lower half. Everything is
    /// built first and only linked into the root at the end, so the map in
    /// use never loses a translation it is running on.
    pub open spec fn rebuild_identity(self, limit: u64, ranges: Seq<MappedRange>) -> (
        Machine,
        Result<IdentityMapStats, PagingError>,
    ) {
        if !good_limit(limit) {
            (self, Err(PagingError::BadIdentityLimit))
        } else if !all_below(ranges, limit) {
            (self, Err(PagingError::RequiredRangeOutsideIdentityMap))
        } else {
            match self.new_table() {
                (after, Err(error)) => (after, Err(paging_error(error))),
                (after, Ok(pdpt)) => match after.identity_slots(
                    pdpt,
                    0,
                    limit as int / GIB as int,
                    ranges,
                    Tally { tables: 1, executable: 0, read_only: 0 },
                ) {
                    (after, Err(error)) => (after, Err(paging_error(error))),
                    (after, Ok(tally)) => (
                        after.install_lower_half(link_entry(pdpt)),
                        Ok(
                            IdentityMapStats {
                                tables: tally.tables as u64,
                                limit,
                                executable_pages: tally.executable as u64,
                                read_only_pages: tally.read_only as u64,
                            },
                        ),
                    ),
                },
            }
        }
    }
}

/// The directory of one GiB of the window: 2 MiB pages of plain data.
pub open spec fn window_entries(slot: int) -> spec_fn(int) -> u64 {
    |i: int| large_entry(large_base(slot, i) as u64)
}

/// The entries of a table as they are.
pub open spec fn entries_of(mem: Memory, table: u64) -> spec_fn(int) -> u64 {
    |i: int| mem(table, i)
}

/// Whether the root maps anything in kernel space.
pub open spec fn kernel_space_in_use(mem: Memory, root: u64) -> bool {
    exists|slot: int| KERNEL_SLOT <= slot < 512 && is_present(#[trigger] mem(root, slot))
}

/// Where a range that stays mapped has its first page.
pub open spec fn first_page(kept: MappedRange) -> int {
    kept.range.start.0 - kept.range.start.0 as int % PAGE as int
}

/// Where a range that stays mapped has its last page.
pub open spec fn last_page(kept: MappedRange) -> int {
    kept.range.limit() - 1 - (kept.range.limit() - 1) % PAGE as int
}

/// How many pages the first `n` ranges have, a page counted once for each
/// range that reaches into it.
pub open spec fn kept_pages(ranges: Seq<MappedRange>, n: int) -> int
    decreases n,
{
    if n <= 0 {
        0
    } else {
        kept_pages(ranges, n - 1) + (last_page(ranges[n - 1]) - first_page(ranges[n - 1]))
            / PAGE as int + 1
    }
}

/// The last-level entry of a page that stays in the lower half.
pub open spec fn kept_entry(kept: MappedRange, page: u64) -> u64 {
    leaf_entry(page, kept.writable, kept.executable, false, kept.cache)
}

impl Machine {
    /// The same translations under a root of their own: a copy of the root
    /// in use, which is left as it is.
    pub open spec fn adopt(self) -> (Machine, Result<(), PagingError>) {
        if kernel_space_in_use(self.mem, self.root) {
            (self, Err(PagingError::KernelSpaceInUse))
        } else {
            match self.new_table() {
                (after, Err(error)) => (after, Err(paging_error(error))),
                (after, Ok(root)) => (
                    Machine {
                        root,
                        ..after.fill(root, 0, 512, entries_of(after.mem, self.root))
                    },
                    Ok(()),
                ),
            }
        }
    }

    /// The GiBs `slot..slots` of the window onto physical memory.
    pub open spec fn window_slots(self, pdpt: u64, slot: int, slots: int, tables: int) -> (
        Machine,
        Result<int, TableError>,
    )
        decreases slots - slot,
    {
        if slot >= slots {
            (self, Ok(tables))
        } else {
            match self.new_table() {
                (after, Err(error)) => (after, Err(error)),
                (after, Ok(directory)) => after.fill(
                    directory,
                    0,
                    512,
                    window_entries(slot),
                ).put(pdpt, slot, link_entry(directory)).window_slots(
                    pdpt,
                    slot + 1,
                    slots,
                    tables + 1,
                ),
            }
        }
    }

    /// A window onto `0..limit` of physical memory at `base`. Whether it can
    /// be placed is asked before a single frame is spent; it is built whole
    /// and linked at the end.
    pub open spec fn map_physical_window(self, base: u64, limit: u64) -> (
        Machine,
        Result<u64, PagingError>,
    ) {
        let slot = index_at(base as int, 0);
        if !good_limit(limit) {
            (self, Err(PagingError::BadIdentityLimit))
        } else if base < KERNEL_SPACE_BASE || base as int % (512 * GIB) != 0 {
            (self, Err(PagingError::WindowOutsideKernelSpace))
        } else if is_present((self.mem)(self.root, slot)) {
            (self, Err(PagingError::WindowSlotTaken))
        } else {
            match self.new_table() {
                (after, Err(error)) => (after, Err(paging_error(error))),
                (after, Ok(pdpt)) => match after.window_slots(
                    pdpt,
                    0,
                    limit as int / GIB as int,
                    1,
                ) {
                    (after, Err(error)) => (after, Err(paging_error(error))),
                    (after, Ok(tables)) => (
                        after.put(after.root, slot, link_entry(pdpt)).flush(Flush::All),
                        Ok(tables as u64),
                    ),
                },
            }
        }
    }

    /// Keeping one page, from the table at `level` down. Missing tables are
    /// made on the way.
    pub open spec fn keep_from(
        self,
        table: u64,
        level: nat,
        page: u64,
        leaf: u64,
        tables: int,
    ) -> (Machine, Result<int, TableError>)
        decreases 3 - level,
    {
        let index = index_at(page as int, level as int);
        let entry = (self.mem)(table, index);
        if level >= 3 {
            (self.put(table, index, leaf), Ok(tables))
        } else if !is_present(entry) {
            match self.new_table() {
                (after, Err(error)) => (after, Err(error)),
                (after, Ok(new)) => after.put(table, index, link_entry(new)).keep_from(
                    new,
                    level + 1,
                    page,
                    leaf,
                    tables + 1,
                ),
            }
        } else {
            self.keep_from(target(entry), level + 1, page, leaf, tables)
        }
    }

    /// Keeping the pages of one range, from `page` on.
    pub open spec fn keep_range(self, pdpt: u64, kept: MappedRange, page: int, tables: int) -> (
        Machine,
        Result<int, TableError>,
    )
        decreases last_page(kept) + PAGE - page,
    {
        if page > last_page(kept) {
            (self, Ok(tables))
        } else {
            match self.keep_from(pdpt, 1, page as u64, kept_entry(kept, page as u64), tables) {
                (after, Err(error)) => (after, Err(error)),
                (after, Ok(tables)) => after.keep_range(pdpt, kept, page + PAGE, tables),
            }
        }
    }

    /// Keeping the ranges from the one at `k` on.
    pub open spec fn keep_ranges(
        self,
        pdpt: u64,
        ranges: Seq<MappedRange>,
        k: int,
        tables: int,
    ) -> (Machine, Result<int, TableError>)
        decreases ranges.len() - k,
    {
        if k >= ranges.len() {
            (self, Ok(tables))
        } else {
            match self.keep_range(pdpt, ranges[k], first_page(ranges[k]), tables) {
                (after, Err(error)) => (after, Err(error)),
                (after, Ok(tables)) => after.keep_ranges(pdpt, ranges, k + 1, tables),
            }
        }
    }

    /// The lower half with `ranges` mapped where they are and nothing else.
    /// Built whole while the old map is still usable, and linked at the end.
    pub open spec fn keep_only(self, ranges: Seq<MappedRange>) -> (
        Machine,
        Result<u64, PagingError>,
    ) {
        if !all_below(ranges, (512 * GIB) as u64) {
            (self, Err(PagingError::RequiredRangeOutsideIdentityMap))
        } else {
            match self.new_table() {
                (after, Err(error)) => (after, Err(paging_error(error))),
                (after, Ok(pdpt)) => match after.keep_ranges(pdpt, ranges, 0, 1) {
                    (after, Err(error)) => (after, Err(paging_error(error))),
                    (after, Ok(tables)) => (
                        after.install_lower_half(link_entry(pdpt) | USER),
                        Ok(tables as u64),
                    ),
                },
            }
        }
    }
}

/// Counts of pages never pass the number of pages.
pub proof fn page_counts_are_bounded(ranges: Seq<MappedRange>, base: int, n: int)
    requires
        0 <= n,
    ensures
        0 <= code_pages(ranges, base, n) <= n,
        0 <= read_only_pages(ranges, base, n) <= n,
    decreases n,
{
    if n > 0 {
        page_counts_are_bounded(ranges, base, n - 1);
    }
}

/// Each range adds its pages.
pub proof fn kept_pages_grow(ranges: Seq<MappedRange>, n: int, m: int)
    requires
        0 <= n <= m <= ranges.len(),
        all_below(ranges, (512 * GIB) as u64),
    ensures
        0 <= kept_pages(ranges, n) <= kept_pages(ranges, m),
    decreases m,
{
    if n < m {
        assert(ranges[m - 1].range.len != 0);
        kept_pages_grow(ranges, n, m - 1);
    } else if n > 0 {
        assert(ranges[n - 1].range.len != 0);
        kept_pages_grow(ranges, n - 1, n - 1);
    }
}

/// As many ranges as could be listed in practice never have more pages than
/// can be counted.
pub proof fn kept_pages_fit(ranges: Seq<MappedRange>, n: int)
    requires
        0 <= n <= ranges.len(),
        all_below(ranges, (512 * GIB) as u64),
    ensures
        kept_pages(ranges, n) <= n * 0x800_0000,
    decreases n,
{
    if n > 0 {
        assert(ranges[n - 1].range.len != 0);
        kept_pages_fit(ranges, n - 1);
        assert(kept_pages(ranges, n) <= n * 0x800_0000) by (nonlinear_arith)
            requires
                kept_pages(ranges, n) <= (n - 1) * 0x800_0000 + 0x800_0000,
        ;
    }
}

} // verus!
