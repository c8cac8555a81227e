//! What the numbers that the builders answer count.

use super::halves::plain_data;
use super::model::{index_at, is_present, target, GIB, Machine, PAGE};
use super::plan::{
    all_below, code_pages, fine_grained, first_index, first_page, identity_entries, kept_entry,
    kept_pages, large_base, large_entry, last_page, link_entry, page_counts_are_bounded,
    read_only_pages, window_entries, Tally,
};
use crate::hal::paging::MappedRange;
use vstd::prelude::*;

verus! {

/// A new table takes one answer from the allocator, whatever it is.
proof fn a_new_table_takes_one(m: Machine)
    ensures
        m.new_table().0.taken == m.taken + 1,
{
}

/// The pages of two stretches in a row are the pages of both.
proof fn pages_add_up(ranges: Seq<MappedRange>, base: int, n: int, k: int)
    requires
        0 <= n,
        0 <= k,
    ensures
        code_pages(ranges, base, n + k) == code_pages(ranges, base, n) + code_pages(
            ranges,
            base + n * PAGE,
            k,
        ),
        read_only_pages(ranges, base, n + k) == read_only_pages(ranges, base, n) + read_only_pages(
            ranges,
            base + n * PAGE,
            k,
        ),
    decreases k,
{
    if k > 0 {
        pages_add_up(ranges, base, n, k - 1);
        assert(base + (n + k - 1) * PAGE == base + n * PAGE + (k - 1) * PAGE);
    }
}

/// The pages of 2 MiB of plain data count for nothing.
proof fn plain_data_has_no_pages(ranges: Seq<MappedRange>, base: int, n: int)
    requires
        !fine_grained(ranges, base),
        0 <= n <= 512,
    ensures
        code_pages(ranges, base, n) == 0,
        read_only_pages(ranges, base, n) == 0,
    decreases n,
{
    if n > 0 {
        plain_data_has_no_pages(ranges, base, n - 1);
        plain_data(ranges, base, base + (n - 1) * PAGE);
    }
}

/// What one directory of the identity map adds to the counts.
proof fn a_directory_is_counted(
    m: Machine,
    directory: u64,
    slot: int,
    entry: int,
    ranges: Seq<MappedRange>,
    tally: Tally,
)
    requires
        0 <= entry <= 512,
        0 <= slot,
        m.identity_directory(directory, slot, entry, ranges, tally).1 is Ok,
    ensures
        ({
            let (after, r) = m.identity_directory(directory, slot, entry, ranges, tally);
            let now = r->Ok_0;
            let pages = (512 - entry) * 512;
            &&& after.taken - m.taken == now.tables - tally.tables
            &&& tally.tables <= now.tables <= tally.tables + 512 - entry
            &&& now.executable == tally.executable + code_pages(
                ranges,
                large_base(slot, entry),
                pages,
            )
            &&& now.read_only == tally.read_only + read_only_pages(
                ranges,
                large_base(slot, entry),
                pages,
            )
        }),
    decreases 512 - entry,
{
    if entry < 512 {
        let base = large_base(slot, entry);
        let rest = (512 - entry - 1) * 512;
        pages_add_up(ranges, base, 512, rest);
        assert(large_base(slot, entry + 1) == base + 512 * PAGE);
        assert((512 - entry) * 512 == 512 + rest);
        if !fine_grained(ranges, base) {
            plain_data_has_no_pages(ranges, base, 512);
            let next = m.put(directory, entry, large_entry(base as u64));
            a_directory_is_counted(next, directory, slot, entry + 1, ranges, tally);
        } else {
            a_new_table_takes_one(m);
            let (made, table) = (m.new_table().0, m.new_table().1->Ok_0);
            let next = made.fill(
                table,
                first_index(base),
                512,
                identity_entries(ranges, base),
            ).put(directory, entry, link_entry(table));
            let counted = Tally {
                tables: tally.tables + 1,
                executable: tally.executable + code_pages(ranges, base, 512),
                read_only: tally.read_only + read_only_pages(ranges, base, 512),
            };
            a_directory_is_counted(next, directory, slot, entry + 1, ranges, counted);
        }
    }
}

/// What the GiBs of the identity map add to the counts.
proof fn slots_are_counted(
    m: Machine,
    pdpt: u64,
    slot: int,
    slots: int,
    ranges: Seq<MappedRange>,
    tally: Tally,
)
    requires
        0 <= slot <= slots,
        m.identity_slots(pdpt, slot, slots, ranges, tally).1 is Ok,
    ensures
        ({
            let (after, r) = m.identity_slots(pdpt, slot, slots, ranges, tally);
            let now = r->Ok_0;
            let pages = (slots - slot) * 0x4_0000;
            &&& after.taken - m.taken == now.tables - tally.tables
            &&& tally.tables <= now.tables <= tally.tables + 513 * (slots - slot)
            &&& now.executable == tally.executable + code_pages(ranges, slot * GIB, pages)
            &&& now.read_only == tally.read_only + read_only_pages(ranges, slot * GIB, pages)
        }),
    decreases slots - slot,
{
    if slot < slots {
        let rest = (slots - slot - 1) * 0x4_0000;
        pages_add_up(ranges, slot * GIB, 0x4_0000, rest);
        assert((slot + 1) * GIB == slot * GIB + 0x4_0000 * PAGE);
        assert((slots - slot) * 0x4_0000 == 0x4_0000 + rest);
        assert(large_base(slot, 0) == slot * GIB);
        a_new_table_takes_one(m);
        let (made, directory) = (m.new_table().0, m.new_table().1->Ok_0);
        let counted = Tally { tables: tally.tables + 1, ..tally };
        a_directory_is_counted(made, directory, slot, 0, ranges, counted);
        let (filled, r) = made.identity_directory(directory, slot, 0, ranges, counted);
        let next = filled.put(pdpt, slot, link_entry(directory));
        slots_are_counted(next, pdpt, slot + 1, slots, ranges, r->Ok_0);
    }
}

/// The numbers that come with an identity map are exact: as many tables as
/// frames were taken, and of all pages below the limit as many executable
/// ones as hold code and as many read-only ones as hold nothing else.
pub proof fn the_identity_map_is_counted(m: Machine, limit: u64, ranges: Seq<MappedRange>)
    requires
        m.rebuild_identity(limit, ranges).1 is Ok,
    ensures
        ({
            let (after, r) = m.rebuild_identity(limit, ranges);
            let stats = r->Ok_0;
            let pages = limit as int / PAGE as int;
            &&& stats.tables == after.taken - m.taken
            &&& stats.limit == limit
            &&& stats.executable_pages == code_pages(ranges, 0, pages)
            &&& stats.read_only_pages == read_only_pages(ranges, 0, pages)
        }),
{
    let pages = limit as int / PAGE as int;
    let slots = limit as int / GIB as int;
    assert(slots * GIB == limit);
    assert(pages == slots * 0x4_0000);
    a_new_table_takes_one(m);
    let (made, pdpt) = (m.new_table().0, m.new_table().1->Ok_0);
    let first = Tally { tables: 1, executable: 0, read_only: 0 };
    slots_are_counted(made, pdpt, 0, slots, ranges, first);
    page_counts_are_bounded(ranges, 0, pages);
}

/// What keeping a page adds to the count.
proof fn a_kept_page_is_counted(
    m: Machine,
    table: u64,
    level: nat,
    page: u64,
    leaf: u64,
    tables: int,
)
    requires
        1 <= level <= 3,
        m.keep_from(table, level, page, leaf, tables).1 is Ok,
    ensures
        ({
            let (after, r) = m.keep_from(table, level, page, leaf, tables);
            &&& after.taken - m.taken == r->Ok_0 - tables
            &&& tables <= r->Ok_0 <= tables + 3 - level
        }),
    decreases 3 - level,
{
    if level < 3 {
        let index = index_at(page as int, level as int);
        let entry = (m.mem)(table, index);
        if !is_present(entry) {
            a_new_table_takes_one(m);
            let (made, new) = (m.new_table().0, m.new_table().1->Ok_0);
            let next = made.put(table, index, link_entry(new));
            a_kept_page_is_counted(next, new, level + 1, page, leaf, tables + 1);
        } else {
            a_kept_page_is_counted(
                m,
                target(entry),
                level + 1,
                page,
                leaf,
                tables,
            );
        }
    }
}

proof fn a_kept_range_is_counted(m: Machine, pdpt: u64, kept: MappedRange, page: int, tables: int)
    requires
        page % PAGE as int == 0,
        page <= last_page(kept) + PAGE,
        m.keep_range(pdpt, kept, page, tables).1 is Ok,
    ensures
        ({
            let (after, r) = m.keep_range(pdpt, kept, page, tables);
            &&& after.taken - m.taken == r->Ok_0 - tables
            &&& tables <= r->Ok_0 <= tables + 2 * ((last_page(kept) - page) / PAGE as int + 1)
        }),
    decreases last_page(kept) + PAGE - page,
{
    if page <= last_page(kept) {
        let leaf = kept_entry(kept, page as u64);
        a_kept_page_is_counted(m, pdpt, 1, page as u64, leaf, tables);
        let (next, r) = m.keep_from(pdpt, 1, page as u64, leaf, tables);
        assert(last_page(kept) % PAGE as int == 0);
        a_kept_range_is_counted(next, pdpt, kept, page + PAGE, r->Ok_0);
    }
}

proof fn kept_ranges_are_counted(
    m: Machine,
    pdpt: u64,
    ranges: Seq<MappedRange>,
    k: int,
    tables: int,
)
    requires
        0 <= k <= ranges.len(),
        all_below(ranges, (512 * GIB) as u64),
        m.keep_ranges(pdpt, ranges, k, tables).1 is Ok,
    ensures
        ({
            let (after, r) = m.keep_ranges(pdpt, ranges, k, tables);
            &&& after.taken - m.taken == r->Ok_0 - tables
            &&& tables <= r->Ok_0 <= tables + 2 * (kept_pages(ranges, ranges.len() as int)
                - kept_pages(ranges, k))
        }),
    decreases ranges.len() - k,
{
    if k < ranges.len() {
        let kept = ranges[k];
        assert(kept.range.len != 0);
        a_kept_range_is_counted(m, pdpt, kept, first_page(kept), tables);
        let (next, r) = m.keep_range(pdpt, kept, first_page(kept), tables);
        kept_ranges_are_counted(next, pdpt, ranges, k + 1, r->Ok_0);
    }
}

/// The number of tables that emptying the lower half answers is the number of
/// frames it took.
pub proof fn the_kept_tables_are_counted(m: Machine, ranges: Seq<MappedRange>)
    requires
        m.keep_only(ranges).1 is Ok,
        1 + 2 * kept_pages(ranges, ranges.len() as int) <= u64::MAX,
    ensures
        m.keep_only(ranges).1->Ok_0 == m.keep_only(ranges).0.taken - m.taken,
{
    a_new_table_takes_one(m);
    let (made, pdpt) = (m.new_table().0, m.new_table().1->Ok_0);
    kept_ranges_are_counted(made, pdpt, ranges, 0, 1);
}

/// What the GiBs of the window take.
proof fn the_windows_slots_are_counted(m: Machine, pdpt: u64, slot: int, slots: int, tables: int)
    requires
        0 <= slot <= slots,
        m.window_slots(pdpt, slot, slots, tables).1 is Ok,
    ensures
        ({
            let (after, r) = m.window_slots(pdpt, slot, slots, tables);
            &&& after.taken - m.taken == r->Ok_0 - tables
            &&& r->Ok_0 == tables + slots - slot
        }),
    decreases slots - slot,
{
    if slot < slots {
        a_new_table_takes_one(m);
        let (made, directory) = (m.new_table().0, m.new_table().1->Ok_0);
        let next = made.fill(directory, 0, 512, window_entries(slot)).put(
            pdpt,
            slot,
            link_entry(directory),
        );
        the_windows_slots_are_counted(next, pdpt, slot + 1, slots, tables + 1);
    }
}

/// The number of tables that opening the window answers is the number of
/// frames it took: one, and one for each GiB.
pub proof fn the_windows_tables_are_counted(m: Machine, base: u64, limit: u64)
    requires
        m.map_physical_window(base, limit).1 is Ok,
    ensures
        m.map_physical_window(base, limit).1->Ok_0 == m.map_physical_window(base, limit).0.taken
            - m.taken,
        m.map_physical_window(base, limit).1->Ok_0 == 1 + limit / GIB,
{
    let slots = limit as int / GIB as int;
    a_new_table_takes_one(m);
    let (made, pdpt) = (m.new_table().0, m.new_table().1->Ok_0);
    the_windows_slots_are_counted(made, pdpt, 0, slots, 1);
}

} // verus!
