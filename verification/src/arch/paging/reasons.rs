//! When building and mapping succeed, and for which reason they fail.

use super::counts::the_windows_tables_are_counted;
use super::halves::{
    a_failed_rebuild_changes_no_translation, opening_the_window_writes_only_its_own_tables,
};
use super::kept::a_failed_keep_changes_no_translation;
use super::laws::{
    a_new_table_is_empty_and_its_own, a_walk_reads_only_its_tables, an_empty_entry_is_not_present,
    entry_table_ends_the_walk, opened_entry_bits, opening_keeps_the_path, opening_keeps_the_walk,
    path_entry_links,
};
use super::meaning::{
    an_entry_says_what_its_bits_say, good_limits_are_whole_gibs, ranges_below_a_limit_end_there,
};
use super::model::{
    entry_table, index_at, is_huge, is_present, is_user, lookup, path_entry, put, target,
    unmap_table, visits, walk, Flush, Machine, TableError, GIB, KERNEL_SPACE_BASE, PAGE, USER,
};
use super::plan::{
    all_below, code_pages, fine_grained, first_index, first_page, good_limit, identity_entries,
    kept_entry, kept_pages, kept_pages_grow, kernel_space_in_use, large_base, large_entry, last_page,
    link_entry, read_only_pages, window_entries, Tally,
};
use super::{
    unmapped, IdentityMapStats, PageTables, PagingError, TableAccess, DEFAULT_IDENTITY_LIMIT,
};
use crate::hal::frame::PhysFrame;
use crate::hal::paging::{MapError, MappedRange, PageFlags, UnmapError};
use vstd::prelude::*;

verus! {

/// What building leaves alone, and how many frames it takes at the most.
spec fn took(m: Machine, after: Machine, most: int) -> bool {
    &&& after.root == m.root
    &&& after.window == m.window
    &&& after.offers == m.offers
    &&& after.flushes == m.flushes
    &&& m.taken <= after.taken <= m.taken + most
}

/// The frame that building stopped at: there was none, or it could not be
/// written where the tables would write it.
pub open spec fn stopped_for_a_frame(after: Machine, error: TableError) -> bool {
    &&& after.taken > 0
    &&& match (after.offers)((after.taken - 1) as nat) {
        None => error is OutOfFrames,
        Some(frame) => error is NotWritable && !after.reaches(frame.addr()),
    }
}

proof fn a_new_table_stops_for_a_frame(m: Machine)
    ensures
        took(m, m.new_table().0, 1),
        m.new_table().1 matches Err(error) ==> stopped_for_a_frame(m.new_table().0, error),
{
}

/// A frame can become a table where the tables lead to it, writable, at the
/// window and its own address; a table is made of the next frame exactly where
/// there is one and it can.
pub proof fn a_table_is_made_of_a_frame_that_can_be_written(m: Machine, frame: u64)
    ensures
        m.reaches(frame) <==> (lookup(m.mem, m.root, (m.window + frame) as u64) is Some && lookup(
            m.mem,
            m.root,
            (m.window + frame) as u64,
        )->Some_0.phys == frame && lookup(
            m.mem,
            m.root,
            (m.window + frame) as u64,
        )->Some_0.writable),
        m.new_table().1 is Ok <==> (m.offers)(m.taken) is Some && m.reaches(
            (m.offers)(m.taken)->Some_0.addr(),
        ),
        m.new_table().1 == Err::<u64, TableError>(TableError::OutOfFrames) <==> (m.offers)(
            m.taken,
        ) is None,
        m.new_table().0.taken == m.taken + 1,
{
}

proof fn a_directory_stops_for_a_frame(
    m: Machine,
    directory: u64,
    slot: int,
    entry: int,
    ranges: Seq<MappedRange>,
    tally: Tally,
)
    requires
        0 <= entry <= 512,
    ensures
        ({
            let (after, r) = m.identity_directory(directory, slot, entry, ranges, tally);
            &&& took(m, after, 512 - entry)
            &&& r matches Err(error) ==> stopped_for_a_frame(after, error)
        }),
    decreases 512 - entry,
{
    let base = large_base(slot, entry);
    if entry < 512 {
        if !fine_grained(ranges, base) {
            let next = m.put(directory, entry, large_entry(base as u64));
            a_directory_stops_for_a_frame(next, directory, slot, entry + 1, ranges, tally);
        } else {
            a_new_table_stops_for_a_frame(m);
            if let (made, Ok(table)) = m.new_table() {
                let filled = made.fill(table, first_index(base), 512, identity_entries(ranges, base));
                let next = filled.put(directory, entry, link_entry(table));
                let counted = Tally {
                    tables: tally.tables + 1,
                    executable: tally.executable + code_pages(ranges, base, 512),
                    read_only: tally.read_only + read_only_pages(ranges, base, 512),
                };
                a_directory_stops_for_a_frame(next, directory, slot, entry + 1, ranges, counted);
            }
        }
    }
}

proof fn slots_stop_for_a_frame(
    m: Machine,
    pdpt: u64,
    slot: int,
    slots: int,
    ranges: Seq<MappedRange>,
    tally: Tally,
)
    requires
        0 <= slot <= slots,
    ensures
        ({
            let (after, r) = m.identity_slots(pdpt, slot, slots, ranges, tally);
            &&& took(m, after, 513 * (slots - slot))
            &&& r matches Err(error) ==> stopped_for_a_frame(after, error)
        }),
    decreases slots - slot,
{
    if slot < slots {
        a_new_table_stops_for_a_frame(m);
        if let (made, Ok(directory)) = m.new_table() {
            let counted = Tally { tables: tally.tables + 1, ..tally };
            a_directory_stops_for_a_frame(made, directory, slot, 0, ranges, counted);
            if let (filled, Ok(tally)) = made.identity_directory(
                directory,
                slot,
                0,
                ranges,
                counted,
            ) {
                let next = filled.put(pdpt, slot, link_entry(directory));
                slots_stop_for_a_frame(next, pdpt, slot + 1, slots, ranges, tally);
            }
        }
    }
}

/// Whether the next `n` answers of the allocator are frames that can become
/// tables, reached through tables that are in use.
pub open spec fn has_frames(m: Machine, n: int) -> bool {
    forall|k: nat|
        #![trigger (m.offers)(k)]
        m.taken <= k < m.taken + n ==> match (m.offers)(k) {
            Some(frame) => m.reaches(frame.addr()) && m.keeps_walk(
                (m.window + frame.addr()) as u64,
            ),
            None => false,
        }
}

/// A whole number of GiB up to 512 is a limit that the identity map takes,
/// with ranges that lie below it: given frames it is built, and it covers just
/// that much. It is refused for its limit, or for a range, only where that is
/// wrong.
pub proof fn an_identity_map_is_built_given_frames(m: Machine, limit: u64, ranges: Seq<MappedRange>)
    requires
        m.sound(),
    ensures
        ({
            let (after, r) = m.rebuild_identity(limit, ranges);
            let n = limit as int / 0x4000_0000;
            let whole = limit == n * 0x4000_0000 && 1 <= n <= 512;
            let below = forall|k: int|
                0 <= k < ranges.len() ==> (#[trigger] ranges[k]).range.len > 0
                    && ranges[k].range.start.0 + ranges[k].range.len <= limit;
            &&& r == Err::<IdentityMapStats, PagingError>(PagingError::BadIdentityLimit)
                <==> !whole
            &&& r == Err::<IdentityMapStats, PagingError>(
                PagingError::RequiredRangeOutsideIdentityMap,
            ) <==> whole && !below
            &&& whole && below && has_frames(m, 1 + 513 * n) ==> r is Ok
            &&& r is Ok ==> whole && below && r->Ok_0.limit == limit && after.flushes
                == m.flushes.push(Flush::All)
            &&& r is Err ==> after.flushes == m.flushes
            &&& r is Err && whole && below ==> {
                &&& r->Err_0 == PagingError::OutOfFrames || r->Err_0
                    == PagingError::TableFrameNotWritable
                &&& r->Err_0 == PagingError::OutOfFrames <==> (m.offers)(
                    (after.taken - 1) as nat,
                ) is None
                &&& m.taken < after.taken <= m.taken + 1 + 513 * n
            }
        }),
{
    let (after, r) = m.rebuild_identity(limit, ranges);
    let n = limit as int / 0x4000_0000;
    good_limits_are_whole_gibs(limit, n);
    ranges_below_a_limit_end_there(ranges, limit, 0);
    if good_limit(limit) && all_below(ranges, limit) {
        assert forall|k: int| 0 <= k < ranges.len() implies (#[trigger] ranges[k]).range.len > 0
            && ranges[k].range.start.0 + ranges[k].range.len <= limit by {}
        a_new_table_stops_for_a_frame(m);
        let made = m.new_table().0;
        if let Ok(pdpt) = m.new_table().1 {
            let first = Tally { tables: 1, executable: 0, read_only: 0 };
            slots_stop_for_a_frame(made, pdpt, 0, n, ranges, first);
        }
        if r is Err {
            let at = (after.taken - 1) as nat;
            assert(m.taken <= at < m.taken + 1 + 513 * n);
            if has_frames(m, 1 + 513 * n) {
                let frame = (m.offers)(at)->Some_0.addr();
                let va = (m.window + frame) as u64;
                assert(m.keeps_walk(va));
                a_failed_rebuild_changes_no_translation(m, limit, ranges, va);
                assert(after.reaches(frame));
            }
        }
    }
}

/// The default limit is one of them: four GiB.
pub proof fn the_default_limit_is_taken(m: Machine)
    requires
        m.sound(),
        has_frames(m, 2053),
    ensures
        DEFAULT_IDENTITY_LIMIT == 4 * 0x4000_0000,
        m.rebuild_identity(DEFAULT_IDENTITY_LIMIT, Seq::empty()).1 is Ok,
{
    an_identity_map_is_built_given_frames(m, DEFAULT_IDENTITY_LIMIT, Seq::empty());
}

proof fn the_windows_slots_stop_for_a_frame(m: Machine, pdpt: u64, slot: int, slots: int, tables: int)
    requires
        0 <= slot <= slots,
    ensures
        ({
            let (after, r) = m.window_slots(pdpt, slot, slots, tables);
            &&& took(m, after, slots - slot)
            &&& r matches Err(error) ==> stopped_for_a_frame(after, error)
        }),
    decreases slots - slot,
{
    if slot < slots {
        a_new_table_stops_for_a_frame(m);
        if let (made, Ok(directory)) = m.new_table() {
            let next = made.fill(directory, 0, 512, window_entries(slot)).put(
                pdpt,
                slot,
                link_entry(directory),
            );
            the_windows_slots_stop_for_a_frame(next, pdpt, slot + 1, slots, tables + 1);
        }
    }
}

/// The window opens at every free slot of kernel space for every whole number
/// of GiB up to 512, given frames. It is refused for its limit, its place or
/// its slot only where that is wrong, in this order.
pub proof fn the_window_opens_given_frames(m: Machine, base: u64, limit: u64)
    requires
        m.sound(),
        m.keeps(m.root),
    ensures
        ({
            let (after, r) = m.map_physical_window(base, limit);
            let n = limit as int / 0x4000_0000;
            let whole = limit == n * 0x4000_0000 && 1 <= n <= 512;
            let placed = base >= 0xFFFF_8000_0000_0000 && base % 0x80_0000_0000 == 0;
            let taken = (m.mem)(m.root, base as int / 0x80_0000_0000 % 512) % 2 == 1;
            &&& r == Err::<u64, PagingError>(PagingError::BadIdentityLimit) <==> !whole
            &&& r == Err::<u64, PagingError>(PagingError::WindowOutsideKernelSpace) <==> whole
                && !placed
            &&& r == Err::<u64, PagingError>(PagingError::WindowSlotTaken) <==> whole && placed
                && taken
            &&& whole && placed && !taken && has_frames(m, 1 + n) ==> r is Ok
            &&& r is Ok ==> whole && placed && !taken && r->Ok_0 == 1 + n && after.flushes
                == m.flushes.push(Flush::All)
            &&& r is Err ==> after.flushes == m.flushes
            &&& r is Err && whole && placed && !taken ==> {
                &&& r->Err_0 == PagingError::OutOfFrames || r->Err_0
                    == PagingError::TableFrameNotWritable
                &&& r->Err_0 == PagingError::OutOfFrames <==> (m.offers)(
                    (after.taken - 1) as nat,
                ) is None
                &&& m.taken < after.taken <= m.taken + 1 + n
            }
        }),
{
    let (after, r) = m.map_physical_window(base, limit);
    let n = limit as int / 0x4000_0000;
    let slot = index_at(base as int, 0);
    good_limits_are_whole_gibs(limit, n);
    assert(slot == base as int / 0x80_0000_0000 % 512);
    an_entry_says_what_its_bits_say((m.mem)(m.root, slot));
    if r is Ok {
        the_windows_tables_are_counted(m, base, limit);
    }
    if good_limit(limit) && base >= KERNEL_SPACE_BASE && base as int % (512 * GIB) == 0
        && !is_present((m.mem)(m.root, slot)) {
        a_new_table_stops_for_a_frame(m);
        let made = m.new_table().0;
        if let Ok(pdpt) = m.new_table().1 {
            the_windows_slots_stop_for_a_frame(made, pdpt, 0, n, 1);
        }
        if r is Err {
            let at = (after.taken - 1) as nat;
            assert(m.taken <= at < m.taken + 1 + n);
            if has_frames(m, 1 + n) {
                let frame = (m.offers)(at)->Some_0.addr();
                let va = (m.window + frame) as u64;
                assert(m.keeps_walk(va));
                assert forall|t: u64, i: int| visits(m.mem, m.root, 0, va, t) implies #[trigger] (
                after.mem)(t, i) == (m.mem)(t, i) by {
                    opening_the_window_writes_only_its_own_tables(
                        m,
                        base,
                        limit,
                        t,
                        i,
                    );
                }
                a_walk_reads_only_its_tables(m.mem, after.mem, m.root, 0, va);
                assert(after.reaches(frame));
            }
        }
    }
}

proof fn keeping_a_page_stops_for_a_frame(
    m: Machine,
    table: u64,
    level: nat,
    page: u64,
    leaf: u64,
    tables: int,
)
    requires
        level <= 3,
    ensures
        ({
            let (after, r) = m.keep_from(table, level, page, leaf, tables);
            &&& took(m, after, 3 - level)
            &&& r matches Err(error) ==> stopped_for_a_frame(after, error)
        }),
    decreases 3 - level,
{
    if level < 3 {
        let index = index_at(page as int, level as int);
        let entry = (m.mem)(table, index);
        if !is_present(entry) {
            a_new_table_stops_for_a_frame(m);
            if let (made, Ok(new)) = m.new_table() {
                let next = made.put(table, index, link_entry(new));
                keeping_a_page_stops_for_a_frame(next, new, level + 1, page, leaf, tables + 1);
            }
        } else {
            keeping_a_page_stops_for_a_frame(m, target(entry), level + 1, page, leaf, tables);
        }
    }
}

proof fn keeping_a_range_stops_for_a_frame(
    m: Machine,
    pdpt: u64,
    kept: MappedRange,
    page: int,
    tables: int,
)
    requires
        page % PAGE as int == 0,
        page <= last_page(kept) + PAGE,
    ensures
        ({
            let (after, r) = m.keep_range(pdpt, kept, page, tables);
            &&& took(m, after, 2 * ((last_page(kept) - page) / PAGE as int + 1))
            &&& r matches Err(error) ==> stopped_for_a_frame(after, error)
        }),
    decreases last_page(kept) + PAGE - page,
{
    if page <= last_page(kept) {
        let leaf = kept_entry(kept, page as u64);
        keeping_a_page_stops_for_a_frame(m, pdpt, 1, page as u64, leaf, tables);
        assert(last_page(kept) % PAGE as int == 0);
        if let (next, Ok(count)) = m.keep_from(pdpt, 1, page as u64, leaf, tables) {
            keeping_a_range_stops_for_a_frame(next, pdpt, kept, page + PAGE, count);
        }
    }
}

proof fn keeping_ranges_stops_for_a_frame(
    m: Machine,
    pdpt: u64,
    ranges: Seq<MappedRange>,
    k: int,
    tables: int,
)
    requires
        0 <= k <= ranges.len(),
        all_below(ranges, (512 * GIB) as u64),
    ensures
        ({
            let (after, r) = m.keep_ranges(pdpt, ranges, k, tables);
            &&& took(
                m,
                after,
                2 * (kept_pages(ranges, ranges.len() as int) - kept_pages(ranges, k)),
            )
            &&& r matches Err(error) ==> stopped_for_a_frame(after, error)
        }),
    decreases ranges.len() - k,
{
    if k < ranges.len() {
        let kept = ranges[k];
        assert(kept.range.len != 0);
        keeping_a_range_stops_for_a_frame(m, pdpt, kept, first_page(kept), tables);
        kept_pages_grow(ranges, k + 1, ranges.len() as int);
        if let (next, Ok(count)) = m.keep_range(pdpt, kept, first_page(kept), tables) {
            keeping_ranges_stops_for_a_frame(next, pdpt, ranges, k + 1, count);
        }
    }
}

/// The lower half is emptied given frames, two for each page that stays and
/// one more, of ranges that are not empty and end below 512 GiB. It is refused
/// for a range only where that is wrong.
pub proof fn the_lower_half_is_emptied_given_frames(m: Machine, ranges: Seq<MappedRange>)
    requires
        m.sound(),
    ensures
        ({
            let (after, r) = m.keep_only(ranges);
            let below = forall|k: int|
                0 <= k < ranges.len() ==> (#[trigger] ranges[k]).range.len > 0
                    && ranges[k].range.start.0 + ranges[k].range.len <= 0x80_0000_0000;
            let most = 1 + 2 * kept_pages(ranges, ranges.len() as int);
            &&& r == Err::<u64, PagingError>(PagingError::RequiredRangeOutsideIdentityMap)
                <==> !below
            &&& below && has_frames(m, most) ==> r is Ok
            &&& r is Ok ==> below && after.flushes == m.flushes.push(Flush::All)
            &&& r is Err ==> after.flushes == m.flushes
            &&& r is Err && below ==> {
                &&& r->Err_0 == PagingError::OutOfFrames || r->Err_0
                    == PagingError::TableFrameNotWritable
                &&& r->Err_0 == PagingError::OutOfFrames <==> (m.offers)(
                    (after.taken - 1) as nat,
                ) is None
                &&& m.taken < after.taken <= m.taken + most
            }
        }),
{
    let (after, r) = m.keep_only(ranges);
    let limit = (512 * GIB) as u64;
    assert(limit == 0x80_0000_0000);
    ranges_below_a_limit_end_there(ranges, limit, 0);
    if all_below(ranges, limit) {
        assert forall|k: int| 0 <= k < ranges.len() implies (#[trigger] ranges[k]).range.len > 0
            && ranges[k].range.start.0 + ranges[k].range.len <= 0x80_0000_0000 by {}
        let most = 1 + 2 * kept_pages(ranges, ranges.len() as int);
        a_new_table_stops_for_a_frame(m);
        kept_pages_grow(ranges, 0, ranges.len() as int);
        let made = m.new_table().0;
        if let Ok(pdpt) = m.new_table().1 {
            keeping_ranges_stops_for_a_frame(made, pdpt, ranges, 0, 1);
        }
        if r is Err {
            let at = (after.taken - 1) as nat;
            assert(m.taken <= at < m.taken + most);
            if has_frames(m, most) {
                let frame = (m.offers)(at)->Some_0.addr();
                let va = (m.window + frame) as u64;
                assert(m.keeps_walk(va));
                a_failed_keep_changes_no_translation(m, ranges, va);
                assert(after.reaches(frame));
            }
        }
    }
}

/// The pages of ranges one after the other are the pages of each; those of
/// one range are the pages from the one its first byte is in to the one its
/// last byte is in.
pub proof fn kept_pages_are_counted_range_by_range(ranges: Seq<MappedRange>, n: int)
    requires
        0 < n <= ranges.len(),
        ranges[n - 1].range.len != 0,
        ranges[n - 1].range.start.0 + ranges[n - 1].range.len <= u64::MAX,
    ensures
        ({
            let start = ranges[n - 1].range.start.0 as int;
            let last = start + ranges[n - 1].range.len - 1;
            kept_pages(ranges, n) - kept_pages(ranges, n - 1) == last / 0x1000 - start / 0x1000 + 1
        }),
        kept_pages(ranges, 0) == 0,
{
    let start = ranges[n - 1].range.start.0 as int;
    let last = start + ranges[n - 1].range.len - 1;
    assert(first_page(ranges[n - 1]) == 0x1000 * (start / 0x1000));
    assert(last_page(ranges[n - 1]) == 0x1000 * (last / 0x1000));
}

/// The firmware's tables are adopted given a frame, unless they map something
/// in kernel space.
pub proof fn tables_are_adopted_given_a_frame(m: Machine)
    ensures
        ({
            let (after, r) = m.adopt();
            &&& r == Err::<(), PagingError>(PagingError::KernelSpaceInUse) <==> kernel_space_in_use(
                m.mem,
                m.root,
            )
            &&& kernel_space_in_use(m.mem, m.root) ==> after == m
            &&& !kernel_space_in_use(m.mem, m.root) ==> {
                &&& after.taken == m.taken + 1
                &&& r is Ok <==> (m.offers)(m.taken) is Some && m.reaches(
                    (m.offers)(m.taken)->Some_0.addr(),
                )
                &&& r == Err::<(), PagingError>(PagingError::OutOfFrames) <==> (m.offers)(
                    m.taken,
                ) is None
                &&& r is Ok ==> after.root == (m.offers)(m.taken)->Some_0.addr()
            }
            &&& after.flushes == m.flushes
        }),
{
}

/// What mapping stopped at, from a table downwards.
proof fn map_from_stops_for_a_reason(
    m: Machine,
    table: u64,
    level: nat,
    page: u64,
    frame: u64,
    flags: PageFlags,
    upgraded: bool,
)
    requires
        m.sound(),
        level <= 3,
        forall|t: u64| #[trigger] visits(m.mem, table, level, page, t) ==> m.keeps(t),
    ensures
        ({
            let (after, r) = m.map_from(table, level, page, frame, flags, upgraded);
            let found = walk(m.mem, table, level, page);
            &&& after.root == m.root
            &&& after.window == m.window
            &&& after.offers == m.offers
            &&& m.taken <= after.taken <= m.taken + 3 - level
            &&& r is Err ==> after.flushes == m.flushes
            &&& r == Err::<(), MapError>(MapError::AlreadyMapped) ==> found is Some
                && found->Some_0.page_size == 0x1000
            &&& r == Err::<(), MapError>(MapError::HugePageInTheWay) ==> is_blocked(
                m,
                table,
                level,
                page,
            )
            &&& r == Err::<(), MapError>(MapError::OutOfFrames) ==> after.taken > m.taken && (
            m.offers)((after.taken - 1) as nat) is None
            &&& r == Err::<(), MapError>(MapError::TableFrameNotWritable) ==> after.taken > m.taken
                && (m.offers)((after.taken - 1) as nat) is Some && !after.reaches(
                (m.offers)((after.taken - 1) as nat)->Some_0.addr(),
            )
            &&& r matches Err(error) ==> error != MapError::OutsideKernelSpace
            &&& found is Some && found->Some_0.page_size == 0x1000 ==> r == Err::<(), MapError>(
                MapError::AlreadyMapped,
            ) && after.taken == m.taken
            &&& found is Some ==> r is Err
            &&& is_blocked(m, table, level, page) ==> r == Err::<(), MapError>(
                MapError::HugePageInTheWay,
            )
        }),
    decreases 3 - level,
{
    let index = index_at(page as int, level as int);
    let entry = (m.mem)(table, index);
    assert(visits(m.mem, table, level, page, table));
    if level < 3 && !is_present(entry) {
        a_new_table_is_empty_and_its_own(m);
        a_new_table_stops_for_a_frame(m);
        if let (made, Ok(new)) = m.new_table() {
            let below = level + 1;
            let linked = made.put(table, index, path_entry(new, flags.user));
            an_empty_entry_is_not_present();
            assert(made.keeps(new) && made.keeps(table));
            assert(linked.keeps(new));
            assert((linked.mem)(new, index_at(page as int, below as int)) == 0);
            assert(!is_blocked(linked, new, below, page));
            map_from_stops_for_a_reason(linked, new, below, page, frame, flags, upgraded);
        }
    } else if level < 3 && !is_huge(entry) {
        let opens = flags.user && !is_user(entry);
        let opened = if opens {
            m.put(table, index, entry | USER)
        } else {
            m
        };
        let next = target(entry);
        let below = level + 1;
        opened_entry_bits(entry);
        opening_keeps_the_path(m.mem, opened.mem, next, below, page);
        opening_keeps_the_walk(m.mem, opened.mem, next, below, page);
        opening_blocks_nothing(m, opened, next, below, page);
        assert forall|t: u64| #[trigger] visits(opened.mem, next, below, page, t) implies opened.keeps(
            t,
        ) by {
            assert(visits(m.mem, table, level, page, t));
        }
        map_from_stops_for_a_reason(opened, next, below, page, frame, flags, upgraded || opens);
    }
}

/// Whether an entry on the way of a page maps more than 4 KiB itself.
pub open spec fn is_blocked(m: Machine, table: u64, level: nat, page: u64) -> bool
    decreases 3 - level,
{
    let entry = (m.mem)(table, index_at(page as int, level as int));
    level < 3 && is_present(entry) && (is_huge(entry) || is_blocked(
        m,
        target(entry),
        level + 1,
        page,
    ))
}

proof fn opening_blocks_nothing(m: Machine, opened: Machine, table: u64, level: nat, page: u64)
    requires
        level <= 3,
        forall|t: u64, i: int|
            #[trigger] (opened.mem)(t, i) == (m.mem)(t, i) || (opened.mem)(t, i) == (m.mem)(t, i)
                | USER,
    ensures
        is_blocked(opened, table, level, page) == is_blocked(m, table, level, page),
    decreases 3 - level,
{
    let index = index_at(page as int, level as int);
    let entry = (m.mem)(table, index);
    opened_entry_bits(entry);
    assert((opened.mem)(table, index) == entry || (opened.mem)(table, index) == entry | USER);
    if level < 3 {
        opening_blocks_nothing(m, opened, target(entry), level + 1, page);
    }
}

/// Every page of kernel space can be mapped for the kernel, and every page
/// below it for a program, that is free and has no larger page in its way,
/// given three frames at the most. Each error has its reason.
pub proof fn a_mapping_fails_for_a_reason(m: Machine, page: u64, frame: u64, flags: PageFlags)
    requires
        m.sound(),
        m.keeps_walk(page),
    ensures
        ({
            let (after, r) = m.map(page, frame, flags);
            let found = walk(m.mem, m.root, 0, page);
            let right = flags.user <==> page < 0xFFFF_8000_0000_0000;
            &&& r == Err::<(), MapError>(MapError::OutsideKernelSpace) <==> !right
            &&& r == Err::<(), MapError>(MapError::AlreadyMapped) ==> right && found is Some
                && found->Some_0.page_size == 0x1000
            &&& r == Err::<(), MapError>(MapError::HugePageInTheWay) <==> right && is_blocked(
                m,
                m.root,
                0,
                page,
            )
            &&& r == Err::<(), MapError>(MapError::OutOfFrames) ==> m.taken < after.taken <= m.taken
                + 3 && (m.offers)((after.taken - 1) as nat) is None
            &&& r == Err::<(), MapError>(MapError::TableFrameNotWritable) ==> m.taken < after.taken
                <= m.taken + 3 && (m.offers)((after.taken - 1) as nat) is Some && !after.reaches(
                (m.offers)((after.taken - 1) as nat)->Some_0.addr(),
            )
            &&& right && found is Some && found->Some_0.page_size == 0x1000 ==> r == Err::<
                (),
                MapError,
            >(MapError::AlreadyMapped) && after.taken == m.taken
            &&& found is Some ==> r is Err
            &&& r is Err ==> after.flushes == m.flushes
        }),
{
    if flags.user == (page < KERNEL_SPACE_BASE) {
        map_from_stops_for_a_reason(m, m.root, 0, page, frame, flags, false);
    }
}

/// Whether some table on the way of a page is closed to ring 3.
pub open spec fn is_closed(m: Machine, table: u64, level: nat, page: u64) -> bool
    decreases 3 - level,
{
    let entry = (m.mem)(table, index_at(page as int, level as int));
    level < 3 && is_present(entry) && !is_huge(entry) && (!is_user(entry) || is_closed(
        m,
        target(entry),
        level + 1,
        page,
    ))
}

proof fn map_from_flushes(
    m: Machine,
    table: u64,
    level: nat,
    page: u64,
    frame: u64,
    flags: PageFlags,
    upgraded: bool,
)
    requires
        m.sound(),
        level <= 3,
        forall|t: u64| #[trigger] visits(m.mem, table, level, page, t) ==> m.keeps(t),
        m.map_from(table, level, page, frame, flags, upgraded).1 is Ok,
    ensures
        ({
            let after = m.map_from(table, level, page, frame, flags, upgraded).0;
            after.flushes == if upgraded || (flags.user && is_closed(m, table, level, page)) {
                m.flushes.push(Flush::Page(page)).push(Flush::All)
            } else {
                m.flushes.push(Flush::Page(page))
            }
        }),
    decreases 3 - level,
{
    let index = index_at(page as int, level as int);
    let entry = (m.mem)(table, index);
    let below = level + 1;
    assert(visits(m.mem, table, level, page, table));
    if level < 3 && !is_present(entry) {
        a_new_table_is_empty_and_its_own(m);
        let (made, new) = (m.new_table().0, m.new_table().1->Ok_0);
        let linked = made.put(table, index, path_entry(new, flags.user));
        an_empty_entry_is_not_present();
        assert(made.keeps(new) && made.keeps(table));
        assert(linked.keeps(new));
        assert((linked.mem)(new, index_at(page as int, below as int)) == 0);
        map_from_flushes(linked, new, below, page, frame, flags, upgraded);
    } else if level < 3 && !is_huge(entry) {
        let opens = flags.user && !is_user(entry);
        let opened = if opens {
            m.put(table, index, entry | USER)
        } else {
            m
        };
        let next = target(entry);
        opened_entry_bits(entry);
        opening_keeps_the_path(m.mem, opened.mem, next, below, page);
        assert forall|t: u64| #[trigger] visits(opened.mem, next, below, page, t) implies opened.keeps(
            t,
        ) by {
            assert(visits(m.mem, table, level, page, t));
        }
        if !opens && flags.user {
            map_from_flushes(m, next, below, page, frame, flags, upgraded);
        } else {
            map_from_flushes(opened, next, below, page, frame, flags, upgraded || opens);
        }
    }
}

/// What mapping drops from the processor's cache: the page, and everything
/// where the way of a program's page had to be opened to ring 3.
pub proof fn a_mapping_is_flushed(m: Machine, page: u64, frame: u64, flags: PageFlags)
    requires
        m.sound(),
        m.keeps_walk(page),
        m.map(page, frame, flags).1 is Ok,
    ensures
        m.map(page, frame, flags).0.flushes == if flags.user && is_closed(m, m.root, 0, page) {
            m.flushes.push(Flush::Page(page)).push(Flush::All)
        } else {
            m.flushes.push(Flush::Page(page))
        },
{
    map_from_flushes(m, m.root, 0, page, frame, flags, false);
}

/// What unmapping does: one entry is gone, the page is dropped from the
/// processor's cache, and the frame that the entry named comes back. Where it
/// is refused nothing happens.
pub proof fn an_unmapping_is_flushed<A: TableAccess>(
    before: PageTables<A>,
    after: PageTables<A>,
    page: u64,
    r: Result<PhysFrame, UnmapError>,
)
    requires
        unmapped(before, after, page, r),
    ensures
        after.root == before.root,
        r is Err ==> after.access.memory() == before.access.memory() && after.access.flushes()
            == before.access.flushes() && after.access.changes() == before.access.changes(),
        r matches Ok(frame) ==> {
            let index = page as int / 0x1000 % 512;
            &&& after.access.flushes() == before.access.flushes().push(Flush::Page(page))
            &&& after.access.changes().len() == before.access.changes().len() + 1
            &&& exists|table: u64|
                {
                    let entry = (before.access.memory())(table, index);
                    &&& after.access.memory() == #[trigger] put(
                        before.access.memory(),
                        table,
                        index,
                        0,
                    )
                    &&& frame.addr() == entry % 0x10_0000_0000_0000 / 0x1000 * 0x1000
                }
        },
        r is Ok <==> unmap_table(before.access.memory(), before.root, page) is Ok,
{
    if let Ok(table) = unmap_table(before.access.memory(), before.root, page) {
        let index = page as int / 0x1000 % 512;
        assert(index == index_at(page as int, 3));
        an_entry_says_what_its_bits_say((before.access.memory())(table, index));
        assert(after.access.memory() == put(before.access.memory(), table, index, 0));
    }
}

/// The emptied lower half is open to programs at the root: their pages can be
/// mapped there without another change of it. The rebuilt one is not.
pub proof fn the_emptied_half_is_open_to_programs(
    m: Machine,
    ranges: Seq<MappedRange>,
    limit: u64,
)
    requires
        m.sound(),
    ensures
        m.keep_only(ranges).1 is Ok ==> {
            let entry = (m.keep_only(ranges).0.mem)(m.root, 0);
            entry % 2 == 1 && entry / 2 % 2 == 1 && entry / 4 % 2 == 1 && entry / 0x80 % 2 == 0
                && entry < 0x8000_0000_0000_0000
        },
        m.rebuild_identity(limit, ranges).1 is Ok ==> {
            let entry = (m.rebuild_identity(limit, ranges).0.mem)(m.root, 0);
            entry % 2 == 1 && entry / 2 % 2 == 1 && entry / 4 % 2 == 0 && entry / 0x80 % 2 == 0
                && entry < 0x8000_0000_0000_0000
        },
{
    a_new_table_is_empty_and_its_own(m);
    let (made, r) = m.new_table();
    if let Ok(pdpt) = r {
        path_entry_links(pdpt, true);
        path_entry_links(pdpt, false);
        if m.keep_only(ranges).1 is Ok {
            keeping_ranges_stops_for_a_frame(made, pdpt, ranges, 0, 1);
            an_entry_says_what_its_bits_say((m.keep_only(ranges).0.mem)(m.root, 0));
            assert((m.keep_only(ranges).0.mem)(m.root, 0) == link_entry(pdpt) | USER);
        }
        if m.rebuild_identity(limit, ranges).1 is Ok {
            let first = Tally { tables: 1, executable: 0, read_only: 0 };
            slots_stop_for_a_frame(made, pdpt, 0, limit as int / GIB as int, ranges, first);
            an_entry_says_what_its_bits_say((m.rebuild_identity(limit, ranges).0.mem)(m.root, 0));
            assert((m.rebuild_identity(limit, ranges).0.mem)(m.root, 0) == link_entry(pdpt));
        }
    }
}

/// Unmapping is refused below kernel space and nowhere else but where nothing
/// is mapped or a larger page is in the way.
pub proof fn an_unmapping_fails_for_a_reason(m: Machine, page: u64)
    ensures
        ({
            let found = lookup(m.mem, m.root, page);
            let r = unmap_table(m.mem, m.root, page);
            &&& r == Err::<u64, UnmapError>(UnmapError::OutsideKernelSpace) <==> page
                < 0xFFFF_8000_0000_0000
            &&& page >= 0xFFFF_8000_0000_0000 ==> {
                &&& r is Ok <==> found is Some && found->Some_0.page_size == 0x1000
                &&& found is Some && found->Some_0.page_size != 0x1000 ==> r == Err::<
                    u64,
                    UnmapError,
                >(UnmapError::HugePageInTheWay)
                &&& found is None && !is_blocked(m, m.root, 0, page) ==> r == Err::<u64, UnmapError>(
                    UnmapError::NotMapped,
                )
                &&& found is None && is_blocked(m, m.root, 0, page) ==> r == Err::<u64, UnmapError>(
                    UnmapError::HugePageInTheWay,
                )
            }
        }),
{
    if page >= KERNEL_SPACE_BASE {
        entry_table_is_blocked(m, m.root, 0, page);
        entry_table_ends_the_walk(m.mem, m.root, 0, page);
    }
}

proof fn entry_table_is_blocked(m: Machine, table: u64, level: nat, page: u64)
    requires
        level <= 3,
    ensures
        ({
            let r = entry_table(m.mem, table, level, page);
            &&& is_blocked(m, table, level, page) <==> r == Err::<u64, UnmapError>(
                UnmapError::HugePageInTheWay,
            )
            &&& r matches Err(error) ==> error == UnmapError::HugePageInTheWay || error
                == UnmapError::NotMapped
        }),
    decreases 3 - level,
{
    let entry = (m.mem)(table, index_at(page as int, level as int));
    if level < 3 && is_present(entry) && !is_huge(entry) {
        entry_table_is_blocked(m, target(entry), level + 1, page);
    }
}

} // verus!
