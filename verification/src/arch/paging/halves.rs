//! What the maps that fill a whole half of the address space, or a whole
//! slot of it, lead to.

use super::laws::{
    a_new_table_is_empty_and_its_own, a_walk_reads_only_its_tables,
    an_empty_entry_is_not_present, is_frame, path_entry_links,
};
use super::model::{
    caching, index_at, is_executable, is_huge, is_present, is_user, is_writable, lookup,
    mapped_page, page_size, target, visits, walk, Leaf, Machine, Memory, GIB, KERNEL_SLOT,
    KERNEL_SPACE_BASE, LARGE_PAGE, PAGE,
};
use super::plan::{
    all_below, any_meets, any_writes, code_covers, code_pages, fine_grained, first_index,
    good_limit, identity_entries, identity_entry, large_base, large_entry, link_entry,
    only_code, read_only_pages, runs_code, window_entries, Tally,
};
use crate::hal::paging::MappedRange;
use vstd::arithmetic::div_mod::{lemma_hoist_over_denominator, lemma_mod_multiples_vanish};
use vstd::prelude::*;

verus! {

pub proof fn large_entry_bits(base: u64)
    by (bit_vector)
    requires
        base % 0x20_0000 == 0,
        base < 0x80_0000_0000,
    ensures
        (base | 1 | 2 | 0x80 | 0x8000_0000_0000_0000) & 1 != 0,
        (base | 1 | 2 | 0x80 | 0x8000_0000_0000_0000) & 2 != 0,
        (base | 1 | 2 | 0x80 | 0x8000_0000_0000_0000) & 4 == 0,
        (base | 1 | 2 | 0x80 | 0x8000_0000_0000_0000) & (16u64 | 8) == 0,
        (base | 1 | 2 | 0x80 | 0x8000_0000_0000_0000) & 0x80 != 0,
        (base | 1 | 2 | 0x80 | 0x8000_0000_0000_0000) & 0x8000_0000_0000_0000 != 0,
        (base | 1 | 2 | 0x80 | 0x8000_0000_0000_0000) & 0x000F_FFFF_FFFF_F000 & !0x1F_FFFFu64
            == base,
{
}

proof fn page_entry_bits(page: u64, flags: u64)
    by (bit_vector)
    requires
        page % 0x1000 == 0,
        page < 0x80_0000_0000,
        flags == 1 || flags == 1u64 | 2 || flags == 1u64 | 0x8000_0000_0000_0000 || flags == 1u64 | 2
            | 0x8000_0000_0000_0000,
    ensures
        (page | flags) & 1 != 0,
        (page | flags) & 2 == flags & 2,
        (page | flags) & 4 == 0,
        (page | flags) & (16u64 | 8) == 0,
        (page | flags) & 0x8000_0000_0000_0000 == flags & 0x8000_0000_0000_0000,
        (page | flags) & 0x000F_FFFF_FFFF_F000 & !0xFFFu64 == page,
        1u64 & 2 == 0,
        1u64 & 0x8000_0000_0000_0000 == 0,
        (1u64 | 2) & 2 != 0,
        (1u64 | 2) & 0x8000_0000_0000_0000 == 0,
        (1u64 | 0x8000_0000_0000_0000) & 2 == 0,
        (1u64 | 0x8000_0000_0000_0000) & 0x8000_0000_0000_0000 != 0,
        (1u64 | 2 | 0x8000_0000_0000_0000) & 2 != 0,
        (1u64 | 2 | 0x8000_0000_0000_0000) & 0x8000_0000_0000_0000 != 0,
{
}

/// What the entry of a 4 KiB page of the identity map says.
proof fn identity_entry_maps(ranges: Seq<MappedRange>, page: int)
    requires
        0 < page < 0x80_0000_0000,
        page % PAGE as int == 0,
    ensures
        is_present(identity_entry(ranges, page)),
        is_writable(identity_entry(ranges, page)) == !only_code(ranges, page),
        is_executable(identity_entry(ranges, page)) == runs_code(ranges, page),
        !is_user(identity_entry(ranges, page)),
        caching(identity_entry(ranges, page)) == 0,
        mapped_page(identity_entry(ranges, page), 3) == page,
{
    let p = page as u64;
    page_entry_bits(p, 1);
    page_entry_bits(p, 1u64 | 2);
    page_entry_bits(p, 1u64 | 0x8000_0000_0000_0000);
    page_entry_bits(p, 1u64 | 2 | 0x8000_0000_0000_0000);
}

/// One entry of a directory of the identity map, and what hangs below it.
pub(super) open spec fn chunk_built(
    m: Machine,
    pdpt: u64,
    directory: u64,
    slot: int,
    entry: int,
    ranges: Seq<MappedRange>,
) -> bool {
    let base = large_base(slot, entry);
    let t = target((m.mem)(directory, entry));
    if fine_grained(ranges, base) {
        &&& (m.mem)(directory, entry) == link_entry(t)
        &&& is_frame(t)
        &&& m.keeps(t)
        &&& t != directory
        &&& t != pdpt
        &&& t != m.root
        &&& forall|i: int|
            0 <= i < 512 ==> #[trigger] (m.mem)(t, i) == identity_entry(ranges, base + i * PAGE)
    } else {
        (m.mem)(directory, entry) == large_entry(base as u64)
    }
}

proof fn identity_directory_is_built(
    m: Machine,
    pdpt: u64,
    directory: u64,
    slot: int,
    entry: int,
    ranges: Seq<MappedRange>,
    tally: Tally,
)
    requires
        m.sound(),
        m.keeps(directory),
        m.keeps(pdpt),
        m.keeps(m.root),
        0 <= entry <= 512,
        0 <= slot < 512,
    ensures
        ({
            let (after, r) = m.identity_directory(directory, slot, entry, ranges, tally);
            &&& after.sound()
            &&& after.root == m.root
            &&& forall|t: u64| m.keeps(t) ==> #[trigger] after.keeps(t)
            &&& forall|t: u64, i: int|
                m.keeps(t) && t != directory ==> #[trigger] (after.mem)(t, i) == (m.mem)(t, i)
            &&& forall|i: int|
                i < entry ==> #[trigger] (after.mem)(directory, i) == (m.mem)(directory, i)
            &&& r is Ok ==> forall|e: int|
                entry <= e < 512 ==> #[trigger] chunk_built(
                    after,
                    pdpt,
                    directory,
                    slot,
                    e,
                    ranges,
                )
        }),
    decreases 512 - entry,
{
    let base = large_base(slot, entry);
    let (after, r) = m.identity_directory(directory, slot, entry, ranges, tally);
    if entry < 512 {
        if !fine_grained(ranges, base) {
            let next = m.put(directory, entry, large_entry(base as u64));
            identity_directory_is_built(next, pdpt, directory, slot, entry + 1, ranges, tally);
            assert forall|t: u64, i: int| m.keeps(t) && t != directory implies #[trigger] (
            after.mem)(t, i) == (m.mem)(t, i) by {
                assert(next.keeps(t));
            }
            assert forall|t: u64| m.keeps(t) implies #[trigger] after.keeps(t) by {
                assert(next.keeps(t));
            }
            assert(chunk_built(after, pdpt, directory, slot, entry, ranges));
        } else {
            a_new_table_is_empty_and_its_own(m);
            if let (made, Ok(table)) = m.new_table() {
                path_entry_links(table, false);
                let filled = made.fill(table, first_index(base), 512, identity_entries(ranges, base));
                let next = filled.put(directory, entry, link_entry(table));
                let counted = Tally {
                    tables: tally.tables + 1,
                    executable: tally.executable + code_pages(ranges, base, 512),
                    read_only: tally.read_only + read_only_pages(ranges, base, 512),
                };
                assert(made.keeps(directory) && made.keeps(pdpt) && made.keeps(m.root));
                assert(next.keeps(table) && next.keeps(directory) && next.keeps(pdpt));
                assert(next.keeps(next.root));
                assert(next.sound());
                identity_directory_is_built(
                    next,
                    pdpt,
                    directory,
                    slot,
                    entry + 1,
                    ranges,
                    counted,
                );
                assert forall|t: u64, i: int| m.keeps(t) && t != directory implies #[trigger] (
                after.mem)(t, i) == (m.mem)(t, i) by {
                    assert(made.keeps(t));
                    assert(next.keeps(t));
                }
                assert forall|t: u64| m.keeps(t) implies #[trigger] after.keeps(t) by {
                    assert(made.keeps(t));
                    assert(next.keeps(t));
                }
                assert((next.mem)(directory, entry) == link_entry(table));
                assert forall|i: int| 0 <= i < 512 implies #[trigger] (after.mem)(table, i)
                    == identity_entry(ranges, base + i * PAGE) by {
                    assert((next.mem)(table, i) == identity_entry(ranges, base + i * PAGE));
                }
                assert(chunk_built(after, pdpt, directory, slot, entry, ranges));
            } else {
                let made = m.new_table().0;
                assert forall|t: u64| m.keeps(t) implies #[trigger] after.keeps(t) by {
                    assert(made.keeps(t));
                }
            }
        }
    }
}

/// One GiB of the identity map, and what hangs below it.
pub(super) open spec fn gib_built(m: Machine, pdpt: u64, slot: int, ranges: Seq<MappedRange>) -> bool {
    let d = target((m.mem)(pdpt, slot));
    &&& (m.mem)(pdpt, slot) == link_entry(d)
    &&& is_frame(d)
    &&& m.keeps(d)
    &&& d != pdpt
    &&& d != m.root
    &&& forall|e: int| 0 <= e < 512 ==> #[trigger] chunk_built(m, pdpt, d, slot, e, ranges)
}

/// What is built stays built while only other tables change.
proof fn a_built_gib_stays(m: Machine, after: Machine, pdpt: u64, slot: int, ranges: Seq<MappedRange>)
    requires
        gib_built(m, pdpt, slot, ranges),
        after.root == m.root,
        forall|t: u64| m.keeps(t) ==> #[trigger] after.keeps(t),
        forall|t: u64, i: int|
            m.keeps(t) && t != pdpt ==> #[trigger] (after.mem)(t, i) == (m.mem)(t, i),
        (after.mem)(pdpt, slot) == (m.mem)(pdpt, slot),
    ensures
        gib_built(after, pdpt, slot, ranges),
{
    let d = target((m.mem)(pdpt, slot));
    assert(after.keeps(d));
    assert forall|e: int| 0 <= e < 512 implies #[trigger] chunk_built(
        after,
        pdpt,
        d,
        slot,
        e,
        ranges,
    ) by {
        assert(chunk_built(m, pdpt, d, slot, e, ranges));
        assert((after.mem)(d, e) == (m.mem)(d, e));
    }
}

pub(super) proof fn identity_slots_are_built(
    m: Machine,
    pdpt: u64,
    slot: int,
    slots: int,
    ranges: Seq<MappedRange>,
    tally: Tally,
)
    requires
        m.sound(),
        m.keeps(pdpt),
        m.keeps(m.root),
        0 <= slot <= slots <= 512,
    ensures
        ({
            let (after, r) = m.identity_slots(pdpt, slot, slots, ranges, tally);
            &&& after.sound()
            &&& after.root == m.root
            &&& forall|t: u64| m.keeps(t) ==> #[trigger] after.keeps(t)
            &&& forall|t: u64, i: int|
                m.keeps(t) && t != pdpt ==> #[trigger] (after.mem)(t, i) == (m.mem)(t, i)
            &&& forall|i: int|
                i < slot || i >= slots ==> #[trigger] (after.mem)(pdpt, i) == (m.mem)(pdpt, i)
            &&& r is Ok ==> forall|s: int|
                slot <= s < slots ==> #[trigger] gib_built(after, pdpt, s, ranges)
        }),
    decreases slots - slot,
{
    let (after, r) = m.identity_slots(pdpt, slot, slots, ranges, tally);
    if slot < slots {
        a_new_table_is_empty_and_its_own(m);
        let made = m.new_table().0;
        assert forall|t: u64| m.keeps(t) implies #[trigger] made.keeps(t) by {}
        if let Ok(directory) = m.new_table().1 {
            let counted = Tally { tables: tally.tables + 1, ..tally };
            assert(made.keeps(pdpt) && made.keeps(m.root));
            identity_directory_is_built(made, pdpt, directory, slot, 0, ranges, counted);
            let (filled, r) = made.identity_directory(directory, slot, 0, ranges, counted);
            assert forall|t: u64| m.keeps(t) implies #[trigger] filled.keeps(t) by {
                assert(made.keeps(t));
            }
            assert forall|t: u64, i: int| m.keeps(t) implies #[trigger] (filled.mem)(t, i) == (
            m.mem)(t, i) by {
                assert(made.keeps(t));
            }
            if let Ok(tally) = r {
                path_entry_links(directory, false);
                let next = filled.put(pdpt, slot, link_entry(directory));
                assert(next.sound());
                assert(filled.keeps(directory));
                assert(next.keeps(directory) && next.keeps(pdpt)) by {
                    assert(filled.keeps(pdpt));
                }
                assert(filled.keeps(m.root));
                assert((next.mem)(pdpt, slot) == link_entry(directory));
                assert forall|e: int| 0 <= e < 512 implies #[trigger] chunk_built(
                    next,
                    pdpt,
                    directory,
                    slot,
                    e,
                    ranges,
                ) by {
                    assert(chunk_built(filled, pdpt, directory, slot, e, ranges));
                }
                assert(gib_built(next, pdpt, slot, ranges));
                identity_slots_are_built(next, pdpt, slot + 1, slots, ranges, tally);
                a_built_gib_stays(next, after, pdpt, slot, ranges);
                assert forall|t: u64, i: int| m.keeps(t) && t != pdpt implies #[trigger] (
                after.mem)(t, i) == (m.mem)(t, i) by {
                    assert(filled.keeps(t));
                    assert(next.keeps(t));
                    assert((filled.mem)(t, i) == (m.mem)(t, i));
                }
                assert forall|t: u64| m.keeps(t) implies #[trigger] after.keeps(t) by {
                    assert(filled.keeps(t));
                    assert(next.keeps(t));
                }
                assert forall|i: int| i < slot || i >= slots implies #[trigger] (after.mem)(pdpt, i)
                    == (m.mem)(pdpt, i) by {
                    assert((filled.mem)(pdpt, i) == (m.mem)(pdpt, i));
                    assert((next.mem)(pdpt, i) == (filled.mem)(pdpt, i));
                }
            }
        }
    }
}

/// What building the identity map does to every table that is not its own:
/// nothing, but for the lower half of the root once all is built.
pub proof fn building_the_identity_map_writes_only_its_own_tables(
    m: Machine,
    limit: u64,
    ranges: Seq<MappedRange>,
    t: u64,
    i: int,
)
    requires
        m.sound(),
        m.keeps(t),
        m.keeps(m.root),
    ensures
        (m.rebuild_identity(limit, ranges).0.mem)(t, i) != (m.mem)(t, i) ==> {
            &&& m.rebuild_identity(limit, ranges).1 is Ok
            &&& t == m.root
            &&& i < KERNEL_SLOT
        },
        m.rebuild_identity(limit, ranges).0.sound(),
        m.rebuild_identity(limit, ranges).0.keeps(t),
        m.rebuild_identity(limit, ranges).0.root == m.root,
{
    if good_limit(limit) && all_below(ranges, limit) {
        a_new_table_is_empty_and_its_own(m);
        let made = m.new_table().0;
        assert(made.keeps(t) && made.keeps(m.root));
        if let Ok(pdpt) = m.new_table().1 {
            let slots = limit as int / GIB as int;
            let first = Tally { tables: 1, executable: 0, read_only: 0 };
            identity_slots_are_built(made, pdpt, 0, slots, ranges, first);
            let built = made.identity_slots(pdpt, 0, slots, ranges, first).0;
            assert(built.keeps(t));
            assert((built.mem)(t, i) == (made.mem)(t, i));
        }
    }
}

/// The start of the page that holds `va`.
pub open spec fn page_of(va: u64) -> int {
    va as int - va as int % PAGE as int
}

/// What an address of the identity map leads to.
spec fn leads_to_itself(leaf: Option<Leaf>, ranges: Seq<MappedRange>, va: u64) -> bool {
    match leaf {
        Some(leaf) => {
            &&& va >= PAGE
            &&& leaf.phys == va
            &&& leaf.writable == !only_code(ranges, page_of(va))
            &&& leaf.executable == runs_code(ranges, page_of(va))
            &&& !leaf.user
            &&& leaf.cache == 0
            &&& leaf.page_size == if fine_grained(ranges, va as int - va as int % LARGE_PAGE as int) {
                PAGE
            } else {
                LARGE_PAGE
            }
        },
        None => va < PAGE,
    }
}

/// An address below 512 GiB, put together from its indices.
pub proof fn parts_of_an_address(va: u64)
    requires
        va < 0x80_0000_0000,
    ensures
        index_at(va as int, 0) == 0,
        index_at(va as int, 1) == va as int / GIB as int,
        large_base(va as int / GIB as int, index_at(va as int, 2)) == va as int - va as int
            % LARGE_PAGE as int,
        large_base(va as int / GIB as int, index_at(va as int, 2)) % 0x20_0000 == 0,
        large_base(va as int / GIB as int, index_at(va as int, 2)) + index_at(va as int, 3) * PAGE
            == page_of(va),
        page_of(va) + PAGE <= large_base(va as int / GIB as int, index_at(va as int, 2))
            + LARGE_PAGE,
{
    let v = va as int;
    assert(v / 0x20_0000 / 0x200 == v / 0x4000_0000);
    assert(v / 0x1000 / 0x200 == v / 0x20_0000);
    let base = large_base(v / GIB as int, index_at(v, 2));
    assert(base == (v / 0x4000_0000 * 512 + index_at(v, 2)) * 0x20_0000);
    assert(v / 0x4000_0000 * 512 + index_at(v, 2) == v / 0x20_0000);
    assert(base == v / 0x20_0000 * 0x20_0000);
    assert(v / 0x20_0000 * 512 + index_at(v, 3) == v / 0x1000);
}

/// The walk through a table of last-level entries.
proof fn a_table_leads(mem: Memory, t: u64, ranges: Seq<MappedRange>, va: u64)
    requires
        va < 0x80_0000_0000,
        mem(t, index_at(va as int, 3)) == identity_entry(ranges, page_of(va)),
        fine_grained(ranges, va as int - va as int % LARGE_PAGE as int),
    ensures
        leads_to_itself(walk(mem, t, 3, va), ranges, va),
{
    an_empty_entry_is_not_present();
    if page_of(va) != 0 {
        identity_entry_maps(ranges, page_of(va));
    }
}

/// The walk through a directory of the identity map.
proof fn a_chunk_leads(
    built: Machine,
    mem: Memory,
    pdpt: u64,
    directory: u64,
    ranges: Seq<MappedRange>,
    va: u64,
)
    requires
        va < 0x80_0000_0000,
        chunk_built(
            built,
            pdpt,
            directory,
            va as int / GIB as int,
            index_at(va as int, 2),
            ranges,
        ),
        directory != built.root,
        forall|t: u64, i: int| t != built.root ==> #[trigger] mem(t, i) == (built.mem)(t, i),
    ensures
        leads_to_itself(walk(mem, directory, 2, va), ranges, va),
{
    let slot = va as int / GIB as int;
    let entry = index_at(va as int, 2);
    let index = index_at(va as int, 3);
    let base = large_base(slot, entry);
    parts_of_an_address(va);
    assert(mem(directory, entry) == (built.mem)(directory, entry));
    if fine_grained(ranges, base) {
        let t = target((built.mem)(directory, entry));
        path_entry_links(t, false);
        assert(mem(t, index) == (built.mem)(t, index));
        a_table_leads(mem, t, ranges, va);
    } else {
        large_entry_bits(base as u64);
        plain_data(ranges, base, page_of(va));
    }
}

/// The walk through the identity map below the root.
proof fn a_gib_leads(built: Machine, mem: Memory, pdpt: u64, ranges: Seq<MappedRange>, va: u64)
    requires
        va < 0x80_0000_0000,
        gib_built(built, pdpt, va as int / GIB as int, ranges),
        pdpt != built.root,
        forall|t: u64, i: int| t != built.root ==> #[trigger] mem(t, i) == (built.mem)(t, i),
    ensures
        leads_to_itself(walk(mem, pdpt, 1, va), ranges, va),
{
    let slot = va as int / GIB as int;
    assert(index_at(va as int, 1) == slot);
    let d = target((built.mem)(pdpt, slot));
    path_entry_links(d, false);
    assert(mem(pdpt, slot) == (built.mem)(pdpt, slot));
    assert(chunk_built(built, pdpt, d, slot, index_at(va as int, 2), ranges));
    a_chunk_leads(built, mem, pdpt, d, ranges, va);
}

/// The walk through the identity map never comes to the root.
pub(super) proof fn a_gib_avoids_the_root(
    built: Machine,
    mem: Memory,
    pdpt: u64,
    ranges: Seq<MappedRange>,
    va: u64,
)
    requires
        va < 0x80_0000_0000,
        gib_built(built, pdpt, va as int / GIB as int, ranges),
        pdpt != built.root,
        forall|t: u64, i: int| t != built.root ==> #[trigger] mem(t, i) == (built.mem)(t, i),
    ensures
        !visits(mem, pdpt, 1, va, built.root),
{
    let slot = va as int / GIB as int;
    let entry = index_at(va as int, 2);
    let base = large_base(slot, entry);
    parts_of_an_address(va);
    let d = target((built.mem)(pdpt, slot));
    path_entry_links(d, false);
    assert(mem(pdpt, slot) == (built.mem)(pdpt, slot));
    assert(chunk_built(built, pdpt, d, slot, entry, ranges));
    assert(mem(d, entry) == (built.mem)(d, entry));
    if fine_grained(ranges, base) {
        let t = target((built.mem)(d, entry));
        path_entry_links(t, false);
        assert(!visits(mem, t, 3, va, built.root));
    } else {
        large_entry_bits(base as u64);
    }
    assert(!visits(mem, d, 2, va, built.root));
}

/// The rebuilt identity map: every address of the lower half from the first
/// page up to the limit leads to itself, write-back, for the kernel alone. It
/// can be executed exactly where the page holds code, and written unless the page
/// is code and nothing else. The null page leads nowhere, and neither does
/// anything from the limit up.
pub proof fn the_identity_map_is_the_identity(
    m: Machine,
    limit: u64,
    ranges: Seq<MappedRange>,
    va: u64,
)
    requires
        m.sound(),
        m.keeps(m.root),
        m.rebuild_identity(limit, ranges).1 is Ok,
        va < 0x8000_0000_0000,
    ensures
        match lookup(m.rebuild_identity(limit, ranges).0.mem, m.root, va) {
            Some(leaf) => {
                &&& PAGE <= va < limit
                &&& leaf.phys == va
                &&& leaf.writable == !only_code(ranges, page_of(va))
                &&& leaf.executable == runs_code(ranges, page_of(va))
                &&& !leaf.user
                &&& leaf.cache == 0
                &&& leaf.page_size == if fine_grained(
                    ranges,
                    va as int - va as int % LARGE_PAGE as int,
                ) {
                    PAGE
                } else {
                    LARGE_PAGE
                }
            },
            None => va < PAGE || va >= limit,
        },
{
    let after = m.rebuild_identity(limit, ranges).0;
    a_new_table_is_empty_and_its_own(m);
    let (made, pdpt) = (m.new_table().0, m.new_table().1->Ok_0);
    let slots = limit as int / GIB as int;
    let first = Tally { tables: 1, executable: 0, read_only: 0 };
    assert(slots * GIB == limit);
    identity_slots_are_built(made, pdpt, 0, slots, ranges, first);
    let built = made.identity_slots(pdpt, 0, slots, ranges, first).0;
    an_empty_entry_is_not_present();
    path_entry_links(pdpt, false);
    let slot = index_at(va as int, 0);
    assert(0 <= slot < 256);
    assert(made.keeps(m.root));
    assert(pdpt != m.root);
    assert forall|t: u64, i: int| t != m.root implies #[trigger] (after.mem)(t, i) == (built.mem)(
        t,
        i,
    ) by {}
    if slot == 0 {
        assert((after.mem)(m.root, 0) == link_entry(pdpt));
        assert(index_at(va as int, 1) == va as int / GIB as int);
        if va < limit {
            assert(gib_built(built, pdpt, va as int / GIB as int, ranges));
            a_gib_leads(built, after.mem, pdpt, ranges, va);
        } else {
            assert((after.mem)(pdpt, va as int / GIB as int) == (built.mem)(
                pdpt,
                va as int / GIB as int,
            ));
        }
    } else {
        assert((after.mem)(m.root, slot) == 0);
    }
}

/// A page of 2 MiB that no range reaches into holds no code and is not
/// covered.
pub proof fn plain_data(ranges: Seq<MappedRange>, base: int, page: int)
    requires
        !any_meets(ranges, base, base + LARGE_PAGE),
        base <= page,
        page + PAGE <= base + LARGE_PAGE,
    ensures
        !runs_code(ranges, page),
        !only_code(ranges, page),
{
    if runs_code(ranges, page) {
        let k = choose|k: int|
            0 <= k < ranges.len() && (#[trigger] ranges[k]).executable && ranges[k].range.meets(
                page,
                page + PAGE,
            );
        assert(ranges[k].range.meets(base, base + LARGE_PAGE));
    }
    if only_code(ranges, page) {
        let k = choose|k: int|
            0 <= k < ranges.len() && (#[trigger] ranges[k]).executable && ranges[k].range.holds(page)
                && ranges[k].range.limit() >= page + PAGE;
        assert(ranges[k].range.meets(base, base + LARGE_PAGE));
    }
}

/// Whether the walk of `va` comes back to the root after leaving it.
pub open spec fn returns_to_root(mem: Memory, root: u64, va: u64) -> bool {
    let entry = mem(root, index_at(va as int, 0));
    is_present(entry) && !is_huge(entry) && visits(mem, target(entry), 1, va, root)
}

/// Where nothing but the lower half of the root has changed, kernel space
/// has not.
pub proof fn the_upper_half_stays(m: Machine, after: Memory, va: u64)
    requires
        va >= KERNEL_SPACE_BASE,
        m.keeps_walk(va),
        !returns_to_root(m.mem, m.root, va),
        forall|t: u64, i: int|
            m.keeps(t) && #[trigger] after(t, i) != (m.mem)(t, i) ==> t == m.root && i < KERNEL_SLOT,
    ensures
        lookup(after, m.root, va) == lookup(m.mem, m.root, va),
{
    let slot = index_at(va as int, 0);
    assert(slot >= KERNEL_SLOT);
    let entry = (m.mem)(m.root, slot);
    assert(visits(m.mem, m.root, 0, va, m.root));
    assert(after(m.root, slot) == entry);
    if is_present(entry) && !is_huge(entry) {
        let next = target(entry);
        assert forall|t: u64, i: int| visits(m.mem, next, 1, va, t) implies #[trigger] after(t, i)
            == (m.mem)(t, i) by {
            assert(visits(m.mem, m.root, 0, va, t));
        }
        a_walk_reads_only_its_tables(m.mem, after, next, 1, va);
    }
}

/// Rebuilding the identity map, or failing to, keeps kernel space as it was.
pub proof fn rebuilding_keeps_kernel_space(
    m: Machine,
    limit: u64,
    ranges: Seq<MappedRange>,
    va: u64,
)
    requires
        m.sound(),
        va >= KERNEL_SPACE_BASE,
        m.keeps_walk(va),
        !returns_to_root(m.mem, m.root, va),
    ensures
        lookup(m.rebuild_identity(limit, ranges).0.mem, m.root, va) == lookup(m.mem, m.root, va),
{
    let after = m.rebuild_identity(limit, ranges).0;
    assert(visits(m.mem, m.root, 0, va, m.root));
    assert forall|t: u64, i: int|
        m.keeps(t) && #[trigger] (after.mem)(t, i) != (m.mem)(t, i) implies t == m.root && i
        < KERNEL_SLOT by {
        building_the_identity_map_writes_only_its_own_tables(m, limit, ranges, t, i);
    }
    the_upper_half_stays(m, after.mem, va);
}

/// An identity map that could not be built leaves every translation as it
/// was.
pub proof fn a_failed_rebuild_changes_no_translation(
    m: Machine,
    limit: u64,
    ranges: Seq<MappedRange>,
    va: u64,
)
    requires
        m.sound(),
        m.keeps_walk(va),
        m.rebuild_identity(limit, ranges).1 is Err,
    ensures
        lookup(m.rebuild_identity(limit, ranges).0.mem, m.root, va) == lookup(m.mem, m.root, va),
{
    let after = m.rebuild_identity(limit, ranges).0;
    assert(visits(m.mem, m.root, 0, va, m.root));
    assert forall|t: u64, i: int| visits(m.mem, m.root, 0, va, t) implies #[trigger] (after.mem)(
        t,
        i,
    ) == (m.mem)(t, i) by {
        building_the_identity_map_writes_only_its_own_tables(m, limit, ranges, t, i);
    }
    a_walk_reads_only_its_tables(m.mem, after.mem, m.root, 0, va);
}

/// The map in use loses no translation while the new one is built: whatever
/// part of it is there, until it is linked every address leads where it did.
pub proof fn the_old_map_stays_while_the_new_one_is_built(
    m: Machine,
    slots: int,
    ranges: Seq<MappedRange>,
    va: u64,
)
    requires
        m.sound(),
        m.keeps_walk(va),
        m.new_table().1 is Ok,
        0 <= slots <= 512,
    ensures
        ({
            let (made, pdpt) = (m.new_table().0, m.new_table().1->Ok_0);
            let first = Tally { tables: 1, executable: 0, read_only: 0 };
            let built = made.identity_slots(pdpt, 0, slots, ranges, first).0;
            &&& lookup(made.mem, m.root, va) == lookup(m.mem, m.root, va)
            &&& lookup(built.mem, m.root, va) == lookup(m.mem, m.root, va)
        }),
{
    let (made, pdpt) = (m.new_table().0, m.new_table().1->Ok_0);
    let first = Tally { tables: 1, executable: 0, read_only: 0 };
    let built = made.identity_slots(pdpt, 0, slots, ranges, first).0;
    a_new_table_is_empty_and_its_own(m);
    assert(visits(m.mem, m.root, 0, va, m.root));
    assert(made.keeps(m.root));
    identity_slots_are_built(made, pdpt, 0, slots, ranges, first);
    assert forall|t: u64, i: int| visits(m.mem, m.root, 0, va, t) implies #[trigger] (made.mem)(
        t,
        i,
    ) == (m.mem)(t, i) by {}
    a_walk_reads_only_its_tables(m.mem, made.mem, m.root, 0, va);
    assert forall|t: u64, i: int| visits(m.mem, m.root, 0, va, t) implies #[trigger] (built.mem)(
        t,
        i,
    ) == (m.mem)(t, i) by {
        assert(made.keeps(t));
        assert((made.mem)(t, i) == (m.mem)(t, i));
    }
    a_walk_reads_only_its_tables(m.mem, built.mem, m.root, 0, va);
}

/// Write xor execute: where every range starts and ends on a page boundary
/// and no range that is written shares a page with one that is executed, no
/// address of the identity map can be both written and executed.
pub proof fn nothing_is_both_writable_and_executable(
    m: Machine,
    limit: u64,
    ranges: Seq<MappedRange>,
    va: u64,
)
    requires
        m.sound(),
        m.keeps(m.root),
        m.rebuild_identity(limit, ranges).1 is Ok,
        va < 0x8000_0000_0000,
        forall|k: int|
            0 <= k < ranges.len() ==> (#[trigger] ranges[k]).range.start.0 % PAGE == 0
                && ranges[k].range.len % PAGE == 0,
        forall|k: int, j: int|
            0 <= k < ranges.len() && 0 <= j < ranges.len() && (#[trigger] ranges[k]).executable && (
            #[trigger] ranges[j]).writable ==> !ranges[k].range.meets(
                ranges[j].range.start.0 as int,
                ranges[j].range.limit(),
            ),
    ensures
        lookup(m.rebuild_identity(limit, ranges).0.mem, m.root, va) matches Some(leaf) ==> !(
        leaf.writable && leaf.executable),
{
    the_identity_map_is_the_identity(m, limit, ranges, va);
    let page = page_of(va);
    if runs_code(ranges, page) {
        let k = choose|k: int|
            0 <= k < ranges.len() && (#[trigger] ranges[k]).executable && ranges[k].range.meets(
                page,
                page + PAGE,
            );
        assert(ranges[k].range.len != 0);
        assert(ranges[k].range.start.0 % PAGE == 0 && ranges[k].range.len % PAGE == 0);
        assert(ranges[k].range.limit() % PAGE as int == 0);
        assert(page % PAGE as int == 0);
        assert(ranges[k].range.holds(page) && ranges[k].range.limit() >= page + PAGE);
        if any_writes(ranges, page, page + PAGE) {
            let j = choose|j: int|
                0 <= j < ranges.len() && (#[trigger] ranges[j]).writable && ranges[j].range.meets(
                    page,
                    page + PAGE,
                );
            assert(ranges[j].range.len != 0);
            assert(ranges[j].range.start.0 % PAGE == 0 && ranges[j].range.len % PAGE == 0);
            assert(ranges[j].range.limit() % PAGE as int == 0);
            assert(ranges[j].range.holds(page));
        }
        assert(code_covers(ranges, page, page + PAGE));
    }
}

/// The pages mapped read-only are among the ones left executable.
pub proof fn read_only_pages_are_executable(ranges: Seq<MappedRange>, base: int, n: int)
    ensures
        forall|page: int| only_code(ranges, page) ==> runs_code(ranges, page),
        read_only_pages(ranges, base, n) <= code_pages(ranges, base, n),
    decreases n,
{
    assert forall|page: int| only_code(ranges, page) implies runs_code(ranges, page) by {
        let k = choose|k: int|
            0 <= k < ranges.len() && (#[trigger] ranges[k]).executable && ranges[k].range.holds(page)
                && ranges[k].range.limit() >= page + PAGE;
        assert(ranges[k].range.meets(page, page + PAGE));
    }
    if n > 0 {
        read_only_pages_are_executable(ranges, base, n - 1);
    }
}

/// The directory of one GiB of the window onto physical memory.
pub open spec fn window_directory(m: Machine, pdpt: u64, slot: int) -> u64 {
    target((m.mem)(pdpt, slot))
}

/// One GiB of the window onto physical memory.
pub open spec fn window_built(m: Machine, pdpt: u64, slot: int) -> bool {
    let d = window_directory(m, pdpt, slot);
    &&& (m.mem)(pdpt, slot) == link_entry(d)
    &&& is_frame(d)
    &&& m.keeps(d)
    &&& d != pdpt
    &&& d != m.root
    &&& forall|e: int|
        0 <= e < 512 ==> #[trigger] (m.mem)(d, e) == large_entry(large_base(slot, e) as u64)
}

pub proof fn window_slots_are_built(m: Machine, pdpt: u64, slot: int, slots: int, tables: int)
    requires
        m.sound(),
        m.keeps(pdpt),
        m.keeps(m.root),
        0 <= slot <= slots <= 512,
    ensures
        ({
            let (after, r) = m.window_slots(pdpt, slot, slots, tables);
            &&& after.sound()
            &&& after.root == m.root
            &&& forall|t: u64| m.keeps(t) ==> #[trigger] after.keeps(t)
            &&& forall|t: u64, i: int|
                m.keeps(t) && t != pdpt ==> #[trigger] (after.mem)(t, i) == (m.mem)(t, i)
            &&& forall|i: int|
                i < slot || i >= slots ==> #[trigger] (after.mem)(pdpt, i) == (m.mem)(pdpt, i)
            &&& r is Ok ==> r->Ok_0 == tables + slots - slot
            &&& r is Ok ==> forall|s: int|
                slot <= s < slots ==> #[trigger] window_built(after, pdpt, s)
            &&& r is Ok ==> forall|s: int|
                slot <= s < slots ==> !m.keeps(#[trigger] window_directory(after, pdpt, s))
            &&& r is Ok ==> forall|s: int, u: int|
                slot <= s < u < slots ==> #[trigger] window_directory(after, pdpt, s)
                    != #[trigger] window_directory(after, pdpt, u)
        }),
    decreases slots - slot,
{
    let (after, r) = m.window_slots(pdpt, slot, slots, tables);
    if slot < slots {
        a_new_table_is_empty_and_its_own(m);
        let made = m.new_table().0;
        assert forall|t: u64| m.keeps(t) implies #[trigger] made.keeps(t) by {}
        if let Ok(directory) = m.new_table().1 {
            path_entry_links(directory, false);
            let filled = made.fill(directory, 0, 512, window_entries(slot));
            let next = filled.put(pdpt, slot, link_entry(directory));
            assert(next.sound());
            assert(made.keeps(directory) && made.keeps(pdpt) && made.keeps(m.root));
            assert(next.keeps(directory) && next.keeps(pdpt) && next.keeps(next.root));
            assert((next.mem)(pdpt, slot) == link_entry(directory));
            assert(window_built(next, pdpt, slot));
            window_slots_are_built(next, pdpt, slot + 1, slots, tables + 1);
            assert forall|t: u64| m.keeps(t) implies #[trigger] after.keeps(t) by {
                assert(made.keeps(t));
                assert(next.keeps(t));
            }
            assert forall|t: u64, i: int| m.keeps(t) && t != pdpt implies #[trigger] (after.mem)(
                t,
                i,
            ) == (m.mem)(t, i) by {
                assert(made.keeps(t));
                assert(next.keeps(t));
            }
            assert forall|i: int| i < slot || i >= slots implies #[trigger] (after.mem)(pdpt, i) == (
            m.mem)(pdpt, i) by {
                assert((next.mem)(pdpt, i) == (m.mem)(pdpt, i));
            }
            assert forall|e: int| 0 <= e < 512 implies #[trigger] (after.mem)(directory, e)
                == large_entry(large_base(slot, e) as u64) by {
                assert((next.mem)(directory, e) == large_entry(large_base(slot, e) as u64));
            }
            assert(after.keeps(directory));
            assert((after.mem)(pdpt, slot) == (next.mem)(pdpt, slot));
            assert(window_built(after, pdpt, slot));
            assert(window_directory(after, pdpt, slot) == directory);
            if r is Ok {
                assert forall|s: int| slot <= s < slots implies !m.keeps(
                    #[trigger] window_directory(after, pdpt, s),
                ) by {
                    let d = window_directory(after, pdpt, s);
                    if m.keeps(d) {
                        assert(made.keeps(d));
                        assert(next.keeps(d));
                    }
                }
            }
        }
    }
}

/// What opening the window does to every table that is not its own: nothing,
/// but for its slot of the root once all is built.
pub proof fn opening_the_window_writes_only_its_own_tables(
    m: Machine,
    base: u64,
    limit: u64,
    t: u64,
    i: int,
)
    requires
        m.sound(),
        m.keeps(t),
        m.keeps(m.root),
    ensures
        (m.map_physical_window(base, limit).0.mem)(t, i) != (m.mem)(t, i) ==> {
            &&& m.map_physical_window(base, limit).1 is Ok
            &&& t == m.root
            &&& i == index_at(base as int, 0)
        },
        m.map_physical_window(base, limit).0.sound(),
        m.map_physical_window(base, limit).0.keeps(t),
        m.map_physical_window(base, limit).0.root == m.root,
{
    let slot = index_at(base as int, 0);
    if good_limit(limit) && !(base < KERNEL_SPACE_BASE || base as int % (512 * GIB) != 0)
        && !is_present((m.mem)(m.root, slot)) {
        a_new_table_is_empty_and_its_own(m);
        let made = m.new_table().0;
        assert(made.keeps(t) && made.keeps(m.root));
        if let Ok(pdpt) = m.new_table().1 {
            let slots = limit as int / GIB as int;
            window_slots_are_built(made, pdpt, 0, slots, 1);
            let built = made.window_slots(pdpt, 0, slots, 1).0;
            assert(built.keeps(t));
            assert((built.mem)(t, i) == (made.mem)(t, i));
        }
    }
}

/// The window reaches all of memory below the limit, writable, for the
/// kernel alone, and runs none of it. Past the limit it leads nowhere.
pub proof fn the_window_reaches_all_of_memory_and_runs_none(
    m: Machine,
    base: u64,
    limit: u64,
    offset: u64,
)
    requires
        m.sound(),
        m.keeps(m.root),
        m.map_physical_window(base, limit).1 is Ok,
        offset < 512 * GIB,
    ensures
        base + offset <= u64::MAX,
        lookup(m.map_physical_window(base, limit).0.mem, m.root, (base + offset) as u64)
            == if offset < limit {
            Some(
                Leaf {
                    phys: offset as int,
                    writable: true,
                    executable: false,
                    user: false,
                    cache: 0,
                    page_size: LARGE_PAGE,
                },
            )
        } else {
            None
        },
        m.map_physical_window(base, limit).1->Ok_0 == 1 + limit / GIB,
{
    let after = m.map_physical_window(base, limit).0;
    let va = (base + offset) as u64;
    assert(base <= 0xFFFF_FF80_0000_0000u64);
    a_new_table_is_empty_and_its_own(m);
    let (made, pdpt) = (m.new_table().0, m.new_table().1->Ok_0);
    let slots = limit as int / GIB as int;
    assert(slots * GIB == limit);
    assert(made.keeps(m.root));
    window_slots_are_built(made, pdpt, 0, slots, 1);
    let built = made.window_slots(pdpt, 0, slots, 1).0;
    an_empty_entry_is_not_present();
    path_entry_links(pdpt, false);
    window_indices(base, offset);
    parts_of_an_address(offset);
    let gib = index_at(va as int, 1);
    let entry = index_at(va as int, 2);
    assert((after.mem)(m.root, index_at(va as int, 0)) == link_entry(pdpt));
    assert((after.mem)(pdpt, gib) == (built.mem)(pdpt, gib));
    if offset < limit {
        assert(window_built(built, pdpt, gib));
        let d = target((built.mem)(pdpt, gib));
        path_entry_links(d, false);
        assert((after.mem)(d, entry) == (built.mem)(d, entry));
        assert((built.mem)(d, entry) == large_entry(large_base(gib, entry) as u64));
        large_entry_bits(large_base(gib, entry) as u64);
        assert(va as int % LARGE_PAGE as int == offset as int % LARGE_PAGE as int);
        assert(walk(after.mem, d, 2, va) == Some(
            Leaf {
                phys: offset as int,
                writable: true,
                executable: false,
                user: false,
                cache: 0,
                page_size: LARGE_PAGE,
            },
        ));
        assert(walk(after.mem, pdpt, 1, va) == walk(after.mem, d, 2, va));
    } else {
        assert(walk(after.mem, pdpt, 1, va) is None);
    }
}

/// The indices of an address inside a window that starts at a root slot.
proof fn window_indices(base: u64, offset: u64)
    requires
        base as int % (512 * GIB) == 0,
        base >= KERNEL_SPACE_BASE,
        offset < 512 * GIB,
    ensures
        base + offset <= u64::MAX,
        index_at(base + offset, 0) == index_at(base as int, 0),
        index_at(base + offset, 1) == index_at(offset as int, 1),
        index_at(base + offset, 2) == index_at(offset as int, 2),
        (base + offset) % LARGE_PAGE as int == offset as int % LARGE_PAGE as int,
{
    let k = base as int / 0x80_0000_0000;
    let o = offset as int;
    assert(base == k * 0x80_0000_0000);
    lemma_hoist_over_denominator(o, k, 0x80_0000_0000);
    lemma_hoist_over_denominator(o, k * 512, 0x4000_0000);
    lemma_hoist_over_denominator(o, k * 0x4_0000, 0x20_0000);
    lemma_mod_multiples_vanish(k, o / 0x4000_0000, 512);
    lemma_mod_multiples_vanish(k * 512, o / 0x20_0000, 512);
    lemma_mod_multiples_vanish(k * 0x4_0000, o, 0x20_0000);
    assert(k * 512 * 0x4000_0000 == base);
    assert(k * 0x4_0000 * 0x20_0000 == base);
    assert(base + offset <= u64::MAX) by {
        assert(k < 0x200_0000);
    }
    assert((base + o) / 0x80_0000_0000 == k);
}

/// Opening the window, or failing to, moves no address outside its slot.
pub proof fn opening_the_window_moves_no_other_address(
    m: Machine,
    base: u64,
    limit: u64,
    va: u64,
)
    requires
        m.sound(),
        m.keeps_walk(va),
        !returns_to_root(m.mem, m.root, va),
        index_at(va as int, 0) != index_at(base as int, 0),
    ensures
        lookup(m.map_physical_window(base, limit).0.mem, m.root, va) == lookup(m.mem, m.root, va),
{
    let after = m.map_physical_window(base, limit).0;
    let slot = index_at(va as int, 0);
    let entry = (m.mem)(m.root, slot);
    assert(visits(m.mem, m.root, 0, va, m.root));
    opening_the_window_writes_only_its_own_tables(m, base, limit, m.root, slot);
    if is_present(entry) && !is_huge(entry) {
        let next = target(entry);
        assert forall|t: u64, i: int| visits(m.mem, next, 1, va, t) implies #[trigger] (after.mem)(
            t,
            i,
        ) == (m.mem)(t, i) by {
            assert(visits(m.mem, m.root, 0, va, t));
            opening_the_window_writes_only_its_own_tables(m, base, limit, t, i);
        }
        a_walk_reads_only_its_tables(m.mem, after.mem, next, 1, va);
    }
}

} // verus!
