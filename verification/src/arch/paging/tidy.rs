//! What every operation on the tables keeps: each entry has one place, every
//! table on the way of an address is in use, and no walk comes back to the
//! root.

use super::halves::{
    building_the_identity_map_writes_only_its_own_tables, large_entry_bits,
    opening_the_window_writes_only_its_own_tables, returns_to_root, window_built, window_directory,
    window_slots_are_built,
};
use super::kept::keeping_writes_only_its_own_tables;
use super::plan::{
    large_base, large_entry, link_entry,
};
use super::laws::{
    a_new_table_is_empty_and_its_own, agreeing_below, an_empty_entry_is_not_present, is_frame,
    leaving_the_path, map_from_effect, one_place, one_place_from, opened_entry_bits,
    opening_keeps_the_path, path_entry_links, reads_at, reads_below, reads_between, reads_entry,
};
use super::model::{
    canonical, index_at, is_huge, is_present, is_user, page_size, path_entry, put, target,
    unmap_table, visits, GIB, KERNEL_SLOT, KERNEL_SPACE_BASE, Machine, Memory, USER,
};
use crate::hal::paging::{MappedRange, PageFlags};
use vstd::prelude::*;

verus! {

/// The tables are tidy as far as the addresses from `low` up are concerned:
/// all of them where `low` is zero, kernel space alone where it is the start
/// of kernel space.
pub open spec fn tidy(m: Machine, low: u64) -> bool {
    &&& m.sound()
    &&& forall|a: u64| a >= low && canonical(a) ==> #[trigger] m.keeps_walk(a)
    &&& forall|a: u64| a >= low && canonical(a) ==> !#[trigger] returns_to_root(m.mem, m.root, a)
    &&& forall|a: u64, b: u64|
        a >= low && b >= low && canonical(a) && canonical(b) ==> #[trigger] one_place(
            m.mem,
            m.root,
            a,
            b,
        )
}

/// A table that a walk visits has an entry that the walk reads.
proof fn a_visited_table_is_read(mem: Memory, table: u64, level: nat, va: u64, t: u64)
    requires
        level <= 3,
        visits(mem, table, level, va, t),
    ensures
        exists|l: nat|
            level <= l <= 3 && #[trigger] reads_at(
                mem,
                table,
                level,
                va,
                l,
                t,
                index_at(va as int, l as int),
            ),
    decreases 3 - level,
{
    let index = index_at(va as int, level as int);
    if table == t {
        assert(reads_at(mem, table, level, va, level, t, index));
    } else {
        let next = target(mem(table, index));
        let below = level + 1;
        a_visited_table_is_read(mem, next, below, va, t);
        let l = choose|l: nat|
            below <= l <= 3 && #[trigger] reads_at(
                mem,
                next,
                below,
                va,
                l,
                t,
                index_at(va as int, l as int),
            );
        assert(reads_at(mem, table, level, va, l, t, index_at(va as int, l as int)));
    }
}

/// A walk that comes back to the root reads an entry of it further down.
proof fn a_returning_walk_reads_the_root(mem: Memory, root: u64, va: u64) -> (l: nat)
    requires
        returns_to_root(mem, root, va),
    ensures
        1 <= l <= 3,
        reads_at(mem, root, 0, va, l, root, index_at(va as int, l as int)),
{
    let next = target(mem(root, index_at(va as int, 0)));
    a_visited_table_is_read(mem, next, 1, va, root);
    let l = choose|l: nat|
        1 <= l <= 3 && #[trigger] reads_at(
            mem,
            next,
            1,
            va,
            l,
            root,
            index_at(va as int, l as int),
        );
    assert(reads_at(mem, root, 0, va, l, root, index_at(va as int, l as int)));
    l
}

/// And the other way round.
proof fn reading_the_root_again_is_returning(mem: Memory, root: u64, va: u64, l: nat, i: int)
    requires
        1 <= l,
        reads_at(mem, root, 0, va, l, root, i),
    ensures
        returns_to_root(mem, root, va),
{
    let next = target(mem(root, index_at(va as int, 0)));
    assert(reads_at(mem, next, 1, va, l, root, i));
    reads_between(mem, next, 1, va, l, root, i);
}

/// Which entries a walk reads depends on nothing but those entries.
proof fn reading_depends_on_what_is_read(a: Memory, b: Memory, table: u64, level: nat, va: u64)
    requires
        level <= 3,
        forall|t: u64, i: int| reads_entry(a, table, level, va, t, i) ==> #[trigger] b(t, i) == a(t, i),
    ensures
        forall|l: nat, t: u64, i: int| #[trigger]
            reads_at(b, table, level, va, l, t, i) == reads_at(a, table, level, va, l, t, i),
    decreases 3 - level,
{
    let index = index_at(va as int, level as int);
    let entry = a(table, index);
    assert(reads_at(a, table, level, va, level, table, index));
    assert(b(table, index) == entry);
    if level < 3 && is_present(entry) && !is_huge(entry) {
        let next = target(entry);
        let below = level + 1;
        assert forall|t: u64, i: int| reads_entry(a, next, below, va, t, i) implies #[trigger] b(t, i)
            == a(t, i) by {
            reads_below(a, table, level, va, t, i);
        }
        reading_depends_on_what_is_read(a, b, next, below, va);
        assert forall|l: nat, t: u64, i: int| #[trigger]
            reads_at(b, table, level, va, l, t, i) == reads_at(a, table, level, va, l, t, i) by {
            assert(reads_at(b, next, below, va, l, t, i) == reads_at(a, next, below, va, l, t, i));
        }
    }
}

/// What a walk reads after a page has been mapped: what it read before, or a
/// table made for the page, and then it agrees with the page down to there.
proof fn what_is_read_after_mapping(
    m: Machine,
    table: u64,
    level: nat,
    page: u64,
    frame: u64,
    flags: PageFlags,
    upgraded: bool,
    va: u64,
    l: nat,
    t: u64,
    i: int,
)
    requires
        m.sound(),
        level <= 3,
        is_frame(frame),
        forall|t: u64| #[trigger] visits(m.mem, table, level, page, t) ==> m.keeps(t),
        forall|t: u64| #[trigger] visits(m.mem, table, level, va, t) ==> m.keeps(t),
        one_place_from(m.mem, table, level, page, va),
        level > 0 ==> va as int / page_size(level - 1) as int == page as int / page_size(
            level - 1,
        ) as int,
        level == 0 ==> canonical(va) && canonical(page),
        reads_at(
            m.map_from(table, level, page, frame, flags, upgraded).0.mem,
            table,
            level,
            va,
            l,
            t,
            i,
        ),
    ensures
        ({
            let after = m.map_from(table, level, page, frame, flags, upgraded).0;
            ||| m.keeps(t) && reads_at(m.mem, table, level, va, l, t, i)
            ||| !m.keeps(t) && after.keeps(t) && level < l <= 3 && va as int / page_size(l - 1) as int
                == page as int / page_size(l - 1) as int && reads_at(
                after.mem,
                table,
                level,
                page,
                l,
                t,
                index_at(page as int, l as int),
            )
        }),
    decreases 3 - level,
{
    let index = index_at(page as int, level as int);
    let entry = (m.mem)(table, index);
    let (after, r) = m.map_from(table, level, page, frame, flags, upgraded);
    map_from_effect(m, table, level, page, frame, flags, upgraded, page);
    assert(visits(m.mem, table, level, va, table));
    assert(m.keeps(table));
    if index_at(va as int, level as int) != index {
        leaving_the_path(m.mem, table, level, page, va);
        assert forall|u: u64, j: int| reads_entry(m.mem, table, level, va, u, j) implies #[trigger] (
        after.mem)(u, j) == (m.mem)(u, j) by {
            let k = choose|k: nat| reads_at(m.mem, table, level, va, k, u, j);
            reads_between(m.mem, table, level, va, k, u, j);
            assert(m.keeps(u));
        }
        reading_depends_on_what_is_read(m.mem, after.mem, table, level, va);
        reads_between(m.mem, table, level, va, l, t, i);
    } else if l == level && t == table && i == index {
        assert(reads_at(m.mem, table, level, va, l, t, i));
    } else {
        let below = level + 1;
        if level > 0 {
            agreeing_below(va, page, (level - 1) as nat);
        } else {
            assert(va as int / 0x80_0000_0000 == page as int / 0x80_0000_0000);
        }
        if !is_present(entry) {
            a_new_table_is_empty_and_its_own(m);
            an_empty_entry_is_not_present();
            if let (made, Ok(new)) = m.new_table() {
                path_entry_links(new, flags.user);
                opened_entry_bits(path_entry(new, flags.user));
                let linked = made.put(table, index, path_entry(new, flags.user));
                assert(linked.sound());
                assert(made.keeps(table));
                assert(linked.keeps(table) && linked.keeps(new));
                assert((linked.mem)(new, index_at(page as int, below as int)) == 0);
                assert((linked.mem)(new, index_at(va as int, below as int)) == 0);
                map_from_effect_on_a_new_table(linked, new, below, page, va);
                map_from_effect(linked, new, below, page, frame, flags, upgraded, page);
                assert((linked.mem)(table, index) == path_entry(new, flags.user));
                assert(reads_at(after.mem, new, below, va, l, t, i));
                what_is_read_after_mapping(
                    linked,
                    new,
                    below,
                    page,
                    frame,
                    flags,
                    upgraded,
                    va,
                    l,
                    t,
                    i,
                );
                if linked.keeps(t) && reads_at(linked.mem, new, below, va, l, t, i) {
                    assert(t == new && l == below);
                    let j = index_at(page as int, below as int);
                    assert(reads_at(after.mem, new, below, page, below, new, j));
                    assert(reads_at(after.mem, table, level, page, below, new, j));
                } else {
                    if m.keeps(t) {
                        assert(made.keeps(t));
                        assert(linked.keeps(t));
                    }
                    assert(reads_at(
                        after.mem,
                        new,
                        below,
                        page,
                        l,
                        t,
                        index_at(page as int, l as int),
                    ));
                    assert(reads_at(
                        after.mem,
                        table,
                        level,
                        page,
                        l,
                        t,
                        index_at(page as int, l as int),
                    ));
                }
            }
        } else if level < 3 && !is_huge(entry) {
            let opened = if flags.user && !is_user(entry) {
                m.put(table, index, entry | USER)
            } else {
                m
            };
            let next = target(entry);
            opened_entry_bits(entry);
            opening_keeps_the_path(m.mem, opened.mem, next, below, page);
            opening_keeps_the_path(m.mem, opened.mem, next, below, va);
            assert forall|u: u64| #[trigger] visits(opened.mem, next, below, page, u) implies opened.keeps(
                u,
            ) by {
                assert(visits(m.mem, table, level, page, u));
            }
            assert forall|u: u64| #[trigger] visits(opened.mem, next, below, va, u) implies opened.keeps(
                u,
            ) by {
                assert(visits(m.mem, table, level, va, u));
            }
            assert(one_place_from(opened.mem, next, below, page, va)) by {
                assert forall|x: nat, y: nat, u: u64, j: int|
                    #![trigger reads_at(opened.mem, next, below, page, x, u, j), reads_at(
                        opened.mem,
                        next,
                        below,
                        va,
                        y,
                        u,
                        j,
                    )]
                    reads_at(opened.mem, next, below, page, x, u, j) && reads_at(
                        opened.mem,
                        next,
                        below,
                        va,
                        y,
                        u,
                        j,
                    ) implies x == y && page as int / page_size(x as int) as int == va as int
                    / page_size(x as int) as int by {
                    assert(reads_at(m.mem, table, level, page, x, u, j));
                    assert(reads_at(m.mem, table, level, va, y, u, j));
                }
            }
            let now = upgraded || (flags.user && !is_user(entry));
            map_from_effect(opened, next, below, page, frame, flags, now, page);
            assert(opened.keeps(table));
            opened_entry_bits((opened.mem)(table, index));
            assert(reads_at(after.mem, next, below, va, l, t, i));
            what_is_read_after_mapping(
                opened,
                next,
                below,
                page,
                frame,
                flags,
                now,
                va,
                l,
                t,
                i,
            );
            if reads_at(opened.mem, next, below, va, l, t, i) {
                assert(reads_at(m.mem, next, below, va, l, t, i));
                assert(reads_at(m.mem, table, level, va, l, t, i));
            } else {
                let j = index_at(page as int, l as int);
                assert(reads_at(after.mem, next, below, page, l, t, j));
                assert(reads_at(after.mem, table, level, page, l, t, j));
            }
        }
    }
}

/// A table with nothing in it ends every walk at once, so an address that
/// agrees with the page so far has one place in it.
pub(super) proof fn map_from_effect_on_a_new_table(m: Machine, new: u64, level: nat, page: u64, va: u64)
    requires
        1 <= level <= 3,
        m.keeps(new),
        !is_present((m.mem)(new, index_at(page as int, level as int))),
        !is_present((m.mem)(new, index_at(va as int, level as int))),
        va as int / page_size(level - 1) as int == page as int / page_size(level - 1) as int,
    ensures
        forall|t: u64| #[trigger] visits(m.mem, new, level, page, t) ==> m.keeps(t),
        forall|t: u64| #[trigger] visits(m.mem, new, level, va, t) ==> m.keeps(t),
        one_place_from(m.mem, new, level, page, va),
{
    assert forall|x: nat, y: nat, u: u64, j: int|
        #![trigger reads_at(m.mem, new, level, page, x, u, j), reads_at(
            m.mem,
            new,
            level,
            va,
            y,
            u,
            j,
        )]
        reads_at(m.mem, new, level, page, x, u, j) && reads_at(m.mem, new, level, va, y, u, j) implies x
        == y && page as int / page_size(x as int) as int == va as int / page_size(
        x as int,
    ) as int by {
        assert(x == level && y == level);
        agreeing_below(va, page, (level - 1) as nat);
    }
}

/// A table made for a page is on the page's way at one level only.
proof fn new_tables_have_one_level(
    m: Machine,
    table: u64,
    level: nat,
    page: u64,
    frame: u64,
    flags: PageFlags,
    upgraded: bool,
    t: u64,
    l: nat,
    k: nat,
)
    requires
        m.sound(),
        level <= 3,
        is_frame(frame),
        forall|t: u64| #[trigger] visits(m.mem, table, level, page, t) ==> m.keeps(t),
        one_place_from(m.mem, table, level, page, page),
        level == 0 ==> canonical(page),
        !m.keeps(t),
        reads_at(
            m.map_from(table, level, page, frame, flags, upgraded).0.mem,
            table,
            level,
            page,
            l,
            t,
            index_at(page as int, l as int),
        ),
        reads_at(
            m.map_from(table, level, page, frame, flags, upgraded).0.mem,
            table,
            level,
            page,
            k,
            t,
            index_at(page as int, k as int),
        ),
    ensures
        l == k,
    decreases 3 - level,
{
    let index = index_at(page as int, level as int);
    let entry = (m.mem)(table, index);
    let (after, r) = m.map_from(table, level, page, frame, flags, upgraded);
    let below = level + 1;
    let at_l = index_at(page as int, l as int);
    let at_k = index_at(page as int, k as int);
    map_from_effect(m, table, level, page, frame, flags, upgraded, page);
    assert(visits(m.mem, table, level, page, table));
    if level < 3 && !is_present(entry) {
        a_new_table_is_empty_and_its_own(m);
        an_empty_entry_is_not_present();
        if let (made, Ok(new)) = m.new_table() {
            path_entry_links(new, flags.user);
            opened_entry_bits(path_entry(new, flags.user));
            let linked = made.put(table, index, path_entry(new, flags.user));
            assert(linked.sound());
            assert(made.keeps(table));
            assert(linked.keeps(table) && linked.keeps(new));
            assert((linked.mem)(new, index_at(page as int, below as int)) == 0);
            map_from_effect_on_a_new_table(linked, new, below, page, page);
            map_from_effect(linked, new, below, page, frame, flags, upgraded, page);
            assert((linked.mem)(table, index) == path_entry(new, flags.user));
            assert(reads_at(after.mem, new, below, page, l, t, at_l));
            assert(reads_at(after.mem, new, below, page, k, t, at_k));
            if linked.keeps(t) {
                what_is_read_after_mapping(
                    linked,
                    new,
                    below,
                    page,
                    frame,
                    flags,
                    upgraded,
                    page,
                    l,
                    t,
                    at_l,
                );
                what_is_read_after_mapping(
                    linked,
                    new,
                    below,
                    page,
                    frame,
                    flags,
                    upgraded,
                    page,
                    k,
                    t,
                    at_k,
                );
            } else {
                new_tables_have_one_level(
                    linked,
                    new,
                    below,
                    page,
                    frame,
                    flags,
                    upgraded,
                    t,
                    l,
                    k,
                );
            }
        }
    } else if level < 3 && !is_huge(entry) {
        let opened = if flags.user && !is_user(entry) {
            m.put(table, index, entry | USER)
        } else {
            m
        };
        let next = target(entry);
        opened_entry_bits(entry);
        opening_keeps_the_path(m.mem, opened.mem, next, below, page);
        assert forall|u: u64| #[trigger] visits(opened.mem, next, below, page, u) implies opened.keeps(
            u,
        ) by {
            assert(visits(m.mem, table, level, page, u));
        }
        assert(one_place_from(opened.mem, next, below, page, page)) by {
            assert forall|x: nat, y: nat, u: u64, j: int|
                #![trigger reads_at(opened.mem, next, below, page, x, u, j), reads_at(
                    opened.mem,
                    next,
                    below,
                    page,
                    y,
                    u,
                    j,
                )]
                reads_at(opened.mem, next, below, page, x, u, j) && reads_at(
                    opened.mem,
                    next,
                    below,
                    page,
                    y,
                    u,
                    j,
                ) implies x == y && page as int / page_size(x as int) as int == page as int
                / page_size(x as int) as int by {
                assert(reads_at(m.mem, table, level, page, x, u, j));
                assert(reads_at(m.mem, table, level, page, y, u, j));
            }
        }
        let now = upgraded || (flags.user && !is_user(entry));
        map_from_effect(opened, next, below, page, frame, flags, now, page);
        assert(opened.keeps(table));
        opened_entry_bits((opened.mem)(table, index));
        assert(reads_at(after.mem, next, below, page, l, t, at_l));
        assert(reads_at(after.mem, next, below, page, k, t, at_k));
        new_tables_have_one_level(opened, next, below, page, frame, flags, now, t, l, k);
    }
}

/// Mapping a page, or failing to, keeps the tables tidy.
pub proof fn mapping_keeps_the_tables_tidy(
    m: Machine,
    low: u64,
    page: u64,
    frame: u64,
    flags: PageFlags,
)
    requires
        tidy(m, low),
        page >= low,
        canonical(page),
        is_frame(frame),
    ensures
        tidy(m.map(page, frame, flags).0, low),
{
    if flags.user == (page < KERNEL_SPACE_BASE) {
        let root = m.root;
        let (after, r) = m.map_from(root, 0, page, frame, flags, false);
        assert(m.keeps_walk(page));
        assert(one_place(m.mem, m.root, page, page));
        map_from_effect(m, root, 0, page, frame, flags, false, page);
        assert forall|a: u64| a >= low && canonical(a) implies #[trigger] after.keeps_walk(a) by {
            assert(m.keeps_walk(a));
            assert(one_place(m.mem, m.root, page, a));
            assert forall|t: u64| #[trigger] visits(after.mem, after.root, 0, a, t) implies after.keeps(
                t,
            ) by {
                a_visited_table_is_read(after.mem, root, 0, a, t);
                let l = choose|l: nat|
                    0 <= l <= 3 && #[trigger] reads_at(
                        after.mem,
                        root,
                        0,
                        a,
                        l,
                        t,
                        index_at(a as int, l as int),
                    );
                let i = index_at(a as int, l as int);
                what_is_read_after_mapping(m, root, 0, page, frame, flags, false, a, l, t, i);
            }
        }
        assert forall|a: u64| a >= low && canonical(a) implies !#[trigger] returns_to_root(
            after.mem,
            after.root,
            a,
        ) by {
            assert(m.keeps_walk(a));
            assert(!returns_to_root(m.mem, m.root, a));
            assert(one_place(m.mem, m.root, page, a));
            if returns_to_root(after.mem, after.root, a) {
                let l = a_returning_walk_reads_the_root(after.mem, root, a);
                let i = index_at(a as int, l as int);
                what_is_read_after_mapping(m, root, 0, page, frame, flags, false, a, l, root, i);
                assert(visits(m.mem, root, 0, a, root));
                reading_the_root_again_is_returning(m.mem, root, a, l, i);
            }
        }
        assert forall|a: u64, b: u64|
            a >= low && b >= low && canonical(a) && canonical(b) implies #[trigger] one_place(
            after.mem,
            after.root,
            a,
            b,
        ) by {
            assert(m.keeps_walk(a) && m.keeps_walk(b));
            assert(one_place(m.mem, m.root, page, a));
            assert(one_place(m.mem, m.root, page, b));
            assert(one_place(m.mem, m.root, a, b));
            assert forall|l: nat, k: nat, t: u64, i: int|
                #![trigger reads_at(after.mem, root, 0, a, l, t, i), reads_at(
                    after.mem,
                    root,
                    0,
                    b,
                    k,
                    t,
                    i,
                )]
                reads_at(after.mem, root, 0, a, l, t, i) && reads_at(
                    after.mem,
                    root,
                    0,
                    b,
                    k,
                    t,
                    i,
                ) implies l == k && a as int / page_size(l as int) as int == b as int / page_size(
                l as int,
            ) as int by {
                what_is_read_after_mapping(m, root, 0, page, frame, flags, false, a, l, t, i);
                what_is_read_after_mapping(m, root, 0, page, frame, flags, false, b, k, t, i);
                if !m.keeps(t) {
                    new_tables_have_one_level(m, root, 0, page, frame, flags, false, t, l, k);
                    reads_between(after.mem, root, 0, a, l, t, i);
                    reads_between(after.mem, root, 0, b, k, t, i);
                    agreeing_below(a, b, (l - 1) as nat);
                }
            }
        }
    }
}

/// Clearing an entry ends walks early and leads none anywhere new.
proof fn clearing_reads_nothing_new(
    mem: Memory,
    at: u64,
    index: int,
    table: u64,
    level: nat,
    va: u64,
    l: nat,
    t: u64,
    i: int,
)
    requires
        level <= 3,
        reads_at(put(mem, at, index, 0), table, level, va, l, t, i),
    ensures
        reads_at(mem, table, level, va, l, t, i),
    decreases 3 - level,
{
    let own = index_at(va as int, level as int);
    let cleared = put(mem, at, index, 0);
    an_empty_entry_is_not_present();
    if !(level == l && table == t && own == i) {
        assert(cleared(table, own) == mem(table, own));
        clearing_reads_nothing_new(mem, at, index, target(mem(table, own)), level + 1, va, l, t, i);
    }
}

/// Unmapping a page keeps the tables tidy.
pub proof fn unmapping_keeps_the_tables_tidy(m: Machine, low: u64, page: u64)
    requires
        tidy(m, low),
        unmap_table(m.mem, m.root, page) is Ok,
    ensures
        tidy(
            m.put(unmap_table(m.mem, m.root, page)->Ok_0, index_at(page as int, 3), 0),
            low,
        ),
{
    let at = unmap_table(m.mem, m.root, page)->Ok_0;
    let index = index_at(page as int, 3);
    let after = m.put(at, index, 0);
    let root = m.root;
    assert forall|a: u64| a >= low && canonical(a) implies #[trigger] after.keeps_walk(a) by {
        assert(m.keeps_walk(a));
        assert forall|t: u64| #[trigger] visits(after.mem, after.root, 0, a, t) implies after.keeps(
            t,
        ) by {
            a_visited_table_is_read(after.mem, root, 0, a, t);
            let l = choose|l: nat|
                0 <= l <= 3 && #[trigger] reads_at(
                    after.mem,
                    root,
                    0,
                    a,
                    l,
                    t,
                    index_at(a as int, l as int),
                );
            let i = index_at(a as int, l as int);
            clearing_reads_nothing_new(m.mem, at, index, root, 0, a, l, t, i);
            reads_between(m.mem, root, 0, a, l, t, i);
            assert(m.keeps(t));
        }
    }
    assert forall|a: u64| a >= low && canonical(a) implies !#[trigger] returns_to_root(
        after.mem,
        after.root,
        a,
    ) by {
        assert(!returns_to_root(m.mem, m.root, a));
        if returns_to_root(after.mem, after.root, a) {
            let l = a_returning_walk_reads_the_root(after.mem, root, a);
            let i = index_at(a as int, l as int);
            clearing_reads_nothing_new(m.mem, at, index, root, 0, a, l, root, i);
            reading_the_root_again_is_returning(m.mem, root, a, l, i);
        }
    }
    assert forall|a: u64, b: u64|
        a >= low && b >= low && canonical(a) && canonical(b) implies #[trigger] one_place(
        after.mem,
        after.root,
        a,
        b,
    ) by {
        assert(one_place(m.mem, m.root, a, b));
        assert forall|l: nat, k: nat, t: u64, i: int|
            #![trigger reads_at(after.mem, root, 0, a, l, t, i), reads_at(
                after.mem,
                root,
                0,
                b,
                k,
                t,
                i,
            )]
            reads_at(after.mem, root, 0, a, l, t, i) && reads_at(
                after.mem,
                root,
                0,
                b,
                k,
                t,
                i,
            ) implies l == k && a as int / page_size(l as int) as int == b as int / page_size(
            l as int,
        ) as int by {
            clearing_reads_nothing_new(m.mem, at, index, root, 0, a, l, t, i);
            clearing_reads_nothing_new(m.mem, at, index, root, 0, b, k, t, i);
        }
    }
}

/// Two tables of tables in which an address reads the same entries below the
/// root, and the root itself only at the top.
spec fn reads_alike(m: Machine, after: Machine, a: u64) -> bool {
    forall|l: nat, t: u64, i: int| #[trigger]
        reads_at(after.mem, after.root, 0, a, l, t, i) ==> {
            ||| l == 0 && t == after.root && i == index_at(a as int, 0)
            ||| l >= 1 && t != after.root && reads_at(m.mem, m.root, 0, a, l, t, i)
        }
}

/// Where every address from `low` up reads what it read before, tidiness is
/// kept.
proof fn reading_alike_keeps_tidy(m: Machine, after: Machine, low: u64)
    requires
        tidy(m, low),
        after.sound(),
        after.keeps(after.root),
        forall|t: u64| m.keeps(t) ==> #[trigger] after.keeps(t),
        forall|a: u64| a >= low && canonical(a) ==> #[trigger] reads_alike(m, after, a),
    ensures
        tidy(after, low),
{
    let root = after.root;
    assert forall|a: u64| a >= low && canonical(a) implies #[trigger] after.keeps_walk(a) by {
        assert(m.keeps_walk(a));
        assert(reads_alike(m, after, a));
        assert forall|t: u64| #[trigger] visits(after.mem, after.root, 0, a, t) implies after.keeps(
            t,
        ) by {
            a_visited_table_is_read(after.mem, root, 0, a, t);
            let l = choose|l: nat|
                0 <= l <= 3 && #[trigger] reads_at(
                    after.mem,
                    root,
                    0,
                    a,
                    l,
                    t,
                    index_at(a as int, l as int),
                );
            if l > 0 {
                reads_between(m.mem, m.root, 0, a, l, t, index_at(a as int, l as int));
                assert(m.keeps(t));
            }
        }
    }
    assert forall|a: u64| a >= low && canonical(a) implies !#[trigger] returns_to_root(
        after.mem,
        after.root,
        a,
    ) by {
        assert(reads_alike(m, after, a));
        if returns_to_root(after.mem, after.root, a) {
            let l = a_returning_walk_reads_the_root(after.mem, root, a);
            assert(false);
        }
    }
    assert forall|a: u64, b: u64|
        a >= low && b >= low && canonical(a) && canonical(b) implies #[trigger] one_place(
        after.mem,
        after.root,
        a,
        b,
    ) by {
        assert(one_place(m.mem, m.root, a, b));
        assert(reads_alike(m, after, a) && reads_alike(m, after, b));
        assert forall|l: nat, k: nat, t: u64, i: int|
            #![trigger reads_at(after.mem, root, 0, a, l, t, i), reads_at(
                after.mem,
                root,
                0,
                b,
                k,
                t,
                i,
            )]
            reads_at(after.mem, root, 0, a, l, t, i) && reads_at(
                after.mem,
                root,
                0,
                b,
                k,
                t,
                i,
            ) implies l == k && a as int / page_size(l as int) as int == b as int / page_size(
            l as int,
        ) as int by {
            if t == root {
                assert(a as int / 0x80_0000_0000 == b as int / 0x80_0000_0000);
            }
        }
    }
}

/// Taking the tables over keeps them tidy.
pub proof fn adopting_keeps_the_tables_tidy(m: Machine, low: u64)
    requires
        tidy(m, low),
        m.adopt().1 is Ok,
    ensures
        tidy(m.adopt().0, low),
{
    let after = m.adopt().0;
    a_new_table_is_empty_and_its_own(m);
    let (made, new) = (m.new_table().0, m.new_table().1->Ok_0);
    assert(after.root == new);
    assert forall|t: u64| m.keeps(t) implies #[trigger] after.keeps(t) by {
        assert(made.keeps(t));
    }
    assert(after.sound());
    assert(after.keeps(new)) by {
        assert(made.keeps(new));
    }
    assert forall|a: u64| a >= low && canonical(a) implies #[trigger] reads_alike(m, after, a) by {
        assert(m.keeps_walk(a));
        assert(visits(m.mem, m.root, 0, a, m.root));
        let slot = index_at(a as int, 0);
        let entry = (m.mem)(m.root, slot);
        assert((after.mem)(new, slot) == entry);
        if is_present(entry) && !is_huge(entry) {
            let next = target(entry);
            assert forall|t: u64, i: int| reads_entry(m.mem, next, 1, a, t, i) implies #[trigger] (
            after.mem)(t, i) == (m.mem)(t, i) by {
                let l = choose|l: nat| reads_at(m.mem, next, 1, a, l, t, i);
                reads_between(m.mem, next, 1, a, l, t, i);
                assert(visits(m.mem, m.root, 0, a, t));
                assert(m.keeps(t));
            }
            reading_depends_on_what_is_read(m.mem, after.mem, next, 1, a);
            assert forall|l: nat, t: u64, i: int| #[trigger]
                reads_at(after.mem, after.root, 0, a, l, t, i) implies {
                ||| l == 0 && t == after.root && i == index_at(a as int, 0)
                ||| l >= 1 && t != after.root && reads_at(m.mem, m.root, 0, a, l, t, i)
            } by {
                if !(l == 0 && t == new && i == slot) {
                    assert(reads_at(after.mem, next, 1, a, l, t, i));
                    assert(reads_at(m.mem, next, 1, a, l, t, i));
                    reads_between(m.mem, next, 1, a, l, t, i);
                    assert(reads_at(m.mem, m.root, 0, a, l, t, i));
                    assert(visits(m.mem, m.root, 0, a, t));
                    assert(m.keeps(t));
                }
            }
        }
    }
    reading_alike_keeps_tidy(m, after, low);
}

/// Where nothing but the lower half of the root has changed, kernel space is
/// as tidy as it was.
proof fn the_upper_half_stays_tidy(m: Machine, after: Machine)
    requires
        tidy(m, KERNEL_SPACE_BASE),
        after.sound(),
        after.root == m.root,
        forall|t: u64| m.keeps(t) ==> #[trigger] after.keeps(t),
        forall|t: u64, i: int|
            m.keeps(t) && #[trigger] (after.mem)(t, i) != (m.mem)(t, i) ==> t == m.root && i
                < KERNEL_SLOT,
    ensures
        tidy(after, KERNEL_SPACE_BASE),
{
    let root = m.root;
    assert(m.keeps_walk(KERNEL_SPACE_BASE));
    assert(visits(m.mem, root, 0, KERNEL_SPACE_BASE, root));
    assert(m.keeps(root));
    assert forall|a: u64| a >= KERNEL_SPACE_BASE && canonical(a) implies #[trigger] reads_alike(
        m,
        after,
        a,
    ) by {
        assert(m.keeps_walk(a));
        assert(!returns_to_root(m.mem, root, a));
        let slot = index_at(a as int, 0);
        assert(slot >= KERNEL_SLOT);
        let entry = (m.mem)(root, slot);
        assert((after.mem)(root, slot) == entry);
        if is_present(entry) && !is_huge(entry) {
            let next = target(entry);
            assert forall|t: u64, i: int| reads_entry(m.mem, next, 1, a, t, i) implies #[trigger] (
            after.mem)(t, i) == (m.mem)(t, i) by {
                let l = choose|l: nat| reads_at(m.mem, next, 1, a, l, t, i);
                reads_between(m.mem, next, 1, a, l, t, i);
                assert(visits(m.mem, root, 0, a, t));
                assert(m.keeps(t));
            }
            reading_depends_on_what_is_read(m.mem, after.mem, next, 1, a);
            assert forall|l: nat, t: u64, i: int| #[trigger]
                reads_at(after.mem, after.root, 0, a, l, t, i) implies {
                ||| l == 0 && t == after.root && i == index_at(a as int, 0)
                ||| l >= 1 && t != after.root && reads_at(m.mem, m.root, 0, a, l, t, i)
            } by {
                if !(l == 0 && t == root && i == slot) {
                    assert(reads_at(after.mem, next, 1, a, l, t, i));
                    assert(reads_at(m.mem, next, 1, a, l, t, i));
                    reads_between(m.mem, next, 1, a, l, t, i);
                    assert(reads_at(m.mem, root, 0, a, l, t, i));
                }
            }
        }
    }
    reading_alike_keeps_tidy(m, after, KERNEL_SPACE_BASE);
}

/// Rebuilding the identity map, or failing to, keeps kernel space tidy.
pub proof fn rebuilding_keeps_kernel_space_tidy(m: Machine, limit: u64, ranges: Seq<MappedRange>)
    requires
        tidy(m, KERNEL_SPACE_BASE),
    ensures
        tidy(m.rebuild_identity(limit, ranges).0, KERNEL_SPACE_BASE),
{
    let after = m.rebuild_identity(limit, ranges).0;
    assert(m.keeps_walk(KERNEL_SPACE_BASE));
    assert(visits(m.mem, m.root, 0, KERNEL_SPACE_BASE, m.root));
    building_the_identity_map_writes_only_its_own_tables(m, limit, ranges, m.root, 0);
    assert forall|t: u64| m.keeps(t) implies #[trigger] after.keeps(t) by {
        building_the_identity_map_writes_only_its_own_tables(m, limit, ranges, t, 0);
    }
    assert forall|t: u64, i: int|
        m.keeps(t) && #[trigger] (after.mem)(t, i) != (m.mem)(t, i) implies t == m.root && i
        < KERNEL_SLOT by {
        building_the_identity_map_writes_only_its_own_tables(m, limit, ranges, t, i);
    }
    the_upper_half_stays_tidy(m, after);
}

/// Emptying the lower half, or failing to, keeps kernel space tidy.
pub proof fn keeping_keeps_kernel_space_tidy(m: Machine, ranges: Seq<MappedRange>)
    requires
        tidy(m, KERNEL_SPACE_BASE),
    ensures
        tidy(m.keep_only(ranges).0, KERNEL_SPACE_BASE),
{
    let after = m.keep_only(ranges).0;
    assert(m.keeps_walk(KERNEL_SPACE_BASE));
    assert(visits(m.mem, m.root, 0, KERNEL_SPACE_BASE, m.root));
    keeping_writes_only_its_own_tables(m, ranges, m.root, 0);
    assert forall|t: u64| m.keeps(t) implies #[trigger] after.keeps(t) by {
        keeping_writes_only_its_own_tables(m, ranges, t, 0);
    }
    assert forall|t: u64, i: int|
        m.keeps(t) && #[trigger] (after.mem)(t, i) != (m.mem)(t, i) implies t == m.root && i
        < KERNEL_SLOT by {
        keeping_writes_only_its_own_tables(m, ranges, t, i);
    }
    the_upper_half_stays_tidy(m, after);
}

/// What an address in the window reads: the root, the pointer table and, as
/// far as the window goes, the directory of its GiB.
spec fn reads_the_window(after: Machine, pdpt: u64, slots: int, a: u64) -> bool {
    forall|l: nat, t: u64, i: int| #[trigger]
        reads_at(after.mem, after.root, 0, a, l, t, i) ==> {
            ||| l == 0 && t == after.root
            ||| l == 1 && t == pdpt
            ||| l == 2 && 0 <= index_at(a as int, 1) < slots && t == window_directory(
                after,
                pdpt,
                index_at(a as int, 1),
            )
        }
}

proof fn the_window_is_read(after: Machine, pdpt: u64, slots: int, a: u64)
    requires
        0 <= slots <= 512,
        (after.mem)(after.root, index_at(a as int, 0)) == link_entry(pdpt),
        is_frame(pdpt),
        forall|s: int| 0 <= s < slots ==> #[trigger] window_built(after, pdpt, s),
        forall|s: int| slots <= s < 512 ==> #[trigger] (after.mem)(pdpt, s) == 0,
    ensures
        reads_the_window(after, pdpt, slots, a),
{
    let gib = index_at(a as int, 1);
    let entry = index_at(a as int, 2);
    an_empty_entry_is_not_present();
    path_entry_links(pdpt, false);
    assert forall|l: nat, t: u64, i: int| #[trigger]
        reads_at(after.mem, after.root, 0, a, l, t, i) implies {
        ||| l == 0 && t == after.root
        ||| l == 1 && t == pdpt
        ||| l == 2 && 0 <= index_at(a as int, 1) < slots && t == window_directory(
            after,
            pdpt,
            index_at(a as int, 1),
        )
    } by {
        if !(l == 0 && t == after.root) {
            assert(reads_at(after.mem, pdpt, 1, a, l, t, i));
            if !(l == 1 && t == pdpt) {
                if gib < slots {
                    assert(window_built(after, pdpt, gib));
                    let d = window_directory(after, pdpt, gib);
                    path_entry_links(d, false);
                    assert(reads_at(after.mem, d, 2, a, l, t, i));
                    let base = large_base(gib, entry);
                    assert(base == (gib * 512 + entry) * 0x20_0000);
                    large_entry_bits(base as u64);
                    assert((after.mem)(d, entry) == large_entry(base as u64));
                } else {
                    assert((after.mem)(pdpt, gib) == 0);
                }
            }
        }
    }
}

/// Opening the window, or failing to, keeps kernel space tidy.
pub proof fn opening_the_window_keeps_kernel_space_tidy(m: Machine, base: u64, limit: u64)
    requires
        tidy(m, KERNEL_SPACE_BASE),
    ensures
        tidy(m.map_physical_window(base, limit).0, KERNEL_SPACE_BASE),
{
    let low = KERNEL_SPACE_BASE;
    let root = m.root;
    let after = m.map_physical_window(base, limit).0;
    let slot = index_at(base as int, 0);
    assert(m.keeps_walk(low));
    assert(visits(m.mem, root, 0, low, root));
    assert(m.keeps(root));
    opening_the_window_writes_only_its_own_tables(m, base, limit, root, 0);
    assert forall|t: u64| m.keeps(t) implies #[trigger] after.keeps(t) by {
        opening_the_window_writes_only_its_own_tables(m, base, limit, t, 0);
    }
    assert forall|t: u64, i: int|
        m.keeps(t) && #[trigger] (after.mem)(t, i) != (m.mem)(t, i) implies m.map_physical_window(
        base,
        limit,
    ).1 is Ok && t == root && i == slot by {
        opening_the_window_writes_only_its_own_tables(m, base, limit, t, i);
    }
    let opened = m.map_physical_window(base, limit).1 is Ok;
    let slots = limit as int / GIB as int;
    let pdpt = m.new_table().1->Ok_0;
    if opened {
        a_new_table_is_empty_and_its_own(m);
        let made = m.new_table().0;
        assert forall|t: u64| m.keeps(t) implies #[trigger] made.keeps(t) by {}
        assert(made.keeps(root));
        window_slots_are_built(made, pdpt, 0, slots, 1);
        let built = made.window_slots(pdpt, 0, slots, 1).0;
        assert(pdpt != root);
        assert forall|s: int| 0 <= s < slots implies #[trigger] window_built(after, pdpt, s) by {
            assert(window_built(built, pdpt, s));
            let d = window_directory(built, pdpt, s);
            assert((after.mem)(pdpt, s) == (built.mem)(pdpt, s));
            assert(built.keeps(d));
            assert(after.keeps(d));
        }
        assert forall|s: int| slots <= s < 512 implies #[trigger] (after.mem)(pdpt, s) == 0 by {
            assert((built.mem)(pdpt, s) == (made.mem)(pdpt, s));
        }
        assert(built.keeps(pdpt));
        assert(after.keeps(pdpt));
        assert forall|s: int| 0 <= s < slots implies !m.keeps(
            #[trigger] window_directory(after, pdpt, s),
        ) && after.keeps(window_directory(after, pdpt, s)) && window_directory(after, pdpt, s)
            != pdpt by {
            assert((after.mem)(pdpt, s) == (built.mem)(pdpt, s));
            assert(!made.keeps(window_directory(built, pdpt, s)));
            assert(window_built(after, pdpt, s));
        }
        assert forall|s: int, u: int| 0 <= s < u < slots implies #[trigger] window_directory(
            after,
            pdpt,
            s,
        ) != #[trigger] window_directory(after, pdpt, u) by {
            assert((after.mem)(pdpt, s) == (built.mem)(pdpt, s));
            assert((after.mem)(pdpt, u) == (built.mem)(pdpt, u));
            assert(window_directory(built, pdpt, s) != window_directory(built, pdpt, u));
        }
    }
    assert forall|a: u64| a >= low && canonical(a) && !(opened && index_at(a as int, 0) == slot) implies #[trigger] reads_alike(
        m,
        after,
        a,
    ) by {
        outside_the_window_is_read_alike(m, after, slot, opened, a);
    }
    assert forall|a: u64| a >= low && canonical(a) && opened && index_at(a as int, 0) == slot implies #[trigger] reads_the_window(
        after,
        pdpt,
        slots,
        a,
    ) by {
        the_window_is_read(after, pdpt, slots, a);
    }
    assert forall|a: u64| a >= low && canonical(a) implies #[trigger] after.keeps_walk(a) by {
        assert(m.keeps_walk(a));
        assert forall|t: u64| #[trigger] visits(after.mem, after.root, 0, a, t) implies after.keeps(
            t,
        ) by {
            a_visited_table_is_read(after.mem, root, 0, a, t);
            let l = choose|l: nat|
                0 <= l <= 3 && #[trigger] reads_at(
                    after.mem,
                    root,
                    0,
                    a,
                    l,
                    t,
                    index_at(a as int, l as int),
                );
            if opened && index_at(a as int, 0) == slot {
                assert(reads_the_window(after, pdpt, slots, a));
            } else {
                assert(reads_alike(m, after, a));
                if l > 0 {
                    reads_between(m.mem, m.root, 0, a, l, t, index_at(a as int, l as int));
                    assert(m.keeps(t));
                }
            }
        }
    }
    assert forall|a: u64| a >= low && canonical(a) implies !#[trigger] returns_to_root(
        after.mem,
        after.root,
        a,
    ) by {
        if returns_to_root(after.mem, after.root, a) {
            let l = a_returning_walk_reads_the_root(after.mem, root, a);
            if opened && index_at(a as int, 0) == slot {
                assert(reads_the_window(after, pdpt, slots, a));
                assert(window_built(after, pdpt, index_at(a as int, 1)));
            } else {
                assert(reads_alike(m, after, a));
            }
        }
    }
    assert forall|a: u64, b: u64|
        a >= low && b >= low && canonical(a) && canonical(b) implies #[trigger] one_place(
        after.mem,
        after.root,
        a,
        b,
    ) by {
        assert(one_place(m.mem, m.root, a, b));
        assert forall|l: nat, k: nat, t: u64, i: int|
            #![trigger reads_at(after.mem, root, 0, a, l, t, i), reads_at(
                after.mem,
                root,
                0,
                b,
                k,
                t,
                i,
            )]
            reads_at(after.mem, root, 0, a, l, t, i) && reads_at(
                after.mem,
                root,
                0,
                b,
                k,
                t,
                i,
            ) implies l == k && a as int / page_size(l as int) as int == b as int / page_size(
            l as int,
        ) as int by {
            reads_between(after.mem, root, 0, a, l, t, i);
            reads_between(after.mem, root, 0, b, k, t, i);
            let a_inside = opened && index_at(a as int, 0) == slot;
            let b_inside = opened && index_at(b as int, 0) == slot;
            if a_inside {
                assert(reads_the_window(after, pdpt, slots, a));
            } else {
                assert(reads_alike(m, after, a));
                assert(m.keeps_walk(a));
            }
            if b_inside {
                assert(reads_the_window(after, pdpt, slots, b));
            } else {
                assert(reads_alike(m, after, b));
                assert(m.keeps_walk(b));
            }
            if l > 0 && !a_inside {
                reads_between(m.mem, m.root, 0, a, l, t, i);
                assert(m.keeps(t));
            }
            if k > 0 && !b_inside {
                reads_between(m.mem, m.root, 0, b, k, t, i);
                assert(m.keeps(t));
            }
            if l == 0 || k == 0 {
                assert(t == root);
                assert(l == 0 && k == 0);
                assert(a as int / 0x80_0000_0000 == b as int / 0x80_0000_0000);
            } else if a_inside && b_inside {
                assert(a as int / 0x80_0000_0000 == b as int / 0x80_0000_0000);
                if l == 2 && k == 2 {
                    let x = index_at(a as int, 1);
                    let y = index_at(b as int, 1);
                    assert(x == y);
                    agreeing_below(a, b, 0);
                    agreeing_below(a, b, 1);
                } else {
                    agreeing_below(a, b, 0);
                }
            }
        }
    }
}

/// An address of another slot reads what it read before.
proof fn outside_the_window_is_read_alike(
    m: Machine,
    after: Machine,
    slot: int,
    opened: bool,
    a: u64,
)
    requires
        m.keeps_walk(a),
        !returns_to_root(m.mem, m.root, a),
        after.root == m.root,
        !(opened && index_at(a as int, 0) == slot),
        forall|t: u64, i: int|
            m.keeps(t) && #[trigger] (after.mem)(t, i) != (m.mem)(t, i) ==> opened && t == m.root && i
                == slot,
    ensures
        reads_alike(m, after, a),
{
    let root = m.root;
    let own = index_at(a as int, 0);
    let entry = (m.mem)(root, own);
    assert(visits(m.mem, root, 0, a, root));
    assert((after.mem)(root, own) == entry);
    if is_present(entry) && !is_huge(entry) {
        let next = target(entry);
        assert forall|t: u64, i: int| reads_entry(m.mem, next, 1, a, t, i) implies #[trigger] (
        after.mem)(t, i) == (m.mem)(t, i) by {
            let l = choose|l: nat| reads_at(m.mem, next, 1, a, l, t, i);
            reads_between(m.mem, next, 1, a, l, t, i);
            assert(visits(m.mem, root, 0, a, t));
            assert(m.keeps(t));
        }
        reading_depends_on_what_is_read(m.mem, after.mem, next, 1, a);
        assert forall|l: nat, t: u64, i: int| #[trigger]
            reads_at(after.mem, after.root, 0, a, l, t, i) implies {
            ||| l == 0 && t == after.root && i == index_at(a as int, 0)
            ||| l >= 1 && t != after.root && reads_at(m.mem, m.root, 0, a, l, t, i)
        } by {
            if !(l == 0 && t == root && i == own) {
                assert(reads_at(after.mem, next, 1, a, l, t, i));
                assert(reads_at(m.mem, next, 1, a, l, t, i));
                reads_between(m.mem, next, 1, a, l, t, i);
                assert(reads_at(m.mem, root, 0, a, l, t, i));
            }
        }
    }
}

} // verus!
