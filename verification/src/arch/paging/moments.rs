//! What the processor may see while the tables are being changed. Its walker
//! reads them at any moment, between any two writes.

use super::halves::{a_gib_avoids_the_root, gib_built, identity_slots_are_built, returns_to_root};
use super::kept::{
    a_tree_takes_a_directory, an_empty_table_is_a_tree, dir, grown, has_dir, has_tab, in_tree,
    is_tree, keeping_a_page_sets_its_leaf, keeping_a_range_sets_its_leaves,
    keeping_ranges_decides_the_leaves, tab,
};
use super::laws::{
    a_new_table_is_empty_and_its_own, a_walk_reads_only_its_entries,
    a_walk_reads_only_its_tables, agreeing_below, alike, an_empty_entry_is_not_present,
    is_frame, leaving_the_path, one_place, one_place_from, opened_entry_bits,
    opening_keeps_the_path, opening_keeps_the_walk, path_entry_links, reads_at, reads_below,
    reads_between, reads_entry,
};
use super::model::{
    canonical, fill, filling, index_at, is_huge, is_present, is_user, leaf_entry, lookup,
    nothing, page_size, path_entry, put, target, visits, walk, Change, Machine, Memory, GIB,
    KERNEL_SLOT, KERNEL_SPACE_BASE, PAGE, USER,
};
use super::plan::{
    all_below, code_pages, entries_of, fine_grained, first_index, first_page, good_limit,
    identity_entries, kept_entry, kernel_space_in_use, large_base, large_entry, last_page,
    link_entry, read_only_pages, window_entries, Tally,
};
use super::tidy::map_from_effect_on_a_new_table;
use crate::hal::paging::{MappedRange, PageFlags};
use vstd::prelude::*;

verus! {

/// Memory after some more writes.
pub open spec fn replay(mem: Memory, changes: Seq<Change>) -> Memory
    decreases changes.len(),
{
    if changes.len() == 0 {
        mem
    } else {
        let last = changes.last();
        put(replay(mem, changes.drop_last()), last.table, last.index, last.value)
    }
}

/// The writes that turned one machine into another.
pub open spec fn changes_since(m: Machine, after: Machine) -> Seq<Change> {
    after.changes.skip(m.changes.len() as int)
}

/// The tables after the first `k` of the writes that turned one machine into
/// another.
pub open spec fn moment(m: Machine, after: Machine, k: int) -> Memory {
    replay(m.mem, changes_since(m, after).take(k))
}

/// One machine came from another by the writes it remembers, and each of them
/// satisfies `may`.
spec fn came_by(m: Machine, after: Machine, may: spec_fn(Change) -> bool) -> bool {
    let n = m.changes.len() as int;
    &&& n <= after.changes.len()
    &&& after.changes.take(n) == m.changes
    &&& after.mem == replay(m.mem, changes_since(m, after))
    &&& forall|j: int| n <= j < after.changes.len() ==> may(#[trigger] after.changes[j])
}

/// Writes in two lots are writes in a row.
proof fn replay_goes_on(mem: Memory, a: Seq<Change>, b: Seq<Change>)
    ensures
        replay(mem, a + b) == replay(replay(mem, a), b),
    decreases b.len(),
{
    if b.len() == 0 {
        assert(a + b =~= a);
    } else {
        replay_goes_on(mem, a, b.drop_last());
        assert((a + b).drop_last() =~= a + b.drop_last());
    }
}

proof fn coming_by_goes_on(a: Machine, b: Machine, c: Machine, may: spec_fn(Change) -> bool)
    requires
        came_by(a, b, may),
        came_by(b, c, may),
    ensures
        came_by(a, c, may),
        changes_since(a, c) == changes_since(a, b) + changes_since(b, c),
{
    let n = a.changes.len() as int;
    let k = b.changes.len() as int;
    assert(c.changes.take(n) =~= b.changes.take(n)) by {
        assert(c.changes.take(k).take(n) =~= c.changes.take(n));
    }
    assert(changes_since(a, c) =~= changes_since(a, b) + changes_since(b, c)) by {
        assert forall|j: int| 0 <= j < k - n implies changes_since(a, c)[j] == changes_since(
            a,
            b,
        )[j] by {
            assert(c.changes.take(k)[n + j] == b.changes[n + j]);
        }
    }
    replay_goes_on(a.mem, changes_since(a, b), changes_since(b, c));
    assert forall|j: int| n <= j < c.changes.len() implies may(#[trigger] c.changes[j]) by {
        if j < k {
            assert(c.changes.take(k)[j] == b.changes[j]);
        }
    }
}

/// No writes at all.
proof fn nothing_came(m: Machine, after: Machine, may: spec_fn(Change) -> bool)
    requires
        after.changes == m.changes,
        after.mem == m.mem,
    ensures
        came_by(m, after, may),
        changes_since(m, after) == Seq::<Change>::empty(),
{
    assert(after.changes.take(m.changes.len() as int) =~= m.changes);
    assert(changes_since(m, after) =~= Seq::<Change>::empty());
}

proof fn put_came(m: Machine, table: u64, index: int, value: u64, may: spec_fn(Change) -> bool)
    requires
        may(Change { table, index, value }),
    ensures
        came_by(m, m.put(table, index, value), may),
        changes_since(m, m.put(table, index, value)) == seq![Change { table, index, value }],
{
    let after = m.put(table, index, value);
    let one = seq![Change { table, index, value }];
    assert(after.changes.take(m.changes.len() as int) =~= m.changes);
    assert(changes_since(m, after) =~= one);
    assert(one.drop_last() =~= Seq::<Change>::empty());
    assert(replay(m.mem, one.drop_last()) == m.mem);
}

/// Filling a table entry by entry fills it.
proof fn replay_of_filling(
    mem: Memory,
    table: u64,
    from: int,
    to: int,
    entries: spec_fn(int) -> u64,
)
    ensures
        replay(mem, filling(table, from, to, entries)) == fill(mem, table, from, to, entries),
    decreases to - from,
{
    let all = filling(table, from, to, entries);
    if from < to {
        replay_of_filling(mem, table, from, to - 1, entries);
        assert(all.drop_last() =~= filling(table, from, to - 1, entries));
        assert(replay(mem, all) =~= fill(mem, table, from, to, entries));
    } else {
        assert(replay(mem, all) =~= fill(mem, table, from, to, entries));
    }
}

proof fn fill_came(
    m: Machine,
    table: u64,
    from: int,
    to: int,
    entries: spec_fn(int) -> u64,
    may: spec_fn(Change) -> bool,
)
    requires
        forall|c: Change| c.table == table ==> #[trigger] may(c),
    ensures
        came_by(m, m.fill(table, from, to, entries), may),
        changes_since(m, m.fill(table, from, to, entries)) == filling(table, from, to, entries),
{
    let after = m.fill(table, from, to, entries);
    let w = filling(table, from, to, entries);
    assert(after.changes.take(m.changes.len() as int) =~= m.changes);
    assert(changes_since(m, after) =~= w);
    replay_of_filling(m.mem, table, from, to, entries);
    assert forall|j: int| m.changes.len() <= j < after.changes.len() implies may(
        #[trigger] after.changes[j],
    ) by {
        assert(after.changes[j] == w[j - m.changes.len()]);
    }
}

/// A new table is made by writes to itself.
proof fn a_new_table_came(m: Machine, may: spec_fn(Change) -> bool)
    requires
        m.sound(),
        forall|c: Change| !m.keeps(c.table) ==> #[trigger] may(c),
    ensures
        came_by(m, m.new_table().0, may),
        m.new_table().1 is Err ==> changes_since(m, m.new_table().0) == Seq::<Change>::empty(),
        m.new_table().1 matches Ok(new) ==> changes_since(m, m.new_table().0) == filling(
            new,
            0,
            512,
            nothing(),
        ),
{
    a_new_table_is_empty_and_its_own(m);
    if let Ok(new) = m.new_table().1 {
        fill_came(m.take(), new, 0, 512, nothing(), may);
        nothing_came(m, m.take(), may);
        coming_by_goes_on(m, m.take(), m.new_table().0, may);
        assert(changes_since(m, m.new_table().0) =~= filling(new, 0, 512, nothing()));
    } else {
        nothing_came(m, m.new_table().0, may);
    }
}

/// Writes to tables that nobody uses change no table in use.
proof fn unused_tables_are_changed(m: Machine, changes: Seq<Change>, t: u64, i: int)
    requires
        m.keeps(t),
        forall|j: int| 0 <= j < changes.len() ==> !m.keeps((#[trigger] changes[j]).table),
    ensures
        replay(m.mem, changes)(t, i) == (m.mem)(t, i),
    decreases changes.len(),
{
    if changes.len() > 0 {
        let rest = changes.drop_last();
        assert forall|j: int| 0 <= j < rest.len() implies !m.keeps((#[trigger] rest[j]).table) by {
            assert(rest[j] == changes[j]);
        }
        unused_tables_are_changed(m, rest, t, i);
        assert(!m.keeps(changes[changes.len() - 1].table));
    }
}

/// Writes that leave an entry alone leave it as it was.
proof fn other_entries_are_changed(mem: Memory, changes: Seq<Change>, t: u64, i: int)
    requires
        forall|j: int|
            0 <= j < changes.len() ==> !((#[trigger] changes[j]).table == t && changes[j].index
                == i),
    ensures
        replay(mem, changes)(t, i) == mem(t, i),
    decreases changes.len(),
{
    if changes.len() > 0 {
        let rest = changes.drop_last();
        assert forall|j: int| 0 <= j < rest.len() implies !((#[trigger] rest[j]).table == t
            && rest[j].index == i) by {
            assert(rest[j] == changes[j]);
        }
        other_entries_are_changed(mem, rest, t, i);
        let last = changes[changes.len() - 1];
        assert(!(last.table == t && last.index == i));
    }
}

/// What mapping may write: tables that nobody uses yet, and entries on the
/// page's own way.
spec fn on_the_way(m: Machine, table: u64, level: nat, page: u64) -> spec_fn(Change) -> bool {
    |c: Change|
        !m.keeps(c.table) || reads_entry(m.mem, table, level, page, c.table, c.index)
}

/// What mapping from a table downwards writes.
proof fn mapping_came(
    m: Machine,
    table: u64,
    level: nat,
    page: u64,
    frame: u64,
    flags: PageFlags,
    upgraded: bool,
)
    requires
        m.sound(),
        level <= 3,
        forall|t: u64| #[trigger] visits(m.mem, table, level, page, t) ==> m.keeps(t),
    ensures
        came_by(
            m,
            m.map_from(table, level, page, frame, flags, upgraded).0,
            on_the_way(m, table, level, page),
        ),
    decreases 3 - level,
{
    let index = index_at(page as int, level as int);
    let entry = (m.mem)(table, index);
    let may = on_the_way(m, table, level, page);
    let (after, r) = m.map_from(table, level, page, frame, flags, upgraded);
    assert(visits(m.mem, table, level, page, table));
    assert(reads_at(m.mem, table, level, page, level, table, index));
    if level >= 3 {
        if is_present(entry) {
            nothing_came(m, after, may);
        } else {
            let leaf = leaf_entry(
                frame,
                flags.writable,
                flags.executable,
                flags.user,
                flags.cache,
            );
            let written = m.put(table, index, leaf);
            put_came(m, table, index, leaf, may);
            nothing_came(written, after, may);
            coming_by_goes_on(m, written, after, may);
        }
    } else if !is_present(entry) {
        a_new_table_is_empty_and_its_own(m);
        a_new_table_came(m, may);
        let made = m.new_table().0;
        if let Ok(new) = m.new_table().1 {
            an_empty_entry_is_not_present();
            let below = level + 1;
            let link = path_entry(new, flags.user);
            let linked = made.put(table, index, link);
            put_came(made, table, index, link, may);
            assert(linked.sound());
            assert(linked.keeps(new));
            assert((linked.mem)(new, index_at(page as int, below as int)) == 0);
            mapping_came(linked, new, below, page, frame, flags, upgraded);
            let inner = on_the_way(linked, new, below, page);
            assert forall|j: int| linked.changes.len() <= j < after.changes.len() implies may(
                #[trigger] after.changes[j],
            ) by {
                let c = after.changes[j];
                assert(inner(c));
                if m.keeps(c.table) {
                    assert(made.keeps(c.table));
                    assert(linked.keeps(c.table));
                    let (u, i) = (c.table, c.index);
                    let l = choose|l: nat| reads_at(linked.mem, new, below, page, l, u, i);
                    assert(reads_at(linked.mem, new, below, page, l, u, i));
                    assert(u == new);
                }
            }
            assert(came_by(linked, after, may));
            coming_by_goes_on(m, made, linked, may);
            coming_by_goes_on(m, linked, after, may);
        }
    } else if is_huge(entry) {
        nothing_came(m, after, may);
    } else {
        let opened = if flags.user && !is_user(entry) {
            m.put(table, index, entry | USER)
        } else {
            m
        };
        let next = target(entry);
        let below = level + 1;
        let now = upgraded || (flags.user && !is_user(entry));
        if flags.user && !is_user(entry) {
            put_came(m, table, index, entry | USER, may);
        } else {
            nothing_came(m, opened, may);
        }
        opened_entry_bits(entry);
        opening_keeps_the_path(m.mem, opened.mem, next, below, page);
        assert forall|t: u64| #[trigger] visits(opened.mem, next, below, page, t) implies opened.keeps(
            t,
        ) by {
            assert(visits(m.mem, table, level, page, t));
        }
        mapping_came(opened, next, below, page, frame, flags, now);
        let inner = on_the_way(opened, next, below, page);
        assert forall|j: int| opened.changes.len() <= j < after.changes.len() implies may(
            #[trigger] after.changes[j],
        ) by {
            let c = after.changes[j];
            assert(inner(c));
            if m.keeps(c.table) {
                let (u, i) = (c.table, c.index);
                let l = choose|l: nat| reads_at(opened.mem, next, below, page, l, u, i);
                assert(reads_at(m.mem, next, below, page, l, u, i));
                reads_below(m.mem, table, level, page, u, i);
            }
        }
        assert(came_by(opened, after, may));
        coming_by_goes_on(m, opened, after, may);
    }
}

/// What an address leads to between two writes of a mapping: what it led to
/// before, but for who may come through where the way is being opened to ring
/// 3, or what it leads to afterwards.
spec fn before_or_after(
    m: Machine,
    after: Machine,
    mid: Memory,
    table: u64,
    level: nat,
    va: u64,
    opened: bool,
) -> bool {
    ||| alike(walk(m.mem, table, level, va), walk(mid, table, level, va), opened)
    ||| walk(mid, table, level, va) == walk(after.mem, table, level, va)
}

/// The moments of a mapping made of a first part and the rest.
proof fn moments_of_the_rest(
    m: Machine,
    linked: Machine,
    after: Machine,
    k: int,
    may: spec_fn(Change) -> bool,
)
    requires
        came_by(m, linked, may),
        came_by(linked, after, may),
        changes_since(m, linked).len() <= k <= changes_since(m, after).len(),
    ensures
        moment(m, after, k) == moment(linked, after, k - changes_since(m, linked).len()),
        0 <= k - changes_since(m, linked).len() <= changes_since(linked, after).len(),
{
    let first = changes_since(m, linked);
    let rest = changes_since(linked, after);
    coming_by_goes_on(m, linked, after, may);
    assert(changes_since(m, after).take(k) =~= first + rest.take(k - first.len()));
    replay_goes_on(m.mem, first, rest.take(k - first.len()));
}

/// The moments of the first part of a mapping.
proof fn moments_of_the_start(
    m: Machine,
    linked: Machine,
    after: Machine,
    k: int,
    may: spec_fn(Change) -> bool,
)
    requires
        came_by(m, linked, may),
        came_by(linked, after, may),
        0 <= k <= changes_since(m, linked).len(),
    ensures
        moment(m, after, k) == moment(m, linked, k),
{
    coming_by_goes_on(m, linked, after, may);
    assert(changes_since(m, after).take(k) =~= changes_since(m, linked).take(k));
}

#[verifier::rlimit(60)]
proof fn map_from_moments(
    m: Machine,
    table: u64,
    level: nat,
    page: u64,
    frame: u64,
    flags: PageFlags,
    upgraded: bool,
    va: u64,
    k: int,
)
    requires
        m.sound(),
        level <= 3,
        is_frame(frame),
        forall|t: u64| #[trigger] visits(m.mem, table, level, page, t) ==> m.keeps(t),
        forall|t: u64| #[trigger] visits(m.mem, table, level, va, t) ==> m.keeps(t),
        one_place_from(m.mem, table, level, page, va),
        one_place_from(m.mem, table, level, page, page),
        level > 0 ==> va as int / page_size(level - 1) as int == page as int / page_size(
            level - 1,
        ) as int,
        level == 0 ==> canonical(va) && canonical(page),
        0 <= k <= changes_since(
            m,
            m.map_from(table, level, page, frame, flags, upgraded).0,
        ).len(),
    ensures
        ({
            let after = m.map_from(table, level, page, frame, flags, upgraded).0;
            before_or_after(m, after, moment(m, after, k), table, level, va, flags.user)
        }),
    decreases 3 - level,
{
    let index = index_at(page as int, level as int);
    let entry = (m.mem)(table, index);
    let may = on_the_way(m, table, level, page);
    let (after, r) = m.map_from(table, level, page, frame, flags, upgraded);
    let mid = moment(m, after, k);
    let all = changes_since(m, after);
    mapping_came(m, table, level, page, frame, flags, upgraded);
    assert(visits(m.mem, table, level, va, table));
    assert(m.keeps(table));
    assert forall|j: int| 0 <= j < all.len() implies may(#[trigger] all[j]) by {
        assert(all[j] == after.changes[m.changes.len() + j]);
    }
    assert(reads_at(m.mem, table, level, page, level, table, index));
    if index_at(va as int, level as int) != index {
        leaving_the_path(m.mem, table, level, page, va);
        assert forall|t: u64, i: int| reads_entry(m.mem, table, level, va, t, i) implies #[trigger] mid(
            t,
            i,
        ) == (m.mem)(t, i) by {
            let l = choose|l: nat| reads_at(m.mem, table, level, va, l, t, i);
            reads_between(m.mem, table, level, va, l, t, i);
            assert(m.keeps(t));
            let some = all.take(k);
            assert forall|j: int| 0 <= j < some.len() implies !((#[trigger] some[j]).table == t
                && some[j].index == i) by {
                assert(may(all[j]));
            }
            other_entries_are_changed(m.mem, some, t, i);
        }
        a_walk_reads_only_its_entries(m.mem, mid, table, level, va);
    } else if k == 0 {
        assert(all.take(0) =~= Seq::<Change>::empty());
    } else {
        if level > 0 {
            agreeing_below(va, page, (level - 1) as nat);
        } else {
            assert(va as int / 0x80_0000_0000 == page as int / 0x80_0000_0000);
        }
        if level >= 3 {
            if !is_present(entry) {
                assert(all.len() == 1);
                assert(all.take(k) =~= all);
                assert(mid == after.mem);
            }
        } else if !is_present(entry) {
            a_new_table_is_empty_and_its_own(m);
            a_new_table_came(m, may);
            let made = m.new_table().0;
            if let Ok(new) = m.new_table().1 {
                mapping_moments_through_a_new_table(
                    m,
                    table,
                    level,
                    page,
                    frame,
                    flags,
                    upgraded,
                    va,
                    k,
                );
            } else {
                assert(all =~= Seq::<Change>::empty());
            }
        } else if !is_huge(entry) {
            mapping_moments_through_a_table(
                m,
                table,
                level,
                page,
                frame,
                flags,
                upgraded,
                va,
                k,
            );
        }
    }
}

#[verifier::rlimit(60)]
proof fn mapping_moments_through_a_new_table(
    m: Machine,
    table: u64,
    level: nat,
    page: u64,
    frame: u64,
    flags: PageFlags,
    upgraded: bool,
    va: u64,
    k: int,
)
    requires
        m.sound(),
        level < 3,
        is_frame(frame),
        forall|t: u64| #[trigger] visits(m.mem, table, level, page, t) ==> m.keeps(t),
        index_at(va as int, level as int) == index_at(page as int, level as int),
        va as int / page_size(level as int) as int == page as int / page_size(level as int) as int,
        !is_present((m.mem)(table, index_at(page as int, level as int))),
        m.new_table().1 is Ok,
        1 <= k <= changes_since(
            m,
            m.map_from(table, level, page, frame, flags, upgraded).0,
        ).len(),
    ensures
        ({
            let after = m.map_from(table, level, page, frame, flags, upgraded).0;
            before_or_after(m, after, moment(m, after, k), table, level, va, flags.user)
        }),
    decreases 3 - level, 0int,
{
    let index = index_at(page as int, level as int);
    let may = on_the_way(m, table, level, page);
    let any = |c: Change| true;
    let (after, r) = m.map_from(table, level, page, frame, flags, upgraded);
    let mid = moment(m, after, k);
    let below = level + 1;
    let (made, new) = (m.new_table().0, m.new_table().1->Ok_0);
    let link = path_entry(new, flags.user);
    let linked = made.put(table, index, link);
    a_new_table_is_empty_and_its_own(m);
    a_new_table_came(m, any);
    an_empty_entry_is_not_present();
    path_entry_links(new, flags.user);
    put_came(made, table, index, link, any);
    coming_by_goes_on(m, made, linked, any);
    assert(visits(m.mem, table, level, page, table));
    assert(m.keeps(table));
    assert(linked.sound());
    assert(made.keeps(table));
    assert(linked.keeps(new) && linked.keeps(table));
    assert((linked.mem)(new, index_at(page as int, below as int)) == 0);
    assert((linked.mem)(new, index_at(va as int, below as int)) == 0);
    mapping_came(linked, new, below, page, frame, flags, upgraded);
    let inner = on_the_way(linked, new, below, page);
    assert(came_by(linked, after, any));
    let first = changes_since(m, linked);
    assert(first.len() == 513);
    if k < 513 {
        // Only the new table has been written, and nothing leads there yet.
        moments_of_the_start(m, linked, after, k, any);
        let some = changes_since(m, linked).take(k);
        assert forall|j: int| 0 <= j < some.len() implies !((#[trigger] some[j]).table == table
            && some[j].index == index) by {
            assert(some[j] == filling(new, 0, 512, nothing())[j]);
        }
        other_entries_are_changed(m.mem, some, table, index);
        assert(walk(mid, table, level, va) is None);
    } else {
        moments_of_the_rest(m, linked, after, k, any);
        let rest = changes_since(linked, after).take(k - 513);
        map_from_effect_on_a_new_table(linked, new, below, page, va);
        map_from_effect_on_a_new_table(linked, new, below, page, page);
        map_from_moments(linked, new, below, page, frame, flags, upgraded, va, k - 513);
        // The link stays as it is from here on.
        assert forall|j: int| 0 <= j < changes_since(linked, after).len() implies !((
        #[trigger] changes_since(linked, after)[j]).table == table && changes_since(
            linked,
            after,
        )[j].index == index) by {
            let c = changes_since(linked, after)[j];
            assert(c == after.changes[linked.changes.len() + j]);
            assert(inner(c));
            if c.table == table {
                let (u, i) = (c.table, c.index);
                let l = choose|l: nat| reads_at(linked.mem, new, below, page, l, u, i);
                assert(reads_at(linked.mem, new, below, page, l, u, i));
            }
        }
        assert forall|j: int| 0 <= j < rest.len() implies !((#[trigger] rest[j]).table == table
            && rest[j].index == index) by {
            assert(rest[j] == changes_since(linked, after)[j]);
        }
        other_entries_are_changed(linked.mem, rest, table, index);
        other_entries_are_changed(linked.mem, changes_since(linked, after), table, index);
        assert(mid(table, index) == link);
        assert((after.mem)(table, index) == link);
        assert(walk(linked.mem, new, below, va) is None);
        assert(walk(mid, table, level, va) is None <==> walk(mid, new, below, va) is None);
        if walk(mid, new, below, va) is Some {
            assert(walk(mid, new, below, va) == walk(after.mem, new, below, va));
        }
    }
}

#[verifier::rlimit(60)]
proof fn mapping_moments_through_a_table(
    m: Machine,
    table: u64,
    level: nat,
    page: u64,
    frame: u64,
    flags: PageFlags,
    upgraded: bool,
    va: u64,
    k: int,
)
    requires
        m.sound(),
        level < 3,
        is_frame(frame),
        forall|t: u64| #[trigger] visits(m.mem, table, level, page, t) ==> m.keeps(t),
        forall|t: u64| #[trigger] visits(m.mem, table, level, va, t) ==> m.keeps(t),
        one_place_from(m.mem, table, level, page, va),
        one_place_from(m.mem, table, level, page, page),
        index_at(va as int, level as int) == index_at(page as int, level as int),
        va as int / page_size(level as int) as int == page as int / page_size(level as int) as int,
        is_present((m.mem)(table, index_at(page as int, level as int))),
        !is_huge((m.mem)(table, index_at(page as int, level as int))),
        1 <= k <= changes_since(
            m,
            m.map_from(table, level, page, frame, flags, upgraded).0,
        ).len(),
    ensures
        ({
            let after = m.map_from(table, level, page, frame, flags, upgraded).0;
            before_or_after(m, after, moment(m, after, k), table, level, va, flags.user)
        }),
    decreases 3 - level, 0int,
{
    let index = index_at(page as int, level as int);
    let entry = (m.mem)(table, index);
    let any = |c: Change| true;
    let (after, r) = m.map_from(table, level, page, frame, flags, upgraded);
    let mid = moment(m, after, k);
    let below = level + 1;
    let next = target(entry);
    let opens = flags.user && !is_user(entry);
    let opened = if opens {
        m.put(table, index, entry | USER)
    } else {
        m
    };
    let now = upgraded || opens;
    opened_entry_bits(entry);
    if opens {
        put_came(m, table, index, entry | USER, any);
    } else {
        nothing_came(m, opened, any);
    }
    opening_keeps_the_path(m.mem, opened.mem, next, below, page);
    opening_keeps_the_path(m.mem, opened.mem, next, below, va);
    opening_keeps_the_walk(m.mem, opened.mem, next, below, va);
    assert forall|t: u64| #[trigger] visits(opened.mem, next, below, page, t) implies opened.keeps(
        t,
    ) by {
        assert(visits(m.mem, table, level, page, t));
    }
    assert forall|t: u64| #[trigger] visits(opened.mem, next, below, va, t) implies opened.keeps(
        t,
    ) by {
        assert(visits(m.mem, table, level, va, t));
    }
    assert(visits(m.mem, table, level, page, table));
    assert(one_place_from(opened.mem, next, below, page, va)) by {
        assert forall|x: nat, y: nat, u: u64, j: int|
            #![trigger reads_at(opened.mem, next, below, page, x, u, j), reads_at(
                opened.mem,
                next,
                below,
                va,
                y,
                u,
                j,
            )]
            reads_at(opened.mem, next, below, page, x, u, j) && reads_at(
                opened.mem,
                next,
                below,
                va,
                y,
                u,
                j,
            ) implies x == y && page as int / page_size(x as int) as int == va as int / page_size(
            x as int,
        ) as int by {
            assert(reads_at(m.mem, table, level, page, x, u, j));
            assert(reads_at(m.mem, table, level, va, y, u, j));
        }
    }
    assert(one_place_from(opened.mem, next, below, page, page)) by {
        assert forall|x: nat, y: nat, u: u64, j: int|
            #![trigger reads_at(opened.mem, next, below, page, x, u, j), reads_at(
                opened.mem,
                next,
                below,
                page,
                y,
                u,
                j,
            )]
            reads_at(opened.mem, next, below, page, x, u, j) && reads_at(
                opened.mem,
                next,
                below,
                page,
                y,
                u,
                j,
            ) implies x == y && page as int / page_size(x as int) as int == page as int / page_size(
            x as int,
        ) as int by {
            assert(reads_at(m.mem, table, level, page, x, u, j));
            assert(reads_at(m.mem, table, level, page, y, u, j));
        }
    }
    mapping_came(opened, next, below, page, frame, flags, now);
    let inner = on_the_way(opened, next, below, page);
    assert(came_by(opened, after, any));
    moments_of_the_rest(m, opened, after, k, any);
    let n = changes_since(m, opened).len() as int;
    let rest = changes_since(opened, after).take(k - n);
    map_from_moments(opened, next, below, page, frame, flags, now, va, k - n);
    // This entry is not written again further down.
    assert forall|j: int| 0 <= j < changes_since(opened, after).len() implies !((
    #[trigger] changes_since(opened, after)[j]).table == table && changes_since(
        opened,
        after,
    )[j].index == index) by {
        let c = changes_since(opened, after)[j];
        assert(c == after.changes[opened.changes.len() + j]);
        assert(inner(c));
        if c.table == table && c.index == index {
            assert(opened.keeps(table));
            let l = choose|l: nat| reads_at(opened.mem, next, below, page, l, table, index);
            assert(reads_at(m.mem, next, below, page, l, table, index));
            reads_between(m.mem, next, below, page, l, table, index);
            assert(reads_at(m.mem, table, level, page, l, table, index));
            assert(reads_at(m.mem, table, level, page, level, table, index));
        }
    }
    assert forall|j: int| 0 <= j < rest.len() implies !((#[trigger] rest[j]).table == table
        && rest[j].index == index) by {
        assert(rest[j] == changes_since(opened, after)[j]);
    }
    other_entries_are_changed(opened.mem, rest, table, index);
    other_entries_are_changed(opened.mem, changes_since(opened, after), table, index);
    assert(mid(table, index) == (opened.mem)(table, index));
    assert((after.mem)(table, index) == (opened.mem)(table, index));
    if walk(mid, next, below, va) == walk(after.mem, next, below, va) {
        assert(walk(mid, table, level, va) == walk(after.mem, table, level, va));
    } else {
        assert(alike(
            walk(opened.mem, next, below, va),
            walk(mid, next, below, va),
            flags.user,
        ));
        assert(alike(walk(m.mem, next, below, va), walk(mid, next, below, va), flags.user));
    }
}

/// The processor never sees a half-built table while a page is being mapped:
/// between any two of the writes every address leads where it led before or
/// where it will lead afterwards. (Where the way of a program's page is opened
/// to ring 3, an address may be open to it a little sooner.)
pub proof fn no_moment_of_a_mapping_is_half_done(
    m: Machine,
    page: u64,
    frame: u64,
    flags: PageFlags,
    va: u64,
    k: int,
)
    requires
        m.sound(),
        m.keeps_walk(page),
        m.keeps_walk(va),
        one_place(m.mem, m.root, page, va),
        one_place(m.mem, m.root, page, page),
        canonical(page),
        is_frame(frame),
        0 <= k <= changes_since(m, m.map(page, frame, flags).0).len(),
    ensures
        ({
            let after = m.map(page, frame, flags).0;
            let now = lookup(moment(m, after, k), m.root, va);
            ||| alike(lookup(m.mem, m.root, va), now, flags.user)
            ||| now == lookup(after.mem, m.root, va)
        }),
{
    if flags.user != (page < KERNEL_SPACE_BASE) {
        assert(changes_since(m, m).take(k) =~= Seq::<Change>::empty());
    } else if canonical(va) {
        map_from_moments(m, m.root, 0, page, frame, flags, false, va, k);
    }
}

/// Writes to tables that `m` does not use.
spec fn apart(m: Machine) -> spec_fn(Change) -> bool {
    |c: Change| !m.keeps(c.table)
}

/// Writes to one table.
spec fn into(table: u64) -> spec_fn(Change) -> bool {
    |c: Change| c.table == table
}

/// What one machine uses, the other does too.
spec fn goes_on_using(m: Machine, later: Machine) -> bool {
    forall|t: u64| m.keeps(t) ==> #[trigger] later.keeps(t)
}

/// While only other tables are written every address leads where it did.
proof fn the_old_map_stays(m: Machine, built: Machine, va: u64, k: int)
    requires
        came_by(m, built, apart(m)),
        m.keeps_walk(va),
        0 <= k <= changes_since(m, built).len(),
    ensures
        lookup(moment(m, built, k), m.root, va) == lookup(m.mem, m.root, va),
{
    let some = changes_since(m, built).take(k);
    let mid = moment(m, built, k);
    assert forall|j: int| 0 <= j < some.len() implies !m.keeps((#[trigger] some[j]).table) by {
        assert(some[j] == built.changes[m.changes.len() + j]);
        assert(apart(m)(built.changes[m.changes.len() + j]));
    }
    assert forall|t: u64, i: int| visits(m.mem, m.root, 0, va, t) implies #[trigger] mid(t, i) == (
    m.mem)(t, i) by {
        unused_tables_are_changed(m, some, t, i);
    }
    a_walk_reads_only_its_tables(m.mem, mid, m.root, 0, va);
}

/// Where no entry is written twice, each holds its old value or its new one
/// at every moment.
proof fn an_entry_is_old_or_new(mem: Memory, changes: Seq<Change>, t: u64, i: int, k: int)
    requires
        0 <= k <= changes.len(),
        forall|a: int, b: int|
            #![trigger changes[a], changes[b]]
            0 <= a < b < changes.len() ==> changes[a].table != changes[b].table || changes[a].index
                != changes[b].index,
    ensures
        replay(mem, changes.take(k))(t, i) == mem(t, i) || replay(mem, changes.take(k))(t, i)
            == replay(mem, changes)(t, i),
    decreases changes.len(),
{
    if k == changes.len() {
        assert(changes.take(k) =~= changes);
    } else {
        let rest = changes.drop_last();
        let last = changes[changes.len() - 1];
        assert forall|a: int, b: int|
            #![trigger rest[a], rest[b]]
            0 <= a < b < rest.len() implies rest[a].table != rest[b].table || rest[a].index
            != rest[b].index by {
            assert(rest[a] == changes[a] && rest[b] == changes[b]);
        }
        an_entry_is_old_or_new(mem, rest, t, i, k);
        assert(rest.take(k) =~= changes.take(k));
        if last.table == t && last.index == i {
            let some = changes.take(k);
            assert forall|j: int| 0 <= j < some.len() implies !((#[trigger] some[j]).table == t
                && some[j].index == i) by {
                assert(some[j] == changes[j]);
            }
            other_entries_are_changed(mem, some, t, i);
        }
    }
}

/// Tables that are built apart and linked into the root at the end: every
/// address leads where it led or where it will lead, at every moment.
proof fn linking_at_the_end(m: Machine, built: Machine, after: Machine, va: u64, k: int)
    requires
        came_by(m, built, apart(m)),
        came_by(built, after, into(m.root)),
        forall|a: int, b: int|
            #![trigger changes_since(built, after)[a], changes_since(built, after)[b]]
            0 <= a < b < changes_since(built, after).len() ==> changes_since(built, after)[a].index
                != changes_since(built, after)[b].index,
        m.keeps_walk(va),
        !returns_to_root(m.mem, m.root, va),
        (after.mem)(m.root, index_at(va as int, 0)) != (m.mem)(m.root, index_at(va as int, 0))
            ==> !returns_to_root(after.mem, m.root, va),
        0 <= k <= changes_since(m, after).len(),
    ensures
        ({
            let now = lookup(moment(m, after, k), m.root, va);
            ||| now == lookup(m.mem, m.root, va)
            ||| now == lookup(after.mem, m.root, va)
        }),
{
    let any = |c: Change| true;
    let root = m.root;
    let slot = index_at(va as int, 0);
    let mid = moment(m, after, k);
    let n = changes_since(m, built).len() as int;
    assert(came_by(m, built, any) && came_by(built, after, any));
    assert(visits(m.mem, root, 0, va, root));
    if k <= n {
        moments_of_the_start(m, built, after, k, any);
        the_old_map_stays(m, built, va, k);
    } else {
        moments_of_the_rest(m, built, after, k, any);
        let all = changes_since(built, after);
        let some = all.take(k - n);
        assert forall|j: int| 0 <= j < all.len() implies (#[trigger] all[j]).table == root by {
            assert(all[j] == after.changes[built.changes.len() + j]);
            assert(into(root)(all[j]));
        }
        assert forall|t: u64, i: int| t != root implies #[trigger] mid(t, i) == (built.mem)(t, i)
            && (after.mem)(t, i) == (built.mem)(t, i) by {
            assert forall|j: int| 0 <= j < some.len() implies !((#[trigger] some[j]).table == t
                && some[j].index == i) by {
                assert(some[j] == all[j]);
            }
            other_entries_are_changed(built.mem, some, t, i);
            other_entries_are_changed(built.mem, all, t, i);
        }
        let early = changes_since(m, built);
        assert forall|j: int| 0 <= j < early.len() implies !m.keeps((#[trigger] early[j]).table) by {
            assert(early[j] == built.changes[m.changes.len() + j]);
            assert(apart(m)(early[j]));
        }
        assert forall|t: u64, i: int| m.keeps(t) implies #[trigger] (built.mem)(t, i) == (m.mem)(
            t,
            i,
        ) by {
            unused_tables_are_changed(m, early, t, i);
        }
        an_entry_is_old_or_new(built.mem, all, root, slot, k - n);
        let entry = mid(root, slot);
        let below = target(entry);
        if entry == (m.mem)(root, slot) {
            if is_present(entry) && !is_huge(entry) {
                assert forall|t: u64, i: int| visits(m.mem, below, 1, va, t) implies #[trigger] mid(
                    t,
                    i,
                ) == (m.mem)(t, i) by {
                    assert(visits(m.mem, root, 0, va, t));
                }
                a_walk_reads_only_its_tables(m.mem, mid, below, 1, va);
            }
        } else {
            if is_present(entry) && !is_huge(entry) {
                assert forall|t: u64, i: int| visits(after.mem, below, 1, va, t) implies #[trigger] mid(
                    t,
                    i,
                ) == (after.mem)(t, i) by {}
                a_walk_reads_only_its_tables(after.mem, mid, below, 1, va);
            }
        }
    }
}

/// Linking the new lower half writes the first entries of the root, one after
/// the other.
proof fn installing_came(m: Machine, entry: u64)
    ensures
        came_by(m, m.install_lower_half(entry), into(m.root)),
        forall|j: int|
            0 <= j < changes_since(m, m.install_lower_half(entry)).len() ==> (
            #[trigger] changes_since(m, m.install_lower_half(entry))[j]).index == j,
{
    let may = into(m.root);
    let first = m.put(m.root, 0, entry);
    let all = first.fill(m.root, 1, KERNEL_SLOT as int, nothing());
    put_came(m, m.root, 0, entry, may);
    fill_came(first, m.root, 1, KERNEL_SLOT as int, nothing(), may);
    coming_by_goes_on(m, first, all, may);
    nothing_came(all, m.install_lower_half(entry), may);
    coming_by_goes_on(m, all, m.install_lower_half(entry), may);
}

/// A new table made while something is built apart from `m0`.
proof fn a_table_comes_apart(m0: Machine, m: Machine)
    requires
        m.sound(),
        goes_on_using(m0, m),
    ensures
        came_by(m, m.new_table().0, apart(m0)),
        m.new_table().0.sound(),
        goes_on_using(m0, m.new_table().0),
        goes_on_using(m, m.new_table().0),
        m.new_table().0.root == m.root,
        m.new_table().1 matches Ok(new) ==> !m0.keeps(new) && !m.keeps(new)
            && m.new_table().0.keeps(new),
{
    a_new_table_is_empty_and_its_own(m);
    a_new_table_came(m, apart(m0));
    let made = m.new_table().0;
    assert forall|t: u64| m.keeps(t) implies #[trigger] made.keeps(t) by {}
    assert forall|t: u64| m0.keeps(t) implies #[trigger] made.keeps(t) by {
        assert(m.keeps(t));
    }
}

proof fn a_directory_came(
    m0: Machine,
    m: Machine,
    directory: u64,
    slot: int,
    entry: int,
    ranges: Seq<MappedRange>,
    tally: Tally,
)
    requires
        m.sound(),
        goes_on_using(m0, m),
        !m0.keeps(directory),
    ensures
        ({
            let after = m.identity_directory(directory, slot, entry, ranges, tally).0;
            &&& came_by(m, after, apart(m0))
            &&& after.sound()
            &&& goes_on_using(m0, after)
        }),
    decreases 512 - entry,
{
    let base = large_base(slot, entry);
    let may = apart(m0);
    let after = m.identity_directory(directory, slot, entry, ranges, tally).0;
    if entry >= 512 {
        nothing_came(m, after, may);
    } else if !fine_grained(ranges, base) {
        let next = m.put(directory, entry, large_entry(base as u64));
        put_came(m, directory, entry, large_entry(base as u64), may);
        assert(goes_on_using(m0, next)) by {
            assert forall|t: u64| m0.keeps(t) implies #[trigger] next.keeps(t) by {
                assert(m.keeps(t));
            }
        }
        a_directory_came(m0, next, directory, slot, entry + 1, ranges, tally);
        coming_by_goes_on(m, next, after, may);
    } else {
        a_table_comes_apart(m0, m);
        if let (made, Ok(table)) = m.new_table() {
            let filled = made.fill(table, first_index(base), 512, identity_entries(ranges, base));
            let next = filled.put(directory, entry, link_entry(table));
            let counted = Tally {
                tables: tally.tables + 1,
                executable: tally.executable + code_pages(ranges, base, 512),
                read_only: tally.read_only + read_only_pages(ranges, base, 512),
            };
            fill_came(made, table, first_index(base), 512, identity_entries(ranges, base), may);
            put_came(filled, directory, entry, link_entry(table), may);
            assert(goes_on_using(m0, next)) by {
                assert forall|t: u64| m0.keeps(t) implies #[trigger] next.keeps(t) by {
                    assert(made.keeps(t));
                }
            }
            assert(next.sound());
            a_directory_came(m0, next, directory, slot, entry + 1, ranges, counted);
            coming_by_goes_on(m, made, filled, may);
            coming_by_goes_on(m, filled, next, may);
            coming_by_goes_on(m, next, after, may);
        }
    }
}

proof fn identity_slots_came(
    m0: Machine,
    m: Machine,
    pdpt: u64,
    slot: int,
    slots: int,
    ranges: Seq<MappedRange>,
    tally: Tally,
)
    requires
        m.sound(),
        goes_on_using(m0, m),
        !m0.keeps(pdpt),
    ensures
        ({
            let after = m.identity_slots(pdpt, slot, slots, ranges, tally).0;
            &&& came_by(m, after, apart(m0))
            &&& after.sound()
            &&& goes_on_using(m0, after)
        }),
    decreases slots - slot,
{
    let may = apart(m0);
    let after = m.identity_slots(pdpt, slot, slots, ranges, tally).0;
    if slot >= slots {
        nothing_came(m, after, may);
    } else {
        a_table_comes_apart(m0, m);
        if let (made, Ok(directory)) = m.new_table() {
            let counted = Tally { tables: tally.tables + 1, ..tally };
            a_directory_came(m0, made, directory, slot, 0, ranges, counted);
            let (filled, r) = made.identity_directory(directory, slot, 0, ranges, counted);
            coming_by_goes_on(m, made, filled, may);
            if let Ok(tally) = r {
                let next = filled.put(pdpt, slot, link_entry(directory));
                put_came(filled, pdpt, slot, link_entry(directory), may);
                coming_by_goes_on(m, filled, next, may);
                assert(goes_on_using(m0, next)) by {
                    assert forall|t: u64| m0.keeps(t) implies #[trigger] next.keeps(t) by {
                        assert(filled.keeps(t));
                    }
                }
                assert(next.sound());
                identity_slots_came(m0, next, pdpt, slot + 1, slots, ranges, tally);
                coming_by_goes_on(m, next, after, may);
            }
        }
    }
}

/// The map in use never loses a translation while the identity map is
/// rebuilt: between any two of the writes every address leads where it led
/// before or where it will lead afterwards.
pub proof fn no_moment_of_a_rebuild_is_half_done(
    m: Machine,
    limit: u64,
    ranges: Seq<MappedRange>,
    va: u64,
    k: int,
)
    requires
        m.sound(),
        m.keeps_walk(va),
        !returns_to_root(m.mem, m.root, va),
        0 <= k <= changes_since(m, m.rebuild_identity(limit, ranges).0).len(),
    ensures
        ({
            let after = m.rebuild_identity(limit, ranges).0;
            let now = lookup(moment(m, after, k), m.root, va);
            ||| now == lookup(m.mem, m.root, va)
            ||| now == lookup(after.mem, m.root, va)
        }),
{
    let (after, r) = m.rebuild_identity(limit, ranges);
    if !good_limit(limit) || !all_below(ranges, limit) {
        nothing_came(m, after, apart(m));
        the_old_map_stays(m, after, va, k);
    } else {
        a_table_comes_apart(m, m);
        let made = m.new_table().0;
        if let Ok(pdpt) = m.new_table().1 {
            let slots = limit as int / GIB as int;
            let first = Tally { tables: 1, executable: 0, read_only: 0 };
            identity_slots_came(m, made, pdpt, 0, slots, ranges, first);
            let built = made.identity_slots(pdpt, 0, slots, ranges, first).0;
            coming_by_goes_on(m, made, built, apart(m));
            if r is Ok {
                assert(visits(m.mem, m.root, 0, va, m.root));
                assert(made.keeps(m.root));
                identity_slots_are_built(made, pdpt, 0, slots, ranges, first);
                installing_came(built, link_entry(pdpt));
                a_new_table_is_empty_and_its_own(m);
                path_entry_links(pdpt, false);
                an_empty_entry_is_not_present();
                let slot = index_at(va as int, 0);
                if canonical(va) && (after.mem)(m.root, slot) != (m.mem)(m.root, slot) {
                    assert((built.mem)(m.root, slot) == (m.mem)(m.root, slot));
                    assert(slot < KERNEL_SLOT);
                    assert(va < 0x8000_0000_0000);
                    if slot == 0 {
                        assert((after.mem)(m.root, 0) == link_entry(pdpt));
                        assert forall|t: u64, i: int| t != m.root implies #[trigger] (after.mem)(t, i)
                            == (built.mem)(t, i) by {}
                        assert(va < 0x80_0000_0000);
                        assert(index_at(va as int, 1) == va as int / GIB as int);
                        if va < limit {
                            assert(gib_built(built, pdpt, va as int / GIB as int, ranges));
                            a_gib_avoids_the_root(built, after.mem, pdpt, ranges, va);
                        } else {
                            assert((after.mem)(pdpt, va as int / GIB as int) == (built.mem)(
                                pdpt,
                                va as int / GIB as int,
                            ));
                        }
                    } else {
                        assert((after.mem)(m.root, slot) == 0);
                    }
                }
                if canonical(va) {
                    linking_at_the_end(m, built, after, va, k);
                }
            } else {
                the_old_map_stays(m, after, va, k);
            }
        } else {
            the_old_map_stays(m, after, va, k);
        }
    }
}

proof fn window_slots_came(m0: Machine, m: Machine, pdpt: u64, slot: int, slots: int, tables: int)
    requires
        m.sound(),
        goes_on_using(m0, m),
        !m0.keeps(pdpt),
    ensures
        ({
            let after = m.window_slots(pdpt, slot, slots, tables).0;
            &&& came_by(m, after, apart(m0))
            &&& after.root == m.root
        }),
    decreases slots - slot,
{
    let may = apart(m0);
    let after = m.window_slots(pdpt, slot, slots, tables).0;
    if slot >= slots {
        nothing_came(m, after, may);
    } else {
        a_table_comes_apart(m0, m);
        if let (made, Ok(directory)) = m.new_table() {
            let filled = made.fill(directory, 0, 512, window_entries(slot));
            let next = filled.put(pdpt, slot, link_entry(directory));
            fill_came(made, directory, 0, 512, window_entries(slot), may);
            put_came(filled, pdpt, slot, link_entry(directory), may);
            coming_by_goes_on(m, made, filled, may);
            coming_by_goes_on(m, filled, next, may);
            assert(goes_on_using(m0, next)) by {
                assert forall|t: u64| m0.keeps(t) implies #[trigger] next.keeps(t) by {
                    assert(made.keeps(t));
                }
            }
            assert(next.sound());
            window_slots_came(m0, next, pdpt, slot + 1, slots, tables + 1);
            coming_by_goes_on(m, next, after, may);
        }
    }
}

/// The window opens in one go: between any two of the writes every address
/// leads where it led before or where it will lead afterwards.
pub proof fn no_moment_of_opening_the_window_is_half_done(
    m: Machine,
    base: u64,
    limit: u64,
    va: u64,
    k: int,
)
    requires
        m.sound(),
        m.keeps_walk(va),
        0 <= k <= changes_since(m, m.map_physical_window(base, limit).0).len(),
    ensures
        ({
            let after = m.map_physical_window(base, limit).0;
            let now = lookup(moment(m, after, k), m.root, va);
            ||| now == lookup(m.mem, m.root, va)
            ||| now == lookup(after.mem, m.root, va)
        }),
{
    let (after, r) = m.map_physical_window(base, limit);
    let slot = index_at(base as int, 0);
    if !good_limit(limit) || base < KERNEL_SPACE_BASE || base as int % (512 * GIB) != 0
        || is_present((m.mem)(m.root, slot)) {
        nothing_came(m, after, apart(m));
        the_old_map_stays(m, after, va, k);
    } else {
        a_table_comes_apart(m, m);
        let made = m.new_table().0;
        if let Ok(pdpt) = m.new_table().1 {
            let slots = limit as int / GIB as int;
            window_slots_came(m, made, pdpt, 0, slots, 1);
            let built = made.window_slots(pdpt, 0, slots, 1).0;
            coming_by_goes_on(m, made, built, apart(m));
            if r is Ok {
                let any = |c: Change| true;
                let linked = built.put(built.root, slot, link_entry(pdpt));
                put_came(built, built.root, slot, link_entry(pdpt), any);
                nothing_came(linked, after, any);
                coming_by_goes_on(built, linked, after, any);
                assert(came_by(m, built, any));
                coming_by_goes_on(m, built, after, any);
                if k < changes_since(m, after).len() {
                    moments_of_the_start(m, built, after, k, any);
                    the_old_map_stays(m, built, va, k);
                } else {
                    assert(changes_since(m, after).take(k) =~= changes_since(m, after));
                }
            } else {
                the_old_map_stays(m, after, va, k);
            }
        } else {
            the_old_map_stays(m, after, va, k);
        }
    }
}

/// The root in use is not written while its translations are adopted: until
/// the new root is loaded every address leads where it did.
pub proof fn adopting_leaves_the_root_in_use_alone(m: Machine, va: u64, k: int)
    requires
        m.sound(),
        m.keeps_walk(va),
        0 <= k <= changes_since(m, m.adopt().0).len(),
    ensures
        lookup(moment(m, m.adopt().0, k), m.root, va) == lookup(m.mem, m.root, va),
{
    let may = apart(m);
    let after = m.adopt().0;
    if kernel_space_in_use(m.mem, m.root) {
        nothing_came(m, after, may);
    } else {
        a_table_comes_apart(m, m);
        if let (made, Ok(root)) = m.new_table() {
            let entries = entries_of(made.mem, m.root);
            let copied = made.fill(root, 0, 512, entries);
            fill_came(made, root, 0, 512, entries, may);
            coming_by_goes_on(m, made, copied, may);
            nothing_came(copied, after, may);
            coming_by_goes_on(m, copied, after, may);
        }
    }
    the_old_map_stays(m, after, va, k);
}

/// No table that `m0` uses belongs to the tree below `pdpt`.
spec fn tree_apart(m0: Machine, m: Machine, pdpt: u64) -> bool {
    &&& goes_on_using(m0, m)
    &&& forall|t: u64| m0.keeps(t) ==> !(#[trigger] in_tree(m, pdpt, t))
}

proof fn growing_stays_apart(m0: Machine, m: Machine, after: Machine, pdpt: u64)
    requires
        tree_apart(m0, m, pdpt),
        grown(m, after, pdpt),
    ensures
        tree_apart(m0, after, pdpt),
{
    assert forall|t: u64| m0.keeps(t) implies #[trigger] after.keeps(t) by {
        assert(m.keeps(t));
    }
    assert forall|t: u64| m0.keeps(t) implies !(#[trigger] in_tree(after, pdpt, t)) by {
        assert(m.keeps(t));
        assert(!in_tree(m, pdpt, t));
    }
}

/// Keeping a page, from its directory on, writes to the tree alone.
proof fn keeping_from_a_directory_came(
    m0: Machine,
    m: Machine,
    pdpt: u64,
    page: u64,
    leaf: u64,
    tables: int,
)
    requires
        m.sound(),
        is_tree(m, pdpt),
        tree_apart(m0, m, pdpt),
        has_dir(m, pdpt, index_at(page as int, 1)),
    ensures
        came_by(
            m,
            m.keep_from(dir(m, pdpt, index_at(page as int, 1)), 2, page, leaf, tables).0,
            apart(m0),
        ),
{
    let i = index_at(page as int, 1);
    let j = index_at(page as int, 2);
    let at = index_at(page as int, 3);
    let d = dir(m, pdpt, i);
    let may = apart(m0);
    let after = m.keep_from(d, 2, page, leaf, tables).0;
    assert(in_tree(m, pdpt, d));
    assert(!m0.keeps(d));
    reveal_with_fuel(Machine::keep_from, 3);
    if has_tab(m, pdpt, i, j) {
        let t = tab(m, pdpt, i, j);
        assert(in_tree(m, pdpt, t));
        put_came(m, t, at, leaf, may);
    } else {
        a_table_comes_apart(m0, m);
        if let (made, Ok(new)) = m.new_table() {
            let next = made.put(d, j, link_entry(new));
            put_came(made, d, j, link_entry(new), may);
            put_came(next, new, at, leaf, may);
            coming_by_goes_on(m, made, next, may);
            coming_by_goes_on(m, next, after, may);
        }
    }
}

/// Keeping a page writes to the tree alone.
proof fn keeping_a_page_came(
    m0: Machine,
    m: Machine,
    pdpt: u64,
    page: u64,
    leaf: u64,
    tables: int,
)
    requires
        m.sound(),
        is_tree(m, pdpt),
        tree_apart(m0, m, pdpt),
    ensures
        came_by(m, m.keep_from(pdpt, 1, page, leaf, tables).0, apart(m0)),
{
    let i = index_at(page as int, 1);
    let may = apart(m0);
    let after = m.keep_from(pdpt, 1, page, leaf, tables).0;
    assert(in_tree(m, pdpt, pdpt));
    assert(!m0.keeps(pdpt));
    if has_dir(m, pdpt, i) {
        keeping_from_a_directory_came(m0, m, pdpt, page, leaf, tables);
    } else {
        a_table_comes_apart(m0, m);
        if let (made, Ok(new)) = m.new_table() {
            let next = made.put(pdpt, i, link_entry(new));
            put_came(made, pdpt, i, link_entry(new), may);
            a_tree_takes_a_directory(m, pdpt, i);
            assert(grown(m, next, pdpt));
            growing_stays_apart(m0, m, next, pdpt);
            keeping_from_a_directory_came(m0, next, pdpt, page, leaf, tables + 1);
            coming_by_goes_on(m, made, next, may);
            coming_by_goes_on(m, next, after, may);
        }
    }
}

proof fn keeping_a_range_came(
    m0: Machine,
    m: Machine,
    pdpt: u64,
    kept: MappedRange,
    page: int,
    tables: int,
)
    requires
        m.sound(),
        is_tree(m, pdpt),
        tree_apart(m0, m, pdpt),
    ensures
        came_by(m, m.keep_range(pdpt, kept, page, tables).0, apart(m0)),
    decreases last_page(kept) + PAGE - page,
{
    let may = apart(m0);
    let after = m.keep_range(pdpt, kept, page, tables).0;
    if page > last_page(kept) {
        nothing_came(m, after, may);
    } else {
        let leaf = kept_entry(kept, page as u64);
        keeping_a_page_came(m0, m, pdpt, page as u64, leaf, tables);
        keeping_a_page_sets_its_leaf(m, pdpt, page as u64, leaf, tables);
        if let (next, Ok(count)) = m.keep_from(pdpt, 1, page as u64, leaf, tables) {
            growing_stays_apart(m0, m, next, pdpt);
            keeping_a_range_came(m0, next, pdpt, kept, page + PAGE, count);
            coming_by_goes_on(m, next, after, may);
        }
    }
}

proof fn keeping_ranges_came(
    m0: Machine,
    m: Machine,
    pdpt: u64,
    ranges: Seq<MappedRange>,
    k: int,
    tables: int,
)
    requires
        m.sound(),
        is_tree(m, pdpt),
        tree_apart(m0, m, pdpt),
        0 <= k <= ranges.len(),
        all_below(ranges, (512 * GIB) as u64),
    ensures
        came_by(m, m.keep_ranges(pdpt, ranges, k, tables).0, apart(m0)),
    decreases ranges.len() - k,
{
    let may = apart(m0);
    let after = m.keep_ranges(pdpt, ranges, k, tables).0;
    if k >= ranges.len() {
        nothing_came(m, after, may);
    } else {
        let kept = ranges[k];
        let page = first_page(kept);
        assert(kept.range.len != 0);
        keeping_a_range_came(m0, m, pdpt, kept, page, tables);
        keeping_a_range_sets_its_leaves(m, pdpt, kept, page, tables, 0);
        if let (next, Ok(count)) = m.keep_range(pdpt, kept, page, tables) {
            growing_stays_apart(m0, m, next, pdpt);
            keeping_ranges_came(m0, next, pdpt, ranges, k + 1, count);
            coming_by_goes_on(m, next, after, may);
        }
    }
}

/// The walk through a tree that the root is not in never comes to the root.
proof fn a_tree_avoids_the_root(built: Machine, mem: Memory, pdpt: u64, va: u64)
    requires
        is_tree(built, pdpt),
        !in_tree(built, pdpt, built.root),
        forall|t: u64, i: int| t != built.root ==> #[trigger] mem(t, i) == (built.mem)(t, i),
    ensures
        !visits(mem, pdpt, 1, va, built.root),
{
    let i = index_at(va as int, 1);
    let j = index_at(va as int, 2);
    assert(mem(pdpt, i) == (built.mem)(pdpt, i));
    if has_dir(built, pdpt, i) {
        let d = dir(built, pdpt, i);
        assert(d != built.root);
        assert(mem(d, j) == (built.mem)(d, j));
        if has_tab(built, pdpt, i, j) {
            let t = tab(built, pdpt, i, j);
            assert(t != built.root);
            assert(!visits(mem, t, 3, va, built.root));
        }
        assert(!visits(mem, d, 2, va, built.root));
    }
}

/// The map in use stays usable while the lower half is emptied: between any
/// two of the writes every address leads where it led before or where it will
/// lead afterwards.
pub proof fn no_moment_of_keeping_is_half_done(
    m: Machine,
    ranges: Seq<MappedRange>,
    va: u64,
    k: int,
)
    requires
        m.sound(),
        m.keeps_walk(va),
        !returns_to_root(m.mem, m.root, va),
        0 <= k <= changes_since(m, m.keep_only(ranges).0).len(),
    ensures
        ({
            let after = m.keep_only(ranges).0;
            let now = lookup(moment(m, after, k), m.root, va);
            ||| now == lookup(m.mem, m.root, va)
            ||| now == lookup(after.mem, m.root, va)
        }),
{
    let (after, r) = m.keep_only(ranges);
    if !all_below(ranges, (512 * GIB) as u64) {
        nothing_came(m, after, apart(m));
        the_old_map_stays(m, after, va, k);
    } else {
        a_table_comes_apart(m, m);
        let made = m.new_table().0;
        if let Ok(pdpt) = m.new_table().1 {
            an_empty_table_is_a_tree(m);
            assert(tree_apart(m, made, pdpt)) by {
                assert forall|t: u64| m.keeps(t) implies !(#[trigger] in_tree(made, pdpt, t)) by {}
            }
            keeping_ranges_came(m, made, pdpt, ranges, 0, 1);
            keeping_ranges_decides_the_leaves(made, pdpt, ranges, 0, 1, 0);
            let built = made.keep_ranges(pdpt, ranges, 0, 1).0;
            growing_stays_apart(m, made, built, pdpt);
            coming_by_goes_on(m, made, built, apart(m));
            if r is Ok && canonical(va) {
                let entry = link_entry(pdpt) | USER;
                assert(visits(m.mem, m.root, 0, va, m.root));
                assert(!in_tree(built, pdpt, m.root));
                assert(!in_tree(made, pdpt, m.root));
                installing_came(built, entry);
                a_new_table_is_empty_and_its_own(m);
                path_entry_links(pdpt, true);
                an_empty_entry_is_not_present();
                let slot = index_at(va as int, 0);
                if (after.mem)(m.root, slot) != (m.mem)(m.root, slot) {
                    assert(made.keeps(m.root));
                    assert((built.mem)(m.root, slot) == (m.mem)(m.root, slot));
                    if slot == 0 {
                        assert((after.mem)(m.root, 0) == entry);
                        assert forall|t: u64, i: int| t != m.root implies #[trigger] (after.mem)(t, i)
                            == (built.mem)(t, i) by {}
                        a_tree_avoids_the_root(built, after.mem, pdpt, va);
                    } else {
                        assert((after.mem)(m.root, slot) == 0);
                    }
                }
                linking_at_the_end(m, built, after, va, k);
            } else if r is Err {
                the_old_map_stays(m, after, va, k);
            }
        } else {
            the_old_map_stays(m, after, va, k);
        }
    }
}

} // verus!
