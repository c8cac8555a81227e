//! What the lower half leads to once only a few ranges are kept in it.
//!
//! The tables below the new directory pointer table form a tree of three
//! levels that no one else writes; keeping a page sets one of its leaves.

use super::halves::{page_of, parts_of_an_address, returns_to_root, the_upper_half_stays};
use super::laws::{
    a_new_table_is_empty_and_its_own, a_walk_reads_only_its_tables, an_empty_entry_is_not_present,
    is_frame, leaf_entry_maps, path_entry_links,
};
use super::model::{
    caching, index_at, is_executable, is_present, is_writable, lookup, mapped_page, policy_bits,
    target, visits, walk, Leaf, Machine, Memory, TableError, GIB, KERNEL_SLOT, KERNEL_SPACE_BASE,
    PAGE, USER,
};
use super::plan::{all_below, first_page, kept_entry, last_page, link_entry};
use crate::hal::paging::MappedRange;
use vstd::prelude::*;

verus! {

/// The directory below an entry of the pointer table.
pub(super) open spec fn dir(m: Machine, pdpt: u64, i: int) -> u64 {
    target((m.mem)(pdpt, i))
}

/// The last-level table below an entry of a directory.
pub(super) open spec fn tab(m: Machine, pdpt: u64, i: int, j: int) -> u64 {
    target((m.mem)(dir(m, pdpt, i), j))
}

pub(super) open spec fn has_dir(m: Machine, pdpt: u64, i: int) -> bool {
    0 <= i < 512 && is_present((m.mem)(pdpt, i))
}

pub(super) open spec fn has_tab(m: Machine, pdpt: u64, i: int, j: int) -> bool {
    has_dir(m, pdpt, i) && 0 <= j < 512 && is_present((m.mem)(dir(m, pdpt, i), j))
}

/// The last-level entry of a page, nothing where a table is missing.
pub(super) open spec fn leaf_at(m: Machine, pdpt: u64, i: int, j: int, k: int) -> u64 {
    if has_tab(m, pdpt, i, j) {
        (m.mem)(tab(m, pdpt, i, j), k)
    } else {
        0
    }
}

/// A tree below `pdpt`: every table in it has one place and is in use.
pub(super) open spec fn is_tree(m: Machine, pdpt: u64) -> bool {
    &&& m.keeps(pdpt)
    &&& forall|i: int| #[trigger]
        has_dir(m, pdpt, i) ==> {
            let d = dir(m, pdpt, i);
            &&& (m.mem)(pdpt, i) == link_entry(d)
            &&& is_frame(d)
            &&& m.keeps(d)
            &&& d != pdpt
        }
    &&& forall|i: int, j: int| #[trigger]
        has_tab(m, pdpt, i, j) ==> {
            let t = tab(m, pdpt, i, j);
            &&& (m.mem)(dir(m, pdpt, i), j) == link_entry(t)
            &&& is_frame(t)
            &&& m.keeps(t)
            &&& t != pdpt
        }
    &&& forall|i: int, a: int|
        #![trigger has_dir(m, pdpt, i), has_dir(m, pdpt, a)]
        has_dir(m, pdpt, i) && has_dir(m, pdpt, a) && i != a ==> dir(m, pdpt, i) != dir(m, pdpt, a)
    &&& forall|i: int, j: int, a: int, b: int|
        #![trigger has_tab(m, pdpt, i, j), has_tab(m, pdpt, a, b)]
        has_tab(m, pdpt, i, j) && has_tab(m, pdpt, a, b) && (i != a || j != b) ==> tab(
            m,
            pdpt,
            i,
            j,
        ) != tab(m, pdpt, a, b)
    &&& forall|i: int, j: int, a: int|
        #![trigger has_tab(m, pdpt, i, j), has_dir(m, pdpt, a)]
        has_tab(m, pdpt, i, j) && has_dir(m, pdpt, a) ==> tab(m, pdpt, i, j) != dir(m, pdpt, a)
}

/// Whether table `t` is one of the tree's.
pub(super) open spec fn in_tree(m: Machine, pdpt: u64, t: u64) -> bool {
    ||| t == pdpt
    ||| exists|i: int| #[trigger] has_dir(m, pdpt, i) && dir(m, pdpt, i) == t
    ||| exists|i: int, j: int| #[trigger] has_tab(m, pdpt, i, j) && tab(m, pdpt, i, j) == t
}

/// A new directory in a tree, with nothing below it.
pub(super) proof fn a_tree_takes_a_directory(m: Machine, pdpt: u64, i: int)
    requires
        m.sound(),
        is_tree(m, pdpt),
        0 <= i < 512,
        !has_dir(m, pdpt, i),
        m.new_table().1 is Ok,
    ensures
        ({
            let new = m.new_table().1->Ok_0;
            let next = m.new_table().0.put(pdpt, i, link_entry(new));
            &&& next.sound()
            &&& next.root == m.root
            &&& is_tree(next, pdpt)
            &&& has_dir(next, pdpt, i)
            &&& dir(next, pdpt, i) == new
            &&& forall|j: int| !has_tab(next, pdpt, i, j)
            &&& forall|a: int, b: int, c: int|
                leaf_at(next, pdpt, a, b, c) == leaf_at(m, pdpt, a, b, c)
            &&& forall|t: u64| m.keeps(t) ==> #[trigger] next.keeps(t)
            &&& forall|t: u64| m.keeps(t) && !in_tree(m, pdpt, t) ==> !in_tree(next, pdpt, t)
            &&& forall|t: u64, c: int|
                m.keeps(t) && t != pdpt ==> #[trigger] (next.mem)(t, c) == (m.mem)(t, c)
        }),
{
    a_new_table_is_empty_and_its_own(m);
    let (made, new) = (m.new_table().0, m.new_table().1->Ok_0);
    let next = made.put(pdpt, i, link_entry(new));
    path_entry_links(new, false);
    an_empty_entry_is_not_present();
    assert(made.keeps(pdpt));
    assert(next.keeps(new));
    assert forall|t: u64| m.keeps(t) implies #[trigger] next.keeps(t) by {
        assert(made.keeps(t));
    }
    assert((next.mem)(pdpt, i) == link_entry(new));
    assert forall|a: int| a != i implies #[trigger] has_dir(next, pdpt, a) == has_dir(m, pdpt, a) && dir(
        next,
        pdpt,
        a,
    ) == dir(m, pdpt, a) by {
        assert((next.mem)(pdpt, a) == (m.mem)(pdpt, a));
    }
    assert(has_dir(next, pdpt, i) && dir(next, pdpt, i) == new);
    assert forall|j: int| !has_tab(next, pdpt, i, j) by {
        if 0 <= j < 512 {
            assert((next.mem)(new, j) == 0);
        }
    }
    assert forall|a: int, j: int| a != i implies #[trigger] has_tab(next, pdpt, a, j) == has_tab(
        m,
        pdpt,
        a,
        j,
    ) && (has_tab(m, pdpt, a, j) ==> tab(next, pdpt, a, j) == tab(m, pdpt, a, j)) by {
        if has_dir(m, pdpt, a) {
            assert(m.keeps(dir(m, pdpt, a)));
            assert((next.mem)(dir(m, pdpt, a), j) == (m.mem)(dir(m, pdpt, a), j));
        }
    }
    assert forall|a: int, j: int| #[trigger] has_tab(next, pdpt, a, j) implies a != i && has_tab(
        m,
        pdpt,
        a,
        j,
    ) && tab(next, pdpt, a, j) == tab(m, pdpt, a, j) && (next.mem)(dir(next, pdpt, a), j) == (m.mem)(
        dir(m, pdpt, a),
        j,
    ) by {
        assert(a != i);
        assert(has_tab(next, pdpt, a, j) == has_tab(m, pdpt, a, j));
        assert(m.keeps(dir(m, pdpt, a)));
    }
    assert(is_tree(next, pdpt));
    assert forall|a: int, b: int, c: int| leaf_at(next, pdpt, a, b, c) == leaf_at(m, pdpt, a, b, c) by {
        if a == i {
            assert(!has_tab(next, pdpt, i, b));
            assert(!has_tab(m, pdpt, i, b));
        } else {
            assert(has_tab(next, pdpt, a, b) == has_tab(m, pdpt, a, b));
            if has_tab(m, pdpt, a, b) {
                let t = tab(m, pdpt, a, b);
                assert(m.keeps(t) && t != pdpt);
            }
        }
    }
    assert forall|t: u64| m.keeps(t) && !in_tree(m, pdpt, t) implies !in_tree(next, pdpt, t) by {
        if in_tree(next, pdpt, t) {
            if exists|a: int| #[trigger] has_dir(next, pdpt, a) && dir(next, pdpt, a) == t {
                let a = choose|a: int| #[trigger] has_dir(next, pdpt, a) && dir(next, pdpt, a) == t;
                assert(a != i);
                assert(has_dir(m, pdpt, a) && dir(m, pdpt, a) == t);
            } else if exists|a: int, j: int| #[trigger]
                has_tab(next, pdpt, a, j) && tab(next, pdpt, a, j) == t {
                let (a, j) = choose|a: int, j: int| #[trigger]
                    has_tab(next, pdpt, a, j) && tab(next, pdpt, a, j) == t;
                assert(has_tab(m, pdpt, a, j) && tab(m, pdpt, a, j) == t);
            }
        }
    }
}

/// A new last-level table in a tree, with nothing in it.
proof fn a_tree_takes_a_table(m: Machine, pdpt: u64, i: int, j: int)
    requires
        m.sound(),
        is_tree(m, pdpt),
        has_dir(m, pdpt, i),
        0 <= j < 512,
        !has_tab(m, pdpt, i, j),
        m.new_table().1 is Ok,
    ensures
        ({
            let new = m.new_table().1->Ok_0;
            let next = m.new_table().0.put(dir(m, pdpt, i), j, link_entry(new));
            &&& next.sound()
            &&& next.root == m.root
            &&& is_tree(next, pdpt)
            &&& has_tab(next, pdpt, i, j)
            &&& tab(next, pdpt, i, j) == new
            &&& forall|a: int, b: int, c: int|
                0 <= c < 512 ==> leaf_at(next, pdpt, a, b, c) == leaf_at(m, pdpt, a, b, c)
            &&& forall|t: u64| m.keeps(t) ==> #[trigger] next.keeps(t)
            &&& forall|t: u64| m.keeps(t) && !in_tree(m, pdpt, t) ==> !in_tree(next, pdpt, t)
            &&& forall|t: u64, c: int|
                m.keeps(t) && t != dir(m, pdpt, i) ==> #[trigger] (next.mem)(t, c) == (m.mem)(t, c)
        }),
{
    a_new_table_is_empty_and_its_own(m);
    let (made, new) = (m.new_table().0, m.new_table().1->Ok_0);
    let d = dir(m, pdpt, i);
    let next = made.put(d, j, link_entry(new));
    path_entry_links(new, false);
    an_empty_entry_is_not_present();
    assert(m.keeps(d) && d != pdpt);
    assert(made.keeps(pdpt) && made.keeps(d));
    assert(next.keeps(new));
    assert forall|t: u64| m.keeps(t) implies #[trigger] next.keeps(t) by {
        assert(made.keeps(t));
    }
    assert forall|a: int| #[trigger] has_dir(next, pdpt, a) == has_dir(m, pdpt, a) && dir(
        next,
        pdpt,
        a,
    ) == dir(m, pdpt, a) by {
        assert((next.mem)(pdpt, a) == (m.mem)(pdpt, a));
    }
    assert((next.mem)(d, j) == link_entry(new));
    assert(dir(next, pdpt, i) == d);
    assert(has_tab(next, pdpt, i, j) && tab(next, pdpt, i, j) == new);
    assert forall|a: int, b: int| a != i || b != j implies #[trigger] has_tab(next, pdpt, a, b)
        == has_tab(m, pdpt, a, b) && (has_tab(m, pdpt, a, b) ==> tab(next, pdpt, a, b) == tab(
        m,
        pdpt,
        a,
        b,
    ) && (next.mem)(dir(next, pdpt, a), b) == (m.mem)(dir(m, pdpt, a), b)) by {
        assert(has_dir(next, pdpt, a) == has_dir(m, pdpt, a));
        if has_dir(m, pdpt, a) {
            assert(m.keeps(dir(m, pdpt, a)));
            if a != i {
                assert(dir(m, pdpt, a) != d);
            }
            assert((next.mem)(dir(m, pdpt, a), b) == (m.mem)(dir(m, pdpt, a), b));
        }
    }
    assert(is_tree(next, pdpt));
    assert forall|a: int, b: int, c: int| 0 <= c < 512 implies leaf_at(next, pdpt, a, b, c)
        == leaf_at(m, pdpt, a, b, c) by {
        if a == i && b == j {
            assert((next.mem)(new, c) == 0);
        } else {
            assert(has_tab(next, pdpt, a, b) == has_tab(m, pdpt, a, b));
            if has_tab(m, pdpt, a, b) {
                let t = tab(m, pdpt, a, b);
                assert(m.keeps(t) && t != d);
            }
        }
    }
    assert forall|t: u64| m.keeps(t) && !in_tree(m, pdpt, t) implies !in_tree(next, pdpt, t) by {
        if in_tree(next, pdpt, t) {
            if exists|a: int| #[trigger] has_dir(next, pdpt, a) && dir(next, pdpt, a) == t {
                let a = choose|a: int| #[trigger] has_dir(next, pdpt, a) && dir(next, pdpt, a) == t;
                assert(has_dir(m, pdpt, a) && dir(m, pdpt, a) == t);
            } else if exists|a: int, b: int| #[trigger]
                has_tab(next, pdpt, a, b) && tab(next, pdpt, a, b) == t {
                let (a, b) = choose|a: int, b: int| #[trigger]
                    has_tab(next, pdpt, a, b) && tab(next, pdpt, a, b) == t;
                assert(a != i || b != j);
                assert(has_tab(m, pdpt, a, b) && tab(m, pdpt, a, b) == t);
            }
        }
    }
}

/// Setting one leaf of a tree sets no other.
proof fn a_tree_takes_a_leaf(m: Machine, pdpt: u64, i: int, j: int, k: int, leaf: u64)
    requires
        m.sound(),
        is_tree(m, pdpt),
        has_tab(m, pdpt, i, j),
        0 <= k < 512,
    ensures
        ({
            let next = m.put(tab(m, pdpt, i, j), k, leaf);
            &&& next.sound()
            &&& is_tree(next, pdpt)
            &&& forall|a: int, b: int, c: int|
                leaf_at(next, pdpt, a, b, c) == if a == i && b == j && c == k {
                    leaf
                } else {
                    leaf_at(m, pdpt, a, b, c)
                }
            &&& forall|t: u64| m.keeps(t) ==> #[trigger] next.keeps(t)
            &&& forall|t: u64| !in_tree(m, pdpt, t) ==> !in_tree(next, pdpt, t)
        }),
{
    let t = tab(m, pdpt, i, j);
    let next = m.put(t, k, leaf);
    assert(t != pdpt);
    assert forall|a: int| #[trigger] has_dir(next, pdpt, a) == has_dir(m, pdpt, a) && dir(
        next,
        pdpt,
        a,
    ) == dir(m, pdpt, a) by {
        assert((next.mem)(pdpt, a) == (m.mem)(pdpt, a));
    }
    assert forall|a: int, b: int| #[trigger] has_tab(next, pdpt, a, b) == has_tab(m, pdpt, a, b) && (
    has_tab(m, pdpt, a, b) ==> tab(next, pdpt, a, b) == tab(m, pdpt, a, b) && (next.mem)(
        dir(next, pdpt, a),
        b,
    ) == (m.mem)(dir(m, pdpt, a), b)) by {
        assert(has_dir(next, pdpt, a) == has_dir(m, pdpt, a));
        if has_dir(m, pdpt, a) {
            assert(dir(m, pdpt, a) != t);
        }
    }
    assert forall|u: u64| m.keeps(u) implies #[trigger] next.keeps(u) by {}
    assert(is_tree(next, pdpt));
    assert forall|a: int, b: int, c: int|
        leaf_at(next, pdpt, a, b, c) == if a == i && b == j && c == k {
            leaf
        } else {
            leaf_at(m, pdpt, a, b, c)
        } by {
        assert(has_tab(next, pdpt, a, b) == has_tab(m, pdpt, a, b));
        if has_tab(m, pdpt, a, b) && (a != i || b != j) {
            assert(tab(m, pdpt, a, b) != t);
        }
    }
    assert forall|u: u64| !in_tree(m, pdpt, u) implies !in_tree(next, pdpt, u) by {
        if in_tree(next, pdpt, u) {
            if exists|a: int| #[trigger] has_dir(next, pdpt, a) && dir(next, pdpt, a) == u {
                let a = choose|a: int| #[trigger] has_dir(next, pdpt, a) && dir(next, pdpt, a) == u;
                assert(has_dir(m, pdpt, a) && dir(m, pdpt, a) == u);
            } else if exists|a: int, b: int| #[trigger]
                has_tab(next, pdpt, a, b) && tab(next, pdpt, a, b) == u {
                let (a, b) = choose|a: int, b: int| #[trigger]
                    has_tab(next, pdpt, a, b) && tab(next, pdpt, a, b) == u;
                assert(has_tab(m, pdpt, a, b) && tab(m, pdpt, a, b) == u);
            }
        }
    }
}

/// What holds between a machine and a later one while a tree is built: it is
/// still a tree, and no table outside it has changed.
pub(super) open spec fn grown(m: Machine, after: Machine, pdpt: u64) -> bool {
    &&& after.sound()
    &&& after.root == m.root
    &&& is_tree(after, pdpt)
    &&& forall|t: u64| m.keeps(t) ==> #[trigger] after.keeps(t)
    &&& forall|t: u64| m.keeps(t) && !in_tree(m, pdpt, t) ==> !(#[trigger] in_tree(after, pdpt, t))
    &&& forall|t: u64, c: int|
        m.keeps(t) && !in_tree(m, pdpt, t) ==> #[trigger] (after.mem)(t, c) == (m.mem)(t, c)
}

proof fn growing_goes_on(a: Machine, b: Machine, c: Machine, pdpt: u64)
    requires
        grown(a, b, pdpt),
        grown(b, c, pdpt),
    ensures
        grown(a, c, pdpt),
{
    assert forall|t: u64| a.keeps(t) implies #[trigger] c.keeps(t) by {
        assert(b.keeps(t));
    }
    assert forall|t: u64| a.keeps(t) && !in_tree(a, pdpt, t) implies !(#[trigger] in_tree(
        c,
        pdpt,
        t,
    )) by {
        assert(b.keeps(t));
        assert(!in_tree(b, pdpt, t));
    }
    assert forall|t: u64, i: int| a.keeps(t) && !in_tree(a, pdpt, t) implies #[trigger] (c.mem)(t, i)
        == (a.mem)(t, i) by {
        assert(b.keeps(t));
        assert(!in_tree(b, pdpt, t));
        assert((b.mem)(t, i) == (a.mem)(t, i));
    }
}

/// Keeping a page from its last-level table on.
proof fn keeping_sets_the_leaf(m: Machine, pdpt: u64, page: u64, leaf: u64, tables: int)
    requires
        m.sound(),
        is_tree(m, pdpt),
        has_tab(m, pdpt, index_at(page as int, 1), index_at(page as int, 2)),
    ensures
        ({
            let t = tab(m, pdpt, index_at(page as int, 1), index_at(page as int, 2));
            let (after, r) = m.keep_from(t, 3, page, leaf, tables);
            &&& r == Ok::<int, TableError>(tables)
            &&& grown(m, after, pdpt)
            &&& leaf_set(m, after, pdpt, page, leaf)
        }),
{
    let i = index_at(page as int, 1);
    let j = index_at(page as int, 2);
    let k = index_at(page as int, 3);
    a_tree_takes_a_leaf(m, pdpt, i, j, k, leaf);
}

/// The one leaf that keeping `page` sets.
pub(super) open spec fn leaf_set(m: Machine, after: Machine, pdpt: u64, page: u64, leaf: u64) -> bool {
    forall|a: int, b: int, c: int|
        0 <= c < 512 ==> #[trigger] leaf_at(after, pdpt, a, b, c) == if a == index_at(
            page as int,
            1,
        ) && b == index_at(page as int, 2) && c == index_at(page as int, 3) {
            leaf
        } else {
            leaf_at(m, pdpt, a, b, c)
        }
}

/// Keeping a page from its directory on.
proof fn keeping_finds_the_table(m: Machine, pdpt: u64, page: u64, leaf: u64, tables: int)
    requires
        m.sound(),
        is_tree(m, pdpt),
        has_dir(m, pdpt, index_at(page as int, 1)),
    ensures
        ({
            let d = dir(m, pdpt, index_at(page as int, 1));
            let (after, r) = m.keep_from(d, 2, page, leaf, tables);
            &&& grown(m, after, pdpt)
            &&& r is Ok ==> leaf_set(m, after, pdpt, page, leaf)
        }),
{
    let i = index_at(page as int, 1);
    let j = index_at(page as int, 2);
    let d = dir(m, pdpt, i);
    let (after, r) = m.keep_from(d, 2, page, leaf, tables);
    if has_tab(m, pdpt, i, j) {
        keeping_sets_the_leaf(m, pdpt, page, leaf, tables);
    } else {
        a_new_table_is_empty_and_its_own(m);
        if let (made, Ok(new)) = m.new_table() {
            a_tree_takes_a_table(m, pdpt, i, j);
            let next = made.put(d, j, link_entry(new));
            keeping_sets_the_leaf(next, pdpt, page, leaf, tables + 1);
            assert(in_tree(m, pdpt, d));
            assert(grown(m, next, pdpt));
            growing_goes_on(m, next, after, pdpt);
            assert forall|a: int, b: int, c: int| 0 <= c < 512 implies #[trigger] leaf_at(
                after,
                pdpt,
                a,
                b,
                c,
            ) == if a == i && b == j && c == index_at(page as int, 3) {
                leaf
            } else {
                leaf_at(m, pdpt, a, b, c)
            } by {
                assert(leaf_at(next, pdpt, a, b, c) == leaf_at(m, pdpt, a, b, c));
            }
        } else {
            spending_a_frame_keeps_the_tree(m, pdpt);
        }
    }
}

/// A frame that could not be used costs the tree nothing.
proof fn spending_a_frame_keeps_the_tree(m: Machine, pdpt: u64)
    requires
        m.sound(),
        is_tree(m, pdpt),
        m.new_table().1 is Err,
    ensures
        grown(m, m.new_table().0, pdpt),
{
    a_new_table_is_empty_and_its_own(m);
    let after = m.new_table().0;
    assert forall|i: int| #[trigger] has_dir(after, pdpt, i) == has_dir(m, pdpt, i) by {}
    assert forall|i: int, j: int| #[trigger] has_tab(after, pdpt, i, j) == has_tab(m, pdpt, i, j) by {}
    assert forall|t: u64| m.keeps(t) && !in_tree(m, pdpt, t) implies !(#[trigger] in_tree(
        after,
        pdpt,
        t,
    )) by {
        if in_tree(after, pdpt, t) {
            if exists|a: int| #[trigger] has_dir(after, pdpt, a) && dir(after, pdpt, a) == t {
                let a = choose|a: int| #[trigger] has_dir(after, pdpt, a) && dir(after, pdpt, a) == t;
                assert(has_dir(m, pdpt, a) && dir(m, pdpt, a) == t);
            } else if exists|a: int, b: int| #[trigger]
                has_tab(after, pdpt, a, b) && tab(after, pdpt, a, b) == t {
                let (a, b) = choose|a: int, b: int| #[trigger]
                    has_tab(after, pdpt, a, b) && tab(after, pdpt, a, b) == t;
                assert(has_tab(m, pdpt, a, b) && tab(m, pdpt, a, b) == t);
            }
        }
    }
}

/// Keeping a page sets its leaf and no other.
pub(super) proof fn keeping_a_page_sets_its_leaf(m: Machine, pdpt: u64, page: u64, leaf: u64, tables: int)
    requires
        m.sound(),
        is_tree(m, pdpt),
    ensures
        ({
            let (after, r) = m.keep_from(pdpt, 1, page, leaf, tables);
            &&& grown(m, after, pdpt)
            &&& r is Ok ==> leaf_set(m, after, pdpt, page, leaf)
        }),
{
    let i = index_at(page as int, 1);
    let (after, r) = m.keep_from(pdpt, 1, page, leaf, tables);
    if has_dir(m, pdpt, i) {
        keeping_finds_the_table(m, pdpt, page, leaf, tables);
    } else {
        a_new_table_is_empty_and_its_own(m);
        if let (made, Ok(new)) = m.new_table() {
            a_tree_takes_a_directory(m, pdpt, i);
            let next = made.put(pdpt, i, link_entry(new));
            keeping_finds_the_table(next, pdpt, page, leaf, tables + 1);
            assert(in_tree(m, pdpt, pdpt));
            assert(grown(m, next, pdpt));
            growing_goes_on(m, next, after, pdpt);
            if r is Ok {
                assert forall|a: int, b: int, c: int| 0 <= c < 512 implies #[trigger] leaf_at(
                    after,
                    pdpt,
                    a,
                    b,
                    c,
                ) == if a == i && b == index_at(page as int, 2) && c == index_at(page as int, 3) {
                    leaf
                } else {
                    leaf_at(m, pdpt, a, b, c)
                } by {
                    assert(leaf_at(next, pdpt, a, b, c) == leaf_at(m, pdpt, a, b, c));
                }
            }
        } else {
            spending_a_frame_keeps_the_tree(m, pdpt);
        }
    }
}

/// Whether keeping the range keeps the page at `page`.
pub open spec fn keeps_page(kept: MappedRange, page: int) -> bool {
    first_page(kept) <= page <= last_page(kept)
}

/// The last-level entry of the page that holds `va`, below 512 GiB.
pub(super) open spec fn leaf_of(m: Machine, pdpt: u64, va: u64) -> u64 {
    leaf_at(m, pdpt, index_at(va as int, 1), index_at(va as int, 2), index_at(va as int, 3))
}

/// Pages of their own have leaves of their own.
proof fn leaves_tell_pages_apart(page: u64, va: u64)
    requires
        page < 0x80_0000_0000,
        va < 0x80_0000_0000,
        page % PAGE == 0,
    ensures
        (index_at(page as int, 1) == index_at(va as int, 1) && index_at(page as int, 2) == index_at(
            va as int,
            2,
        ) && index_at(page as int, 3) == index_at(va as int, 3)) <==> page == page_of(va),
{
    parts_of_an_address(page);
    parts_of_an_address(va);
    let v = va as int;
    let p = page as int;
    if page == page_of(va) {
        assert(p / 0x1000 == v / 0x1000);
        assert(p / 0x1000 / 0x200 == p / 0x20_0000);
        assert(v / 0x1000 / 0x200 == v / 0x20_0000);
        assert(p / 0x20_0000 / 0x200 == p / 0x4000_0000);
        assert(v / 0x20_0000 / 0x200 == v / 0x4000_0000);
    }
}

/// Keeping a range sets the leaves of its pages and no other.
pub(super) proof fn keeping_a_range_sets_its_leaves(
    m: Machine,
    pdpt: u64,
    kept: MappedRange,
    page: int,
    tables: int,
    va: u64,
)
    requires
        m.sound(),
        is_tree(m, pdpt),
        page >= 0,
        page % PAGE as int == 0,
        last_page(kept) < 0x80_0000_0000,
        va < 0x80_0000_0000,
    ensures
        ({
            let (after, r) = m.keep_range(pdpt, kept, page, tables);
            &&& grown(m, after, pdpt)
            &&& r is Ok ==> leaf_of(after, pdpt, va) == if page <= page_of(va) <= last_page(kept) {
                kept_entry(kept, page_of(va) as u64)
            } else {
                leaf_of(m, pdpt, va)
            }
        }),
    decreases last_page(kept) + PAGE - page,
{
    let (after, r) = m.keep_range(pdpt, kept, page, tables);
    if page <= last_page(kept) {
        let p = page as u64;
        let leaf = kept_entry(kept, p);
        keeping_a_page_sets_its_leaf(m, pdpt, p, leaf, tables);
        let (next, r1) = m.keep_from(pdpt, 1, p, leaf, tables);
        if let Ok(count) = r1 {
            keeping_a_range_sets_its_leaves(next, pdpt, kept, page + PAGE, count, va);
            growing_goes_on(m, next, after, pdpt);
            leaves_tell_pages_apart(p, va);
            assert(page_of(va) % PAGE as int == 0);
        }
    } else {
        nothing_grows(m, pdpt);
    }
}

proof fn nothing_grows(m: Machine, pdpt: u64)
    requires
        m.sound(),
        is_tree(m, pdpt),
    ensures
        grown(m, m, pdpt),
{
}

/// The leaf of a page after the ranges from `k` on have been kept over
/// `before`: the last range that has the page decides.
pub(super) open spec fn decided(ranges: Seq<MappedRange>, k: int, page: int, before: u64) -> u64
    decreases ranges.len() - k,
{
    if k >= ranges.len() {
        before
    } else {
        decided(
            ranges,
            k + 1,
            page,
            if keeps_page(ranges[k], page) {
                kept_entry(ranges[k], page as u64)
            } else {
                before
            },
        )
    }
}

pub(super) proof fn keeping_ranges_decides_the_leaves(
    m: Machine,
    pdpt: u64,
    ranges: Seq<MappedRange>,
    k: int,
    tables: int,
    va: u64,
)
    requires
        m.sound(),
        is_tree(m, pdpt),
        0 <= k <= ranges.len(),
        all_below(ranges, (512 * GIB) as u64),
        va < 0x80_0000_0000,
    ensures
        ({
            let (after, r) = m.keep_ranges(pdpt, ranges, k, tables);
            &&& grown(m, after, pdpt)
            &&& r is Ok ==> leaf_of(after, pdpt, va) == decided(
                ranges,
                k,
                page_of(va),
                leaf_of(m, pdpt, va),
            )
        }),
    decreases ranges.len() - k,
{
    let (after, r) = m.keep_ranges(pdpt, ranges, k, tables);
    if k < ranges.len() {
        let kept = ranges[k];
        assert(kept.range.len != 0);
        keeping_a_range_sets_its_leaves(m, pdpt, kept, first_page(kept), tables, va);
        let (next, r1) = m.keep_range(pdpt, kept, first_page(kept), tables);
        if let Ok(count) = r1 {
            keeping_ranges_decides_the_leaves(next, pdpt, ranges, k + 1, count, va);
            growing_goes_on(m, next, after, pdpt);
        }
    } else {
        nothing_grows(m, pdpt);
    }
}

/// Whether range `k` decides how the page at `page` is mapped: it has the
/// page, and no later range has.
pub open spec fn decides(ranges: Seq<MappedRange>, k: int, page: int) -> bool {
    &&& 0 <= k < ranges.len()
    &&& keeps_page(ranges[k], page)
    &&& forall|j: int| k < j < ranges.len() ==> !keeps_page(#[trigger] ranges[j], page)
}

/// Whether any of the ranges has the page at `page`.
pub open spec fn any_keeps(ranges: Seq<MappedRange>, page: int) -> bool {
    exists|k: int| 0 <= k < ranges.len() && keeps_page(#[trigger] ranges[k], page)
}

proof fn the_last_range_decides(ranges: Seq<MappedRange>, k: int, page: int, before: u64)
    requires
        0 <= k <= ranges.len(),
    ensures
        forall|d: int|
            k <= d && #[trigger] decides(ranges, d, page) ==> decided(ranges, k, page, before)
                == kept_entry(ranges[d], page as u64),
        (forall|j: int| k <= j < ranges.len() ==> !keeps_page(#[trigger] ranges[j], page))
            ==> decided(ranges, k, page, before) == before,
    decreases ranges.len() - k,
{
    if k < ranges.len() {
        let now = if keeps_page(ranges[k], page) {
            kept_entry(ranges[k], page as u64)
        } else {
            before
        };
        the_last_range_decides(ranges, k + 1, page, now);
    }
}

/// Where some range has a page, the last one of them decides.
proof fn some_range_decides(ranges: Seq<MappedRange>, n: int, page: int)
    requires
        0 <= n <= ranges.len(),
        forall|j: int| n <= j < ranges.len() ==> !keeps_page(#[trigger] ranges[j], page),
        any_keeps(ranges, page),
    ensures
        exists|k: int| #[trigger] decides(ranges, k, page),
    decreases n,
{
    if n > 0 {
        if keeps_page(ranges[n - 1], page) {
            assert(decides(ranges, n - 1, page));
        } else {
            some_range_decides(ranges, n - 1, page);
        }
    }
}

/// A fresh pointer table is a tree with nothing in it.
pub(super) proof fn an_empty_table_is_a_tree(m: Machine)
    requires
        m.sound(),
        m.new_table().1 is Ok,
    ensures
        ({
            let (made, pdpt) = (m.new_table().0, m.new_table().1->Ok_0);
            &&& is_tree(made, pdpt)
            &&& forall|i: int, j: int, k: int| leaf_at(made, pdpt, i, j, k) == 0
            &&& forall|t: u64| t != pdpt ==> !(#[trigger] in_tree(made, pdpt, t))
        }),
{
    a_new_table_is_empty_and_its_own(m);
    an_empty_entry_is_not_present();
    let (made, pdpt) = (m.new_table().0, m.new_table().1->Ok_0);
    assert forall|i: int| !(#[trigger] has_dir(made, pdpt, i)) by {
        if 0 <= i < 512 {
            assert((made.mem)(pdpt, i) == 0);
        }
    }
}

/// What emptying the lower half does to every table that is not the new
/// tree's: nothing, but for the lower half of the root once all is built.
pub proof fn keeping_writes_only_its_own_tables(
    m: Machine,
    ranges: Seq<MappedRange>,
    t: u64,
    i: int,
)
    requires
        m.sound(),
        m.keeps(t),
        m.keeps(m.root),
    ensures
        (m.keep_only(ranges).0.mem)(t, i) != (m.mem)(t, i) ==> {
            &&& m.keep_only(ranges).1 is Ok
            &&& t == m.root
            &&& i < KERNEL_SLOT
        },
        m.keep_only(ranges).0.sound(),
        m.keep_only(ranges).0.keeps(t),
        m.keep_only(ranges).0.root == m.root,
{
    if all_below(ranges, (512 * GIB) as u64) {
        a_new_table_is_empty_and_its_own(m);
        let made = m.new_table().0;
        assert(made.keeps(t) && made.keeps(m.root));
        if let Ok(pdpt) = m.new_table().1 {
            an_empty_table_is_a_tree(m);
            keeping_ranges_decides_the_leaves(made, pdpt, ranges, 0, 1, 0);
            let built = made.keep_ranges(pdpt, ranges, 0, 1).0;
            assert(!in_tree(made, pdpt, t));
            assert(built.keeps(t));
            assert((built.mem)(t, i) == (made.mem)(t, i));
        }
    }
}

/// The map in use loses no translation while the ranges are laid out: until
/// the new tables are linked every address leads where it did.
pub proof fn the_old_map_stays_while_ranges_are_kept(
    m: Machine,
    ranges: Seq<MappedRange>,
    va: u64,
)
    requires
        m.sound(),
        m.keeps_walk(va),
        m.new_table().1 is Ok,
        all_below(ranges, (512 * GIB) as u64),
    ensures
        ({
            let (made, pdpt) = (m.new_table().0, m.new_table().1->Ok_0);
            let built = made.keep_ranges(pdpt, ranges, 0, 1).0;
            lookup(built.mem, m.root, va) == lookup(m.mem, m.root, va)
        }),
{
    let (made, pdpt) = (m.new_table().0, m.new_table().1->Ok_0);
    let built = made.keep_ranges(pdpt, ranges, 0, 1).0;
    a_new_table_is_empty_and_its_own(m);
    an_empty_table_is_a_tree(m);
    keeping_ranges_decides_the_leaves(made, pdpt, ranges, 0, 1, 0);
    assert forall|t: u64, i: int| visits(m.mem, m.root, 0, va, t) implies #[trigger] (built.mem)(
        t,
        i,
    ) == (m.mem)(t, i) by {
        assert(made.keeps(t));
        assert(!in_tree(made, pdpt, t));
        assert((made.mem)(t, i) == (m.mem)(t, i));
    }
    a_walk_reads_only_its_tables(m.mem, built.mem, m.root, 0, va);
}

/// The lower half after everything else is gone from it: an address leads to
/// itself where one of the ranges has its page, with the rights and the
/// caching of the last such range, for the kernel alone. Every other address
/// leads nowhere.
pub proof fn only_what_is_kept_stays(m: Machine, ranges: Seq<MappedRange>, va: u64)
    requires
        m.sound(),
        m.keeps(m.root),
        m.keep_only(ranges).1 is Ok,
        va < 0x8000_0000_0000,
    ensures
        lookup(m.keep_only(ranges).0.mem, m.root, va) is Some <==> any_keeps(ranges, page_of(va)),
        forall|k: int| #[trigger]
            decides(ranges, k, page_of(va)) ==> lookup(m.keep_only(ranges).0.mem, m.root, va)
                == Some(
                Leaf {
                    phys: va as int,
                    writable: ranges[k].writable,
                    executable: ranges[k].executable,
                    user: false,
                    cache: policy_bits(ranges[k].cache),
                    page_size: PAGE,
                },
            ),
{
    let after = m.keep_only(ranges).0;
    let page = page_of(va);
    a_new_table_is_empty_and_its_own(m);
    let (made, pdpt) = (m.new_table().0, m.new_table().1->Ok_0);
    assert(made.keeps(m.root));
    an_empty_table_is_a_tree(m);
    an_empty_entry_is_not_present();
    path_entry_links(pdpt, true);
    keeping_ranges_decides_the_leaves(made, pdpt, ranges, 0, 1, 0);
    let slot = index_at(va as int, 0);
    assert(0 <= slot < 256);
    if slot == 0 {
        assert(va < 0x80_0000_0000);
        keeping_ranges_decides_the_leaves(made, pdpt, ranges, 0, 1, va);
        let built = made.keep_ranges(pdpt, ranges, 0, 1).0;
        the_last_range_decides(ranges, 0, page, 0);
        assert((after.mem)(m.root, 0) == link_entry(pdpt) | USER);
        assert(!in_tree(made, pdpt, m.root));
        assert(!in_tree(built, pdpt, m.root));
        assert forall|t: u64, i: int| t != m.root implies #[trigger] (after.mem)(t, i) == (
        built.mem)(t, i) by {}
        a_tree_leads_to_its_leaves(built, after.mem, pdpt, va);
        if !any_keeps(ranges, page) {
            assert(decided(ranges, 0, page, 0) == 0);
        } else {
            some_range_decides(ranges, ranges.len() as int, page);
        }
        assert forall|k: int| #[trigger] decides(ranges, k, page) implies lookup(
            after.mem,
            m.root,
            va,
        ) == Some(
            Leaf {
                phys: va as int,
                writable: ranges[k].writable,
                executable: ranges[k].executable,
                user: false,
                cache: policy_bits(ranges[k].cache),
                page_size: PAGE,
            },
        ) by {
            leaf_entry_maps(
                page as u64,
                ranges[k].writable,
                ranges[k].executable,
                false,
                ranges[k].cache,
            );
        }
    } else {
        assert((after.mem)(m.root, slot) == 0);
        if any_keeps(ranges, page) {
            some_range_decides(ranges, ranges.len() as int, page);
        }
        assert forall|k: int| !(#[trigger] decides(ranges, k, page)) by {
            if decides(ranges, k, page) {
                assert(ranges[k].range.len != 0);
            }
        }
    }
}

/// The walk through a tree ends at the leaf it holds for the address.
proof fn a_tree_leads_to_its_leaves(built: Machine, mem: Memory, pdpt: u64, va: u64)
    requires
        va < 0x80_0000_0000,
        is_tree(built, pdpt),
        !in_tree(built, pdpt, built.root),
        forall|t: u64, i: int| t != built.root ==> #[trigger] mem(t, i) == (built.mem)(t, i),
    ensures
        ({
            let leaf = leaf_of(built, pdpt, va);
            walk(mem, pdpt, 1, va) == if is_present(leaf) {
                Some(
                    Leaf {
                        phys: mapped_page(leaf, 3) + va as int % PAGE as int,
                        writable: is_writable(leaf),
                        executable: is_executable(leaf),
                        user: false,
                        cache: caching(leaf),
                        page_size: PAGE,
                    },
                )
            } else {
                None
            }
        }),
{
    let i = index_at(va as int, 1);
    let j = index_at(va as int, 2);
    let k = index_at(va as int, 3);
    an_empty_entry_is_not_present();
    assert(mem(pdpt, i) == (built.mem)(pdpt, i));
    if has_dir(built, pdpt, i) {
        let d = dir(built, pdpt, i);
        path_entry_links(d, false);
        assert(d != built.root);
        assert(mem(d, j) == (built.mem)(d, j));
        if has_tab(built, pdpt, i, j) {
            let t = tab(built, pdpt, i, j);
            path_entry_links(t, false);
            assert(t != built.root);
            assert(mem(t, k) == (built.mem)(t, k));
            assert(walk(mem, t, 3, va) is Some <==> is_present((built.mem)(t, k)));
            assert(walk(mem, d, 2, va) is Some <==> walk(mem, t, 3, va) is Some);
        } else {
            assert(walk(mem, d, 2, va) is None);
        }
        assert(walk(mem, pdpt, 1, va) is Some <==> walk(mem, d, 2, va) is Some);
    }
}

/// Emptying the lower half, or failing to, keeps kernel space as it was.
pub proof fn keeping_keeps_kernel_space(m: Machine, ranges: Seq<MappedRange>, va: u64)
    requires
        m.sound(),
        va >= KERNEL_SPACE_BASE,
        m.keeps_walk(va),
        !returns_to_root(m.mem, m.root, va),
    ensures
        lookup(m.keep_only(ranges).0.mem, m.root, va) == lookup(m.mem, m.root, va),
{
    let after = m.keep_only(ranges).0;
    assert(visits(m.mem, m.root, 0, va, m.root));
    assert forall|t: u64, i: int|
        m.keeps(t) && #[trigger] (after.mem)(t, i) != (m.mem)(t, i) implies t == m.root && i
        < KERNEL_SLOT by {
        keeping_writes_only_its_own_tables(m, ranges, t, i);
    }
    the_upper_half_stays(m, after.mem, va);
}

/// A lower half that could not be emptied leaves every translation as it was.
pub proof fn a_failed_keep_changes_no_translation(m: Machine, ranges: Seq<MappedRange>, va: u64)
    requires
        m.sound(),
        m.keeps_walk(va),
        m.keep_only(ranges).1 is Err,
    ensures
        lookup(m.keep_only(ranges).0.mem, m.root, va) == lookup(m.mem, m.root, va),
{
    let after = m.keep_only(ranges).0;
    assert(visits(m.mem, m.root, 0, va, m.root));
    assert forall|t: u64, i: int| visits(m.mem, m.root, 0, va, t) implies #[trigger] (after.mem)(
        t,
        i,
    ) == (m.mem)(t, i) by {
        keeping_writes_only_its_own_tables(m, ranges, t, i);
    }
    a_walk_reads_only_its_tables(m.mem, after.mem, m.root, 0, va);
}

} // verus!
