//! What holds of the page tables whatever is done to them, given an
//! allocator that hands out each frame once.

use super::model::{
    caching, canonical, entry_table, index_at, is_executable, is_huge, is_present, is_user,
    is_writable, leaf_entry, lookup, mapped_page, page_size, path_entry, policy_bits, put, target,
    unmap_table, visits, walk, Leaf, Machine, Memory, ADDRESS_MASK, KERNEL_SPACE_BASE, NO_EXECUTE,
    PAGE, USER, WRITABLE,
};
use super::plan::link_entry;
use super::{identity_run, CR3_FLAGS};
use crate::hal::memory_map::CachePolicy;
use crate::hal::paging::{MapError, PageFlags, UnmapError};
use vstd::prelude::*;

verus! {

/// An address that an entry can hold as it is.
pub open spec fn is_frame(addr: u64) -> bool {
    addr % PAGE == 0 && addr <= ADDRESS_MASK
}

impl Machine {
    /// The allocator hands out whole frames that an entry can name, and no
    /// frame twice.
    pub open spec fn sound(self) -> bool {
        &&& forall|n: nat|
            #![trigger (self.offers)(n)]
            n >= self.taken ==> match (self.offers)(n) {
                Some(frame) => is_frame(frame.addr()),
                None => true,
            }
        &&& forall|n: nat, k: nat|
            #![trigger (self.offers)(n), (self.offers)(k)]
            self.taken <= n < k ==> match ((self.offers)(n), (self.offers)(k)) {
                (Some(a), Some(b)) => a.addr() != b.addr(),
                _ => true,
            }
    }

    /// The allocator will not hand out table `t`: it is in use, or it is not
    /// the allocator's.
    pub open spec fn keeps(self, t: u64) -> bool {
        forall|n: nat|
            #![trigger (self.offers)(n)]
            n >= self.taken ==> match (self.offers)(n) {
                Some(frame) => frame.addr() != t,
                None => true,
            }
    }

    /// None of the tables that the walk of `va` reads will be handed out.
    pub open spec fn keeps_walk(self, va: u64) -> bool {
        forall|t: u64| #[trigger] visits(self.mem, self.root, 0, va, t) ==> self.keeps(t)
    }
}

/// The walk of an address depends on nothing but the tables it visits.
pub proof fn a_walk_reads_only_its_tables(a: Memory, b: Memory, table: u64, level: nat, va: u64)
    requires
        level <= 3,
        forall|t: u64, i: int| visits(a, table, level, va, t) ==> #[trigger] b(t, i) == a(t, i),
    ensures
        walk(b, table, level, va) == walk(a, table, level, va),
        forall|t: u64| #[trigger] visits(b, table, level, va, t) == visits(a, table, level, va, t),
    decreases 3 - level,
{
    let index = index_at(va as int, level as int);
    let entry = a(table, index);
    assert(visits(a, table, level, va, table));
    assert(b(table, index) == entry);
    if level < 3 && is_present(entry) && !is_huge(entry) {
        assert forall|t: u64, i: int| visits(a, target(entry), level + 1, va, t) implies #[trigger] b(
            t,
            i,
        ) == a(t, i) by {
            assert(visits(a, table, level, va, t));
        }
        let next = target(entry);
        a_walk_reads_only_its_tables(a, b, next, level + 1, va);
        assert forall|t: u64| #[trigger]
            visits(b, table, level, va, t) == visits(a, table, level, va, t) by {
            assert(visits(b, next, level + 1, va, t) == visits(a, next, level + 1, va, t));
        }
    }
}

proof fn path_entry_bits(table: u64)
    by (bit_vector)
    requires
        table % 0x1000 == 0,
        table <= 0x000F_FFFF_FFFF_F000,
    ensures
        table & 0x000F_FFFF_FFFF_F000 == table,
        (table | (0x1u64 | 0x2 | 0x4)) & 1 != 0,
        (table | (0x1u64 | 0x2 | 0x4)) & 0x80 == 0,
        (table | (0x1u64 | 0x2 | 0x4)) & 2 != 0,
        (table | (0x1u64 | 0x2 | 0x4)) & 4 != 0,
        (table | (0x1u64 | 0x2 | 0x4)) & 0x8000_0000_0000_0000 == 0,
        (table | (0x1u64 | 0x2 | 0x4)) & 0x000F_FFFF_FFFF_F000 == table,
        (table | (0x1u64 | 0x2)) & 1 != 0,
        (table | (0x1u64 | 0x2)) & 0x80 == 0,
        (table | (0x1u64 | 0x2)) & 2 != 0,
        (table | (0x1u64 | 0x2)) & 4 == 0,
        (table | (0x1u64 | 0x2)) & 0x8000_0000_0000_0000 == 0,
        (table | (0x1u64 | 0x2)) & 0x000F_FFFF_FFFF_F000 == table,
        table | 0x1 | 0x2 == table | (0x1u64 | 0x2),
        table | 0x1 | 0x2 | 0x4 == table | (0x1u64 | 0x2 | 0x4),
{
}

/// What an entry that links a table says.
pub proof fn path_entry_links(table: u64, user: bool)
    requires
        is_frame(table),
    ensures
        is_present(path_entry(table, user)),
        !is_huge(path_entry(table, user)),
        is_writable(path_entry(table, user)),
        is_executable(path_entry(table, user)),
        is_user(path_entry(table, user)) == user,
        target(path_entry(table, user)) == table,
        link_entry(table) == path_entry(table, false),
        link_entry(table) | USER == path_entry(table, true),
{
    path_entry_bits(table);
}

pub proof fn opened_entry_bits(entry: u64)
    by (bit_vector)
    ensures
        entry | 4 | 4 == entry | 4,
        (entry | 4) & 1 == entry & 1,
        (entry | 4) & 0x80 == entry & 0x80,
        (entry | 4) & 2 == entry & 2,
        (entry | 4) & (16u64 | 8) == entry & (16u64 | 8),
        (entry | 4) & 4 != 0,
        (entry | 4) & 0x8000_0000_0000_0000 == entry & 0x8000_0000_0000_0000,
        (entry | 4) & 0x000F_FFFF_FFFF_F000 == entry & 0x000F_FFFF_FFFF_F000,
        (entry | 4) & 0x000F_FFFF_FFFF_F000 & !0xFFFu64 == entry & 0x000F_FFFF_FFFF_F000 & !0xFFFu64,
        (entry | 4) & 0x000F_FFFF_FFFF_F000 & !0x1F_FFFFu64 == entry & 0x000F_FFFF_FFFF_F000
            & !0x1F_FFFFu64,
        (entry | 4) & 0x000F_FFFF_FFFF_F000 & !0x3FFF_FFFFu64 == entry & 0x000F_FFFF_FFFF_F000
            & !0x3FFF_FFFFu64,
{
}

proof fn leaf_entry_bits(addr: u64, cache: u64, w: u64, x: u64, u: u64)
    by (bit_vector)
    requires
        addr % 0x1000 == 0,
        addr <= 0x000F_FFFF_FFFF_F000,
        cache == 0 || cache == 8 || cache == 16 | 8,
        w == 0 || w == 2,
        x == 0 || x == 0x8000_0000_0000_0000,
        u == 0 || u == 4,
    ensures
        (addr | 1 | cache | w | x | u) & 1 != 0,
        (addr | 1 | cache | w | x | u) & 2 == w,
        (addr | 1 | cache | w | x | u) & 0x8000_0000_0000_0000 == x,
        (addr | 1 | cache | w | x | u) & 4 == u,
        (addr | 1 | cache | w | x | u) & (16u64 | 8) == cache,
        (addr | 1 | cache | w | x | u) & 0x000F_FFFF_FFFF_F000 == addr,
        (addr | 1 | cache | w | x | u) & 0x000F_FFFF_FFFF_F000 & !0xFFFu64 == addr,
        addr | 1 | cache | 0 == addr | 1 | cache,
        addr | 1 | cache | w | 0 == addr | 1 | cache | w,
        addr | 1 | cache | w | x | 0 == addr | 1 | cache | w | x,
{
}

/// What the last-level entry of a page says.
pub proof fn leaf_entry_maps(
    addr: u64,
    writable: bool,
    executable: bool,
    user: bool,
    cache: CachePolicy,
)
    requires
        is_frame(addr),
    ensures
        is_present(leaf_entry(addr, writable, executable, user, cache)),
        is_writable(leaf_entry(addr, writable, executable, user, cache)) == writable,
        is_executable(leaf_entry(addr, writable, executable, user, cache)) == executable,
        is_user(leaf_entry(addr, writable, executable, user, cache)) == user,
        caching(leaf_entry(addr, writable, executable, user, cache)) == policy_bits(cache),
        target(leaf_entry(addr, writable, executable, user, cache)) == addr,
        mapped_page(leaf_entry(addr, writable, executable, user, cache), 3) == addr,
{
    let w: u64 = if writable {
        WRITABLE
    } else {
        0
    };
    let x: u64 = if executable {
        0
    } else {
        NO_EXECUTE
    };
    let u: u64 = if user {
        USER
    } else {
        0
    };
    leaf_entry_bits(addr, policy_bits(cache), w, x, u);
    leaf_entry_bits(addr, policy_bits(cache), w, x, 0);
    leaf_entry_bits(addr, policy_bits(cache), w, 0, 0);
    leaf_entry_bits(addr, policy_bits(cache), 0, 0, 0);
}

pub proof fn an_empty_entry_is_not_present()
    ensures
        !is_present(0),
{
    assert(0u64 & 1 == 0) by (bit_vector);
}

/// A new table is a frame of its own with nothing in it, and no other table
/// changes.
pub proof fn a_new_table_is_empty_and_its_own(m: Machine)
    requires
        m.sound(),
    ensures
        m.new_table().0.sound(),
        m.new_table().0.root == m.root,
        m.new_table().0.window == m.window,
        m.new_table().0.flushes == m.flushes,
        forall|t: u64| m.keeps(t) ==> #[trigger] m.new_table().0.keeps(t),
        match m.new_table() {
            (after, Ok(new)) => {
                &&& is_frame(new)
                &&& after.keeps(new)
                &&& !m.keeps(new)
                &&& forall|i: int| 0 <= i < 512 ==> #[trigger] (after.mem)(new, i) == 0
                &&& forall|t: u64, i: int| t != new ==> #[trigger] (after.mem)(t, i) == (m.mem)(t, i)
            },
            (after, Err(error)) => after.mem == m.mem,
        },
{
    let (after, r) = m.new_table();
    assert(after.taken == m.taken + 1);
    if let Ok(new) = r {
        assert((m.offers)(m.taken) is Some);
        assert((m.offers)(m.taken)->Some_0.addr() == new);
    }
}

/// Whether every table that is already on the path of `page` lets it be
/// written.
pub open spec fn path_writable(mem: Memory, table: u64, level: nat, page: u64) -> bool
    decreases 3 - level,
{
    let entry = mem(table, index_at(page as int, level as int));
    level >= 3 || !is_present(entry) || (is_writable(entry) && path_writable(
        mem,
        target(entry),
        level + 1,
        page,
    ))
}

/// Whether every table that is already on the path of `page` lets it be
/// executed.
pub open spec fn path_executable(mem: Memory, table: u64, level: nat, page: u64) -> bool
    decreases 3 - level,
{
    let entry = mem(table, index_at(page as int, level as int));
    level >= 3 || !is_present(entry) || (is_executable(entry) && path_executable(
        mem,
        target(entry),
        level + 1,
        page,
    ))
}

/// Whether the walk of `va` from a table at `level` reads, at level `l`, the
/// entry at `i` of table `t`.
pub open spec fn reads_at(
    mem: Memory,
    table: u64,
    level: nat,
    va: u64,
    l: nat,
    t: u64,
    i: int,
) -> bool
    decreases 3 - level,
{
    let index = index_at(va as int, level as int);
    let entry = mem(table, index);
    (level == l && table == t && index == i) || (is_present(entry) && !is_huge(entry) && level < 3
        && reads_at(mem, target(entry), level + 1, va, l, t, i))
}

/// Whether the walk of `va` from a table at `level` reads the entry at `i`
/// of table `t`.
pub open spec fn reads_entry(mem: Memory, table: u64, level: nat, va: u64, t: u64, i: int) -> bool {
    exists|l: nat| reads_at(mem, table, level, va, l, t, i)
}

/// Whether the tables have one place for each entry as far as the two
/// addresses are concerned: an entry on the way of both is at one level, and
/// the addresses agree down to it.
pub open spec fn one_place(mem: Memory, root: u64, a: u64, b: u64) -> bool {
    one_place_from(mem, root, 0, a, b)
}

/// The same, from a table at `level` that is on the way of both addresses.
pub open spec fn one_place_from(mem: Memory, table: u64, level: nat, a: u64, b: u64) -> bool {
    forall|l: nat, k: nat, t: u64, i: int|
        #![trigger reads_at(mem, table, level, a, l, t, i), reads_at(
            mem,
            table,
            level,
            b,
            k,
            t,
            i,
        )]
        reads_at(mem, table, level, a, l, t, i) && reads_at(mem, table, level, b, k, t, i) ==> l
            == k && a as int / page_size(l as int) as int == b as int / page_size(l as int) as int
}

/// The levels at which a walk reads.
pub proof fn reads_between(mem: Memory, table: u64, level: nat, va: u64, l: nat, t: u64, i: int)
    requires
        level <= 3,
        reads_at(mem, table, level, va, l, t, i),
    ensures
        level <= l <= 3,
        visits(mem, table, level, va, t),
        i == index_at(va as int, l as int),
    decreases 3 - level,
{
    let entry = mem(table, index_at(va as int, level as int));
    if !(level == l && table == t && i == index_at(va as int, level as int)) {
        reads_between(mem, target(entry), level + 1, va, l, t, i);
    }
}

/// What the rest of a walk reads, the walk reads.
pub proof fn reads_below(mem: Memory, table: u64, level: nat, va: u64, t: u64, i: int)
    requires
        level < 3,
        is_present(mem(table, index_at(va as int, level as int))),
        !is_huge(mem(table, index_at(va as int, level as int))),
        reads_entry(mem, target(mem(table, index_at(va as int, level as int))), level + 1, va, t, i),
    ensures
        reads_entry(mem, table, level, va, t, i),
{
    let next = target(mem(table, index_at(va as int, level as int)));
    let below = level + 1;
    let l = choose|l: nat| reads_at(mem, next, below, va, l, t, i);
    assert(reads_at(mem, table, level, va, l, t, i));
}

/// The walk of an address depends on nothing but the entries it reads.
pub proof fn a_walk_reads_only_its_entries(a: Memory, b: Memory, table: u64, level: nat, va: u64)
    requires
        level <= 3,
        forall|t: u64, i: int| reads_entry(a, table, level, va, t, i) ==> #[trigger] b(t, i) == a(t, i),
    ensures
        walk(b, table, level, va) == walk(a, table, level, va),
    decreases 3 - level,
{
    let index = index_at(va as int, level as int);
    let entry = a(table, index);
    assert(reads_at(a, table, level, va, level, table, index));
    assert(b(table, index) == entry);
    if level < 3 && is_present(entry) && !is_huge(entry) {
        let next = target(entry);
        assert forall|t: u64, i: int| reads_entry(a, next, level + 1, va, t, i) implies #[trigger] b(
            t,
            i,
        ) == a(t, i) by {
            let below = level + 1;
            let l = choose|l: nat| reads_at(a, next, below, va, l, t, i);
            assert(reads_at(a, table, level, va, l, t, i));
        }
        a_walk_reads_only_its_entries(a, b, next, level + 1, va);
    }
}

/// Opening entries to ring 3 moves no walk.
pub proof fn opening_keeps_the_path(a: Memory, b: Memory, table: u64, level: nat, page: u64)
    requires
        level <= 3,
        forall|t: u64, i: int| #[trigger] b(t, i) == a(t, i) || b(t, i) == a(t, i) | USER,
    ensures
        path_writable(b, table, level, page) == path_writable(a, table, level, page),
        path_executable(b, table, level, page) == path_executable(a, table, level, page),
        forall|t: u64| #[trigger] visits(b, table, level, page, t) == visits(a, table, level, page, t),
        forall|l: nat, t: u64, i: int| #[trigger]
            reads_at(b, table, level, page, l, t, i) == reads_at(a, table, level, page, l, t, i),
    decreases 3 - level,
{
    let index = index_at(page as int, level as int);
    let entry = a(table, index);
    opened_entry_bits(entry);
    assert(b(table, index) == entry || b(table, index) == entry | USER);
    if level < 3 {
        let next = target(entry);
        opening_keeps_the_path(a, b, next, level + 1, page);
        assert forall|t: u64| #[trigger]
            visits(b, table, level, page, t) == visits(a, table, level, page, t) by {
            assert(visits(b, next, level + 1, page, t) == visits(a, next, level + 1, page, t));
        }
        assert forall|l: nat, t: u64, i: int| #[trigger]
            reads_at(b, table, level, page, l, t, i) == reads_at(a, table, level, page, l, t, i) by {
            assert(reads_at(b, next, level + 1, page, l, t, i) == reads_at(
                a,
                next,
                level + 1,
                page,
                l,
                t,
                i,
            ));
        }
    }
}

/// Addresses of one page take the same way.
proof fn same_page_same_indices(va: u64, page: u64)
    requires
        va as int / PAGE as int == page as int / PAGE as int,
    ensures
        forall|level: int| #[trigger] index_at(va as int, level) == index_at(page as int, level),
{
    assert(va as int / 0x1000 / 0x200 == va as int / 0x20_0000);
    assert(va as int / 0x20_0000 / 0x200 == va as int / 0x4000_0000);
    assert(va as int / 0x4000_0000 / 0x200 == va as int / 0x80_0000_0000);
    assert(page as int / 0x1000 / 0x200 == page as int / 0x20_0000);
    assert(page as int / 0x20_0000 / 0x200 == page as int / 0x4000_0000);
    assert(page as int / 0x4000_0000 / 0x200 == page as int / 0x80_0000_0000);
}

/// What mapping from a table downwards does to that table's subtree and to
/// every table that the allocator keeps.
pub proof fn map_from_effect(
    m: Machine,
    table: u64,
    level: nat,
    page: u64,
    frame: u64,
    flags: PageFlags,
    upgraded: bool,
    va: u64,
)
    requires
        m.sound(),
        level <= 3,
        is_frame(frame),
        va as int / PAGE as int == page as int / PAGE as int,
        forall|t: u64| #[trigger] visits(m.mem, table, level, page, t) ==> m.keeps(t),
    ensures
        ({
            let (after, r) = m.map_from(table, level, page, frame, flags, upgraded);
            &&& after.sound()
            &&& after.root == m.root
            &&& after.window == m.window
            &&& forall|t: u64| m.keeps(t) ==> #[trigger] after.keeps(t)
            &&& forall|t: u64, i: int|
                m.keeps(t) && #[trigger] (after.mem)(t, i) != (m.mem)(t, i) ==> reads_entry(
                    m.mem,
                    table,
                    level,
                    page,
                    t,
                    i,
                )
            &&& forall|t: u64, i: int|
                m.keeps(t) && is_present((m.mem)(t, i)) ==> #[trigger] (after.mem)(t, i) == (m.mem)(
                    t,
                    i,
                ) || (flags.user && (after.mem)(t, i) == (m.mem)(t, i) | USER)
            &&& r is Ok ==> walk(after.mem, table, level, va) == Some(
                Leaf {
                    phys: frame + va as int % PAGE as int,
                    writable: flags.writable && path_writable(m.mem, table, level, page),
                    executable: flags.executable && path_executable(m.mem, table, level, page),
                    user: flags.user,
                    cache: policy_bits(flags.cache),
                    page_size: PAGE,
                },
            )
        }),
    decreases 3 - level,
{
    let index = index_at(page as int, level as int);
    let entry = (m.mem)(table, index);
    let (after, r) = m.map_from(table, level, page, frame, flags, upgraded);
    same_page_same_indices(va, page);
    assert(visits(m.mem, table, level, page, table));
    assert(index_at(va as int, level as int) == index);
    assert(reads_at(m.mem, table, level, page, level, table, index));
    if level >= 3 {
        leaf_entry_maps(frame, flags.writable, flags.executable, flags.user, flags.cache);
    } else if !is_present(entry) {
        a_new_table_is_empty_and_its_own(m);
        if let (made, Ok(new)) = m.new_table() {
            path_entry_links(new, flags.user);
            let linked = made.put(table, index, path_entry(new, flags.user));
            assert(linked.sound());
            assert forall|t: u64| #[trigger] visits(linked.mem, new, level + 1, page, t) implies linked.keeps(
                t,
            ) by {
                assert(!is_present((linked.mem)(new, index_at(page as int, (level + 1) as int)))) by {
                    assert((linked.mem)(new, index_at(page as int, (level + 1) as int)) == 0);
                    an_empty_entry_is_not_present();
                }
                assert(t == new);
                assert(made.keeps(new));
            }
            map_from_effect(linked, new, level + 1, page, frame, flags, upgraded, va);
            assert((linked.mem)(table, index) == path_entry(new, flags.user));
            opened_entry_bits(path_entry(new, flags.user));
            assert(m.keeps(table));
            assert(made.keeps(table));
            assert(linked.keeps(table));
            assert((linked.mem)(new, index_at(page as int, (level + 1) as int)) == 0);
            an_empty_entry_is_not_present();
            assert forall|t: u64, i: int|
                m.keeps(t) && #[trigger] (after.mem)(t, i) != (m.mem)(t, i) implies reads_entry(
                m.mem,
                table,
                level,
                page,
                t,
                i,
            ) by {
                assert(linked.keeps(t));
                assert(reads_at(m.mem, table, level, page, level, table, index));
                if (after.mem)(t, i) != (linked.mem)(t, i) {
                    let below = level + 1;
                    let l = choose|l: nat| reads_at(linked.mem, new, below, page, l, t, i);
                    reads_between(linked.mem, new, below, page, l, t, i);
                }
            }
            assert forall|t: u64, i: int| m.keeps(t) && is_present((m.mem)(t, i)) implies #[trigger] (
            after.mem)(t, i) == (m.mem)(t, i) || (flags.user && (after.mem)(t, i) == (m.mem)(t, i)
                | USER) by {
                assert(linked.keeps(t));
                assert((linked.mem)(t, i) == (m.mem)(t, i));
            }
        }
    } else if !is_huge(entry) {
        let opened = if flags.user && !is_user(entry) {
            m.put(table, index, entry | USER)
        } else {
            m
        };
        opened_entry_bits(entry);
        opening_keeps_the_path(m.mem, opened.mem, target(entry), level + 1, page);
        assert forall|t: u64| #[trigger]
            visits(opened.mem, target(entry), level + 1, page, t) implies opened.keeps(t) by {
            assert(visits(m.mem, table, level, page, t));
        }
        map_from_effect(
            opened,
            target(entry),
            level + 1,
            page,
            frame,
            flags,
            upgraded || (flags.user && !is_user(entry)),
            va,
        );
        assert(opened.keeps(table));
        opened_entry_bits((opened.mem)(table, index));
        assert forall|t: u64, i: int|
            m.keeps(t) && #[trigger] (after.mem)(t, i) != (m.mem)(t, i) implies reads_entry(
            m.mem,
            table,
            level,
            page,
            t,
            i,
        ) by {
            assert(opened.keeps(t));
            assert(reads_at(m.mem, table, level, page, level, table, index));
            if (after.mem)(t, i) != (opened.mem)(t, i) {
                let below = level + 1;
                let next = target(entry);
                let l = choose|l: nat| reads_at(opened.mem, next, below, page, l, t, i);
                assert(reads_at(m.mem, next, below, page, l, t, i));
                reads_below(m.mem, table, level, page, t, i);
            }
        }
        assert forall|t: u64, i: int| m.keeps(t) && is_present((m.mem)(t, i)) implies #[trigger] (
        after.mem)(t, i) == (m.mem)(t, i) || (flags.user && (after.mem)(t, i) == (m.mem)(t, i)
            | USER) by {
            assert(opened.keeps(t));
        }
    }
}

/// Where two walks that have gone the same way may leave each other.
pub proof fn leaving_the_path(mem: Memory, table: u64, level: nat, page: u64, va: u64)
    requires
        level <= 3,
        one_place_from(mem, table, level, page, va),
        index_at(va as int, level as int) != index_at(page as int, level as int),
    ensures
        forall|t: u64, i: int|
            !(reads_entry(mem, table, level, page, t, i) && reads_entry(
                mem,
                table,
                level,
                va,
                t,
                i,
            )),
{
    assert forall|t: u64, i: int| reads_entry(mem, table, level, page, t, i) implies !reads_entry(
        mem,
        table,
        level,
        va,
        t,
        i,
    ) by {
        let l = choose|l: nat| reads_at(mem, table, level, page, l, t, i);
        if reads_entry(mem, table, level, va, t, i) {
            let k = choose|k: nat| reads_at(mem, table, level, va, k, t, i);
            reads_between(mem, table, level, page, l, t, i);
            agreeing_above(va, page, level, l);
        }
    }
}

/// Addresses that agree down to one level agree down to every level above
/// it.
pub proof fn agreeing_above(a: u64, b: u64, level: nat, l: nat)
    requires
        level <= l <= 3,
        a as int / page_size(l as int) as int == b as int / page_size(l as int) as int,
    ensures
        a as int / page_size(level as int) as int == b as int / page_size(level as int) as int,
{
    assert(a as int / 0x1000 / 0x200 == a as int / 0x20_0000);
    assert(a as int / 0x20_0000 / 0x200 == a as int / 0x4000_0000);
    assert(a as int / 0x4000_0000 / 0x200 == a as int / 0x80_0000_0000);
    assert(b as int / 0x1000 / 0x200 == b as int / 0x20_0000);
    assert(b as int / 0x20_0000 / 0x200 == b as int / 0x4000_0000);
    assert(b as int / 0x4000_0000 / 0x200 == b as int / 0x80_0000_0000);
}

/// Addresses that agree down to a level and take the same entry below it
/// agree there too.
pub proof fn agreeing_below(a: u64, b: u64, level: nat)
    requires
        level < 3,
        a as int / page_size(level as int) as int == b as int / page_size(level as int) as int,
        index_at(a as int, (level + 1) as int) == index_at(b as int, (level + 1) as int),
    ensures
        a as int / page_size((level + 1) as int) as int == b as int / page_size(
            (level + 1) as int,
        ) as int,
{
    assert(a as int / 0x1000 / 0x200 == a as int / 0x20_0000);
    assert(a as int / 0x20_0000 / 0x200 == a as int / 0x4000_0000);
    assert(a as int / 0x4000_0000 / 0x200 == a as int / 0x80_0000_0000);
    assert(b as int / 0x1000 / 0x200 == b as int / 0x20_0000);
    assert(b as int / 0x20_0000 / 0x200 == b as int / 0x4000_0000);
    assert(b as int / 0x4000_0000 / 0x200 == b as int / 0x80_0000_0000);
}

/// A table made on the path of a page leads nowhere else.
proof fn a_new_path_leads_nowhere_else(
    m: Machine,
    table: u64,
    level: nat,
    page: u64,
    frame: u64,
    flags: PageFlags,
    upgraded: bool,
    va: u64,
)
    requires
        m.sound(),
        m.keeps(table),
        level <= 3,
        is_frame(frame),
        !is_present((m.mem)(table, index_at(page as int, level as int))),
        va as int / page_size(level as int) as int == page as int / page_size(level as int) as int,
        va as int / PAGE as int != page as int / PAGE as int,
    ensures
        walk(
            m.map_from(table, level, page, frame, flags, upgraded).0.mem,
            table,
            level,
            va,
        ) is None,
    decreases 3 - level,
{
    let index = index_at(page as int, level as int);
    let (after, r) = m.map_from(table, level, page, frame, flags, upgraded);
    assert(index_at(va as int, level as int) == index);
    a_new_table_is_empty_and_its_own(m);
    if let (made, Ok(new)) = m.new_table() {
        let below = level + 1;
        path_entry_links(new, flags.user);
        opened_entry_bits(path_entry(new, flags.user));
        an_empty_entry_is_not_present();
        let linked = made.put(table, index, path_entry(new, flags.user));
        assert(linked.sound());
        assert(made.keeps(table));
        assert(linked.keeps(table) && linked.keeps(new));
        assert((linked.mem)(new, index_at(page as int, below as int)) == 0);
        assert forall|t: u64| #[trigger] visits(linked.mem, new, below, page, t) implies linked.keeps(
            t,
        ) by {
            assert(t == new);
        }
        map_from_effect(linked, new, below, page, frame, flags, upgraded, page);
        assert((linked.mem)(table, index) == path_entry(new, flags.user));
        if index_at(va as int, below as int) == index_at(page as int, below as int) {
            agreeing_below(va, page, level);
            a_new_path_leads_nowhere_else(linked, new, below, page, frame, flags, upgraded, va);
        } else {
            let other = index_at(va as int, below as int);
            assert((linked.mem)(new, other) == 0);
            if (after.mem)(new, other) != (linked.mem)(new, other) {
                let l = choose|l: nat| reads_at(linked.mem, new, below, page, l, new, other);
                assert(reads_at(linked.mem, new, below, page, l, new, other));
            }
        }
    }
}

/// Two walks that lead to the same place with the same rights. Where
/// `opened`, the way may have been opened to ring 3 in the meantime.
pub open spec fn alike(before: Option<Leaf>, after: Option<Leaf>, opened: bool) -> bool {
    match (before, after) {
        (None, None) => true,
        (Some(b), Some(a)) => {
            &&& a.phys == b.phys
            &&& a.page_size == b.page_size
            &&& a.cache == b.cache
            &&& a.writable == b.writable
            &&& a.executable == b.executable
            &&& b.user ==> a.user
            &&& !opened ==> a.user == b.user
        },
        _ => false,
    }
}

/// What mapping from a table downwards does to an address that comes through
/// the same table.
#[verifier::rlimit(60)]
proof fn map_from_elsewhere(
    m: Machine,
    table: u64,
    level: nat,
    page: u64,
    frame: u64,
    flags: PageFlags,
    upgraded: bool,
    va: u64,
)
    requires
        m.sound(),
        level <= 3,
        is_frame(frame),
        forall|t: u64| #[trigger] visits(m.mem, table, level, page, t) ==> m.keeps(t),
        forall|t: u64| #[trigger] visits(m.mem, table, level, va, t) ==> m.keeps(t),
        one_place_from(m.mem, table, level, page, va),
        level > 0 ==> va as int / page_size(level - 1) as int == page as int / page_size(
            level - 1,
        ) as int,
        level == 0 ==> canonical(va) && canonical(page),
        va as int / PAGE as int != page as int / PAGE as int,
    ensures
        alike(
            walk(m.mem, table, level, va),
            walk(
                m.map_from(table, level, page, frame, flags, upgraded).0.mem,
                table,
                level,
                va,
            ),
            flags.user,
        ),
    decreases 3 - level,
{
    let index = index_at(page as int, level as int);
    let entry = (m.mem)(table, index);
    let (after, r) = m.map_from(table, level, page, frame, flags, upgraded);
    map_from_effect(m, table, level, page, frame, flags, upgraded, page);
    assert(visits(m.mem, table, level, va, table));
    if index_at(va as int, level as int) != index {
        leaving_the_path(m.mem, table, level, page, va);
        assert forall|t: u64, i: int| reads_entry(m.mem, table, level, va, t, i) implies #[trigger] (
        after.mem)(t, i) == (m.mem)(t, i) by {
            let l = choose|l: nat| reads_at(m.mem, table, level, va, l, t, i);
            reads_between(m.mem, table, level, va, l, t, i);
            assert(visits(m.mem, table, level, va, t));
            assert(m.keeps(t));
        }
        a_walk_reads_only_its_entries(m.mem, after.mem, table, level, va);
    } else {
        if level > 0 {
            agreeing_below(va, page, (level - 1) as nat);
        } else {
            assert(va as int / 0x80_0000_0000 == page as int / 0x80_0000_0000);
        }
        if !is_present(entry) {
            a_new_path_leads_nowhere_else(m, table, level, page, frame, flags, upgraded, va);
        } else if level < 3 && !is_huge(entry) {
            let opened = if flags.user && !is_user(entry) {
                m.put(table, index, entry | USER)
            } else {
                m
            };
            let next = target(entry);
            let below = level + 1;
            opened_entry_bits(entry);
            opening_keeps_the_path(m.mem, opened.mem, next, below, page);
            opening_keeps_the_path(m.mem, opened.mem, next, below, va);
            assert forall|t: u64| #[trigger] visits(opened.mem, next, below, page, t) implies opened.keeps(
                t,
            ) by {
                assert(visits(m.mem, table, level, page, t));
            }
            assert forall|t: u64| #[trigger] visits(opened.mem, next, below, va, t) implies opened.keeps(
                t,
            ) by {
                assert(visits(m.mem, table, level, va, t));
            }
            assert forall|l: nat, k: nat, t: u64, i: int|
                #![trigger reads_at(opened.mem, next, below, page, l, t, i), reads_at(
                    opened.mem,
                    next,
                    below,
                    va,
                    k,
                    t,
                    i,
                )]
                reads_at(opened.mem, next, below, page, l, t, i) && reads_at(
                    opened.mem,
                    next,
                    below,
                    va,
                    k,
                    t,
                    i,
                ) implies l == k && page as int / page_size(l as int) as int == va as int
                / page_size(l as int) as int by {
                assert(reads_at(m.mem, table, level, page, l, t, i));
                assert(reads_at(m.mem, table, level, va, k, t, i));
            }
            let now = upgraded || (flags.user && !is_user(entry));
            map_from_elsewhere(opened, next, below, page, frame, flags, now, va);
            map_from_effect(opened, next, below, page, frame, flags, now, page);
            assert(opened.keeps(table));
            opened_entry_bits((opened.mem)(table, index));
            opening_keeps_the_walk(m.mem, opened.mem, next, below, va);
        }
    }
}

/// Opening entries to ring 3 changes nothing but who may come through.
pub proof fn opening_keeps_the_walk(a: Memory, b: Memory, table: u64, level: nat, va: u64)
    requires
        level <= 3,
        forall|t: u64, i: int| #[trigger] b(t, i) == a(t, i) || b(t, i) == a(t, i) | USER,
    ensures
        alike(walk(a, table, level, va), walk(b, table, level, va), true),
        b == a ==> walk(b, table, level, va) == walk(a, table, level, va),
    decreases 3 - level,
{
    let index = index_at(va as int, level as int);
    let entry = a(table, index);
    opened_entry_bits(entry);
    assert(b(table, index) == entry || b(table, index) == entry | USER);
    if level < 3 {
        opening_keeps_the_walk(a, b, target(entry), level + 1, va);
    }
}

/// A mapped page leads to its frame, cached as asked, with the rights that were asked for as
/// far as the tables that were already there grant them. It can be reached
/// from ring 3 exactly where it was mapped for a program, in the lower half.
pub proof fn a_mapped_page_leads_to_its_frame(
    m: Machine,
    page: u64,
    frame: u64,
    flags: PageFlags,
    va: u64,
)
    requires
        m.sound(),
        m.keeps_walk(page),
        canonical(page),
        is_frame(frame),
        va as int / PAGE as int == page as int / PAGE as int,
        m.map(page, frame, flags).1 is Ok,
    ensures
        lookup(m.map(page, frame, flags).0.mem, m.root, va) == Some(
            Leaf {
                phys: frame + va as int % PAGE as int,
                writable: flags.writable && path_writable(m.mem, m.root, 0, page),
                executable: flags.executable && path_executable(m.mem, m.root, 0, page),
                user: flags.user,
                cache: policy_bits(flags.cache),
                page_size: PAGE,
            },
        ),
        flags.user == (va < KERNEL_SPACE_BASE),
        m.map(page, frame, flags).0.root == m.root,
{
    map_from_effect(m, m.root, 0, page, frame, flags, false, va);
    same_page_same_indices(va, page);
}

/// What a mapping that fails does to the page itself, from a table downwards.
proof fn map_from_failed(
    m: Machine,
    table: u64,
    level: nat,
    page: u64,
    frame: u64,
    flags: PageFlags,
    upgraded: bool,
    va: u64,
)
    requires
        m.sound(),
        level <= 3,
        is_frame(frame),
        va as int / PAGE as int == page as int / PAGE as int,
        forall|t: u64| #[trigger] visits(m.mem, table, level, page, t) ==> m.keeps(t),
        m.map_from(table, level, page, frame, flags, upgraded).1 is Err,
    ensures
        alike(
            walk(m.mem, table, level, va),
            walk(m.map_from(table, level, page, frame, flags, upgraded).0.mem, table, level, va),
            flags.user,
        ),
    decreases 3 - level,
{
    let index = index_at(page as int, level as int);
    let entry = (m.mem)(table, index);
    let (after, r) = m.map_from(table, level, page, frame, flags, upgraded);
    same_page_same_indices(va, page);
    assert(visits(m.mem, table, level, page, table));
    assert(index_at(va as int, level as int) == index);
    if level < 3 && !is_present(entry) {
        a_new_table_is_empty_and_its_own(m);
        if let (made, Ok(new)) = m.new_table() {
            let below = level + 1;
            let link = path_entry(new, flags.user);
            let linked = made.put(table, index, link);
            path_entry_links(new, flags.user);
            opened_entry_bits(link);
            an_empty_entry_is_not_present();
            assert(linked.sound());
            assert(made.keeps(new) && made.keeps(table));
            assert(linked.keeps(new) && linked.keeps(table));
            assert((linked.mem)(new, index_at(page as int, below as int)) == 0);
            assert((linked.mem)(new, index_at(va as int, below as int)) == 0);
            assert((linked.mem)(table, index) == link);
            map_from_effect(linked, new, below, page, frame, flags, upgraded, va);
            map_from_failed(linked, new, below, page, frame, flags, upgraded, va);
            assert(walk(linked.mem, new, below, va) is None);
            assert(walk(after.mem, new, below, va) is None);
        }
    } else if level < 3 && !is_huge(entry) {
        let opens = flags.user && !is_user(entry);
        let opened = if opens {
            m.put(table, index, entry | USER)
        } else {
            m
        };
        let next = target(entry);
        let below = level + 1;
        opened_entry_bits(entry);
        opened_entry_bits((opened.mem)(table, index));
        opening_keeps_the_path(m.mem, opened.mem, next, below, page);
        opening_keeps_the_walk(m.mem, opened.mem, next, below, va);
        assert forall|t: u64| #[trigger] visits(opened.mem, next, below, page, t) implies opened.keeps(
            t,
        ) by {
            assert(visits(m.mem, table, level, page, t));
        }
        assert(opened.keeps(table));
        map_from_effect(opened, next, below, page, frame, flags, upgraded || opens, va);
        map_from_failed(opened, next, below, page, frame, flags, upgraded || opens, va);
        assert(alike(walk(m.mem, next, below, va), walk(after.mem, next, below, va), flags.user));
    }
}

/// A page that could not be mapped leads where it did. A program's page may
/// have opened tables on its way to ring 3 before it was refused.
pub proof fn a_failed_mapping_leaves_the_page_as_it_was(
    m: Machine,
    page: u64,
    frame: u64,
    flags: PageFlags,
    va: u64,
)
    requires
        m.sound(),
        m.keeps_walk(page),
        is_frame(frame),
        va as int / PAGE as int == page as int / PAGE as int,
        m.map(page, frame, flags).1 is Err,
    ensures
        alike(
            lookup(m.mem, m.root, va),
            lookup(m.map(page, frame, flags).0.mem, m.root, va),
            flags.user,
        ),
{
    if flags.user == (page < KERNEL_SPACE_BASE) {
        map_from_failed(m, m.root, 0, page, frame, flags, false, va);
    }
}

/// Mapping takes frames from the allocator and changes none of its answers.
pub proof fn mapping_changes_no_answer(
    m: Machine,
    table: u64,
    level: nat,
    page: u64,
    frame: u64,
    flags: PageFlags,
    upgraded: bool,
)
    requires
        level <= 3,
    ensures
        m.map_from(table, level, page, frame, flags, upgraded).0.offers == m.offers,
        m.map_from(table, level, page, frame, flags, upgraded).0.window == m.window,
        m.map_from(table, level, page, frame, flags, upgraded).0.root == m.root,
    decreases 3 - level,
{
    let index = index_at(page as int, level as int);
    let entry = (m.mem)(table, index);
    let below = level + 1;
    if level < 3 && !is_present(entry) {
        if let (made, Ok(new)) = m.new_table() {
            let linked = made.put(table, index, path_entry(new, flags.user));
            mapping_changes_no_answer(linked, new, below, page, frame, flags, upgraded);
        }
    } else if level < 3 && !is_huge(entry) {
        let opened = m.put(table, index, entry | USER);
        mapping_changes_no_answer(opened, target(entry), below, page, frame, flags, true);
        mapping_changes_no_answer(m, target(entry), below, page, frame, flags, upgraded);
    }
}

/// Mapping a page, or failing to, changes where no other address leads. A
/// kernel page changes nothing at all elsewhere; a program's page may open
/// the tables that it shares with other addresses to ring 3.
pub proof fn mapping_moves_no_other_address(
    m: Machine,
    page: u64,
    frame: u64,
    flags: PageFlags,
    va: u64,
)
    requires
        m.sound(),
        m.keeps_walk(page),
        m.keeps_walk(va),
        one_place(m.mem, m.root, page, va),
        canonical(page),
        is_frame(frame),
        va as int / PAGE as int != page as int / PAGE as int,
    ensures
        alike(
            lookup(m.mem, m.root, va),
            lookup(m.map(page, frame, flags).0.mem, m.root, va),
            flags.user,
        ),
{
    if flags.user == (page < KERNEL_SPACE_BASE) && canonical(va) {
        map_from_elsewhere(m, m.root, 0, page, frame, flags, false, va);
    }
}

/// Mapping writes no table but the ones on the page's own path and the ones
/// that it takes from the allocator.
pub proof fn mapping_writes_only_its_own_path(
    m: Machine,
    page: u64,
    frame: u64,
    flags: PageFlags,
    t: u64,
    i: int,
)
    requires
        m.sound(),
        m.keeps_walk(page),
        is_frame(frame),
        m.keeps(t),
        !visits(m.mem, m.root, 0, page, t),
    ensures
        (m.map(page, frame, flags).0.mem)(t, i) == (m.mem)(t, i),
{
    map_from_effect(m, m.root, 0, page, frame, flags, false, page);
    if (m.map(page, frame, flags).0.mem)(t, i) != (m.mem)(t, i) {
        let root = m.root;
        let l = choose|l: nat| reads_at(m.mem, root, 0, page, l, t, i);
        reads_between(m.mem, root, 0, page, l, t, i);
    }
}

/// A kernel page that already leads somewhere is refused. That costs no frame
/// and writes nothing.
pub proof fn a_mapped_page_is_not_mapped_again(m: Machine, page: u64, frame: u64, flags: PageFlags)
    requires
        canonical(page),
        lookup(m.mem, m.root, page) is Some,
        flags.user == (page < KERNEL_SPACE_BASE),
        !flags.user,
    ensures
        m.map(page, frame, flags).0 == m,
        m.map(page, frame, flags).1 == Err::<(), MapError>(
            if lookup(m.mem, m.root, page)->Some_0.page_size == PAGE {
                MapError::AlreadyMapped
            } else {
                MapError::HugePageInTheWay
            },
        ),
{
    mapped_already(m, m.root, 0, page, frame, flags);
}

proof fn mapped_already(
    m: Machine,
    table: u64,
    level: nat,
    page: u64,
    frame: u64,
    flags: PageFlags,
)
    requires
        level <= 3,
        walk(m.mem, table, level, page) is Some,
        !flags.user,
    ensures
        m.map_from(table, level, page, frame, flags, false) == (
            m,
            Err::<(), MapError>(
                if walk(m.mem, table, level, page)->Some_0.page_size == PAGE {
                    MapError::AlreadyMapped
                } else {
                    MapError::HugePageInTheWay
                },
            ),
        ),
    decreases 3 - level,
{
    let entry = (m.mem)(table, index_at(page as int, level as int));
    if level < 3 && !is_huge(entry) {
        mapped_already(m, target(entry), level + 1, page, frame, flags);
    }
}

/// The entry that unmapping finds is the one that the walk ends at.
pub proof fn entry_table_ends_the_walk(mem: Memory, table: u64, level: nat, page: u64)
    requires
        level <= 3,
    ensures
        entry_table(mem, table, level, page) is Ok <==> (walk(mem, table, level, page) is Some
            && walk(mem, table, level, page)->Some_0.page_size == PAGE),
        entry_table(mem, table, level, page) matches Err(e) ==> {
            &&& walk(mem, table, level, page) is Some ==> e == UnmapError::HugePageInTheWay
            &&& walk(mem, table, level, page) is None && level > 0 ==> e == UnmapError::NotMapped
        },
        entry_table(mem, table, level, page) matches Ok(t) ==> {
            let entry = mem(t, index_at(page as int, 3));
            &&& is_present(entry)
            &&& walk(mem, table, level, page)->Some_0.phys == target(entry) + page as int
                % PAGE as int
            &&& reads_at(mem, table, level, page, 3, t, index_at(page as int, 3))
        },
    decreases 3 - level,
{
    let entry = mem(table, index_at(page as int, level as int));
    mapped_page_of_a_leaf(entry);
    if level < 3 {
        entry_table_ends_the_walk(mem, target(entry), level + 1, page);
    }
}

proof fn mapped_page_of_a_leaf(entry: u64)
    ensures
        mapped_page(entry, 3) == target(entry),
{
    assert(entry & 0x000F_FFFF_FFFF_F000 & !0xFFFu64 == entry & 0x000F_FFFF_FFFF_F000)
        by (bit_vector);
}

/// Unmapping succeeds exactly on the 4 KiB pages of kernel space that lead
/// somewhere, and hands back the frame that they lead to.
pub proof fn unmapping_finds_what_the_walk_finds(mem: Memory, root: u64, page: u64)
    requires
        page >= KERNEL_SPACE_BASE,
        page % PAGE == 0,
    ensures
        unmap_table(mem, root, page) is Ok <==> (lookup(mem, root, page) is Some && lookup(
            mem,
            root,
            page,
        )->Some_0.page_size == PAGE),
        unmap_table(mem, root, page) matches Ok(t) ==> lookup(mem, root, page)->Some_0.phys
            == target(mem(t, index_at(page as int, 3))),
{
    entry_table_ends_the_walk(mem, root, 0, page);
}

/// A walk ends at once where one of the entries it reads is gone.
proof fn a_cleared_entry_ends_the_walk(
    mem: Memory,
    table: u64,
    level: nat,
    va: u64,
    l: nat,
    t: u64,
    i: int,
)
    requires
        level <= 3,
        reads_at(mem, table, level, va, l, t, i),
    ensures
        walk(put(mem, t, i, 0), table, level, va) is None,
    decreases 3 - level,
{
    let index = index_at(va as int, level as int);
    an_empty_entry_is_not_present();
    if !(table == t && index == i) {
        a_cleared_entry_ends_the_walk(mem, target(mem(table, index)), level + 1, va, l, t, i);
    }
}

/// An unmapped page leads nowhere, for every address in it.
pub proof fn an_unmapped_page_leads_nowhere(mem: Memory, root: u64, page: u64, va: u64)
    requires
        unmap_table(mem, root, page) is Ok,
        va as int / PAGE as int == page as int / PAGE as int,
    ensures
        lookup(
            put(mem, unmap_table(mem, root, page)->Ok_0, index_at(page as int, 3), 0),
            root,
            va,
        ) is None,
{
    let t = unmap_table(mem, root, page)->Ok_0;
    entry_table_ends_the_walk(mem, root, 0, page);
    same_page_same_indices(va, page);
    same_way(mem, root, 0, page, va, 3, t, index_at(page as int, 3));
    a_cleared_entry_ends_the_walk(mem, root, 0, va, 3, t, index_at(page as int, 3));
}

proof fn same_way(
    mem: Memory,
    table: u64,
    level: nat,
    page: u64,
    va: u64,
    l: nat,
    t: u64,
    i: int,
)
    requires
        level <= 3,
        reads_at(mem, table, level, page, l, t, i),
        forall|level: int| #[trigger] index_at(va as int, level) == index_at(page as int, level),
    ensures
        reads_at(mem, table, level, va, l, t, i),
    decreases 3 - level,
{
    let index = index_at(va as int, level as int);
    assert(index == index_at(page as int, level as int));
    if !(level == l && table == t && index == i) {
        same_way(mem, target(mem(table, index)), level + 1, page, va, l, t, i);
    }
}

/// Unmapping a page changes where no other address leads.
pub proof fn unmapping_moves_no_other_address(mem: Memory, root: u64, page: u64, va: u64)
    requires
        unmap_table(mem, root, page) is Ok,
        one_place(mem, root, page, va),
        va as int / PAGE as int != page as int / PAGE as int,
    ensures
        lookup(
            put(mem, unmap_table(mem, root, page)->Ok_0, index_at(page as int, 3), 0),
            root,
            va,
        ) == lookup(mem, root, va),
{
    let t = unmap_table(mem, root, page)->Ok_0;
    let index = index_at(page as int, 3);
    let after = put(mem, t, index, 0);
    entry_table_ends_the_walk(mem, root, 0, page);
    assert forall|u: u64, i: int| reads_entry(mem, root, 0, va, u, i) implies #[trigger] after(u, i)
        == mem(u, i) by {
        let l = choose|l: nat| reads_at(mem, root, 0, va, l, u, i);
        if u == t && i == index {
            assert(reads_at(mem, root, 0, page, 3, t, index));
        }
    }
    a_walk_reads_only_its_entries(mem, after, root, 0, va);
}

/// What one call maps the next can unmap: the same frame comes back, and the
/// page leads nowhere again.
pub proof fn unmapping_undoes_mapping(m: Machine, page: u64, frame: u64, flags: PageFlags)
    requires
        m.sound(),
        m.keeps_walk(page),
        page >= KERNEL_SPACE_BASE,
        page % PAGE == 0,
        is_frame(frame),
        m.map(page, frame, flags).1 is Ok,
    ensures
        ({
            let after = m.map(page, frame, flags).0;
            let index = index_at(page as int, 3);
            &&& unmap_table(after.mem, m.root, page) matches Ok(t)
            &&& target((after.mem)(t, index)) == frame
            &&& lookup(put(after.mem, t, index, 0), m.root, page) is None
            &&& lookup(m.mem, m.root, page) is None
        }),
{
    let after = m.map(page, frame, flags).0;
    a_mapped_page_leads_to_its_frame(m, page, frame, flags, page);
    unmapping_finds_what_the_walk_finds(after.mem, m.root, page);
    an_unmapped_page_leads_nowhere(after.mem, m.root, page, page);
    if lookup(m.mem, m.root, page) is Some {
        a_mapped_page_is_not_mapped_again(m, page, frame, flags);
    }
}

/// Taking the tables over keeps every translation and writes nothing but the
/// new root: the tables that were in use are left intact.
pub proof fn adopting_keeps_every_translation(m: Machine, va: u64)
    requires
        m.sound(),
        m.keeps_walk(va),
        m.adopt().1 is Ok,
    ensures
        lookup(m.adopt().0.mem, m.adopt().0.root, va) == lookup(m.mem, m.root, va),
        forall|t: u64, i: int|
            t != m.adopt().0.root ==> #[trigger] (m.adopt().0.mem)(t, i) == (m.mem)(t, i),
        !m.keeps(m.adopt().0.root),
        m.adopt().0.keeps(m.adopt().0.root),
        m.adopt().0.sound(),
{
    let after = m.adopt().0;
    a_new_table_is_empty_and_its_own(m);
    let index = index_at(va as int, 0);
    let entry = (m.mem)(m.root, index);
    assert(visits(m.mem, m.root, 0, va, m.root));
    assert((after.mem)(after.root, index) == entry);
    if is_present(entry) && !is_huge(entry) {
        let next = target(entry);
        assert forall|t: u64, i: int| visits(m.mem, next, 1, va, t) implies #[trigger] (after.mem)(
            t,
            i,
        ) == (m.mem)(t, i) by {
            assert(visits(m.mem, m.root, 0, va, t));
        }
        a_walk_reads_only_its_tables(m.mem, after.mem, next, 1, va);
    }
}

/// The value that is loaded to take the tables over names the new root, and
/// keeps the bits that say how the root is cached.
pub proof fn the_new_root_is_what_is_loaded(root: u64, cr3: u64)
    requires
        is_frame(root),
    ensures
        target(root | (cr3 & CR3_FLAGS)) == root,
        (root | (cr3 & CR3_FLAGS)) & CR3_FLAGS == cr3 & CR3_FLAGS,
{
    assert(root % 0x1000 == 0 && root <= 0x000F_FFFF_FFFF_F000 ==> (root | (cr3 & 0x18))
        & 0x000F_FFFF_FFFF_F000 == root && (root | (cr3 & 0x18)) & 0x18 == cr3 & 0x18)
        by (bit_vector);
}

/// A program's page changes nothing at all in kernel space, and a kernel page
/// nothing in user space: the halves share no entry.
pub proof fn the_halves_do_not_touch_each_other(
    m: Machine,
    page: u64,
    frame: u64,
    flags: PageFlags,
    va: u64,
)
    requires
        m.sound(),
        m.keeps_walk(page),
        m.keeps_walk(va),
        one_place(m.mem, m.root, page, va),
        canonical(page),
        is_frame(frame),
        (page < KERNEL_SPACE_BASE) != (va < KERNEL_SPACE_BASE),
    ensures
        lookup(m.map(page, frame, flags).0.mem, m.root, va) == lookup(m.mem, m.root, va),
{
    if flags.user == (page < KERNEL_SPACE_BASE) && canonical(va) {
        let root = m.root;
        let after = m.map(page, frame, flags).0;
        map_from_effect(m, root, 0, page, frame, flags, false, page);
        assert(index_at(va as int, 0) != index_at(page as int, 0));
        leaving_the_path(m.mem, root, 0, page, va);
        assert forall|t: u64, i: int| reads_entry(m.mem, root, 0, va, t, i) implies #[trigger] (
        after.mem)(t, i) == (m.mem)(t, i) by {
            let l = choose|l: nat| reads_at(m.mem, root, 0, va, l, t, i);
            reads_between(m.mem, root, 0, va, l, t, i);
            assert(m.keeps(t));
        }
        a_walk_reads_only_its_entries(m.mem, after.mem, root, 0, va);
    }
}

/// Addresses of one page, of whatever size, lead into it side by side.
proof fn a_page_is_walked_alike(mem: Memory, table: u64, level: nat, a: u64, b: u64)
    requires
        level <= 3,
        walk(mem, table, level, a) is Some,
        ({
            let size = walk(mem, table, level, a)->Some_0.page_size as int;
            a as int / size == b as int / size
        }),
    ensures
        ({
            let leaf = walk(mem, table, level, a)->Some_0;
            let size = leaf.page_size as int;
            walk(mem, table, level, b) == Some(
                Leaf { phys: leaf.phys - a as int % size + b as int % size, ..leaf },
            )
        }),
        ({
            let size = walk(mem, table, level, a)->Some_0.page_size;
            exists|l: nat| level <= l <= 3 && size == #[trigger] page_size(l as int)
        }),
    decreases 3 - level,
{
    let index = index_at(a as int, level as int);
    let entry = mem(table, index);
    let size = walk(mem, table, level, a)->Some_0.page_size;
    if level < 3 && !is_huge(entry) {
        let next = target(entry);
        let below = level + 1;
        a_page_is_walked_alike(mem, next, below, a, b);
        let l = choose|l: nat| below <= l <= 3 && size == #[trigger] page_size(l as int);
        agreeing_above(a, b, level, l);
        assert(index_at(b as int, level as int) == index);
        assert(level <= l <= 3 && size == page_size(l as int));
    } else {
        assert(size == page_size(level as int));
        assert(index_at(b as int, level as int) == index);
    }
}

/// A run of identity-mapped memory is what it says: every address in it leads
/// to itself and can be written.
pub proof fn a_run_is_mapped_to_itself(mem: Memory, root: u64, addr: u64, offset: int)
    requires
        identity_run(mem, root, addr) is Some,
        0 <= offset < identity_run(mem, root, addr)->Some_0,
    ensures
        addr + offset <= u64::MAX,
        lookup(mem, root, (addr + offset) as u64) matches Some(leaf) && leaf.phys == addr + offset
            && leaf.writable,
{
    let leaf = lookup(mem, root, addr)->Some_0;
    let size = leaf.page_size as int;
    walk_ends_at_a_page(mem, root, 0, addr);
    let b = addr + offset;
    if size == 0x1000 {
        assert(b / 0x1000 == addr as int / 0x1000);
        assert(b <= u64::MAX);
    } else if size == 0x20_0000 {
        assert(b / 0x20_0000 == addr as int / 0x20_0000);
        assert(b <= u64::MAX);
    } else {
        assert(b / 0x4000_0000 == addr as int / 0x4000_0000);
        assert(b <= u64::MAX);
    }
    a_page_is_walked_alike(mem, root, 0, addr, b as u64);
}

/// A walk from the root ends at one of the three page sizes.
pub proof fn walk_ends_at_a_page(mem: Memory, table: u64, level: nat, va: u64)
    requires
        level <= 3,
    ensures
        walk(mem, table, level, va) matches Some(leaf) ==> leaf.page_size == 0x1000
            || leaf.page_size == 0x20_0000 || leaf.page_size == 0x4000_0000,
    decreases 3 - level,
{
    let entry = mem(table, index_at(va as int, level as int));
    if level < 3 {
        walk_ends_at_a_page(mem, target(entry), level + 1, va);
    }
}

} // verus!
