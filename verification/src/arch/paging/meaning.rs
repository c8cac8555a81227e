//! What the bits of the tables and of the registers mean, as numbers.

use super::halves::page_of;
use super::kept::{any_keeps, keeps_page};
use super::model::{
    caching, canonical, index_at, is_executable, is_huge, is_present, is_user, is_writable, lookup,
    mapped_page, page_size, policy_bits, target, walk, Leaf, Memory,
};
use super::plan::{
    all_below, code_covers, code_pages, fine_grained, first_page, good_limit, kernel_space_in_use,
    last_page, only_code, read_only_pages, runs_code,
};
use super::{identity_run, reported, PagingError, PagingRegisters};
use crate::hal::frame::PhysRange;
use crate::hal::memory_map::CachePolicy;
use crate::hal::paging::MappedRange;
use crate::hal::places::{exactly, one_place_less};
use vstd::prelude::*;

verus! {

/// The fields of an entry.
proof fn entry_fields(entry: u64)
    by (bit_vector)
    ensures
        entry & 1 != 0 <==> entry % 2 == 1,
        entry & 2 != 0 <==> entry / 2 % 2 == 1,
        entry & 4 != 0 <==> entry / 4 % 2 == 1,
        entry & (16u64 | 8) == entry / 8 % 4 * 8,
        entry & 0x80 != 0 <==> entry / 0x80 % 2 == 1,
        entry & 0x8000_0000_0000_0000 == 0 <==> entry < 0x8000_0000_0000_0000,
        entry & 0x000F_FFFF_FFFF_F000 == entry % 0x10_0000_0000_0000 / 0x1000 * 0x1000,
        entry & 0x000F_FFFF_FFFF_F000 & !0xFFFu64 == entry % 0x10_0000_0000_0000 / 0x1000 * 0x1000,
        entry & 0x000F_FFFF_FFFF_F000 & !0x1F_FFFFu64 == entry % 0x10_0000_0000_0000 / 0x20_0000
            * 0x20_0000,
        entry & 0x000F_FFFF_FFFF_F000 & !0x3FFF_FFFFu64 == entry % 0x10_0000_0000_0000 / 0x4000_0000
            * 0x4000_0000,
{
}

/// What an entry says: bit 0 that it is there, bit 1 that it can be written,
/// bit 2 that ring 3 may come through, bits 3 and 4 how it is cached, bit 7
/// that it maps a page itself, bit 63 that nothing runs there, and bits 12 to
/// 51 where it leads.
pub proof fn an_entry_says_what_its_bits_say(entry: u64)
    ensures
        is_present(entry) <==> entry % 2 == 1,
        is_writable(entry) <==> entry / 2 % 2 == 1,
        is_user(entry) <==> entry / 4 % 2 == 1,
        caching(entry) == entry / 8 % 4 * 8,
        is_huge(entry) <==> entry / 0x80 % 2 == 1,
        is_executable(entry) <==> entry < 0x8000_0000_0000_0000,
        target(entry) == entry % 0x10_0000_0000_0000 / 0x1000 * 0x1000,
        mapped_page(entry, 3) == entry % 0x10_0000_0000_0000 / 0x1000 * 0x1000,
        mapped_page(entry, 2) == entry % 0x10_0000_0000_0000 / 0x20_0000 * 0x20_0000,
        mapped_page(entry, 1) == entry % 0x10_0000_0000_0000 / 0x4000_0000 * 0x4000_0000,
{
    entry_fields(entry);
}

/// An address is nine bits of index for each of four tables and twelve of
/// offset, and canonical where the bits above all repeat bit 47.
pub proof fn an_address_is_four_indices(va: u64)
    ensures
        index_at(va as int, 0) == va as int / 0x80_0000_0000 % 512,
        index_at(va as int, 1) == va as int / 0x4000_0000 % 512,
        index_at(va as int, 2) == va as int / 0x20_0000 % 512,
        index_at(va as int, 3) == va as int / 0x1000 % 512,
        canonical(va) <==> va / 0x8000_0000_0000 == 0 || va / 0x8000_0000_0000 == 0x1_FFFF,
        page_size(1) == 0x4000_0000,
        page_size(2) == 0x20_0000,
        page_size(3) == 0x1000,
{
}

/// Where an address leads, entry by entry: four tables down to a page of
/// 4 KiB, or fewer where an entry on the way maps 2 MiB or 1 GiB itself. It
/// can be written, executed and reached from ring 3 where every entry on the
/// way says so; how it is cached the last one says.
pub proof fn a_walk_goes_entry_by_entry(mem: Memory, root: u64, va: u64)
    requires
        va / 0x8000_0000_0000 == 0 || va / 0x8000_0000_0000 == 0x1_FFFF,
    ensures
        ({
            let next = |entry: u64| (entry % 0x10_0000_0000_0000 / 0x1000 * 0x1000) as u64;
            let v = va as int;
            let e0 = mem(root, v / 0x80_0000_0000 % 512);
            let e1 = mem(next(e0), v / 0x4000_0000 % 512);
            let e2 = mem(next(e1), v / 0x20_0000 % 512);
            let e3 = mem(next(e2), v / 0x1000 % 512);
            let there = |entry: u64| entry % 2 == 1;
            let whole = |entry: u64| entry / 0x80 % 2 == 1;
            let writes = |entry: u64| entry / 2 % 2 == 1;
            let runs = |entry: u64| entry < 0x8000_0000_0000_0000;
            let opens = |entry: u64| entry / 4 % 2 == 1;
            let cache = |entry: u64| (entry / 8 % 4 * 8) as u64;
            let found = lookup(mem, root, va);
            if !there(e0) || whole(e0) || !there(e1) {
                found is None
            } else if whole(e1) {
                found == Some(
                    Leaf {
                        phys: e1 as int % 0x10_0000_0000_0000 / 0x4000_0000 * 0x4000_0000 + v
                            % 0x4000_0000,
                        writable: writes(e0) && writes(e1),
                        executable: runs(e0) && runs(e1),
                        user: opens(e0) && opens(e1),
                        cache: cache(e1),
                        page_size: 0x4000_0000,
                    },
                )
            } else if !there(e2) {
                found is None
            } else if whole(e2) {
                found == Some(
                    Leaf {
                        phys: e2 as int % 0x10_0000_0000_0000 / 0x20_0000 * 0x20_0000 + v
                            % 0x20_0000,
                        writable: writes(e0) && writes(e1) && writes(e2),
                        executable: runs(e0) && runs(e1) && runs(e2),
                        user: opens(e0) && opens(e1) && opens(e2),
                        cache: cache(e2),
                        page_size: 0x20_0000,
                    },
                )
            } else if !there(e3) {
                found is None
            } else {
                found == Some(
                    Leaf {
                        phys: e3 as int % 0x10_0000_0000_0000 / 0x1000 * 0x1000 + v % 0x1000,
                        writable: writes(e0) && writes(e1) && writes(e2) && writes(e3),
                        executable: runs(e0) && runs(e1) && runs(e2) && runs(e3),
                        user: opens(e0) && opens(e1) && opens(e2) && opens(e3),
                        cache: cache(e3),
                        page_size: 0x1000,
                    },
                )
            }
        }),
{
    let v = va as int;
    an_address_is_four_indices(va);
    let e0 = mem(root, v / 0x80_0000_0000 % 512);
    let t1 = target(e0);
    let e1 = mem(t1, v / 0x4000_0000 % 512);
    let t2 = target(e1);
    let e2 = mem(t2, v / 0x20_0000 % 512);
    let t3 = target(e2);
    let e3 = mem(t3, v / 0x1000 % 512);
    an_entry_says_what_its_bits_say(e0);
    an_entry_says_what_its_bits_say(e1);
    an_entry_says_what_its_bits_say(e2);
    an_entry_says_what_its_bits_say(e3);
    reveal_with_fuel(walk, 4);
}

/// An address that is not canonical leads nowhere, and a translation reports
/// where an address leads, whether it can be written, and the size of the
/// page.
pub proof fn a_translation_is_what_the_walk_found(mem: Memory, root: u64, va: u64)
    ensures
        0x8000_0000_0000 <= va < 0xFFFF_8000_0000_0000 ==> lookup(mem, root, va) is None,
        lookup(mem, root, va) is None <==> reported(lookup(mem, root, va)) is None,
        lookup(mem, root, va) matches Some(leaf) ==> {
            &&& 0 <= leaf.phys <= u64::MAX ==> reported(Some(leaf))->Some_0.phys == leaf.phys
            &&& reported(Some(leaf))->Some_0.writable == leaf.writable
            &&& reported(Some(leaf))->Some_0.page_size == leaf.page_size
        },
{
}

/// The bits that reproduce a cache policy: none for ordinary memory, bit 3 to
/// write through, both bits where nothing may be cached.
pub proof fn policies_have_their_bits()
    ensures
        policy_bits(CachePolicy::WriteBack) == 0,
        policy_bits(CachePolicy::Unspecified) == 0,
        policy_bits(CachePolicy::WriteThrough) == 8,
        policy_bits(CachePolicy::WriteCombining) == 0x18,
        policy_bits(CachePolicy::Uncacheable) == 0x18,
{
    entry_fields(0x18);
    assert(16u64 | 8 == 0x18) by (bit_vector);
}

/// What speaks against taking the tables over: a fifth level (bit 12 of CR4),
/// process-context identifiers (bit 17), no-execute switched off (bit 11 of
/// EFER), or a root or a stack that is not mapped to itself; the first of
/// them, in this order.
pub proof fn only_a_known_mode_is_taken_over(registers: PagingRegisters, mem: Memory, stack: u64)
    ensures
        ({
            let five = registers.cr4 / 0x1000 % 2 == 1;
            let pcid = registers.cr4 / 0x2_0000 % 2 == 1;
            let no_execute = registers.efer / 0x800 % 2 == 1;
            let root = registers.root();
            let to_itself = |addr: u64|
                lookup(mem, root, addr) is Some && lookup(mem, root, addr)->Some_0.phys == addr;
            let objection = registers.objection(mem, stack);
            &&& root == registers.cr3 % 0x10_0000_0000_0000 / 0x1000 * 0x1000
            &&& objection == Some(PagingError::FiveLevelPaging) <==> five
            &&& objection == Some(PagingError::PcidEnabled) <==> !five && pcid
            &&& objection == Some(PagingError::NoExecuteDisabled) <==> !five && !pcid && !no_execute
            &&& objection == Some(PagingError::NotIdentityMapped) <==> !five && !pcid && no_execute
                && !(to_itself(root) && to_itself(stack))
            &&& objection is None <==> !five && !pcid && no_execute && to_itself(root) && to_itself(
                stack,
            )
        }),
{
    mode_bits(registers.cr4, registers.efer);
    entry_fields(registers.cr3);
}

proof fn mode_bits(cr4: u64, efer: u64)
    by (bit_vector)
    ensures
        cr4 & 0x1000 != 0 <==> cr4 / 0x1000 % 2 == 1,
        cr4 & 0x2_0000 != 0 <==> cr4 / 0x2_0000 % 2 == 1,
        efer & 0x800 == 0 <==> efer / 0x800 % 2 == 0,
{
}

/// A run goes to the end of the page that maps its start, and there is one
/// exactly where the start is mapped to itself, writable.
pub proof fn a_run_ends_with_its_page(mem: Memory, root: u64, addr: u64)
    ensures
        identity_run(mem, root, addr) is Some <==> (lookup(mem, root, addr) is Some && lookup(
            mem,
            root,
            addr,
        )->Some_0.phys == addr && lookup(mem, root, addr)->Some_0.writable),
        identity_run(mem, root, addr) matches Some(run) ==> {
            let size = lookup(mem, root, addr)->Some_0.page_size as int;
            &&& 0 < run <= size
            &&& (addr + run) % size == 0
        },
{
    if let Some(leaf) = lookup(mem, root, addr) {
        super::laws::walk_ends_at_a_page(mem, root, 0, addr);
        let (a, s) = (addr as int, leaf.page_size as int);
        assert((a + (s - a % s)) % s == 0) by {
            vstd::arithmetic::div_mod::lemma_fundamental_div_mod(a, s);
            vstd::arithmetic::div_mod::lemma_mod_bound(a, s);
            assert(a + (s - a % s) == s * (a / s + 1)) by (nonlinear_arith)
                requires
                    a == s * (a / s) + a % s,
            ;
            vstd::arithmetic::div_mod::lemma_mod_multiples_basic(a / s + 1, s);
            assert((a / s + 1) * s == s * (a / s + 1)) by (nonlinear_arith);
        }
    }
}

/// Whether an address belongs to a range.
pub open spec fn within(range: PhysRange, addr: int) -> bool {
    range.start.0 <= addr < range.start.0 + range.len
}

/// A page runs code where an executable range has one of its addresses, and
/// is code and nothing else where an executable range has all of them and a
/// range that is written has none.
pub proof fn a_page_holds_what_its_ranges_hold(ranges: Seq<MappedRange>, page: int)
    requires
        0 <= page,
        forall|k: int|
            0 <= k < ranges.len() ==> (#[trigger] ranges[k]).range.start.0 + ranges[k].range.len
                <= u64::MAX,
    ensures
        runs_code(ranges, page) <==> exists|k: int, addr: int|
            0 <= k < ranges.len() && (#[trigger] ranges[k]).executable && page <= addr < page
                + 0x1000 && #[trigger] within(ranges[k].range, addr),
        only_code(ranges, page) <==> (exists|k: int|
            0 <= k < ranges.len() && (#[trigger] ranges[k]).executable && within(
                ranges[k].range,
                page,
            ) && within(ranges[k].range, page + 0xFFF)) && !(exists|k: int, addr: int|
            0 <= k < ranges.len() && (#[trigger] ranges[k]).writable && page <= addr < page + 0x1000
                && #[trigger] within(ranges[k].range, addr)),
{
    assert forall|k: int| 0 <= k < ranges.len() implies ((#[trigger] ranges[k]).range.meets(
        page,
        page + 0x1000,
    ) <==> exists|addr: int|
        page <= addr < page + 0x1000 && #[trigger] within(ranges[k].range, addr)) by {
        let range = ranges[k].range;
        if range.meets(page, page + 0x1000) {
            let addr: int = if page <= range.start.0 {
                range.start.0 as int
            } else {
                page
            };
            assert(within(range, addr));
        }
    }
    if runs_code(ranges, page) {
        let k = choose|k: int|
            0 <= k < ranges.len() && (#[trigger] ranges[k]).executable && ranges[k].range.meets(
                page,
                page + 0x1000,
            );
        let addr = choose|addr: int|
            page <= addr < page + 0x1000 && #[trigger] within(ranges[k].range, addr);
        assert(ranges[k].executable && within(ranges[k].range, addr));
    }
    if code_covers(ranges, page, page + 0x1000) {
        let k = choose|k: int|
            0 <= k < ranges.len() && (#[trigger] ranges[k]).executable && ranges[k].range.holds(page)
                && ranges[k].range.limit() >= page + 0x1000;
        assert(ranges[k].executable && within(ranges[k].range, page) && within(
            ranges[k].range,
            page + 0xFFF,
        ));
    }
    if super::plan::any_writes(ranges, page, page + 0x1000) {
        let k = choose|k: int|
            0 <= k < ranges.len() && (#[trigger] ranges[k]).writable && ranges[k].range.meets(
                page,
                page + 0x1000,
            );
        let addr = choose|addr: int|
            page <= addr < page + 0x1000 && #[trigger] within(ranges[k].range, addr);
        assert(ranges[k].writable && within(ranges[k].range, addr));
    }
}

/// 2 MiB are mapped page by page where they are the first, or a range has one
/// of their addresses.
pub proof fn small_pages_are_used_where_a_range_is(ranges: Seq<MappedRange>, base: int)
    requires
        0 <= base,
        forall|k: int|
            0 <= k < ranges.len() ==> (#[trigger] ranges[k]).range.start.0 + ranges[k].range.len
                <= u64::MAX,
    ensures
        fine_grained(ranges, base) <==> base == 0 || exists|k: int, addr: int|
            0 <= k < ranges.len() && base <= addr < base + 0x20_0000 && #[trigger] within(
                (#[trigger] ranges[k]).range,
                addr,
            ),
{
    if super::plan::any_meets(ranges, base, base + 0x20_0000) {
        let k = choose|k: int|
            0 <= k < ranges.len() && (#[trigger] ranges[k]).range.meets(base, base + 0x20_0000);
        let range = ranges[k].range;
        let addr: int = if base <= range.start.0 {
            range.start.0 as int
        } else {
            base
        };
        assert(within(range, addr));
    }
    if exists|k: int, addr: int|
        0 <= k < ranges.len() && base <= addr < base + 0x20_0000 && #[trigger] within(
            (#[trigger] ranges[k]).range,
            addr,
        ) {
        let (k, addr) = choose|k: int, addr: int|
            0 <= k < ranges.len() && base <= addr < base + 0x20_0000 && #[trigger] within(
                (#[trigger] ranges[k]).range,
                addr,
            );
        assert(ranges[k].range.meets(base, base + 0x20_0000));
    }
}

/// The pages that are counted are the ones there are: those that run code, and
/// those that hold nothing else, the null page left out.
pub proof fn pages_are_counted_one_by_one(
    ranges: Seq<MappedRange>,
    base: int,
    n: int,
    code: Seq<int>,
    only: Seq<int>,
)
    requires
        0 <= n,
        exactly(
            code,
            n,
            |i: int| base + 0x1000 * i != 0 && runs_code(ranges, base + 0x1000 * i),
        ),
        exactly(
            only,
            n,
            |i: int| base + 0x1000 * i != 0 && only_code(ranges, base + 0x1000 * i),
        ),
    ensures
        code_pages(ranges, base, n) == code.len(),
        read_only_pages(ranges, base, n) == only.len(),
    decreases n,
{
    let runs = |i: int| base + 0x1000 * i != 0 && runs_code(ranges, base + 0x1000 * i);
    let pure = |i: int| base + 0x1000 * i != 0 && only_code(ranges, base + 0x1000 * i);
    if n > 0 {
        one_place_less(code, n, runs);
        one_place_less(only, n, pure);
        let a = if runs(n - 1) {
            code.drop_last()
        } else {
            code
        };
        let b = if pure(n - 1) {
            only.drop_last()
        } else {
            only
        };
        pages_are_counted_one_by_one(ranges, base, n - 1, a, b);
    } else {
        if code.len() > 0 {
            assert(code[0] < 0);
        }
        if only.len() > 0 {
            assert(only[0] < 0);
        }
    }
}

/// A page is kept where a range has one of its addresses.
pub proof fn a_page_is_kept_where_a_range_reaches_it(ranges: Seq<MappedRange>, k: int, va: u64)
    requires
        0 <= k < ranges.len(),
        ranges[k].range.len != 0,
        ranges[k].range.start.0 + ranges[k].range.len <= u64::MAX,
    ensures
        keeps_page(ranges[k], page_of(va)) <==> exists|addr: int|
            addr / 0x1000 == va as int / 0x1000 && #[trigger] within(ranges[k].range, addr),
        keeps_page(ranges[k], page_of(va)) ==> any_keeps(ranges, page_of(va)),
{
    let range = ranges[k].range;
    let start = range.start.0 as int;
    let last = range.limit() - 1;
    let page = page_of(va);
    let n = va as int / 0x1000;
    assert(page == 0x1000 * n);
    assert(first_page(ranges[k]) == 0x1000 * (start / 0x1000));
    assert(last_page(ranges[k]) == 0x1000 * (last / 0x1000));
    if keeps_page(ranges[k], page) {
        assert(start / 0x1000 <= n <= last / 0x1000);
        let addr: int = if n == start / 0x1000 {
            start
        } else {
            page
        };
        assert(addr / 0x1000 == n);
        assert(within(range, addr));
    }
    if exists|addr: int| addr / 0x1000 == n && #[trigger] within(range, addr) {
        let addr = choose|addr: int| addr / 0x1000 == n && #[trigger] within(range, addr);
        assert(start <= addr <= last);
        assert(start / 0x1000 <= addr / 0x1000 <= last / 0x1000);
    }
}

/// The limits that are accepted are the whole numbers of GiB from one to 512.
pub proof fn good_limits_are_whole_gibs(limit: u64, n: int)
    ensures
        limit == n * 0x4000_0000 && 1 <= n <= 512 ==> good_limit(limit),
        good_limit(limit) ==> limit == (limit as int / 0x4000_0000) * 0x4000_0000 && 1 <= limit as int
            / 0x4000_0000 <= 512,
{
}

/// Ranges lie below a limit where none is empty and none ends past it.
pub proof fn ranges_below_a_limit_end_there(ranges: Seq<MappedRange>, limit: u64, k: int)
    ensures
        all_below(ranges, limit) && 0 <= k < ranges.len() ==> ranges[k].range.len > 0
            && ranges[k].range.start.0 + ranges[k].range.len <= limit,
        0 <= k < ranges.len() && (ranges[k].range.len == 0 || ranges[k].range.start.0
            + ranges[k].range.len > limit) ==> !all_below(ranges, limit),
        (forall|j: int|
            0 <= j < ranges.len() ==> (#[trigger] ranges[j]).range.len > 0 && ranges[j].range.start.0
                + ranges[j].range.len <= limit) ==> all_below(ranges, limit),
{
    if !all_below(ranges, limit) {
        let j = choose|j: int|
            0 <= j < ranges.len() && !((#[trigger] ranges[j]).range.len != 0
                && ranges[j].range.start.0 + ranges[j].range.len <= limit);
        assert(!(ranges[j].range.len > 0 && ranges[j].range.start.0 + ranges[j].range.len
            <= limit));
    }
}

/// Kernel space is in use where one of the upper 256 entries of the root is
/// there.
pub proof fn kernel_space_is_the_upper_half(mem: Memory, root: u64, slot: int)
    ensures
        256 <= slot < 512 && mem(root, slot) % 2 == 1 ==> kernel_space_in_use(mem, root),
        (forall|s: int| 256 <= s < 512 ==> #[trigger] mem(root, s) % 2 == 0)
            ==> !kernel_space_in_use(mem, root),
{
    entry_fields(mem(root, slot));
    if kernel_space_in_use(mem, root) {
        let s = choose|s: int| 256 <= s < 512 && is_present(#[trigger] mem(root, s));
        entry_fields(mem(root, s));
    }
}

} // verus!
