//! What page tables mean: the walk the processor makes through them, and
//! the state that the mapper changes.

use crate::hal::frame::PhysFrame;
use crate::hal::memory_map::CachePolicy;
use crate::hal::paging::{MapError, PageFlags, UnmapError};
use vstd::prelude::*;

verus! {

/// How many entries a table of any level has.
pub const ENTRIES: usize = 512;

pub const PAGE: u64 = 0x1000;

pub const LARGE_PAGE: u64 = 0x20_0000;

pub const GIB: u64 = 0x4000_0000;

pub const PRESENT: u64 = 0x1;

pub const WRITABLE: u64 = 0x2;

/// Reachable from ring 3. Every level of the walk has to have it.
pub const USER: u64 = 0x4;

/// Page-level write-through (PWT) and cache disable (PCD). With the default
/// PAT, neither set means write-back, PWT alone write-through and both
/// together uncacheable.
pub const WRITE_THROUGH: u64 = 0x8;

pub const CACHE_DISABLE: u64 = 0x10;

/// In a PDPT or PD entry: this entry maps a 1 GiB or 2 MiB page itself.
pub const HUGE: u64 = 0x80;

pub const NO_EXECUTE: u64 = 0x8000_0000_0000_0000;

/// Bits 12-51: the physical address of the next table or of the page.
pub const ADDRESS_MASK: u64 = 0x000F_FFFF_FFFF_F000;

/// First address of kernel space: slot 256 of the root table, the start of
/// the canonical higher half.
pub const KERNEL_SPACE_BASE: u64 = 0xFFFF_8000_0000_0000;

/// First slot of the root table that belongs to kernel space.
pub const KERNEL_SLOT: usize = 256;

/// Table memory: the entry at an index of the table at a physical address.
pub type Memory = spec_fn(u64, int) -> u64;

/// `mem` with one entry changed.
pub open spec fn put(mem: Memory, table: u64, index: int, value: u64) -> Memory {
    |t: u64, i: int|
        if t == table && i == index {
            value
        } else {
            mem(t, i)
        }
}

/// `mem` with the entries `from..to` of one table changed.
pub open spec fn fill(
    mem: Memory,
    table: u64,
    from: int,
    to: int,
    entries: spec_fn(int) -> u64,
) -> Memory {
    |t: u64, i: int|
        if t == table && from <= i < to {
            entries(i)
        } else {
            mem(t, i)
        }
}

/// One entry that was written.
pub struct Change {
    pub table: u64,
    pub index: int,
    pub value: u64,
}

/// The writes that change the entries `from..to` of one table, in order.
pub open spec fn filling(table: u64, from: int, to: int, entries: spec_fn(int) -> u64) -> Seq<
    Change,
> {
    Seq::new(
        if from < to {
            (to - from) as nat
        } else {
            0
        },
        |k: int| Change { table, index: from + k, value: entries(from + k) },
    )
}

/// A table without a single entry.
pub open spec fn nothing() -> spec_fn(int) -> u64 {
    |i: int| 0u64
}

/// How much address space one entry covers, from the root (level 0) down.
pub open spec fn page_size(level: int) -> u64 {
    if level == 0 {
        0x80_0000_0000
    } else if level == 1 {
        GIB
    } else if level == 2 {
        LARGE_PAGE
    } else {
        PAGE
    }
}

/// The entry of a table at `level` that `va` goes through.
pub open spec fn index_at(va: int, level: int) -> int {
    va / page_size(level) as int % 512
}

pub open spec fn is_present(entry: u64) -> bool {
    entry & PRESENT != 0
}

pub open spec fn is_huge(entry: u64) -> bool {
    entry & HUGE != 0
}

pub open spec fn is_writable(entry: u64) -> bool {
    entry & WRITABLE != 0
}

pub open spec fn is_user(entry: u64) -> bool {
    entry & USER != 0
}

pub open spec fn is_executable(entry: u64) -> bool {
    entry & NO_EXECUTE == 0
}

/// The cache-control bits of an entry.
pub open spec fn caching(entry: u64) -> u64 {
    entry & (CACHE_DISABLE | WRITE_THROUGH)
}

/// The table an entry points to.
pub open spec fn target(entry: u64) -> u64 {
    entry & ADDRESS_MASK
}

/// The page an entry at `level` maps. Masking with the page size also drops
/// the PAT bit (bit 12) of large-page entries.
pub open spec fn mapped_page(entry: u64, level: int) -> u64 {
    entry & ADDRESS_MASK & !((page_size(level) - 1) as u64)
}

/// Four-level paging: bits 48-63 repeat bit 47.
pub open spec fn canonical(va: u64) -> bool {
    va < 0x8000_0000_0000 || va >= KERNEL_SPACE_BASE
}

/// Where a virtual address leads, and what may be done there.
pub struct Leaf {
    pub phys: int,
    pub writable: bool,
    pub executable: bool,
    pub user: bool,
    /// The cache-control bits of the entry that maps the page.
    pub cache: u64,
    pub page_size: u64,
}

/// The processor's walk from a table at `level`: a right holds of an address
/// where every entry on the way grants it.
pub open spec fn walk(mem: Memory, table: u64, level: nat, va: u64) -> Option<Leaf>
    decreases 3 - level,
{
    let entry = mem(table, index_at(va as int, level as int));
    if !is_present(entry) || (level == 0 && is_huge(entry)) {
        None
    } else if level >= 3 || is_huge(entry) {
        Some(
            Leaf {
                phys: mapped_page(entry, level as int) + va as int % page_size(
                    level as int,
                ) as int,
                writable: is_writable(entry),
                executable: is_executable(entry),
                user: is_user(entry),
                cache: caching(entry),
                page_size: page_size(level as int),
            },
        )
    } else {
        match walk(mem, target(entry), level + 1, va) {
            None => None,
            Some(leaf) => Some(
                Leaf {
                    writable: is_writable(entry) && leaf.writable,
                    executable: is_executable(entry) && leaf.executable,
                    user: is_user(entry) && leaf.user,
                    ..leaf
                },
            ),
        }
    }
}

/// Where `va` leads under the tables at `root`; nowhere unless canonical.
pub open spec fn lookup(mem: Memory, root: u64, va: u64) -> Option<Leaf> {
    if canonical(va) {
        walk(mem, root, 0, va)
    } else {
        None
    }
}

/// Whether the walk of `va` from a table at `level` reads table `t`.
pub open spec fn visits(mem: Memory, table: u64, level: nat, va: u64, t: u64) -> bool
    decreases 3 - level,
{
    let entry = mem(table, index_at(va as int, level as int));
    table == t || (is_present(entry) && !is_huge(entry) && level < 3 && visits(
        mem,
        target(entry),
        level + 1,
        va,
        t,
    ))
}

/// What the mapper asked to be dropped from the processor's cache of
/// translations.
pub enum Flush {
    Page(u64),
    All,
}

/// Everything the mapper works on: the tables, how they are reached, and
/// what the frame allocator will answer.
#[verifier::ext_equal]
pub struct Machine {
    pub root: u64,
    /// What is added to a table's physical address to reach it.
    pub window: u64,
    pub mem: Memory,
    /// Every write to the tables so far, in order.
    pub changes: Seq<Change>,
    pub flushes: Seq<Flush>,
    pub offers: spec_fn(nat) -> Option<PhysFrame>,
    pub taken: nat,
}

impl Machine {
    pub open spec fn put(self, table: u64, index: int, value: u64) -> Machine {
        Machine {
            mem: put(self.mem, table, index, value),
            changes: self.changes.push(Change { table, index, value }),
            ..self
        }
    }

    pub open spec fn fill(
        self,
        table: u64,
        from: int,
        to: int,
        entries: spec_fn(int) -> u64,
    ) -> Machine {
        Machine {
            mem: fill(self.mem, table, from, to, entries),
            changes: self.changes + filling(table, from, to, entries),
            ..self
        }
    }

    pub open spec fn flush(self, flush: Flush) -> Machine {
        Machine { flushes: self.flushes.push(flush), ..self }
    }

    pub open spec fn take(self) -> Machine {
        Machine { taken: self.taken + 1, ..self }
    }

    /// Every frame the allocator may still offer has an address in the
    /// window.
    pub open spec fn in_window(self) -> bool {
        offers_fit(self.offers, self.window)
    }

    /// Whether the frame at `frame` can be written where the mapper would
    /// write it.
    pub open spec fn reaches(self, frame: u64) -> bool {
        match lookup(self.mem, self.root, (self.window + frame) as u64) {
            Some(leaf) => leaf.phys == frame && leaf.writable,
            None => false,
        }
    }

    /// A zeroed table in the next frame. A frame that cannot be written is
    /// spent all the same.
    pub open spec fn new_table(self) -> (Machine, Result<u64, TableError>) {
        match (self.offers)(self.taken) {
            None => (self.take(), Err(TableError::OutOfFrames)),
            Some(frame) => if self.reaches(frame.addr()) {
                (self.take().fill(frame.addr(), 0, 512, nothing()), Ok(frame.addr()))
            } else {
                (self.take(), Err(TableError::NotWritable))
            },
        }
    }
}

/// No address `window + frame` overflows.
pub open spec fn offers_fit(offers: spec_fn(nat) -> Option<PhysFrame>, window: u64) -> bool {
    forall|n: nat|
        #![trigger offers(n)]
        match offers(n) {
            Some(frame) => window + frame.addr() <= u64::MAX,
            None => true,
        }
}

/// Why a new table could not be had.
#[derive(Debug, Clone, Copy, PartialEq, Eq, Structural)]
pub enum TableError {
    OutOfFrames,
    NotWritable,
}

/// The page-table bits that reproduce a cache policy.
pub open spec fn policy_bits(policy: CachePolicy) -> u64 {
    match policy {
        CachePolicy::WriteBack | CachePolicy::Unspecified => 0,
        CachePolicy::WriteThrough => WRITE_THROUGH,
        CachePolicy::WriteCombining | CachePolicy::Uncacheable => CACHE_DISABLE | WRITE_THROUGH,
    }
}

/// The last-level entry of a page.
pub open spec fn leaf_entry(
    addr: u64,
    writable: bool,
    executable: bool,
    user: bool,
    cache: CachePolicy,
) -> u64 {
    let entry = addr | PRESENT | policy_bits(cache);
    let entry = if writable {
        entry | WRITABLE
    } else {
        entry
    };
    let entry = if executable {
        entry
    } else {
        entry | NO_EXECUTE
    };
    if user {
        entry | USER
    } else {
        entry
    }
}

/// The entry that links a new table on the path of a page. Every level of
/// the walk has to allow ring 3, so a user page carries the bit all the way
/// up.
pub open spec fn path_entry(table: u64, user: bool) -> u64 {
    if user {
        table | (PRESENT | WRITABLE | USER)
    } else {
        table | (PRESENT | WRITABLE)
    }
}

pub open spec fn map_error(error: TableError) -> MapError {
    match error {
        TableError::OutOfFrames => MapError::OutOfFrames,
        TableError::NotWritable => MapError::TableFrameNotWritable,
    }
}

impl Machine {
    /// Mapping `page` from the table at `level` down: missing tables are
    /// made on the way, and tables that only the kernel could use are opened
    /// to a user page.
    pub open spec fn map_from(
        self,
        table: u64,
        level: nat,
        page: u64,
        frame: u64,
        flags: PageFlags,
        upgraded: bool,
    ) -> (Machine, Result<(), MapError>)
        decreases 3 - level,
    {
        let index = index_at(page as int, level as int);
        let entry = (self.mem)(table, index);
        if level >= 3 {
            if is_present(entry) {
                (self, Err(MapError::AlreadyMapped))
            } else {
                let leaf = leaf_entry(
                    frame,
                    flags.writable,
                    flags.executable,
                    flags.user,
                    flags.cache,
                );
                let mapped = self.put(table, index, leaf).flush(Flush::Page(page));
                (
                    if upgraded {
                        mapped.flush(Flush::All)
                    } else {
                        mapped
                    },
                    Ok(()),
                )
            }
        } else if !is_present(entry) {
            match self.new_table() {
                (after, Err(error)) => (after, Err(map_error(error))),
                (after, Ok(new)) => after.put(table, index, path_entry(new, flags.user)).map_from(
                    new,
                    level + 1,
                    page,
                    frame,
                    flags,
                    upgraded,
                ),
            }
        } else if is_huge(entry) {
            (self, Err(MapError::HugePageInTheWay))
        } else if flags.user && !is_user(entry) {
            self.put(table, index, entry | USER).map_from(
                target(entry),
                level + 1,
                page,
                frame,
                flags,
                true,
            )
        } else {
            self.map_from(target(entry), level + 1, page, frame, flags, upgraded)
        }
    }

    /// Mapping `page` to `frame`. The lower half is user space: only a page
    /// that says so may be mapped there, and only there.
    pub open spec fn map(self, page: u64, frame: u64, flags: PageFlags) -> (
        Machine,
        Result<(), MapError>,
    ) {
        if flags.user != (page < KERNEL_SPACE_BASE) {
            (self, Err(MapError::OutsideKernelSpace))
        } else {
            self.map_from(self.root, 0, page, frame, flags, false)
        }
    }
}

/// The last-level table that holds the entry of a mapped `page`, looked for
/// from the table at `level` down.
pub open spec fn entry_table(mem: Memory, table: u64, level: nat, page: u64) -> Result<
    u64,
    UnmapError,
>
    decreases 3 - level,
{
    let entry = mem(table, index_at(page as int, level as int));
    if !is_present(entry) {
        Err(UnmapError::NotMapped)
    } else if level >= 3 {
        Ok(table)
    } else if is_huge(entry) {
        Err(UnmapError::HugePageInTheWay)
    } else {
        entry_table(mem, target(entry), level + 1, page)
    }
}

/// The last-level table whose entry of `page` unmapping clears.
pub open spec fn unmap_table(mem: Memory, root: u64, page: u64) -> Result<u64, UnmapError> {
    if page < KERNEL_SPACE_BASE {
        Err(UnmapError::OutsideKernelSpace)
    } else {
        entry_table(mem, root, 0, page)
    }
}

} // verus!
