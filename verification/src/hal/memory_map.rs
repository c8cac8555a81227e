//! Memory map that knows nothing about firmware. The boot code builds one
//! from what the firmware reports; the kernel reads it.

use crate::hal::addr::PhysAddr;
use vstd::prelude::*;
use vstd::slice::*;
use vstd::std_specs::iter::IteratorSpec;

verus! {

/// Coarse classification of a memory region: only as fine as some consumer
/// needs.
#[derive(Debug, Clone, Copy, PartialEq, Eq, Structural)]
pub enum MemoryRegionKind {
    /// Free RAM: nothing lives there.
    Usable,
    /// Boot-services code and data. The firmware no longer needs it once it
    /// has handed the machine over, but the kernel still does: the stack it
    /// runs on and the page tables in use sit there. Kept apart from
    /// `Usable` so it is not handed out before the kernel owns its own stack
    /// and page tables.
    BootServices,
    /// Firmware code that keeps running after the handover. Never
    /// allocatable, and the only firmware memory the kernel still executes,
    /// so its pages must stay executable when the kernel builds its own page
    /// tables.
    RuntimeCode,
    Reserved,
}

/// How a range of memory may be cached.
#[derive(Debug, Clone, Copy, PartialEq, Eq, Structural)]
pub enum CachePolicy {
    /// Ordinary RAM.
    WriteBack,
    WriteThrough,
    WriteCombining,
    /// The registers of a device.
    Uncacheable,
    /// Whoever described the range did not say.
    Unspecified,
}

#[derive(Debug, Clone, Copy, PartialEq, Eq, Structural)]
pub struct MemoryRegion {
    pub start_phys_addr: PhysAddr,
    pub page_count: u64,
    pub kind: MemoryRegionKind,
}

/// The pages of every region of one kind, added up.
pub open spec fn pages_of(regions: Seq<MemoryRegion>, kind: MemoryRegionKind) -> int
    decreases regions.len(),
{
    if regions.len() == 0 {
        0
    } else {
        pages_of(regions.drop_last(), kind) + if regions.last().kind == kind {
            regions.last().page_count as int
        } else {
            0
        }
    }
}

/// The pages of two lists of regions together are the pages of the one and
/// the pages of the other. A region counts its pages for its own kind alone.
pub proof fn pages_add_up(
    a: Seq<MemoryRegion>,
    b: Seq<MemoryRegion>,
    one: MemoryRegion,
    kind: MemoryRegionKind,
)
    ensures
        pages_of(a + b, kind) == pages_of(a, kind) + pages_of(b, kind),
        pages_of(seq![one], kind) == if one.kind == kind {
            one.page_count as int
        } else {
            0
        },
    decreases b.len(),
{
    assert(seq![one].drop_last() =~= Seq::<MemoryRegion>::empty());
    reveal_with_fuel(pages_of, 2);
    if b.len() == 0 {
        assert(a + b =~= a);
    } else {
        assert((a + b).drop_last() =~= a + b.drop_last());
        pages_add_up(a, b.drop_last(), one, kind);
    }
}

/// A longer list of regions never has fewer pages of a kind.
proof fn pages_of_prefix_is_no_more(regions: Seq<MemoryRegion>, kind: MemoryRegionKind, n: int)
    requires
        0 <= n <= regions.len(),
    ensures
        0 <= pages_of(regions.take(n), kind) <= pages_of(regions, kind),
    decreases regions.len(),
{
    if n < regions.len() {
        assert(regions.drop_last().take(n) =~= regions.take(n));
        pages_of_prefix_is_no_more(regions.drop_last(), kind, n);
    } else {
        assert(regions.take(n) =~= regions);
        if n > 0 {
            pages_of_prefix_is_no_more(regions.drop_last(), kind, n - 1);
        }
    }
}

/// Fixed-capacity memory map: no heap exists yet when this is built (the
/// heap is built *using* this map).
#[derive(Clone, Copy)]
pub struct MemoryMap {
    regions: [MemoryRegion; 256],
    len: usize,
}

impl View for MemoryMap {
    type V = Seq<MemoryRegion>;

    /// The regions pushed so far, in order.
    closed spec fn view(&self) -> Seq<MemoryRegion> {
        self.regions@.take(self.len as int)
    }
}

impl MemoryMap {
    /// Sized with headroom over what real firmware reports. More regions
    /// than this are handled by truncating (`push` returns `false`), never
    /// by panicking.
    pub const CAPACITY: usize = 256;

    #[verifier::type_invariant]
    spec fn fits(self) -> bool {
        self.len <= 256
    }

    pub fn new() -> (r: Self)
        ensures
            r@ == Seq::<MemoryRegion>::empty(),
    {
        let empty = MemoryRegion {
            start_phys_addr: PhysAddr::new(0),
            page_count: 0,
            kind: MemoryRegionKind::Reserved,
        };
        let map = MemoryMap { regions: [empty; 256], len: 0 };
        assert(map@ =~= Seq::<MemoryRegion>::empty());
        map
    }

    /// Returns `false` (without adding the region) once the map is at
    /// capacity, so the caller can log a warning and keep going.
    #[must_use]
    pub fn push(&mut self, region: MemoryRegion) -> (r: bool)
        ensures
            r == (old(self)@.len() < Self::CAPACITY),
            r == (old(self)@.len() < 256),
            final(self)@ == if r {
                old(self)@.push(region)
            } else {
                old(self)@
            },
    {
        proof {
            use_type_invariant(&*self);
        }
        if self.len >= Self::CAPACITY {
            return false;
        }
        self.regions[self.len] = region;
        self.len += 1;
        assert(self@ =~= old(self)@.push(region));
        true
    }

    pub fn len(&self) -> (r: usize)
        ensures
            r == self@.len(),
            r <= Self::CAPACITY,
    {
        proof {
            use_type_invariant(self);
        }
        self.len
    }

    pub fn is_empty(&self) -> (r: bool)
        ensures
            r == (self@.len() == 0),
    {
        proof {
            use_type_invariant(self);
        }
        self.len == 0
    }

    /// The regions, in the order they were pushed.
    pub fn as_slice(&self) -> (r: &[MemoryRegion])
        ensures
            r@ == self@,
    {
        proof {
            use_type_invariant(self);
        }
        slice_subrange(self.regions.as_slice(), 0, self.len)
    }

    pub fn iter(&self) -> (r: core::slice::Iter<'_, MemoryRegion>)
        ensures
            r.remaining() == self@.as_ref(),
    {
        self.as_slice().iter()
    }

    pub fn total_usable_pages(&self) -> (r: u64)
        requires
            pages_of(self@, MemoryRegionKind::Usable) <= u64::MAX,
        ensures
            r == pages_of(self@, MemoryRegionKind::Usable),
    {
        self.total_pages(MemoryRegionKind::Usable)
    }

    /// How many pages the regions of one kind cover together.
    pub fn total_pages(&self, kind: MemoryRegionKind) -> (r: u64)
        requires
            pages_of(self@, kind) <= u64::MAX,
        ensures
            r == pages_of(self@, kind),
    {
        let regions = self.as_slice();
        let mut total: u64 = 0;
        let mut i: usize = 0;
        while i < regions.len()
            invariant
                i <= regions@.len(),
                regions@ == self@,
                pages_of(self@, kind) <= u64::MAX,
                total == pages_of(self@.take(i as int), kind),
            decreases regions.len() - i,
        {
            proof {
                pages_of_prefix_is_no_more(self@, kind, i + 1);
                assert(self@.take(i + 1).drop_last() =~= self@.take(i as int));
            }
            if regions[i].kind == kind {
                total += regions[i].page_count;
            }
            i += 1;
        }
        assert(self@.take(i as int) =~= self@);
        total
    }
}

impl Default for MemoryMap {
    fn default() -> (r: Self)
        ensures
            r@ == Seq::<MemoryRegion>::empty(),
    {
        Self::new()
    }
}

/// Raw firmware memory-type ordinals that the classifier knows.
pub const BOOT_SERVICES_CODE: u32 = 3;

pub const BOOT_SERVICES_DATA: u32 = 4;

pub const RUNTIME_SERVICES_CODE: u32 = 5;

pub const CONVENTIONAL: u32 = 7;

/// The kind of memory that a firmware memory-type ordinal stands for.
pub open spec fn kind_of(raw_ordinal: u32) -> MemoryRegionKind {
    if raw_ordinal == CONVENTIONAL {
        MemoryRegionKind::Usable
    } else if raw_ordinal == BOOT_SERVICES_CODE || raw_ordinal == BOOT_SERVICES_DATA {
        MemoryRegionKind::BootServices
    } else if raw_ordinal == RUNTIME_SERVICES_CODE {
        MemoryRegionKind::RuntimeCode
    } else {
        MemoryRegionKind::Reserved
    }
}

/// Classifies a raw firmware memory-type ordinal. Boot-services memory gets
/// its own kind rather than `Usable`: when to reclaim it is the kernel's
/// decision, not this classifier's.
pub fn classify_memory_type(raw_ordinal: u32) -> (r: MemoryRegionKind)
    ensures
        r == kind_of(raw_ordinal),
        r is Usable <==> raw_ordinal == 7,
        r is BootServices <==> raw_ordinal == 3 || raw_ordinal == 4,
        r is RuntimeCode <==> raw_ordinal == 5,
{
    match raw_ordinal {
        CONVENTIONAL => MemoryRegionKind::Usable,
        BOOT_SERVICES_CODE | BOOT_SERVICES_DATA => MemoryRegionKind::BootServices,
        RUNTIME_SERVICES_CODE => MemoryRegionKind::RuntimeCode,
        _ => MemoryRegionKind::Reserved,
    }
}

} // verus!
