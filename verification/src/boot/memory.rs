//! From the firmware's memory map to the kernel's.

use crate::hal::addr::PhysAddr;
use crate::hal::memory_map::{classify_memory_type, MemoryMap, MemoryRegion};
use vstd::prelude::*;

verus! {

use crate::hal::memory_map::kind_of;

/// One range of memory, as the firmware describes it.
#[derive(Debug, Clone, Copy, PartialEq, Eq, Structural)]
pub struct Descriptor {
    /// The ordinal of the memory's type.
    pub ty: u32,
    pub phys_start: u64,
    pub virt_start: u64,
    pub page_count: u64,
    /// What the memory can do and is for, as bits.
    pub attributes: u64,
}

/// The region that a descriptor describes.
pub open spec fn region_of(descriptor: Descriptor) -> MemoryRegion {
    MemoryRegion {
        start_phys_addr: PhysAddr(descriptor.phys_start),
        page_count: descriptor.page_count,
        kind: kind_of(descriptor.ty),
    }
}

/// The regions of the first `n` descriptors.
pub open spec fn regions_of(entries: Seq<Descriptor>, n: int) -> Seq<MemoryRegion> {
    Seq::new(n as nat, |i: int| region_of(entries[i]))
}

/// The kinds of memory that the firmware's numbers stand for: 7 is free, 3 and
/// 4 are the boot services', 5 is the firmware's own code, and everything else
/// is reserved. Where a range starts and how long it is stays as reported.
pub proof fn a_region_is_what_was_reported(descriptor: Descriptor)
    ensures
        region_of(descriptor).start_phys_addr.0 == descriptor.phys_start,
        region_of(descriptor).page_count == descriptor.page_count,
        region_of(descriptor).kind is Usable <==> descriptor.ty == 7,
        region_of(descriptor).kind is BootServices <==> descriptor.ty == 3 || descriptor.ty == 4,
        region_of(descriptor).kind is RuntimeCode <==> descriptor.ty == 5,
{
}

/// The regions of a map are those of the descriptors, in their order.
pub proof fn regions_keep_their_order(entries: Seq<Descriptor>, n: int, i: int)
    requires
        0 <= i < n <= entries.len(),
    ensures
        regions_of(entries, n).len() == n,
        regions_of(entries, n)[i] == region_of(entries[i]),
{
}

/// The memory map of what the firmware reports, and how many regions did not
/// fit in it: the last ones.
pub fn build_memory_map(entries: &[Descriptor]) -> (r: (MemoryMap, u32))
    requires
        entries@.len() - MemoryMap::CAPACITY <= u32::MAX,
    ensures
        entries@.len() <= MemoryMap::CAPACITY ==> r.1 == 0 && r.0@ == regions_of(
            entries@,
            entries@.len() as int,
        ),
        entries@.len() > MemoryMap::CAPACITY ==> r.1 == entries@.len() - MemoryMap::CAPACITY
            && r.0@ == regions_of(entries@, MemoryMap::CAPACITY as int),
        r.0@.len() == if entries@.len() <= 256 {
            entries@.len()
        } else {
            256
        },
        r.0@.len() + r.1 == entries@.len(),
{
    let mut map = MemoryMap::new();
    let mut dropped: u32 = 0;
    let mut i: usize = 0;
    assert(map@ =~= regions_of(entries@, 0));
    while i < entries.len()
        invariant
            i <= entries@.len(),
            entries@.len() - MemoryMap::CAPACITY <= u32::MAX,
            i <= MemoryMap::CAPACITY ==> dropped == 0 && map@ == regions_of(entries@, i as int),
            i > MemoryMap::CAPACITY ==> dropped == i - MemoryMap::CAPACITY && map@ == regions_of(
                entries@,
                MemoryMap::CAPACITY as int,
            ),
        decreases entries.len() - i,
    {
        let descriptor = entries[i];
        let region = MemoryRegion {
            start_phys_addr: PhysAddr::new(descriptor.phys_start),
            page_count: descriptor.page_count,
            kind: classify_memory_type(descriptor.ty),
        };
        let ghost before = map@;
        let kept = map.push(region);
        if !kept {
            dropped += 1;
        }
        i += 1;
        proof {
            if i <= MemoryMap::CAPACITY {
                assert(map@ =~= regions_of(entries@, i as int));
            }
        }
    }
    (map, dropped)
}

} // verus!
