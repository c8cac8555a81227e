//! Virtual memory surface: what the kernel asks of the architecture's page
//! tables. The architecture implements it; the kernel consumes it without
//! knowing the page-table format.

use crate::hal::addr::{PhysAddr, VirtAddr};
use crate::hal::frame::{FrameAllocator, PhysFrame, PhysRange, FRAME_SIZE};
use crate::hal::memory_map::CachePolicy;
use vstd::prelude::*;

verus! {

/// A range that has to stay mapped, and how.
///
/// The kernel's own code is executable and never written: mapping it
/// read-only is the other half of write xor execute. The firmware's runtime
/// services code is executable **and** written. And what that code reads and
/// writes is data: writable, never executable.
#[derive(Debug, Clone, Copy, PartialEq, Eq, Structural)]
pub struct MappedRange {
    pub range: PhysRange,
    pub writable: bool,
    pub executable: bool,
    /// How it may be cached. Mapping memory-mapped I/O write-back would
    /// corrupt whatever is behind it, so this travels with the range instead
    /// of being assumed.
    pub cache: CachePolicy,
}

impl MappedRange {
    /// Code the kernel controls: executable, never written, ordinary RAM.
    pub fn read_only_code(range: PhysRange) -> (r: Self)
        returns
            (MappedRange {
                range,
                writable: false,
                executable: true,
                cache: CachePolicy::WriteBack,
            }),
    {
        MappedRange { range, writable: false, executable: true, cache: CachePolicy::WriteBack }
    }

    /// Code someone else controls and writes into.
    pub fn writable_code(range: PhysRange, cache: CachePolicy) -> (r: Self)
        returns
            (MappedRange { range, writable: true, executable: true, cache }),
    {
        MappedRange { range, writable: true, executable: true, cache }
    }

    /// What that code reads and writes: its own data, or the registers of a
    /// device it talks to.
    pub fn data(range: PhysRange, cache: CachePolicy) -> (r: Self)
        returns
            (MappedRange { range, writable: true, executable: false, cache }),
    {
        MappedRange { range, writable: true, executable: false, cache }
    }
}

pub const PAGE_SIZE: u64 = FRAME_SIZE;

/// A `PAGE_SIZE`-aligned virtual page, named by its start address.
#[derive(Debug, Clone, Copy, PartialEq, Eq, Structural, PartialOrd, Ord, Hash)]
pub struct Page {
    start: VirtAddr,
}

impl Page {
    #[verifier::type_invariant]
    spec fn is_aligned(self) -> bool {
        self.start.0 % PAGE_SIZE == 0
    }

    /// The page's first address.
    pub closed spec fn addr(self) -> u64 {
        self.start.0
    }

    /// `None` if `addr` is not `PAGE_SIZE`-aligned.
    pub fn from_start_address(addr: VirtAddr) -> (r: Option<Self>)
        ensures
            r is Some <==> addr.0 % PAGE_SIZE == 0,
            r is Some <==> addr.0 % 4096 == 0,
            r matches Some(page) ==> page.addr() == addr.0,
    {
        if addr.is_aligned_to(PAGE_SIZE) {
            Some(Page { start: addr })
        } else {
            None
        }
    }

    /// The page that contains `addr` (rounds down).
    pub fn containing_address(addr: VirtAddr) -> (r: Self)
        ensures
            r.addr() == addr.0 - addr.0 % PAGE_SIZE,
            r.addr() == addr.0 - addr.0 % 4096,
    {
        Page { start: addr.align_down(PAGE_SIZE) }
    }

    pub fn start_address(self) -> (r: VirtAddr)
        ensures
            r.0 == self.addr(),
            self.addr() % PAGE_SIZE == 0,
    {
        proof {
            use_type_invariant(&self);
        }
        self.start
    }
}

/// A page is told by its address.
pub proof fn one_page_for_each_address(a: Page, b: Page)
    requires
        a.addr() == b.addr(),
    ensures
        a == b,
{
}

/// Access rights of a mapping.
#[derive(Debug, Clone, Copy, PartialEq, Eq, Structural)]
pub struct PageFlags {
    pub writable: bool,
    pub executable: bool,
    /// Reachable from ring 3. Without it the page belongs to the kernel and
    /// a user access to it faults, which is what isolation is made of.
    pub user: bool,
    /// How it may be cached. RAM wants write-back; the registers of a device
    /// do not.
    pub cache: CachePolicy,
}

impl PageFlags {
    /// The kernel's own memory: never reachable from ring 3, ordinary RAM
    /// unless told otherwise.
    pub fn kernel(writable: bool, executable: bool) -> (r: Self)
        returns
            (PageFlags { writable, executable, user: false, cache: CachePolicy::WriteBack }),
    {
        PageFlags { writable, executable, user: false, cache: CachePolicy::WriteBack }
    }

    /// A process's memory.
    pub fn user(writable: bool, executable: bool) -> (r: Self)
        returns
            (PageFlags { writable, executable, user: true, cache: CachePolicy::WriteBack }),
    {
        PageFlags { writable, executable, user: true, cache: CachePolicy::WriteBack }
    }

    /// The same page, cached as `cache` says.
    pub fn cached_as(self, cache: CachePolicy) -> (r: Self)
        returns
            (PageFlags { cache, ..self }),
    {
        PageFlags { cache, ..self }
    }
}

#[derive(Debug, Clone, Copy, PartialEq, Eq, Structural)]
pub enum MapError {
    /// The page is outside the range that may be mapped this way; the rest
    /// of the address space belongs to someone else.
    OutsideKernelSpace,
    AlreadyMapped,
    /// No frame left for a page table the mapping needs.
    OutOfFrames,
    /// The frame offered for a new page table cannot be written where the
    /// mapper would write it.
    TableFrameNotWritable,
    /// A large-page mapping covers the address; splitting it is not
    /// supported.
    HugePageInTheWay,
}

#[derive(Debug, Clone, Copy, PartialEq, Eq, Structural)]
pub enum UnmapError {
    OutsideKernelSpace,
    NotMapped,
    HugePageInTheWay,
}

/// What the kernel asks of whoever owns the page tables.
pub trait PageMapper {
    /// The physical address that `addr` leads to, if it is mapped.
    open spec fn mapping_of(&self, addr: u64) -> Option<u64> {
        arbitrary()
    }

    /// Whether every frame in `offers` can become a page table.
    open spec fn can_use(&self, offers: spec_fn(nat) -> Option<PhysFrame>) -> bool {
        arbitrary()
    }

    /// Whether the tables can bear mapping `page` to `frame`, with what
    /// `offers` holds from the answer at `taken` on: no table on the page's
    /// way will be handed out as a new one, and an entry can hold the frame.
    open spec fn bears(
        &self,
        page: u64,
        frame: u64,
        offers: spec_fn(nat) -> Option<PhysFrame>,
        taken: nat,
    ) -> bool {
        arbitrary()
    }

    /// Maps `page` to `frame`, taking any page tables the mapping needs from
    /// `frames`.
    ///
    /// While the mapping is in use, nothing else may read or write `frame`
    /// unless the caller manages that aliasing itself.
    fn map<F: FrameAllocator>(
        &mut self,
        page: Page,
        frame: PhysFrame,
        flags: PageFlags,
        frames: &mut F,
    ) -> (r: Result<(), MapError>)
        requires
            old(self).can_use(old(frames).offers()),
        ensures
            old(self).bears(
                page.addr(),
                frame.addr(),
                old(frames).offers(),
                old(frames).taken(),
            ) ==> forall|addr: u64|
                addr as int / PAGE_SIZE as int == page.addr() as int / PAGE_SIZE as int
                    ==> #[trigger] final(self).mapping_of(addr) == if r is Ok {
                    Some((frame.addr() + addr % PAGE_SIZE) as u64)
                } else {
                    old(self).mapping_of(addr)
                },
            final(self).can_use(final(frames).offers()),
            final(frames).offers() == old(frames).offers(),
    ;

    /// Removes the mapping of `page` and returns the frame it pointed to.
    /// The frame is not freed: the caller still owns it.
    ///
    /// Nothing may access `page` afterwards.
    fn unmap(&mut self, page: Page) -> (r: Result<PhysFrame, UnmapError>)
        ensures
            match r {
                Ok(frame) => {
                    &&& old(self).mapping_of(page.addr()) == Some(frame.addr())
                    &&& forall|addr: u64|
                        addr as int / PAGE_SIZE as int == page.addr() as int / PAGE_SIZE as int
                            ==> #[trigger] final(self).mapping_of(addr) is None
                },
                Err(_) => forall|addr: u64| #[trigger]
                    final(self).mapping_of(addr) == old(self).mapping_of(addr),
            },
            forall|offers: spec_fn(nat) -> Option<PhysFrame>| #[trigger]
                final(self).can_use(offers) == old(self).can_use(offers),
    ;

    /// The physical address `addr` translates to, if it is mapped.
    fn translate(&self, addr: VirtAddr) -> (r: Option<PhysAddr>)
        ensures
            r == match self.mapping_of(addr.0) {
                Some(phys) => Some(PhysAddr(phys)),
                None => None,
            },
    ;
}

} // verus!
