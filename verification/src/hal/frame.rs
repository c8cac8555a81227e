//! Physical memory frames: the unit the kernel's frame allocator hands out
//! and the unit page tables map. Plain data, tied to no firmware and no
//! architecture.

use crate::hal::addr::PhysAddr;
use vstd::prelude::*;

verus! {

/// Size of one physical frame. Also the size of a firmware page, so
/// `MemoryRegion::page_count` counts frames directly.
pub const FRAME_SIZE: u64 = 4096;

/// A range of physical addresses, as plain data: where the kernel image
/// was loaded, what a firmware region covers, and so on.
#[derive(Debug, Clone, Copy, PartialEq, Eq, Structural)]
pub struct PhysRange {
    pub start: PhysAddr,
    pub len: u64,
}

impl PhysRange {
    /// First address past the range, or the last address there is where the
    /// range would run past it.
    pub open spec fn limit(self) -> int {
        if self.start.0 + self.len <= u64::MAX {
            self.start.0 + self.len
        } else {
            u64::MAX as int
        }
    }

    /// Whether `addr` is one of the addresses of the range.
    pub open spec fn holds(self, addr: int) -> bool {
        self.start.0 <= addr < self.limit()
    }

    /// Whether the range and `[start, end)` share an address.
    pub open spec fn meets(self, start: int, end: int) -> bool {
        &&& start < end
        &&& self.start.0 < self.limit()
        &&& start < self.limit()
        &&& self.start.0 < end
    }

    pub fn new(start: PhysAddr, len: u64) -> (r: Self)
        returns
            (PhysRange { start, len }),
    {
        PhysRange { start, len }
    }

    /// First address past the range, saturating (the range may come from
    /// firmware).
    pub fn end(self) -> (r: PhysAddr)
        ensures
            r.0 == self.limit(),
            self.start.0 + self.len <= u64::MAX ==> r.0 == self.start.0 + self.len,
            self.start.0 + self.len > u64::MAX ==> r.0 == u64::MAX,
    {
        match self.start.checked_add(self.len) {
            Some(end) => end,
            None => PhysAddr::new(u64::MAX),
        }
    }

    pub fn contains(self, addr: PhysAddr) -> (r: bool)
        ensures
            r == self.holds(addr.0 as int),
            r == (self.start.0 <= addr.0 < if self.start.0 + self.len <= u64::MAX {
                self.start.0 + self.len
            } else {
                u64::MAX as int
            }),
    {
        self.start.as_u64() <= addr.as_u64() && addr.as_u64() < self.end().as_u64()
    }

    /// Whether any part of `[start, end)` is inside this range.
    pub fn overlaps(self, start: PhysAddr, end: PhysAddr) -> (r: bool)
        ensures
            r == exists|addr: int| start.0 <= addr < end.0 && self.holds(addr),
            r == self.meets(start.0 as int, end.0 as int),
    {
        proof {
            ranges_meet_where_they_share_an_address(self, start.0, end.0);
        }
        let limit: u64 = self.end().as_u64();
        // Neither an empty interval nor an empty range has a part in the
        // other.
        start.as_u64() < end.as_u64() && self.start.as_u64() < limit && start.as_u64() < limit
            && self.start.as_u64() < end.as_u64()
    }
}

/// Two ranges meet exactly where they share an address. An empty one meets
/// nothing.
pub proof fn ranges_meet_where_they_share_an_address(range: PhysRange, start: u64, end: u64)
    ensures
        range.meets(start as int, end as int) <==> exists|addr: int|
            start <= addr < end && range.holds(addr),
{
    if range.meets(start as int, end as int) {
        let addr: int = if start <= range.start.0 {
            range.start.0 as int
        } else {
            start as int
        };
        assert(start <= addr < end && range.holds(addr));
    }
}

/// Source of free physical frames. The kernel's frame allocator implements
/// it; architecture code that builds page tables consumes it.
///
/// What an allocator answers is its own business: `offers` names its
/// answers, first to last, and `taken` counts the ones already given. Each
/// implementation says what they are.
pub trait FrameAllocator {
    /// The allocator's answers in the order it gives them.
    open spec fn offers(&self) -> spec_fn(nat) -> Option<PhysFrame> {
        arbitrary()
    }

    /// How many answers it has given so far.
    open spec fn taken(&self) -> nat {
        arbitrary()
    }

    fn allocate_frame(&mut self) -> (r: Option<PhysFrame>)
        ensures
            r == old(self).offers()(old(self).taken()),
            final(self).offers() == old(self).offers(),
            final(self).taken() == old(self).taken() + 1,
    ;
}

/// A `FRAME_SIZE`-aligned block of physical memory, named by its start
/// address. Constructing one says nothing about who owns the memory (that
/// is the frame allocator's job), only that the address is aligned.
#[derive(Debug, Clone, Copy, PartialEq, Eq, Structural, PartialOrd, Ord, Hash)]
pub struct PhysFrame {
    start: PhysAddr,
}

impl PhysFrame {
    #[verifier::type_invariant]
    spec fn is_aligned(self) -> bool {
        self.start.0 % FRAME_SIZE == 0
    }

    /// The frame's first address.
    pub closed spec fn addr(self) -> u64 {
        self.start.0
    }

    /// `None` if `addr` is not `FRAME_SIZE`-aligned: an unaligned address
    /// passed where a frame is expected is a caller bug, not something to
    /// round silently.
    pub fn from_start_address(addr: PhysAddr) -> (r: Option<Self>)
        ensures
            r is Some <==> addr.0 % FRAME_SIZE == 0,
            r is Some <==> addr.0 % 4096 == 0,
            r matches Some(frame) ==> frame.addr() == addr.0,
    {
        if addr.is_aligned_to(FRAME_SIZE) {
            Some(PhysFrame { start: addr })
        } else {
            None
        }
    }

    /// The frame that contains `addr` (rounds down).
    pub fn containing_address(addr: PhysAddr) -> (r: Self)
        ensures
            r.addr() == addr.0 - addr.0 % FRAME_SIZE,
            r.addr() == addr.0 - addr.0 % 4096,
    {
        PhysFrame { start: addr.align_down(FRAME_SIZE) }
    }

    pub fn start_address(self) -> (r: PhysAddr)
        ensures
            r.0 == self.addr(),
            self.addr() % FRAME_SIZE == 0,
    {
        proof {
            use_type_invariant(&self);
        }
        self.start
    }

    /// Index of this frame counting from physical address 0.
    pub fn number(self) -> (r: u64)
        ensures
            r * FRAME_SIZE == self.addr(),
            r * 4096 == self.addr(),
    {
        proof {
            use_type_invariant(&self);
        }
        self.start.as_u64() / FRAME_SIZE
    }
}

/// A frame is told by its address.
pub proof fn one_frame_for_each_address(a: PhysFrame, b: PhysFrame)
    requires
        a.addr() == b.addr(),
    ensures
        a == b,
{
}

/// An allocator that hands out the frames of a list, one after the other, and
/// then has none.
pub struct FrameList {
    frames: Vec<PhysFrame>,
    next: usize,
    /// How often it was asked for a frame it did not have.
    refused: Ghost<nat>,
}

impl FrameList {
    #[verifier::type_invariant]
    spec fn counts(self) -> bool {
        &&& self.next <= self.frames@.len()
        &&& self.next < self.frames@.len() ==> self.refused@ == 0
    }

    pub closed spec fn list(&self) -> Seq<PhysFrame> {
        self.frames@
    }

    pub fn new(frames: Vec<PhysFrame>) -> (r: Self)
        ensures
            r.list() == frames@,
            r.taken() == 0,
    {
        FrameList { frames, next: 0, refused: Ghost(0) }
    }

    /// How many frames are left.
    pub fn left(&self) -> (r: usize)
        ensures
            r == if self.taken() < self.list().len() {
                self.list().len() - self.taken()
            } else {
                0
            },
    {
        proof {
            use_type_invariant(self);
        }
        self.frames.len() - self.next
    }
}

impl FrameAllocator for FrameList {
    open spec fn offers(&self) -> spec_fn(nat) -> Option<PhysFrame> {
        let list = self.list();
        |n: nat|
            if n < list.len() {
                Some(list[n as int])
            } else {
                None
            }
    }

    closed spec fn taken(&self) -> nat {
        self.next as nat + self.refused@
    }

    fn allocate_frame(&mut self) -> (r: Option<PhysFrame>)
        ensures
            final(self).list() == old(self).list(),
    {
        proof {
            use_type_invariant(&*self);
        }
        if self.next < self.frames.len() {
            let frame = self.frames[self.next];
            self.next = self.next + 1;
            Some(frame)
        } else {
            self.refused = Ghost(self.refused@ + 1);
            None
        }
    }
}

} // verus!
