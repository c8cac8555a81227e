//! Telling the firmware where its runtime services will answer from now on.
//!
//! Only the kernel knows where things are going to live: it passes the base,
//! and every range that the firmware still runs in moves to `base` plus its
//! physical address. Once per boot, and only while the firmware's old
//! mappings are still there.

use crate::boot::memory::Descriptor;
use crate::hal::addr::VirtAddr;
use vstd::prelude::*;

verus! {

use crate::hal::places::{exactly, one_place_less};

/// How many runtime descriptors can be handed to the firmware. Going over is
/// refused rather than truncated, because a range left out is one the
/// firmware would lose.
pub const MAX_RUNTIME: usize = 64;

/// Why nothing is moved.
#[derive(Debug, Clone, Copy, PartialEq, Eq, Structural)]
pub enum RelocateError {
    /// More runtime descriptors than can be carried.
    TooMany,
    /// The firmware claims no runtime memory.
    NothingToMove,
}

/// Asks `uefi_raw::table::boot::MemoryAttribute::contains` whether some
/// attributes hold `RUNTIME`, which is their highest bit: memory that must be
/// mapped when a runtime service is called.
#[verifier::external_body]
fn is_runtime(attributes: u64) -> (r: bool)
    ensures
        r == (attributes >= 0x8000_0000_0000_0000),
{
    uefi_raw::table::boot::MemoryAttribute::from_bits_retain(attributes).contains(
        uefi_raw::table::boot::MemoryAttribute::RUNTIME,
    )
}

/// Whether the firmware still runs in a range.
pub open spec fn moves(descriptor: Descriptor) -> bool {
    descriptor.attributes >= 0x8000_0000_0000_0000
}

/// A descriptor with the virtual address that it will answer at.
pub open spec fn moved(descriptor: Descriptor, base: u64) -> Descriptor {
    Descriptor { virt_start: (base + descriptor.phys_start) as u64, ..descriptor }
}

/// The ranges that move, of the first `n`, in order.
pub open spec fn moving(map: Seq<Descriptor>, base: u64, n: int) -> Seq<Descriptor>
    decreases n,
{
    if n <= 0 {
        Seq::empty()
    } else if moves(map[n - 1]) {
        moving(map, base, n - 1).push(moved(map[n - 1], base))
    } else {
        moving(map, base, n - 1)
    }
}

/// More ranges never make fewer that move.
proof fn moving_only_grows(map: Seq<Descriptor>, base: u64, n: int, m: int)
    requires
        0 <= n <= m,
    ensures
        moving(map, base, n).len() <= moving(map, base, m).len(),
    decreases m,
{
    if n < m {
        moving_only_grows(map, base, n, m - 1);
    }
}

/// A range moves exactly where its top attribute bit is set, by as much as
/// the base, and nothing else of it changes.
pub proof fn a_range_moves_by_the_base(descriptor: Descriptor, base: u64)
    requires
        base + descriptor.phys_start <= u64::MAX,
    ensures
        moves(descriptor) <==> descriptor.attributes / 0x8000_0000_0000_0000 == 1,
        moved(descriptor, base).virt_start - base == descriptor.phys_start,
        moved(descriptor, base).phys_start == descriptor.phys_start,
        moved(descriptor, base).page_count == descriptor.page_count,
        moved(descriptor, base).ty == descriptor.ty,
        moved(descriptor, base).attributes == descriptor.attributes,
        MAX_RUNTIME == 64,
{
}

/// What is handed to the firmware is every range that moves, once, in the
/// order of the map.
pub proof fn every_range_that_moves_is_handed_over(
    map: Seq<Descriptor>,
    base: u64,
    n: int,
    places: Seq<int>,
)
    requires
        0 <= n <= map.len(),
        exactly(places, n, |i: int| map[i].attributes >= 0x8000_0000_0000_0000),
    ensures
        moving(map, base, n).len() == places.len(),
        forall|j: int|
            0 <= j < places.len() ==> #[trigger] moving(map, base, n)[j] == moved(
                map[places[j]],
                base,
            ),
    decreases n,
{
    let wanted = |i: int| map[i].attributes >= 0x8000_0000_0000_0000;
    let all = moving(map, base, n);
    if n > 0 {
        one_place_less(places, n, wanted);
        if wanted(n - 1) {
            let rest = places.drop_last();
            every_range_that_moves_is_handed_over(map, base, n - 1, rest);
            assert forall|j: int| 0 <= j < places.len() implies #[trigger] all[j] == moved(
                map[places[j]],
                base,
            ) by {
                if j < rest.len() {
                    assert(rest[j] == places[j]);
                    assert(all[j] == moving(map, base, n - 1)[j]);
                }
            }
        } else {
            every_range_that_moves_is_handed_over(map, base, n - 1, places);
        }
    } else if places.len() > 0 {
        assert(places[0] < 0);
    }
}

/// The descriptors to hand to the firmware: the runtime ones of `map`, each
/// with the virtual address that it will answer at, which `map` gets too. What
/// comes after the last one that can be carried is left as it is.
pub fn relocate(map: &mut Vec<Descriptor>, base: VirtAddr) -> (r: Result<
    Vec<Descriptor>,
    RelocateError,
>)
    requires
        forall|i: int|
            0 <= i < old(map)@.len() && moves(#[trigger] old(map)@[i]) && moving(
                old(map)@,
                base.0,
                i,
            ).len() < MAX_RUNTIME ==> base.0 + old(map)@[i].phys_start <= u64::MAX,
    ensures
        ({
            let all = moving(old(map)@, base.0, old(map)@.len() as int);
            if all.len() > MAX_RUNTIME {
                r is Err && r->Err_0 is TooMany
            } else if all.len() == 0 {
                r is Err && r->Err_0 is NothingToMove
            } else {
                r is Ok && r->Ok_0@ == all
            }
        }),
        final(map)@.len() == old(map)@.len(),
        forall|i: int|
            0 <= i < old(map)@.len() ==> #[trigger] final(map)@[i] == if moves(old(map)@[i])
                && moving(old(map)@, base.0, i).len() < MAX_RUNTIME {
                moved(old(map)@[i], base.0)
            } else {
                old(map)@[i]
            },
{
    let ghost start = map@;
    let mut runtime: Vec<Descriptor> = Vec::new();
    let mut index: usize = 0;
    while index < map.len()
        invariant
            index <= map@.len(),
            map@.len() == start.len(),
            start == old(map)@,
            forall|i: int|
                0 <= i < start.len() && moves(#[trigger] start[i]) && moving(
                    start,
                    base.0,
                    i,
                ).len() < MAX_RUNTIME ==> base.0 + start[i].phys_start <= u64::MAX,
            forall|i: int|
                0 <= i < start.len() ==> #[trigger] map@[i] == if i < index && moves(start[i]) {
                    moved(start[i], base.0)
                } else {
                    start[i]
                },
            runtime@ == moving(start, base.0, index as int),
            runtime@.len() <= MAX_RUNTIME,
        decreases map.len() - index,
    {
        let mut descriptor = map[index];
        assert(map@[index as int] == start[index as int]);
        if is_runtime(descriptor.attributes) {
            if runtime.len() == MAX_RUNTIME {
                proof {
                    moving_only_grows(start, base.0, index + 1, start.len() as int);
                    assert forall|i: int| 0 <= i < start.len() implies #[trigger] map@[i] == if moves(
                        start[i],
                    ) && moving(start, base.0, i).len() < MAX_RUNTIME {
                        moved(start[i], base.0)
                    } else {
                        start[i]
                    } by {
                        if i < index {
                            moving_only_grows(start, base.0, i + 1, index as int);
                        } else {
                            moving_only_grows(start, base.0, index as int, i);
                        }
                    }
                }
                return Err(RelocateError::TooMany);
            }
            descriptor.virt_start = base.as_u64() + descriptor.phys_start;
            map.set(index, descriptor);
            runtime.push(descriptor);
        }
        index += 1;
    }
    proof {
        assert forall|i: int| 0 <= i < start.len() implies #[trigger] map@[i] == if moves(start[i])
            && moving(start, base.0, i).len() < MAX_RUNTIME {
            moved(start[i], base.0)
        } else {
            start[i]
        } by {
            moving_only_grows(start, base.0, i + 1, index as int);
        }
    }
    if runtime.len() == 0 {
        return Err(RelocateError::NothingToMove);
    }
    Ok(runtime)
}

} // verus!
