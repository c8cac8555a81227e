//! Where virtio puts things, in bytes.

use super::{
    available, capability_reads, capability_words, described, described_by, described_reads, dword_reads, list_of,
    is_common_config, is_power_of_two, location_of, readable_dwords, used, CommonConfig, Location, Notify, Queue, QueueLayout,
    Structure, Width,
};
use crate::hal::pci::{list_from, list_start, Address, Capability, Space};
use vstd::prelude::*;

verus! {

/// A capability gives back what its bytes say, whatever structure it
/// describes: which one it is, the BAR, and the offset and the length inside
/// it. It is one where its id is the vendor-specific one, its BAR exists and
/// its length is not zero. Only a notify structure whose capability has twenty
/// bytes carries a multiplier.
pub proof fn a_capability_reads_back(
    words: Seq<u32>,
    fifth: Option<u32>,
    id: u8,
    next: u8,
    bytes: u8,
    cfg_type: u8,
    bar: u8,
    rest: u32,
)
    requires
        words.len() == 4,
        words[0] == id + 0x100 * next + 0x1_0000 * bytes + 0x100_0000 * cfg_type,
        words[1] == bar + 0x100 * rest,
    ensures
        location_of(words, fifth) is Some <==> id == 9 && bar < 6 && words[3] != 0,
        location_of(words, fifth) matches Some(location) ==> {
            &&& location.bar == bar
            &&& location.offset == words[2]
            &&& location.length == words[3]
            &&& location.structure is Common <==> cfg_type == 1
            &&& location.structure is Notify <==> cfg_type == 2
            &&& location.structure is Isr <==> cfg_type == 3
            &&& location.structure is Device <==> cfg_type == 4
            &&& location.structure is PciConfig <==> cfg_type == 5
            &&& cfg_type == 0 || cfg_type > 5 ==> location.structure == Structure::Unknown(cfg_type)
            &&& location.notify_multiplier == if cfg_type == 2 && bytes >= 20 {
                fifth
            } else {
                None
            }
        },
{
    let (w, a, b, c, d) = (words[0] as int, id as int, next as int, bytes as int, cfg_type as int);
    assert(w % 0x100 == a);
    assert(w / 0x1_0000 == c + 0x100 * d);
    assert(w / 0x1_0000 % 0x100 == c);
    assert(w / 0x100_0000 == d);
    assert(words[1] as int % 0x100 == bar);
}

/// Two capabilities that say different things describe different locations.
pub proof fn locations_tell_structures_apart(a: Seq<u32>, b: Seq<u32>, x: Option<u32>, y: Option<u32>)
    requires
        a.len() == 4,
        b.len() == 4,
        location_of(a, x) is Some,
        location_of(a, x) == location_of(b, y),
    ensures
        a[0] / 0x100_0000 == b[0] / 0x100_0000,
        a[1] % 0x100 == b[1] % 0x100,
        a[2] == b[2],
        a[3] == b[3],
{
}

/// What a capability of a list describes is read from where it stands: the
/// offset in the third dword after it, the length in the fourth. It has to lie
/// inside configuration space; the multiplier is read from the dword after it,
/// if there is room.
pub proof fn a_location_is_read_where_its_capability_stands(
    space: Space,
    at: Address,
    capability: Capability,
)
    ensures
        ({
            let o = capability.offset;
            let word = |i: int| space(at, (o + 4 * i) as u8);
            let found = described_by(space, at, capability);
            &&& found is Some <==> {
                &&& capability.id == 9
                &&& o <= 0xF3
                &&& word(0) % 0x100 == 9
                &&& word(1) % 0x100 < 6
                &&& word(3) != 0
            }
            &&& found matches Some(location) ==> {
                &&& location.bar == word(1) % 0x100
                &&& location.offset == word(2)
                &&& location.length == word(3)
                &&& location.structure == Structure::of((word(0) / 0x100_0000) as u8)
                &&& location.notify_multiplier == if word(0) / 0x100_0000 == 2 && word(0) / 0x1_0000
                    % 0x100 >= 20 && o <= 0xEF {
                    Some(word(4))
                } else {
                    None
                }
            }
        }),
{
    let o = capability.offset;
    let words = capability_words(space, at, o);
    assert(words[0] == space(at, o));
    assert(words[1] == space(at, (o + 4) as u8));
    assert(words[2] == space(at, (o + 8) as u8));
    assert(words[3] == space(at, (o + 12) as u8));
    let kind = (words[0] / 0x100_0000) as u8;
    assert(Structure::of(kind) is Notify <==> kind == 2);
}

/// The common configuration counts where all fifty-six bytes of it are there.
pub proof fn a_common_configuration_is_whole(location: Location)
    ensures
        is_common_config(location) <==> location.structure == Structure::Common && location.length
            >= 0x38,
{
}

/// The sizes that a queue may have are one, and twice what it may have.
pub proof fn sizes_double(n: u16)
    ensures
        is_power_of_two(1),
        !is_power_of_two(0),
        n % 2 == 1 && n > 1 ==> !is_power_of_two(n),
        0 < n < 0x8000 ==> (is_power_of_two((2 * n) as u16) <==> is_power_of_two(n)),
{
}

/// The kinds of structure are told by their numbers, one each.
pub proof fn structures_are_told_by_their_numbers(a: u8, b: u8)
    ensures
        Structure::of(a) == Structure::of(b) ==> a == b,
        Structure::of(1) == Structure::Common,
        Structure::of(2) == Structure::Notify,
        Structure::of(3) == Structure::Isr,
        Structure::of(4) == Structure::Device,
        Structure::of(5) == Structure::PciConfig,
        a == 0 || a > 5 ==> Structure::of(a) == Structure::Unknown(a),
{
}

/// The locations of a list are those of its first part and then those of the
/// rest; one entry has the one it describes, if any. So are the reads.
pub proof fn locations_follow_the_list(
    space: Space,
    at: Address,
    a: Seq<Capability>,
    b: Seq<Capability>,
    one: Capability,
)
    ensures
        described(space, at, a + b) == described(space, at, a) + described(space, at, b),
        described(space, at, seq![one]) == match described_by(space, at, one) {
            Some(location) => seq![location],
            None => Seq::empty(),
        },
        described_reads(at, a + b) == described_reads(at, a) + described_reads(at, b),
    decreases a.len(),
{
    assert(seq![one].drop_first() =~= Seq::<Capability>::empty());
    assert(described(space, at, Seq::empty()) =~= Seq::<Location>::empty());
    assert(described(space, at, seq![one]) =~= match described_by(space, at, one) {
        Some(location) => seq![location],
        None => Seq::empty(),
    });
    if a.len() == 0 {
        assert(a + b =~= b);
        assert(described(space, at, a) + described(space, at, b) =~= described(space, at, b));
        assert(described_reads(at, a) + described_reads(at, b) =~= described_reads(at, b));
    } else {
        assert((a + b).drop_first() =~= a.drop_first() + b);
        locations_follow_the_list(space, at, a.drop_first(), b, one);
        assert(described(space, at, a + b) =~= described(space, at, a) + described(space, at, b));
        assert(described_reads(at, a + b) =~= described_reads(at, a) + described_reads(at, b));
    }
}

/// The list that is looked through is the whole list of the function.
pub proof fn the_whole_list_is_looked_through(space: Space, at: Address, one: Capability)
    ensures
        list_of(space, at) == list_from(space, at, list_start(space, at), 0),
        described_reads(at, seq![one]) == capability_reads(at, one),
        capability_reads(at, one)[0] == (at, one.offset),
        one.id != 9 ==> capability_reads(at, one).len() == 1,
        one.id == 9 ==> capability_reads(at, one).skip(1) == dword_reads(
            at,
            one.offset,
            readable_dwords(one.offset),
        ),
{
    assert(seq![one].drop_first() =~= Seq::<Capability>::empty());
    assert(described_reads(at, Seq::empty()) =~= Seq::<(Address, u8)>::empty());
    assert(described_reads(at, seq![one]) =~= capability_reads(at, one));
    assert(one.id == 9 ==> capability_reads(at, one).skip(1) =~= dword_reads(
        at,
        one.offset,
        readable_dwords(one.offset),
    ));
}

/// Looking at a virtio capability reads its dwords from the first on, as many
/// of five as lie inside configuration space.
pub proof fn a_capability_is_read_in_order(at: Address, offset: u8, i: int)
    ensures
        1 <= readable_dwords(offset) <= 5,
        offset + 4 * (readable_dwords(offset) - 1) <= 0xFF,
        readable_dwords(offset) < 5 ==> offset + 4 * readable_dwords(offset) > 0xFF,
        ({
            let reads = dword_reads(at, offset, readable_dwords(offset));
            &&& reads.len() == readable_dwords(offset)
            &&& 0 <= i < reads.len() ==> reads[i] == (at, (offset + 4 * i) as u8)
        }),
{
}

/// A register is reached at the start of the structure and its offset, a
/// queue's part at the start of its frame and its offset.
pub proof fn accesses_are_counted_from_the_start(
    config: CommonConfig,
    queue: Queue,
    offset: u64,
    width: Width,
    value: u64,
)
    requires
        config.start() + offset <= u64::MAX,
        queue.start() + offset <= u64::MAX,
    ensures
        config.reading(offset, width) matches super::Access::Read { at, width: w } && at.0
            - config.start() == offset && w == width,
        config.writing(offset, width, value) matches super::Access::Write { at, width: w, value: v }
            && at.0 - config.start() == offset && w == width && v == value,
        queue.reading(offset as int, width) matches super::Access::Read { at, width: w } && at.0
            - queue.start() == offset && w == width,
        queue.writing(offset as int, width, value) matches super::Access::Write {
            at,
            width: w,
            value: v,
        } && at.0 - queue.start() == offset && w == width && v == value,
{
}

/// Where the registers of the common configuration are, and how wide.
pub proof fn registers_are_where_virtio_puts_them()
    ensures
        super::registers() == seq![
            (0x00u64, Width::Dword),
            (0x04u64, Width::Dword),
            (0x08u64, Width::Dword),
            (0x0Cu64, Width::Dword),
            (0x12u64, Width::Word),
            (0x14u64, Width::Byte),
            (0x15u64, Width::Byte),
            (0x16u64, Width::Word),
            (0x18u64, Width::Word),
            (0x1Cu64, Width::Word),
            (0x1Eu64, Width::Word),
            (0x20u64, Width::Qword),
            (0x28u64, Width::Qword),
            (0x30u64, Width::Qword),
        ],
{
}

/// Doorbells are as far apart as the multiplier says, the first at the start.
pub proof fn doorbells_are_strided(notify: Notify, offset: u16)
    requires
        offset < u16::MAX,
    ensures
        notify.doorbell_at(0) == 0,
        notify.doorbell_at((offset + 1) as u16) - notify.doorbell_at(offset) == notify.multiplier,
{
    assert((offset + 1) * notify.multiplier == offset * notify.multiplier + notify.multiplier)
        by (nonlinear_arith);
    assert(0 * notify.multiplier == 0) by (nonlinear_arith);
}

/// The entries of a queue lie side by side: sixteen bytes for a descriptor,
/// two for a slot of the available ring, eight for one of the used ring. The
/// first slot is four bytes into its ring, and an index as large as the queue
/// has come round to it.
pub proof fn entries_lie_side_by_side(layout: QueueLayout, i: u16)
    requires
        layout.size > 0,
    ensures
        available::INDEX == 2 && available::RING == 4,
        used::INDEX == 2 && used::RING == 4 && used::ENTRY_BYTES == 8,
        layout.descriptor_at(0) == layout.descriptors,
        i < u16::MAX ==> layout.descriptor_at((i + 1) as u16) - layout.descriptor_at(i) == 16,
        layout.available_at(0) == layout.available + 4,
        layout.used_at(0) == layout.used + 4,
        i + 1 < layout.size ==> layout.available_at((i + 1) as u16) - layout.available_at(i) == 2,
        i + 1 < layout.size ==> layout.used_at((i + 1) as u16) - layout.used_at(i) == 8,
        i + layout.size <= u16::MAX ==> layout.available_at((i + layout.size) as u16)
            == layout.available_at(i),
        i + layout.size <= u16::MAX ==> layout.used_at((i + layout.size) as u16) == layout.used_at(
            i,
        ),
{
    let n = layout.size as int;
    vstd::arithmetic::div_mod::lemma_mod_add_multiples_vanish(i as int, n);
    vstd::arithmetic::div_mod::lemma_small_mod(0, n as nat);
    if i + 1 < n {
        vstd::arithmetic::div_mod::lemma_small_mod(i as nat, n as nat);
        vstd::arithmetic::div_mod::lemma_small_mod((i + 1) as nat, n as nat);
    }
}

} // verus!
