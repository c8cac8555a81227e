//! What configuration space says, dword by dword.

use super::{
    bar_at, capability_of, first_of, functions_from, header_at, header_of, header_words, is_device,
    is_of_class, list_from, list_reads, list_start, next_offset, others_reads, reads_from, reads_of, start_reads, Address,
    Bar, Capability, FunctionView, Header, Space,
};
use crate::hal::hex::hex_digits;
use vstd::prelude::*;

verus! {

/// The bytes of a dword.
proof fn bytes_of_a_dword(word: int, a: int, b: int, c: int, d: int)
    requires
        0 <= a < 0x100,
        0 <= b < 0x100,
        0 <= c < 0x100,
        0 <= d < 0x100,
        word == a + 0x100 * b + 0x1_0000 * c + 0x100_0000 * d,
    ensures
        word % 0x100 == a,
        word / 0x100 % 0x100 == b,
        word / 0x1_0000 % 0x100 == c,
        word / 0x100_0000 == d,
{
    assert(word / 0x100 == b + 0x100 * c + 0x1_0000 * d);
    assert(word / 0x1_0000 == c + 0x100 * d);
}

/// A header gives back every field that was put into its dwords, and is
/// missing only where the vendor is all ones. The BARs are the six dwords from
/// the fifth on.
pub proof fn a_header_reads_back(
    words: Seq<u32>,
    vendor: u16,
    device: u16,
    class: u8,
    subclass: u8,
    prog_if: u8,
    revision: u8,
    header_type: u8,
    low: u16,
    high: u8,
)
    requires
        words.len() == 16,
        words[0] == vendor + 0x1_0000 * device,
        words[2] == revision + 0x100 * prog_if + 0x1_0000 * subclass + 0x100_0000 * class,
        words[3] == low + 0x1_0000 * header_type + 0x100_0000 * high,
    ensures
        header_of(words) is None <==> vendor == 0xFFFF,
        header_of(words) matches Some(header) ==> {
            &&& header.vendor == vendor
            &&& header.device == device
            &&& header.class == class
            &&& header.subclass == subclass
            &&& header.prog_if == prog_if
            &&& header.revision == revision
            &&& header.header_type == header_type
            &&& header.is_multifunction() <==> header_type >= 0x80
            &&& header.bars.len() == 6
            &&& forall|i: int| 0 <= i < 6 ==> #[trigger] header.bars[i] == words[4 + i]
        },
{
    let (w0, w2, w3) = (words[0] as int, words[2] as int, words[3] as int);
    assert(w0 % 0x1_0000 == vendor && w0 / 0x1_0000 == device);
    bytes_of_a_dword(w2, revision as int, prog_if as int, subclass as int, class as int);
    bytes_of_a_dword(
        w3,
        low as int % 0x100,
        low as int / 0x100,
        header_type as int,
        high as int,
    );
    if let Some(header) = header_of(words) {
        assert(header.class == class && header.subclass == subclass);
        assert(header.prog_if == prog_if && header.revision == revision);
        assert(header.header_type == header_type);
        assert forall|i: int| 0 <= i < 6 implies #[trigger] header.bars[i] == words[4 + i] by {}
    }
}

/// The BARs of a function that answers are the dwords that configuration
/// space holds from 0x10 on; its ids and its class are in the first and the
/// third, and bit 7 of the third byte of the fourth says whether it has
/// further functions.
pub proof fn a_header_is_what_configuration_space_holds(space: Space, at: Address, i: int)
    requires
        0 <= i < 6,
    ensures
        header_at(space, at) is None <==> space(at, 0) % 0x1_0000 == 0xFFFF,
        header_at(space, at) matches Some(header) ==> {
            &&& header.bars.len() == 6
            &&& header.bars[i] == space(at, (0x10 + 4 * i) as u8)
            &&& header.vendor + 0x1_0000 * header.device == space(at, 0)
            &&& header.revision + 0x100 * header.prog_if + 0x1_0000 * header.subclass + 0x100_0000
                * header.class == space(at, 8)
            &&& header.header_type == space(at, 0xC) / 0x1_0000 % 0x100
            &&& header.is_multifunction() <==> space(at, 0xC) / 0x80_0000 % 2 == 1
        },
{
    let words = header_words(space, at);
    assert(words[0] == space(at, 0) && words[2] == space(at, 8) && words[3] == space(at, 0xC));
    assert(words[4 + i] == space(at, (0x10 + 4 * i) as u8));
}

/// Reading a header reads its dwords from the first on, each once: all
/// sixteen, or the first alone where nothing answers.
pub proof fn a_header_is_read_in_order(space: Space, at: Address, i: int)
    ensures
        reads_of(space, at).len() == if space(at, 0) % 0x1_0000 == 0xFFFF {
            1int
        } else {
            16
        },
        0 <= i < reads_of(space, at).len() ==> reads_of(space, at)[i] == (at, (4 * i) as u8),
{
    a_header_is_what_configuration_space_holds(space, at, 0);
}

/// The bus is read device by device: the header of function 0 and, where it
/// says that there are several, those of the other seven in order.
pub proof fn the_bus_is_read_device_by_device(space: Space, n: int)
    requires
        0 <= n < 0x2000,
    ensures
        reads_from(space, 0x2000) == Seq::<(Address, u8)>::empty(),
        ({
            let (bus, device) = ((n / 32) as u8, (n % 32) as u8);
            let read = |function: u8| reads_of(space, Address { bus, device, function });
            let first = Address { bus, device, function: 0 };
            let several = space(first, 0) % 0x1_0000 != 0xFFFF && space(first, 0xC) / 0x80_0000 % 2
                == 1;
            reads_from(space, n) == if several {
                read(0) + (read(1) + (read(2) + (read(3) + (read(4) + (read(5) + (read(6) + read(
                    7,
                ))))))) + reads_from(space, n + 1)
            } else {
                read(0) + reads_from(space, n + 1)
            }
        }),
{
    let (bus, device) = ((n / 32) as u8, (n % 32) as u8);
    let read = |function: u8| reads_of(space, Address { bus, device, function });
    let first = Address { bus, device, function: 0 };
    a_header_is_what_configuration_space_holds(space, first, 0);
    reveal_with_fuel(others_reads, 8);
    assert(read(7) + Seq::<(Address, u8)>::empty() =~= read(7));
    assert(read(0) + Seq::<(Address, u8)>::empty() =~= read(0));
}

/// The walk lists a function where its vendor is not all ones and, past
/// function 0, where the header of function 0 is there and says that there are
/// several.
pub proof fn a_function_is_listed_where_it_answers(space: Space, at: Address)
    ensures
        ({
            let first = Address { bus: at.bus, device: at.device, function: 0 };
            let listed = exists|i: int|
                0 <= i < functions_from(space, 0).len() && (#[trigger] functions_from(
                    space,
                    0,
                )[i]).at == at;
            listed <==> {
                &&& at.device < 32
                &&& at.function < 8
                &&& space(at, 0) % 0x1_0000 != 0xFFFF
                &&& at.function == 0 || (space(first, 0) % 0x1_0000 != 0xFFFF && space(first, 0xC)
                    / 0x80_0000 % 2 == 1)
            }
        }),
{
    let first = Address { bus: at.bus, device: at.device, function: 0 };
    super::the_walk_finds_what_is_there_and_nothing_else(space, at);
    a_header_is_what_configuration_space_holds(space, at, 0);
    a_header_is_what_configuration_space_holds(space, first, 0);
    assert(first == Address { function: 0, ..at });
}

/// The functions that are kept are the first ones, up to thirty-two.
pub proof fn the_first_functions_are_kept(all: Seq<FunctionView>, i: int)
    ensures
        first_of(all).len() <= 32,
        all.len() <= 32 ==> first_of(all).len() == all.len(),
        all.len() > 32 ==> first_of(all).len() == 32,
        0 <= i < first_of(all).len() ==> first_of(all)[i] == all[i],
{
}

/// A BAR of registers behind ports gives back its base.
pub proof fn a_port_bar_reads_back(bars: Seq<u32>, index: int, base: u16, reserved: bool, high: u16)
    requires
        bars.len() == 6,
        0 <= index < 6,
        base % 4 == 0,
        bars[index] == 0x1_0000 * high + base + (if reserved {
            3int
        } else {
            1
        }),
    ensures
        bar_at(bars, index) == Some(Bar::Ports { base }),
{
}

/// A 32-bit BAR gives back its address, whatever its type says but 64 bits.
pub proof fn a_memory_bar_reads_back(
    bars: Seq<u32>,
    index: int,
    address: u32,
    kind: int,
    prefetchable: bool,
)
    requires
        bars.len() == 6,
        0 <= index < 6,
        address % 16 == 0,
        kind == 0 || kind == 1 || kind == 3,
        bars[index] == address + 2 * kind + (if prefetchable {
            8int
        } else {
            0
        }),
    ensures
        bars[index] == 0 ==> bar_at(bars, index) is None,
        bars[index] != 0 ==> bar_at(bars, index) == Some(
            Bar::Memory { address: address as u64, wide: false, prefetchable },
        ),
{
    let raw = bars[index] as int;
    let low: int = 2 * kind + (if prefetchable {
        8int
    } else {
        0
    });
    low_bits(raw, address as int, low);
    if kind == 0 {
        assert(low / 2 % 4 == 0 && low % 2 == 0);
    } else if kind == 1 {
        assert(low / 2 % 4 == 1 && low % 2 == 0);
    } else {
        assert(low / 2 % 4 == 3 && low % 2 == 0);
    }
    assert(low / 8 % 2 == 1 <==> prefetchable);
}

/// The low four bits of a number.
proof fn low_bits(raw: int, high: int, low: int)
    requires
        0 <= low < 16,
        high % 16 == 0,
        raw == high + low,
    ensures
        raw - raw % 16 == high,
        raw % 2 == low % 2,
        raw / 2 % 4 == low / 2 % 4,
        raw / 8 % 2 == low / 8 % 2,
{
    let q = high / 16;
    assert(high == 16 * q);
    assert(raw / 2 == 8 * q + low / 2);
    assert(raw / 8 == 2 * q + low / 8);
}

/// A 64-bit BAR gives back its address from both of its entries. The last
/// entry has none after it, and no BAR is past the end.
pub proof fn a_wide_bar_reads_back(bars: Seq<u32>, index: int, address: u64, prefetchable: bool)
    requires
        bars.len() == 6,
        0 <= index,
        address % 16 == 0,
        index < 6 ==> bars[index] == address % 0x1_0000_0000 + 4 + (if prefetchable {
            8int
        } else {
            0
        }),
        index < 5 ==> bars[index + 1] == address / 0x1_0000_0000,
    ensures
        bar_at(bars, index) == if index < 5 {
            Some(Bar::Memory { address, wide: true, prefetchable })
        } else {
            None
        },
{
    if index < 6 {
        let low: int = if prefetchable {
            12
        } else {
            4
        };
        assert(low / 2 % 4 == 2 && low % 2 == 0);
        assert(low / 8 % 2 == 1 <==> prefetchable);
        let high = address as int % 0x1_0000_0000;
        assert(high % 16 == 0);
        low_bits(bars[index] as int, high, low);
    }
}

/// The list of a function is followed link by link. It starts where the byte
/// at 0x34 says, if bit 20 of the dword at 4 says there is one; each entry is
/// the low byte of the dword it stands at, and the byte after it says where the
/// next stands; the last one says that there is none, or is the forty-eighth.
pub proof fn the_list_is_followed_link_by_link(space: Space, at: Address, i: int)
    ensures
        ({
            let list = list_from(space, at, list_start(space, at), 0);
            let first = space(at, 0x34) as int % 0x100 / 4 * 4;
            let here = space(at, list[i].offset);
            let next = here as int / 0x100 % 0x100 / 4 * 4;
            &&& list.len() <= 48
            &&& list.len() == 0 <==> space(at, 4) / 0x10_0000 % 2 == 0 || first == 0
            &&& list.len() > 0 ==> list[0].offset == first
            &&& 0 <= i < list.len() ==> list[i].id == here % 0x100
            &&& 0 <= i < list.len() - 1 ==> list[i + 1].offset == next
            &&& list.len() > 0 && i == list.len() - 1 ==> next == 0 || list.len() == 48
        }),
{
    let start = list_start(space, at);
    the_rest_is_followed(space, at, start, 0, i);
}

proof fn the_rest_is_followed(space: Space, at: Address, offset: u8, seen: int, i: int)
    requires
        0 <= seen <= 48,
    ensures
        ({
            let list = list_from(space, at, offset, seen);
            let here = space(at, list[i].offset);
            let next = here as int / 0x100 % 0x100 / 4 * 4;
            &&& list.len() <= 48 - seen
            &&& list.len() == 0 <==> offset == 0 || seen == 48
            &&& list.len() > 0 ==> list[0].offset == offset
            &&& 0 <= i < list.len() ==> list[i].id == here % 0x100
            &&& 0 <= i < list.len() - 1 ==> list[i + 1].offset == next
            &&& list.len() > 0 && i == list.len() - 1 ==> next == 0 || list.len() == 48 - seen
        }),
    decreases 48 - seen,
{
    if offset != 0 && seen < 48 {
        let word = space(at, offset);
        let rest = list_from(space, at, next_offset(word), seen + 1);
        let list = list_from(space, at, offset, seen);
        assert(list =~= seq![capability_of(word, offset)] + rest);
        the_rest_is_followed(space, at, next_offset(word), seen + 1, i - 1);
        the_rest_is_followed(space, at, next_offset(word), seen + 1, i);
        if 0 < i < list.len() {
            assert(list[i] == rest[i - 1]);
        }
        if 0 <= i < list.len() - 1 {
            assert(list[i + 1] == rest[i]);
        }
    }
}

/// What following a list reads: the dword at 4, the one at 0x34 if there is a
/// list, and each entry once.
pub proof fn a_list_is_read_once(space: Space, at: Address, list: Seq<Capability>, i: int)
    ensures
        start_reads(space, at).len() == if space(at, 4) / 0x10_0000 % 2 == 0 {
            1int
        } else {
            2
        },
        start_reads(space, at)[0] == (at, 4u8),
        space(at, 4) / 0x10_0000 % 2 == 1 ==> start_reads(space, at)[1] == (at, 0x34u8),
        list_reads(list, at).len() == list.len(),
        0 <= i < list.len() ==> list_reads(list, at)[i] == (at, list[i].offset),
{
}

/// A driver's device is told by both of its ids, a kind of device by its
/// class and its subclass.
pub proof fn functions_are_told_apart(f: FunctionView, a: u16, b: u16, class: u8, subclass: u8)
    ensures
        is_device(f, a, b) <==> f.header.vendor == a && f.header.device == b,
        is_of_class(f, class, subclass) <==> f.header.class == class && f.header.subclass
            == subclass,
{
}

/// What a BAR reads as: where it is, and what more there is to say of it.
pub proof fn a_bar_says_what_it_is(address: u64, base: u16)
    ensures
        ({
            let plain = (Bar::Memory { address, wide: false, prefetchable: false }).text();
            let wide = (Bar::Memory { address, wide: true, prefetchable: false }).text();
            &&& plain == "memory at 0x"@ + hex_digits(address as nat)
            &&& wide == plain + ", 64-bit"@
            &&& (Bar::Memory { address, wide: false, prefetchable: true }).text() == plain
                + ", prefetchable"@
            &&& (Bar::Memory { address, wide: true, prefetchable: true }).text() == wide
                + ", prefetchable"@
        }),
        (Bar::Ports { base }).text() == "ports at 0x"@ + hex_digits(base as nat),
{
    reveal_strlit("memory at ");
    reveal_strlit("memory at 0x");
    reveal_strlit("ports at ");
    reveal_strlit("ports at 0x");
    reveal_strlit("0x");
    let plain = (Bar::Memory { address, wide: false, prefetchable: false }).text();
    let wide = (Bar::Memory { address, wide: true, prefetchable: false }).text();
    let quick = (Bar::Memory { address, wide: false, prefetchable: true }).text();
    assert(plain =~= "memory at 0x"@ + hex_digits(address as nat));
    assert(wide =~= plain + ", 64-bit"@);
    assert(quick =~= plain + ", prefetchable"@);
    assert(Bar::Ports { base }.text() =~= "ports at 0x"@ + hex_digits(base as nat));
}

/// What the classes are called.
pub proof fn classes_have_their_names(subclass: u8)
    ensures
        Header::name_of(0x00, subclass) == "unclassified",
        Header::name_of(0x01, 0x00) == "SCSI storage",
        Header::name_of(0x01, 0x01) == "IDE storage",
        Header::name_of(0x01, 0x06) == "SATA storage",
        Header::name_of(0x01, 0x08) == "NVMe storage",
        subclass != 0 && subclass != 1 && subclass != 6 && subclass != 8 ==> Header::name_of(
            0x01,
            subclass,
        ) == "storage",
        Header::name_of(0x02, subclass) == "network",
        Header::name_of(0x03, subclass) == "display",
        Header::name_of(0x04, subclass) == "multimedia",
        Header::name_of(0x06, 0x00) == "host bridge",
        Header::name_of(0x06, 0x01) == "ISA bridge",
        Header::name_of(0x06, 0x04) == "PCI-to-PCI bridge",
        subclass != 0 && subclass != 1 && subclass != 4 ==> Header::name_of(0x06, subclass)
            == "bridge",
        Header::name_of(0x0C, 0x03) == "USB controller",
        subclass != 3 ==> Header::name_of(0x0C, subclass) == "serial bus",
        forall|class: u8|
            class > 4 && class != 6 && class != 0x0C ==> #[trigger] Header::name_of(class, subclass)
                == "something else",
{
}

} // verus!
