//! What the headers and the relocation table of an image say, byte by byte.

use super::{
    block_size, block_slots, bytes_of, code_among, code_of, is_code, is_supported, placed,
    readable_sections, relocation_kind, relocations_of, section_at, section_count, section_header,
    signature_of, table_error, table_slots, total_of, unsupported_from, PeError,
};
use crate::hal::bytes::{le16, le32};
use crate::hal::frame::PhysRange;
use crate::hal::places::{exactly, one_place_less};
use vstd::prelude::*;

verus! {

/// The kind of an entry is its upper four bits.
proof fn kind_is_the_upper_four_bits(entries: Seq<u8>, i: int)
    ensures
        relocation_kind(entries, i) == entries[2 * i + 1] / 16,
{
    let (a, b) = (entries[2 * i], entries[2 * i + 1]);
    let value = le16(entries, 2 * i) as u16;
    assert(value == a + 0x100 * b);
    assert(value >> 12 == value / 0x1000) by (bit_vector);
}

/// Every 64-bit entry of a block lists the slot it names, in the order of the
/// entries, and nothing else is listed: the slot is the page of the block and
/// the lower twelve bits of the entry.
pub proof fn every_entry_lists_its_slot(page: int, entries: Seq<u8>, n: int, places: Seq<int>)
    requires
        0 <= page <= u32::MAX,
        0 <= 2 * n <= entries.len(),
        forall|i: int|
            0 <= i < n ==> (#[trigger] entries[2 * i + 1]) / 16 == 0 || entries[2 * i + 1] / 16 == 10,
        exactly(places, n, |i: int| entries[2 * i + 1] / 16 == 10),
    ensures
        block_slots(page, entries, n).len() == places.len(),
        forall|j: int|
            0 <= j < places.len() ==> {
                let slot = #[trigger] block_slots(page, entries, n)[j];
                let entry = entries[2 * places[j]] + 0x100 * entries[2 * places[j] + 1];
                &&& 0 <= slot - page < 0x1000
                &&& entry == 10 * 0x1000 + (slot - page)
            },
    decreases n,
{
    let wanted = |i: int| entries[2 * i + 1] / 16 == 10;
    let slots = block_slots(page, entries, n);
    if n > 0 {
        one_place_less(places, n, wanted);
        kind_is_the_upper_four_bits(entries, n - 1);
        assert(entries[2 * (n - 1) + 1] / 16 == 0 || entries[2 * (n - 1) + 1] / 16 == 10);
        if wanted(n - 1) {
            let rest = places.drop_last();
            let before = block_slots(page, entries, n - 1);
            every_entry_lists_its_slot(page, entries, n - 1, rest);
            assert forall|j: int| 0 <= j < places.len() implies {
                let slot = #[trigger] slots[j];
                let entry = entries[2 * places[j]] + 0x100 * entries[2 * places[j] + 1];
                &&& 0 <= slot - page < 0x1000
                &&& entry == 10 * 0x1000 + (slot - page)
            } by {
                if j < rest.len() {
                    assert(rest[j] == places[j]);
                    assert(slots[j] == before[j]);
                } else {
                    let (a, b) = (entries[2 * (n - 1)] as int, entries[2 * (n - 1) + 1] as int);
                    assert(b == 160 + b % 16);
                    assert((a + 0x100 * b) % 0x1000 == a + 0x100 * (b % 16));
                }
            }
        } else {
            every_entry_lists_its_slot(page, entries, n - 1, places);
        }
    } else if places.len() > 0 {
        assert(places[0] < 0);
    }
}

/// Two entries of a block with different offsets list different slots.
pub proof fn different_entries_list_different_slots(
    page: int,
    entries: Seq<u8>,
    n: int,
    places: Seq<int>,
    i: int,
    j: int,
)
    requires
        0 <= page <= u32::MAX,
        0 <= 2 * n <= entries.len(),
        forall|i: int|
            0 <= i < n ==> (#[trigger] entries[2 * i + 1]) / 16 == 0 || entries[2 * i + 1] / 16 == 10,
        exactly(places, n, |i: int| entries[2 * i + 1] / 16 == 10),
        0 <= i < places.len(),
        0 <= j < places.len(),
        block_slots(page, entries, n)[i] == block_slots(page, entries, n)[j],
    ensures
        entries[2 * places[i]] == entries[2 * places[j]],
        entries[2 * places[i] + 1] == entries[2 * places[j] + 1],
{
    every_entry_lists_its_slot(page, entries, n, places);
    let slots = block_slots(page, entries, n);
    assert(slots[i] == slots[j]);
}

/// A table of two parts, each of which is whole, lists what the first lists
/// and then what the second lists.
pub proof fn tables_can_be_joined(a: Seq<u8>, b: Seq<u8>)
    requires
        table_error(a) is None,
    ensures
        table_error(a + b) == table_error(b),
        table_error(b) is None ==> table_slots(a + b) == table_slots(a) + table_slots(b),
    decreases a.len(),
{
    let all = a + b;
    if a.len() == 0 {
        assert(all =~= b);
        assert(table_slots(a) + table_slots(b) =~= table_slots(b));
    } else {
        let size = block_size(a);
        assert(a.len() >= 8 && 8 <= size <= a.len());
        assert(le32(all, 0) == le32(a, 0));
        assert(le32(all, 4) == le32(a, 4));
        assert(all.subrange(8, size) =~= a.subrange(8, size));
        assert(all.skip(size) =~= a.skip(size) + b);
        tables_can_be_joined(a.skip(size), b);
        if table_error(b) is None {
            assert(table_slots(a + b) =~= table_slots(a) + table_slots(b));
        }
    }
}

/// What one block is: a page, its own size, and entries of two bytes. It is
/// whole where its size is its length, and good where every entry is padding
/// or a 64-bit address. It lists the slots of its entries.
pub proof fn a_block_is_a_page_a_size_and_entries(block: Seq<u8>)
    requires
        block.len() >= 8,
        block.len() % 2 == 0,
        block[4] + 0x100 * block[5] + 0x1_0000 * block[6] + 0x100_0000 * block[7] == block.len(),
    ensures
        table_error(block) is None <==> forall|i: int|
            0 <= i < (block.len() - 8) / 2 ==> (#[trigger] block[9 + 2 * i]) / 16 == 0 || block[9 + 2
                * i] / 16 == 10,
        table_error(block) is None ==> table_slots(block) == block_slots(
            block[0] + 0x100 * block[1] + 0x1_0000 * block[2] + 0x100_0000 * block[3],
            block.skip(8),
            (block.len() - 8) / 2,
        ),
{
    let size = block.len() as int;
    let entries = block.skip(8);
    assert(block_size(block) == size);
    assert(block.subrange(8, size) =~= entries);
    assert(block.skip(size) =~= Seq::<u8>::empty());
    entries_are_supported_or_not(entries, 0);
    assert forall|i: int| 0 <= i < (block.len() - 8) / 2 implies #[trigger] entries[2 * i + 1]
        == block[9 + 2 * i] by {}
    if unsupported_from(entries, 0) is None {
        assert forall|i: int| 0 <= i < (block.len() - 8) / 2 implies (#[trigger] block[9 + 2 * i])
            / 16 == 0 || block[9 + 2 * i] / 16 == 10 by {
            assert(entries[2 * i + 1] == block[9 + 2 * i]);
        }
    } else {
        let i = choose|i: int|
            0 <= i && 2 * i + 2 <= entries.len() && !((#[trigger] entries[2 * i + 1]) / 16 == 0
                || entries[2 * i + 1] / 16 == 10);
        assert(block[9 + 2 * i] == entries[2 * i + 1]);
    }
    assert(table_slots(Seq::<u8>::empty()) =~= Seq::<u64>::empty());
    if table_error(block) is None {
        assert(table_slots(block) =~= block_slots(le32(block, 0), entries, (size - 8) / 2));
    }
}

proof fn entries_are_supported_or_not(entries: Seq<u8>, n: int)
    requires
        0 <= n,
    ensures
        unsupported_from(entries, n) is None <==> forall|i: int|
            n <= i && 2 * i + 2 <= entries.len() ==> (#[trigger] entries[2 * i + 1]) / 16 == 0
                || entries[2 * i + 1] / 16 == 10,
        unsupported_from(entries, n) matches Some(kind) ==> exists|i: int|
            n <= i && 2 * i + 2 <= entries.len() && (#[trigger] entries[2 * i + 1]) / 16 == kind && !(
            entries[2 * i + 1] / 16 == 0 || entries[2 * i + 1] / 16 == 10) && forall|j: int|
                n <= j < i ==> (#[trigger] entries[2 * j + 1]) / 16 == 0 || entries[2 * j + 1] / 16
                    == 10,
    decreases entries.len() - 2 * n,
{
    if 2 * n + 2 <= entries.len() {
        kind_is_the_upper_four_bits(entries, n);
        entries_are_supported_or_not(entries, n + 1);
        let good = entries[2 * n + 1] / 16 == 0 || entries[2 * n + 1] / 16 == 10;
        assert(is_supported(relocation_kind(entries, n)) == good);
        if good {
            if unsupported_from(entries, n + 1) is None {
                assert forall|i: int| n <= i && 2 * i + 2 <= entries.len() implies (
                #[trigger] entries[2 * i + 1]) / 16 == 0 || entries[2 * i + 1] / 16 == 10 by {
                    if i != n {
                        assert(n + 1 <= i);
                    }
                }
            } else {
                let kind = unsupported_from(entries, n + 1)->Some_0;
                let i = choose|i: int|
                    n + 1 <= i && 2 * i + 2 <= entries.len() && (#[trigger] entries[2 * i + 1]) / 16
                        == kind && !(entries[2 * i + 1] / 16 == 0 || entries[2 * i + 1] / 16 == 10)
                        && forall|j: int|
                        n + 1 <= j < i ==> (#[trigger] entries[2 * j + 1]) / 16 == 0 || entries[2 * j
                            + 1] / 16 == 10;
                assert forall|j: int| n <= j < i implies (#[trigger] entries[2 * j + 1]) / 16 == 0
                    || entries[2 * j + 1] / 16 == 10 by {
                    if j != n {
                        assert(n + 1 <= j);
                    }
                }
                assert(entries[2 * i + 1] / 16 == kind);
            }
        } else {
            assert(entries[2 * n + 1] / 16 == relocation_kind(entries, n));
        }
    }
}

/// The first entry of a kind that cannot be applied is the one reported.
pub proof fn the_first_unknown_kind_is_reported(block: Seq<u8>, i: int)
    requires
        block.len() >= 8,
        block.len() % 2 == 0,
        block[4] + 0x100 * block[5] + 0x1_0000 * block[6] + 0x100_0000 * block[7] == block.len(),
        0 <= i < (block.len() - 8) / 2,
        block[9 + 2 * i] / 16 != 0,
        block[9 + 2 * i] / 16 != 10,
        forall|j: int|
            0 <= j < i ==> (#[trigger] block[9 + 2 * j]) / 16 == 0 || block[9 + 2 * j] / 16 == 10,
    ensures
        table_error(block) == Some(
            PeError::UnsupportedRelocation((block[9 + 2 * i] / 16) as u16),
        ),
{
    let size = block.len() as int;
    let entries = block.skip(8);
    assert(block.subrange(8, size) =~= entries);
    entries_are_supported_or_not(entries, 0);
    assert(entries[2 * i + 1] == block[9 + 2 * i]);
    assert(unsupported_from(entries, 0) is Some);
    let kind = unsupported_from(entries, 0)->Some_0;
    let k = choose|k: int|
        0 <= k && 2 * k + 2 <= entries.len() && (#[trigger] entries[2 * k + 1]) / 16 == kind && !(
        entries[2 * k + 1] / 16 == 0 || entries[2 * k + 1] / 16 == 10) && forall|j: int|
            0 <= j < k ==> (#[trigger] entries[2 * j + 1]) / 16 == 0 || entries[2 * j + 1] / 16
                == 10;
    assert(entries[2 * k + 1] == block[9 + 2 * k]);
    if k < i {
        assert(block[9 + 2 * k] / 16 == 0 || block[9 + 2 * k] / 16 == 10);
    }
    if i < k {
        assert(entries[2 * i + 1] / 16 == 0 || entries[2 * i + 1] / 16 == 10);
    }
}

/// A block that is cut off, gives itself less than its own header or more
/// than there is, or would cut an entry in half, is refused.
pub proof fn a_block_that_does_not_fit_is_refused(blocks: Seq<u8>)
    requires
        blocks.len() > 0,
    ensures
        ({
            let size = blocks[4] + 0x100 * blocks[5] + 0x1_0000 * blocks[6] + 0x100_0000 * blocks[7];
            blocks.len() < 8 || size < 8 || size > blocks.len() || size % 2 == 1 ==> table_error(
                blocks,
            ) == Some(PeError::Truncated)
        }),
{
    assert(block_size(blocks) == blocks[4] + 0x100 * blocks[5] + 0x1_0000 * blocks[6] + 0x100_0000
        * blocks[7]);
}

/// Whether an image has a PE32+ signature at `at`, inside it.
pub open spec fn signed_at(image: Seq<u8>, at: int) -> bool {
    &&& image.len() >= 0x40
    &&& at == image[0x3C] + 0x100 * image[0x3D] + 0x1_0000 * image[0x3E] + 0x100_0000 * image[0x3F]
    &&& at + 26 <= image.len()
    &&& image[at] == 0x50
    &&& image[at + 1] == 0x45
    &&& image[at + 2] == 0
    &&& image[at + 3] == 0
    &&& image[at + 24] == 0x0B
    &&& image[at + 25] == 0x02
}

/// An image is taken for a PE32+ one exactly where its stub leads to the
/// letters, and the magic of the optional header follows.
pub proof fn an_image_is_known_by_its_signature(image: Seq<u8>, at: int)
    ensures
        signature_of(image) == Ok::<int, PeError>(at) <==> signed_at(image, at),
        ({
            let at = image[0x3C] + 0x100 * image[0x3D] + 0x1_0000 * image[0x3E] + 0x100_0000
                * image[0x3F];
            let letters = image[at] == 0x50 && image[at + 1] == 0x45 && image[at + 2] == 0 && image[at
                + 3] == 0;
            signature_of(image) == Err::<int, PeError>(PeError::Truncated) <==> image.len() < 0x40
                || at + 4 > image.len() || (letters && at + 26 > image.len())
        }),
{
    let found = image[0x3C] + 0x100 * image[0x3D] + 0x1_0000 * image[0x3E] + 0x100_0000
        * image[0x3F];
    assert(le32(image, 0x3C) == found);
    if image.len() >= 0x40 && found + 4 <= image.len() {
        let mark = image.subrange(found, found + 4);
        let pe = seq![0x50u8, 0x45, 0, 0];
        assert(mark[0] == image[found] && mark[1] == image[found + 1]);
        assert(mark[2] == image[found + 2] && mark[3] == image[found + 3]);
        if image[found] == 0x50 && image[found + 1] == 0x45 && image[found + 2] == 0 && image[found
            + 3] == 0 {
            assert(mark =~= pe);
        } else {
            assert(pe[0] == 0x50 && pe[1] == 0x45 && pe[2] == 0 && pe[3] == 0);
        }
    }
}

/// Where the header of a section is: after the optional header, whose length
/// the image gives, forty bytes for each.
pub open spec fn header_place(image: Seq<u8>, at: int, i: int) -> int {
    at + 24 + (image[at + 20] + 0x100 * image[at + 21]) + 40 * i
}

/// Whether a section is code: its fourth characteristic byte has the bit of
/// what may be executed, and it has some bytes.
pub open spec fn holds_code(image: Seq<u8>, at: int, i: int) -> bool {
    let header = header_place(image, at, i);
    &&& image[header + 39] / 0x20 % 2 == 1
    &&& image[header + 8] != 0 || image[header + 9] != 0 || image[header + 10] != 0 || image[header
        + 11] != 0
}

proof fn code_is_told_by_its_bytes(image: Seq<u8>, at: int, i: int)
    ensures
        section_header(image, at, i) == header_place(image, at, i),
        is_code(image, header_place(image, at, i)) == holds_code(image, at, i),
{
    let header = header_place(image, at, i);
    let word = le32(image, header + 36) as u32;
    let top = image[header + 39];
    assert(le16(image, at + 20) == image[at + 20] + 0x100 * image[at + 21]);
    assert(word == image[header + 36] + 0x100 * image[header + 37] + 0x1_0000 * image[header + 38]
        + 0x100_0000 * top);
    assert(word / 0x100_0000 == top);
    assert(word & 0x2000_0000 != 0 <==> word / 0x100_0000 / 0x20 % 2 == 1) by (bit_vector);
}

proof fn code_among_is_picked(image: Seq<u8>, at: int, n: int, places: Seq<int>)
    requires
        0 <= n,
        exactly(places, n, |i: int| holds_code(image, at, i)),
    ensures
        code_among(image, at, n).len() == places.len(),
        forall|j: int|
            0 <= j < places.len() ==> #[trigger] code_among(image, at, n)[j] == section_at(
                image,
                header_place(image, at, places[j]),
            ),
    decreases n,
{
    let wanted = |i: int| holds_code(image, at, i);
    let code = code_among(image, at, n);
    if n > 0 {
        one_place_less(places, n, wanted);
        code_is_told_by_its_bytes(image, at, n - 1);
        if wanted(n - 1) {
            let rest = places.drop_last();
            code_among_is_picked(image, at, n - 1, rest);
            assert forall|j: int| 0 <= j < places.len() implies #[trigger] code[j] == section_at(
                image,
                header_place(image, at, places[j]),
            ) by {
                if j < rest.len() {
                    assert(rest[j] == places[j]);
                    assert(code[j] == code_among(image, at, n - 1)[j]);
                }
            }
        } else {
            code_among_is_picked(image, at, n - 1, places);
        }
    } else if places.len() > 0 {
        assert(places[0] < 0);
    }
}

/// The code of an image is its sections that may be executed and have bytes,
/// in the order of the table, each with the address and the size that its
/// header gives. `n` headers lie inside the image, of as many as it
/// announces; `places` are those that are code.
pub proof fn the_code_is_what_the_headers_say(image: Seq<u8>, at: int, n: int, places: Seq<int>)
    requires
        signed_at(image, at),
        0 <= n <= image[at + 6] + 0x100 * image[at + 7],
        n > 0 ==> header_place(image, at, n) <= image.len(),
        n < image[at + 6] + 0x100 * image[at + 7] ==> header_place(image, at, n + 1) > image.len(),
        exactly(places, n, |i: int| holds_code(image, at, i)),
    ensures
        ({
            let announced = image[at + 6] + 0x100 * image[at + 7];
            let code = code_of(image);
            if places.len() > 4 {
                code == Err::<Seq<(u64, u64)>, PeError>(PeError::TooManySections)
            } else if n < announced {
                code == Err::<Seq<(u64, u64)>, PeError>(PeError::Truncated)
            } else if places.len() == 0 {
                code == Err::<Seq<(u64, u64)>, PeError>(PeError::NoCode)
            } else {
                &&& code is Ok
                &&& code->Ok_0.len() == places.len()
                &&& forall|j: int|
                    0 <= j < places.len() ==> {
                        let header = header_place(image, at, places[j]);
                        let (start, len) = #[trigger] code->Ok_0[j];
                        &&& start == image[header + 12] + 0x100 * image[header + 13] + 0x1_0000
                            * image[header + 14] + 0x100_0000 * image[header + 15]
                        &&& len == image[header + 8] + 0x100 * image[header + 9] + 0x1_0000
                            * image[header + 10] + 0x100_0000 * image[header + 11]
                    }
            }
        }),
{
    an_image_is_known_by_its_signature(image, at);
    let announced = image[at + 6] + 0x100 * image[at + 7];
    assert(section_count(image, at) == announced);
    code_is_told_by_its_bytes(image, at, 0);
    let table = header_place(image, at, 0);
    let readable = readable_sections(image, at);
    assert(readable == n) by {
        assert(header_place(image, at, n) == table + 40 * n);
        assert(header_place(image, at, n + 1) == table + 40 * n + 40);
    }
    code_among_is_picked(image, at, n, places);
    let code = code_among(image, at, n);
    assert forall|j: int| 0 <= j < places.len() implies {
        let header = header_place(image, at, places[j]);
        let (start, len) = #[trigger] code[j];
        &&& start == image[header + 12] + 0x100 * image[header + 13] + 0x1_0000 * image[header + 14]
            + 0x100_0000 * image[header + 15]
        &&& len == image[header + 8] + 0x100 * image[header + 9] + 0x1_0000 * image[header + 10]
            + 0x100_0000 * image[header + 11]
    } by {
        let header = header_place(image, at, places[j]);
        assert(code[j] == section_at(image, header));
    }
}

/// The relocation table is where the sixth directory of an image says, which
/// stands 176 bytes after the signature, and is handed out whole.
pub proof fn the_table_is_where_the_directory_says(image: Seq<u8>, at: int)
    requires
        signed_at(image, at),
    ensures
        ({
            let d = at + 176;
            let start = image[d] + 0x100 * image[d + 1] + 0x1_0000 * image[d + 2] + 0x100_0000
                * image[d + 3];
            let size = image[d + 4] + 0x100 * image[d + 5] + 0x1_0000 * image[d + 6] + 0x100_0000
                * image[d + 7];
            let table = relocations_of(image);
            if d + 8 > image.len() {
                table == Err::<Seq<u8>, PeError>(PeError::Truncated)
            } else if start == 0 || size == 0 {
                table == Err::<Seq<u8>, PeError>(PeError::NotRelocatable)
            } else if start + size > image.len() {
                table == Err::<Seq<u8>, PeError>(PeError::Truncated)
            } else {
                let blocks = image.subrange(start, start + size);
                match table_error(blocks) {
                    Some(error) => table == Err::<Seq<u8>, PeError>(error),
                    None => table == Ok::<Seq<u8>, PeError>(blocks),
                }
            }
        }),
{
    an_image_is_known_by_its_signature(image, at);
    let d = at + 176;
    assert(le32(image, d) == image[d] + 0x100 * image[d + 1] + 0x1_0000 * image[d + 2] + 0x100_0000
        * image[d + 3]);
    assert(le32(image, d + 4) == image[d + 4] + 0x100 * image[d + 5] + 0x1_0000 * image[d + 6]
        + 0x100_0000 * image[d + 7]);
}

/// The bytes of code of two lists together are the bytes of the one and the
/// bytes of the other; those of one section are its length.
pub proof fn bytes_of_code_add_up(a: Seq<(u64, u64)>, b: Seq<(u64, u64)>, one: (u64, u64))
    ensures
        total_of(a + b) == total_of(a) + total_of(b),
        total_of(seq![one]) == one.1,
    decreases b.len(),
{
    assert(seq![one].drop_last() =~= Seq::<(u64, u64)>::empty());
    reveal_with_fuel(total_of, 2);
    if b.len() == 0 {
        assert(a + b =~= a);
    } else {
        assert((a + b).drop_last() =~= a + b.drop_last());
        bytes_of_code_add_up(a, b.drop_last(), one);
    }
}

/// A section is placed at the image's base and its own offset, with its own
/// length, and none is left out.
pub proof fn sections_keep_their_distance(sections: Seq<(u64, u64)>, base: u64, i: int)
    requires
        0 <= i < sections.len(),
        base + sections[i].0 <= u64::MAX,
    ensures
        placed(sections, base).len() == sections.len(),
        placed(sections, base)[i].start.0 - base == sections[i].0,
        placed(sections, base)[i].len == sections[i].1,
{
}

/// The same of ranges in memory.
pub proof fn bytes_of_ranges_add_up(a: Seq<PhysRange>, b: Seq<PhysRange>, one: PhysRange)
    ensures
        bytes_of(a + b) == bytes_of(a) + bytes_of(b),
        bytes_of(seq![one]) == one.len,
    decreases b.len(),
{
    assert(seq![one].drop_last() =~= Seq::<PhysRange>::empty());
    reveal_with_fuel(bytes_of, 2);
    if b.len() == 0 {
        assert(a + b =~= a);
    } else {
        assert((a + b).drop_last() =~= a + b.drop_last());
        bytes_of_ranges_add_up(a, b.drop_last(), one);
    }
}

} // verus!
