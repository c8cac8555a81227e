//! Numbers read out of bytes, least significant byte first.

use vstd::prelude::*;

verus! {

/// The 16-bit number at `at`.
pub open spec fn le16(bytes: Seq<u8>, at: int) -> int {
    bytes[at] + 0x100 * bytes[at + 1]
}

/// The 32-bit number at `at`.
pub open spec fn le32(bytes: Seq<u8>, at: int) -> int {
    le16(bytes, at) + 0x1_0000 * le16(bytes, at + 2)
}

/// A number that was put down least significant byte first is read back as it
/// was.
pub proof fn numbers_read_back(bytes: Seq<u8>, at: int, value: u32)
    requires
        bytes[at] == value % 0x100,
        bytes[at + 1] == value / 0x100 % 0x100,
    ensures
        le16(bytes, at) == value % 0x1_0000,
        bytes[at + 2] == value / 0x1_0000 % 0x100 && bytes[at + 3] == value / 0x100_0000 ==> le32(
            bytes,
            at,
        ) == value,
{
}

/// The 16-bit number at `at`, which must be inside.
pub fn u16_at(bytes: &[u8], at: usize) -> (r: u16)
    requires
        at + 2 <= bytes@.len(),
    ensures
        r == le16(bytes@, at as int),
{
    bytes[at] as u16 + 0x100 * (bytes[at + 1] as u16)
}

/// The 32-bit number at `at`, which must be inside.
pub fn u32_at(bytes: &[u8], at: usize) -> (r: u32)
    requires
        at + 4 <= bytes@.len(),
    ensures
        r == le32(bytes@, at as int),
{
    assert(bytes.len() <= usize::MAX);
    u16_at(bytes, at) as u32 + 0x1_0000 * (u16_at(bytes, at + 2) as u32)
}

} // verus!
