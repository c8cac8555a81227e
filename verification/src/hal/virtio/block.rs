//! What a block device's requests look like.
//!
//! A request is three pieces in three descriptors: a header the device reads,
//! the data, and one byte of status the device writes. They are separate
//! because their permissions are: a device that could write the header could
//! change what it was asked to do.

use vstd::prelude::*;

verus! {

use crate::hal::bytes::le32;

/// Read from the disk into memory.
pub const TYPE_IN: u32 = 0;

/// Write from memory to the disk.
pub const TYPE_OUT: u32 = 1;

/// The header is sixteen bytes: type, a reserved word, and the sector.
pub const HEADER_BYTES: usize = 16;

/// Sectors are 512 bytes, whatever the disk's physical block size is: the
/// `sector` field of a request is in these units and nothing else.
pub const SECTOR_BYTES: u32 = 512;

/// What the device writes into the status byte when it worked.
pub const STATUS_OK: u8 = 0;

pub const STATUS_IO_ERROR: u8 = 1;

pub const STATUS_UNSUPPORTED: u8 = 2;

/// The header for one request. Little-endian, because virtio is, whatever
/// the machine is. The reserved word is zero.
pub fn header(kind: u32, sector: u64) -> (r: [u8; 16])
    ensures
        le32(r@, 0) == kind,
        le32(r@, 4) == 0,
        le32(r@, 8) + 0x1_0000_0000 * le32(r@, 12) == sector,
{
    let low: u32 = (sector % 0x1_0000_0000) as u32;
    let high: u32 = (sector / 0x1_0000_0000) as u32;
    [
        (kind % 0x100) as u8,
        (kind / 0x100 % 0x100) as u8,
        (kind / 0x1_0000 % 0x100) as u8,
        (kind / 0x100_0000) as u8,
        0,
        0,
        0,
        0,
        (low % 0x100) as u8,
        (low / 0x100 % 0x100) as u8,
        (low / 0x1_0000 % 0x100) as u8,
        (low / 0x100_0000) as u8,
        (high % 0x100) as u8,
        (high / 0x100 % 0x100) as u8,
        (high / 0x1_0000 % 0x100) as u8,
        (high / 0x100_0000) as u8,
    ]
}

/// What the status byte means, for a log.
pub fn status_name(status: u8) -> (r: &'static str)
    ensures
        r == match status {
            0 => "ok",
            1 => "an I/O error",
            2 => "unsupported",
            _ => "something the specification does not define",
        },
{
    match status {
        STATUS_OK => "ok",
        STATUS_IO_ERROR => "an I/O error",
        STATUS_UNSUPPORTED => "unsupported",
        _ => "something the specification does not define",
    }
}

} // verus!
