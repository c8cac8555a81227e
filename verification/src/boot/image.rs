//! Where the firmware loaded this image, and which parts of it are code.
//!
//! The kernel needs it to keep its own code executable when it replaces the
//! firmware's identity map with one that marks everything else no-execute.

use crate::hal::addr::PhysAddr;
use crate::hal::frame::PhysRange;
use crate::hal::pe::{code_sections, CodeRanges, PeError};
use vstd::prelude::*;

verus! {

use crate::hal::pe::{code_of, placed};

/// Where this image is and, if its headers can be read, which parts of it are
/// code.
#[derive(Debug, Clone, Copy, PartialEq, Eq)]
pub struct Image {
    pub range: PhysRange,
    /// The executable sections. `None` when the headers could not be parsed:
    /// the kernel then keeps the whole image executable.
    pub code: Option<CodeRanges>,
}

/// Why the code of an image cannot be told from its data.
#[derive(Debug, Clone, Copy, PartialEq, Eq, Structural)]
pub enum CodeError {
    /// The sections do not fit in memory.
    OutsideMemory,
    Headers(PeError),
}

/// Whether sections of an image at `base` end inside the address space.
pub open spec fn all_fit(sections: Seq<(u64, u64)>, base: u64) -> bool {
    forall|i: int|
        0 <= i < sections.len() ==> base + (#[trigger] sections[i]).0 + sections[i].1 <= u64::MAX
}

/// The code of the image whose bytes are `bytes`, loaded at `base`.
///
/// Only the sections the linker marked executable need to stay executable;
/// the rest of the image is data and can be no-execute, and the code itself
/// can be read-only.
pub fn locate_code(bytes: &[u8], base: PhysAddr) -> (r: Result<CodeRanges, CodeError>)
    ensures
        match code_of(bytes@) {
            Err(error) => r is Err && r->Err_0 == CodeError::Headers(error),
            Ok(sections) => if all_fit(sections, base.0) {
                r is Ok && r->Ok_0@ == placed(sections, base.0)
            } else {
                r is Err && r->Err_0 == CodeError::OutsideMemory
            },
        },
{
    match code_sections(bytes) {
        Err(error) => Err(CodeError::Headers(error)),
        Ok(sections) => match sections.at(base) {
            Some(code) => Ok(code),
            None => Err(CodeError::OutsideMemory),
        },
    }
}

/// The image at `range`, whose bytes are `bytes`, with its code located if
/// the headers allow it.
pub fn query_with_code(range: PhysRange, bytes: &[u8]) -> (r: Image)
    ensures
        r.range == range,
        match code_of(bytes@) {
            Ok(sections) => if all_fit(sections, range.start.0) {
                r.code is Some && r.code->Some_0@ == placed(sections, range.start.0)
            } else {
                r.code is None
            },
            Err(_) => r.code is None,
        },
{
    let code = match locate_code(bytes, range.start) {
        Ok(code) => Some(code),
        Err(_) => None,
    };
    Image { range, code }
}

} // verus!
