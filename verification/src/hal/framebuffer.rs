//! Framebuffers.

use vstd::prelude::*;

verus! {

/// Description of a linear, 32-bit-per-pixel framebuffer that software can
/// write to directly. The boot code fills it from whatever the firmware
/// reported, and consumers only ever see this plain data.
///
/// Carries no pixel *format* (RGB vs BGR): the only colors used are white and
/// black, whose 32-bit value is identical in either byte order.
#[derive(Debug, Clone, Copy, PartialEq, Eq, Structural)]
pub struct FramebufferInfo {
    /// Address of the first pixel.
    pub base_addr: u64,
    /// Visible width, in pixels.
    pub width: u32,
    pub height: u32,
    /// Pixels per scanline; can exceed `width` for alignment.
    pub stride: u32,
    /// Size of the whole framebuffer region in bytes, as reported by the
    /// firmware: lets consumers validate that `stride * height * 4` actually
    /// fits before writing anything.
    pub size_bytes: u64,
}

} // verus!
