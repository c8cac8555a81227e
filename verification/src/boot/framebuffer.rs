//! Which of the firmware's display modes can be drawn on.

use crate::hal::framebuffer::FramebufferInfo;
use vstd::prelude::*;

verus! {

/// How the firmware lays out a pixel.
#[derive(Debug, Clone, Copy, PartialEq, Eq, Structural)]
pub enum PixelFormat {
    Rgb,
    Bgr,
    /// Channels at positions of the firmware's choice.
    Bitmask,
    /// No framebuffer at all.
    BltOnly,
}

/// The current mode, as the firmware reports it.
#[derive(Debug, Clone, Copy, PartialEq, Eq, Structural)]
pub struct Mode {
    pub format: PixelFormat,
    pub width: usize,
    pub height: usize,
    pub stride: usize,
}

/// Why a mode cannot be used. The kernel then runs headless, with input and
/// logging intact.
#[derive(Debug, Clone, Copy, PartialEq, Eq, Structural)]
pub enum ModeError {
    UnsupportedFormat(PixelFormat),
    /// A dimension that does not fit 32 bits.
    TooLarge,
}

/// Only the two formats with eight bits per channel: white and black are the
/// same 32-bit value in both.
pub fn check_format(format: PixelFormat) -> (r: Result<(), ModeError>)
    ensures
        r == if format is Rgb || format is Bgr {
            Ok::<(), ModeError>(())
        } else {
            Err(ModeError::UnsupportedFormat(format))
        },
{
    match format {
        PixelFormat::Rgb | PixelFormat::Bgr => Ok(()),
        other => Err(ModeError::UnsupportedFormat(other)),
    }
}

/// The framebuffer of a mode, whose `size_bytes` bytes start at `base_addr`.
pub fn query(mode: Mode, base_addr: u64, size_bytes: u64) -> (r: Result<FramebufferInfo, ModeError>)
    ensures
        r == if !(mode.format is Rgb || mode.format is Bgr) {
            Err(ModeError::UnsupportedFormat(mode.format))
        } else if mode.width > u32::MAX || mode.height > u32::MAX || mode.stride > u32::MAX {
            Err(ModeError::TooLarge)
        } else {
            Ok(
                FramebufferInfo {
                    base_addr,
                    width: mode.width as u32,
                    height: mode.height as u32,
                    stride: mode.stride as u32,
                    size_bytes,
                },
            )
        },
{
    match check_format(mode.format) {
        Ok(()) => {},
        Err(error) => {
            return Err(error);
        },
    }
    if mode.width as u64 > 0xFFFF_FFFF || mode.height as u64 > 0xFFFF_FFFF || mode.stride as u64
        > 0xFFFF_FFFF {
        return Err(ModeError::TooLarge);
    }
    Ok(
        FramebufferInfo {
            base_addr,
            width: mode.width as u32,
            height: mode.height as u32,
            stride: mode.stride as u32,
            size_bytes,
        },
    )
}

} // verus!
