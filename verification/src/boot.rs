//! What the boot code decides about what the firmware reports.

pub mod console;
pub mod console_hw;
pub mod framebuffer;
pub mod image;
pub mod memory;
pub mod runtime;
