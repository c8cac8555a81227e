//! The machine-independent core of a small x86_64 kernel.
//!
//! Plain data in, plain data out. `hal` holds what every machine shares:
//! addresses, frames and memory maps, the parsing of a loaded image, PCI and
//! virtio. `arch` holds what belongs to x86_64: the page tables, the
//! descriptor tables, interrupts, the keyboard and syscalls. `boot` decides
//! what to make of what the firmware reports, and `fbcon` and `vga` put text
//! on a screen. Touching ports, registers and device memory is left to the
//! program around this library.

#![allow(unused_imports)]

pub mod arch;
pub mod boot;
pub mod fbcon;
pub mod hal;
pub mod vga;
