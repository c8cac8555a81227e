//! What every architecture shares.

pub mod addr;
pub mod bytes;
pub mod console;
pub mod frame;
pub mod framebuffer;
pub mod hex;
pub mod interrupts;
pub mod klog;
pub mod memory_map;
pub mod paging;
pub mod pci;
pub mod pe;
pub mod places;
pub mod timer;
pub mod virtio;
