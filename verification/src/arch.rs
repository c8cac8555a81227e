//! What belongs to x86_64.

pub mod cpu;
pub mod gdt;
pub mod idt;
pub mod interrupts;
pub mod keyboard;
pub mod msr;
pub mod paging;
pub mod pci;
pub mod pic;
pub mod pit;
pub mod port;
pub mod switch;
pub mod syscall;
pub mod user;
