use core::mem::size_of;
use harlan::arch::syscall::{CpuLocal, SyscallFrame, FMASK};

/// The stub pushes registers in an order that has to match the frame it
/// claims to be building.
#[test]
fn the_frame_is_laid_out_the_way_the_stub_pushes_it() {
    assert_eq!(size_of::<SyscallFrame>(), 9 * 8);
    let frame = SyscallFrame {
        rax: 0,
        rdi: 8,
        rsi: 16,
        rdx: 24,
        r10: 32,
        r8: 40,
        r9: 48,
        user_rip: 56,
        user_rflags: 64,
    };
    // Each field holds the offset at which it has to be.
    for (index, word) in frame.words().iter().enumerate() {
        assert_eq!(*word, 8 * index as u64);
    }
    assert_eq!(SyscallFrame::from_words(&frame.words()), frame);
}

/// The stub reaches these two through `gs`, by offset.
#[test]
fn the_per_cpu_offsets_are_the_ones_the_stub_uses() {
    let local = CpuLocal {
        kernel_stack_top: 0,
        user_stack: 8,
    };
    assert_eq!(local.words(), [0, 8]);
}

#[test]
fn the_masked_flags_are_interrupts_direction_and_alignment_check() {
    assert_eq!(FMASK, 0x4_0600);
}
