use harlan::arch::switch::{prepare_first_run, FIRST_RUN_FRAME};

/// The prepared frame is read by ten instructions of assembly, so its layout
/// is checked here rather than discovered on a machine.
#[test]
fn a_prepared_stack_is_what_switch_expects_to_pop() {
    let mut memory = vec![0u64; 64];
    let base = 0xFFFF_8100_0000_0000u64;
    let top = base + 64 * 8;
    let (trampoline, entry) = (0x1111_2222_3333_4444u64, 0x5555_6666_7777_8888u64);
    let argument = 0x1234_5678_9ABC_DEF0u64;

    let rsp = prepare_first_run(&mut memory, top, trampoline, entry, argument);

    // Pinned to where the last register sits, not to the constant: otherwise
    // a wrong constant would agree with itself.
    assert_eq!(
        rsp,
        base + (memory.len() as u64 - 10) * 8,
        "the stack pointer points at the last register that is popped"
    );
    assert_eq!(top - rsp, FIRST_RUN_FRAME as u64);
    let slot = |from_top: usize| memory[memory.len() - from_top];
    assert_eq!(
        slot(1),
        entry,
        "the trampoline reads the entry point from the top slot"
    );
    assert_eq!(slot(2), trampoline, "`ret` jumps to the trampoline");
    assert_eq!(slot(3), 0, "rbp");
    assert_eq!(slot(4), 0, "rbx");
    assert_eq!(slot(5), argument, "rdi carries the argument");
    for from_top in 6..=10 {
        assert_eq!(slot(from_top), 0, "slot {from_top} is a cleared register");
    }
    // And the whole frame is accounted for: nothing below was touched.
    assert!(memory[..memory.len() - 10].iter().all(|word| *word == 0));
}
