//! Changing which process the processor is running.
//!
//! The state of a process lives on its own kernel stack: whatever it had in
//! registers when it entered the kernel was pushed there. So switching is
//! switching stacks, and starting a process is laying out a stack that looks
//! as if it had been switched away from.

use vstd::prelude::*;

verus! {

/// How many bytes a prepared stack holds: eight saved registers, the address
/// the switch returns to, and the entry point that address reads.
pub const FIRST_RUN_FRAME: usize = 80;

/// What a prepared stack holds, lowest address first: the order in which the
/// switch pops `r15`, `r14`, `r13`, `r12`, `rsi`, `rdi`, `rbx`, `rbp`, and
/// then returns to the trampoline, which pops the entry point.
pub open spec fn first_run_frame(trampoline: u64, entry: u64, argument: u64) -> Seq<u64> {
    seq![0u64, 0, 0, 0, 0, argument, 0, 0, trampoline, entry]
}

/// Lays out a kernel stack so that the first switch into it ends up in
/// `entry`, with `argument` in the `rdi` slot, from where the trampoline moves
/// it to where the ABI passes the first parameter.
///
/// `stack` holds the words of the stack, and `stack_top` is the address right
/// after the last of them. Returns the stack pointer to resume at.
pub fn prepare_first_run(
    stack: &mut [u64],
    stack_top: u64,
    trampoline: u64,
    entry: u64,
    argument: u64,
) -> (r: u64)
    requires
        old(stack)@.len() >= 10,
        stack_top >= FIRST_RUN_FRAME,
    ensures
        r == stack_top - FIRST_RUN_FRAME,
        final(stack)@ == old(stack)@.take(old(stack)@.len() - 10) + first_run_frame(
            trampoline,
            entry,
            argument,
        ),
        ({
            let (before, after) = (old(stack)@, final(stack)@);
            let top = before.len() as int;
            &&& after.len() == top
            &&& after[top - 1] == entry
            &&& after[top - 2] == trampoline
            &&& after[top - 5] == argument
            &&& forall|i: int|
                0 <= i < top - 10 ==> #[trigger] after[i] == before[i]
            &&& forall|i: int|
                top - 10 <= i < top && i != top - 1 && i != top - 2 && i != top - 5
                    ==> #[trigger] after[i] == 0
        }),
        stack_top - r == 80,
{
    let top: usize = stack.len();
    // The trampoline pops this.
    stack[top - 1] = entry;
    // The switch returns here.
    stack[top - 2] = trampoline;
    // rbp and rbx.
    stack[top - 3] = 0;
    stack[top - 4] = 0;
    // rdi.
    stack[top - 5] = argument;
    // rsi and r12 to r15.
    stack[top - 6] = 0;
    stack[top - 7] = 0;
    stack[top - 8] = 0;
    stack[top - 9] = 0;
    stack[top - 10] = 0;
    assert(stack@ =~= old(stack)@.take(old(stack)@.len() - 10) + first_run_frame(
        trampoline,
        entry,
        argument,
    ));
    stack_top - FIRST_RUN_FRAME as u64
}

} // verus!
