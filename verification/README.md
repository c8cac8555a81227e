# harlan

The core of a small x86_64 kernel, written in Verus: each function states in
its contract what it computes, and the contracts are proved.

- `src/hal`: what every machine shares. Addresses and frames, the memory map,
  the parsing of a loaded PE image, PCI enumeration, virtio registers and
  queues, log levels and sinks.
- `src/arch`: what belongs to x86_64. The page tables (`paging`), descriptor
  tables, interrupt dispatch, the PS/2 keyboard, the timer, syscalls and
  context switches.
- `src/boot`: what to make of what the firmware reports.
- `src/fbcon.rs`, `src/vga.rs`: text consoles.
- `app`: the program around the library. It holds the assembly, the port and
  register accesses and the calls to the firmware, and a loop that echoes what
  is typed.
- `tests`: tests of the library from outside.

Under `src/arch/paging` the walk that the processor makes is defined in
`model.rs`, and what the builders write in `plan.rs`. The other files state and
prove what follows: where a mapped page leads and that nothing else moves
(`laws.rs`), what the identity map and the physical window lead to
(`halves.rs`), what stays when the lower half is emptied (`kept.rs`), what the
reported numbers count (`counts.rs`), what every operation keeps (`tidy.rs`),
and what the processor sees between two writes (`moments.rs`).

Three functions call outside crates and are trusted to do what their contracts
say: the bitmaps of `font8x8` in `src/fbcon.rs`, the memory attributes of
`uefi-raw` in `src/boot/runtime.rs`, and the characters of `uefi` in
`src/boot/console.rs`.
