# rustos

The logic of a small x86_64 kernel, verified with Verus.

- `src/allocator.rs`: layouts, rounding up to an alignment, the heap's place and size.
- `src/bump.rs`: the bump allocator.
- `src/linked_list.rs`: the first-fit free-list allocator.
- `src/fixed_size_block.rs`: per-size stacks of freed blocks over a first-fit fallback.
- `src/memory.rs`: the boot memory map's frames, the four-level page-table walk,
  the heap's pages and recursive page-table addresses (through the `x86_64` crate).
- `src/vga_buffer.rs`: the text screen writer over a model of the 25×80 VGA
  text screen (cells through the `volatile` crate); `app/` copies the screen
  to the VGA buffer.
- `src/keyboard.rs`: scan code decoding (through `pc_keyboard`).
- `src/task.rs`: task identifiers and the executor's bookkeeping.
- `src/interrupts.rs`, `src/lib.rs`: interrupt vectors, exit codes, the test runner.

`app/` holds what needs the machine: the locks and global allocator glue,
port and register access, reading page tables in memory, interrupt
handlers, the serial port, and running futures.
