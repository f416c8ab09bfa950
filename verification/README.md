# magicalos

The core of the MagicalOS x86-64 kernel, written in Verus: the functions in `src/` carry
contracts that the verifier proves, with a few trusted exceptions. Five small functions
marked `external_body` call outside code, and their contracts are assumed, not proved: the
PS/2 decoder calls of `pc_keyboard` (`new_decoder`, `decoder_add_byte`, `key_event_fields`,
`decoder_process` in `src/drivers/keyboard.rs`) and the `Arc::clone` of a program image
(`share_image` in `src/elf/loader.rs`). The decoder's own type is declared to the verifier
the same way.

## Layout

- `src/memory` — the bitmap frame allocator (and whether a boot memory map can feed
  it), page-table entries and tables, the kernel's virtual-address allocator and the
  per-task address spaces.
- `src/scheduler` — task identities, priorities and stacks, the priority run queue and the
  scheduling decisions (spawn, block, wake, schedule, exit, loading a program).
- `src/fs` — the ramfs tar reader, the virtual file system tree (paths, directories,
  mounts, devices, the tree listing) and what reads, writes and seeks do to file bytes.
- `src/elf` — ELF header parsing, whether an image can be loaded, its loading into a task's
  address space, and the initial user stack with its auxiliary vector.
- `src/fd.rs`, `src/io` — descriptor tables, the I/O error numbers and traits, and the
  local APIC register values.
- `src/bus/pci.rs` — configuration addresses, device decoding, BAR sizing, the bus scan
  order and driver matching.
- `src/drivers`, `src/graphics`, `src/serial.rs`, `src/gdt.rs`, `src/arch` — keyboard
  events and the line discipline, terminal colours, framebuffer pixels and the console
  cursor, the serial port, segment descriptors, page-fault decisions and HPET arithmetic.
- `src/async_rt` — timers of sleeping asynchronous tasks.
- `tests/` — tests of the library on concrete values.
- `app/` — the boot sequence and the device glue (port I/O, MMIO, locks) around the
  library; it reads the boot loader's hand-over from files named on its command line.
