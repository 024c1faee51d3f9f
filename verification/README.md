# kernel

A small x86_64 kernel's logic, written in Verus and proved against its
contracts: boot-context and Multiboot2 parsing, ELF64 loading, physical frame
accounting, GDT/IDT entry encoding, keyboard decoding, a window server with
compositor and input routing, a journaling file-system model, and the GNOSIS
knowledge subsystem (relations and their graph, objects, deltas, attention,
learning, workspace, reasoning and decision layers, registries for knowledge
and messages).

Layout:

- `src/` — the verified library. Hardware state is passed in and out as plain
  values; nothing in it touches ports or global state.
- `app/` — the kernel around it: port I/O, the PIC, the PIT and MSR writes
  (through `x86_64` and `pic8259`), the bootloader's memory map
  (`bootloader_api`) and the shared kernel state behind a `spin::Mutex`.
- `tests/` — scenarios run against the compiled library.
