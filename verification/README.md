# efi-handoff

EFI structures for a guest that boots without firmware. An aarch64 kernel reaches ACPI only through
the EFI stub, so a VMM that boots a kernel directly has to leave a system table, a configuration
table and a memory map in guest RAM. This crate builds them, writes them and returns what the device
tree has to publish.

- `src/` is the verified library. `handoff` writes the structures and states what is found in memory
  afterwards; `tables` and `memory_map` build them; `layout` says where they go; `memory` describes
  guest RAM and holds the contracts that are assumed of `vm_memory`; `bytes`, `crc`, `utf16` and
  `align` are what the tables are made of.
- `app/` offers the same to boot code that works with `vm_memory` addresses and displays errors.
- `tests/` runs the library on mapped memory.

The addresses of the firmware carve-out are the caller's: see `layout::Layout`.
