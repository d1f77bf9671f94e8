//! EFI structures for a guest that boots without firmware.
//!
//! A kernel that reaches ACPI only through the EFI stub reads the address of a system table and of
//! a memory map out of its device tree and walks the configuration table for the ACPI RSDP. Nothing
//! there requires real firmware to have produced the structures: this crate builds them and writes
//! them into guest RAM.

pub mod align;
pub mod bytes;
pub mod crc;
pub mod handoff;
pub mod layout;
pub mod memory;
pub mod memory_map;
pub mod tables;
pub mod utf16;
