//! The EFI tables that the stub of a kernel walks.

use crate::bytes::{
    field, le_bytes, le_value, lemma_le_bytes_len, lemma_words_read_back, lemma_zero_bytes, overlay,
    put_bytes, put_le, zeros,
};
use crate::crc::{crc32, crc32_spec};
use crate::layout::{
    CONFIG_ENTRY_COUNT, CONFIG_ENTRY_SIZE, EFI_RT_PROPERTIES_TABLE_SIZE, EFI_SYSTEM_TABLE_SIZE,
    PAGE_SIZE,
};
use vstd::prelude::*;

verus! {

/// "IBI SYST"
pub const EFI_SYSTEM_TABLE_SIGNATURE: u64 = 0x5453_5953_2049_4249;

/// UEFI 2.70: the major version in the upper half, the minor in the lower.
pub const EFI_2_70_SYSTEM_TABLE_REVISION: u32 = 0x0002_0046;

/// The revision that the vendor gives its firmware.
pub const FIRMWARE_REVISION: u32 = 1;

// GUIDs in EFI's mixed-endian encoding: the first three fields little-endian, the trailing eight
// bytes in order.
pub const ACPI_20_TABLE_GUID: [u8; 16] = [
    0x71, 0xe8, 0x68, 0x88, 0xf1, 0xe4, 0xd3, 0x11, 0xbc, 0x22, 0x00, 0x80, 0xc7, 0x3c, 0x88, 0x81,
];

pub const EFI_RT_PROPERTIES_TABLE_GUID: [u8; 16] = [
    0x8a, 0x91, 0x66, 0xeb, 0xef, 0x7e, 0x2a, 0x40, 0x84, 0x2e, 0x93, 0x1d, 0x21, 0xc3, 0x8a, 0xe9,
];

pub const SMBIOS3_TABLE_GUID: [u8; 16] = [
    0x44, 0x15, 0xfd, 0xf2, 0x94, 0x97, 0x2c, 0x4a, 0x99, 0x2e, 0xe5, 0xbb, 0xcf, 0x20, 0xe3, 0x94,
];

pub const LINUX_EFI_MEMRESERVE_TABLE_GUID: [u8; 16] = [
    0xc6, 0xb0, 0x8e, 0x88, 0xde, 0x8e, 0xf5, 0x4f, 0xa8, 0xf0, 0x9a, 0xee, 0x5c, 0xb9, 0x77, 0xc2,
];

pub const EFI_RT_PROPERTIES_TABLE_VERSION: u16 = 1;

pub const MEMRESERVE_HEADER_SIZE: u64 = 16;

pub const MEMRESERVE_ENTRY_SIZE: u64 = 16;

/// The runtime properties table: version, length, supported services. No runtime service is ever
/// supported, which keeps the kernel from calling into one.
pub open spec fn rt_properties_bytes() -> Seq<u8> {
    le_bytes(EFI_RT_PROPERTIES_TABLE_VERSION as nat, 2) + le_bytes(
        EFI_RT_PROPERTIES_TABLE_SIZE as nat,
        2,
    ) + le_bytes(0, 4)
}

/// A configuration table entry: a GUID and the address of the table that it names.
pub open spec fn config_entry_bytes(guid: [u8; 16], addr: u64) -> Seq<u8> {
    guid@ + le_bytes(addr as nat, 8)
}

/// The configuration table: ACPI, runtime properties, SMBIOS, memory reservations.
pub open spec fn config_table_bytes(
    rsdp_addr: u64,
    rt_props_addr: u64,
    smbios_addr: u64,
    memreserve_addr: u64,
) -> Seq<u8> {
    config_entry_bytes(ACPI_20_TABLE_GUID, rsdp_addr) + config_entry_bytes(
        EFI_RT_PROPERTIES_TABLE_GUID,
        rt_props_addr,
    ) + config_entry_bytes(SMBIOS3_TABLE_GUID, smbios_addr) + config_entry_bytes(
        LINUX_EFI_MEMRESERVE_TABLE_GUID,
        memreserve_addr,
    )
}

/// How many entries fit behind the header in the page of the memory reservation table.
pub open spec fn memreserve_capacity() -> int {
    (PAGE_SIZE - MEMRESERVE_HEADER_SIZE) / (MEMRESERVE_ENTRY_SIZE as int)
}

/// The header of an empty memory reservation table: capacity, number of entries in use, address of
/// the next table.
pub open spec fn memreserve_bytes() -> Seq<u8> {
    le_bytes(memreserve_capacity() as nat, 4) + le_bytes(0, 4) + le_bytes(0, 8)
}

/// The system table with `checksum` in its CRC field: signature, revision, header size, CRC,
/// reserved, firmware vendor, firmware revision, the consoles and services that are absent, number
/// of configuration entries, configuration table.
pub open spec fn system_table_with(checksum: u32, fw_vendor_addr: u64, config_addr: u64) -> Seq<
    u8,
> {
    le_bytes(EFI_SYSTEM_TABLE_SIGNATURE as nat, 8) + le_bytes(
        EFI_2_70_SYSTEM_TABLE_REVISION as nat,
        4,
    ) + le_bytes(EFI_SYSTEM_TABLE_SIZE as nat, 4) + le_bytes(checksum as nat, 4) + zeros(4)
        + le_bytes(fw_vendor_addr as nat, 8) + le_bytes(FIRMWARE_REVISION as nat, 4) + zeros(0x44)
        + le_bytes(CONFIG_ENTRY_COUNT as nat, 8) + le_bytes(config_addr as nat, 8)
}

/// The system table. Its checksum is taken over the table with the CRC field zeroed.
pub open spec fn system_table_bytes(fw_vendor_addr: u64, config_addr: u64) -> Seq<u8> {
    system_table_with(
        crc32_spec(system_table_with(0, fw_vendor_addr, config_addr)),
        fw_vendor_addr,
        config_addr,
    )
}

/// Builds the runtime properties table.
pub fn rt_properties() -> (out: [u8; 8])
    ensures
        out@ == rt_properties_bytes(),
{
    let mut out: [u8; 8] = [0u8; 8];
    put_le(&mut out, 0, EFI_RT_PROPERTIES_TABLE_VERSION as u64, 2);
    put_le(&mut out, 2, EFI_RT_PROPERTIES_TABLE_SIZE, 2);
    proof {
        lemma_le_bytes_len(EFI_RT_PROPERTIES_TABLE_VERSION as nat, 2);
        lemma_le_bytes_len(EFI_RT_PROPERTIES_TABLE_SIZE as nat, 2);
        lemma_zero_bytes(4);
        assert(out@ =~= rt_properties_bytes());
    }
    out
}

/// Builds the configuration table. Without the SMBIOS entry a kernel that does not scan for the
/// anchor finds no DMI tables; without the reservations entry an interrupt controller cannot
/// persist its tables.
pub fn config_table(
    rsdp_addr: u64,
    rt_props_addr: u64,
    smbios_addr: u64,
    memreserve_addr: u64,
) -> (out: [u8; 96])
    ensures
        out@ == config_table_bytes(rsdp_addr, rt_props_addr, smbios_addr, memreserve_addr),
{
    let mut out: [u8; 96] = [0u8; 96];
    put_bytes(&mut out, 0, &ACPI_20_TABLE_GUID);
    put_le(&mut out, 16, rsdp_addr, 8);
    put_bytes(&mut out, 24, &EFI_RT_PROPERTIES_TABLE_GUID);
    put_le(&mut out, 40, rt_props_addr, 8);
    put_bytes(&mut out, 48, &SMBIOS3_TABLE_GUID);
    put_le(&mut out, 64, smbios_addr, 8);
    put_bytes(&mut out, 72, &LINUX_EFI_MEMRESERVE_TABLE_GUID);
    put_le(&mut out, 88, memreserve_addr, 8);
    proof {
        lemma_le_bytes_len(rsdp_addr as nat, 8);
        lemma_le_bytes_len(rt_props_addr as nat, 8);
        lemma_le_bytes_len(smbios_addr as nat, 8);
        lemma_le_bytes_len(memreserve_addr as nat, 8);
        assert(out@ =~= config_table_bytes(
            rsdp_addr,
            rt_props_addr,
            smbios_addr,
            memreserve_addr,
        ));
    }
    out
}

/// Builds the header of an empty memory reservation table.
pub fn memreserve() -> (out: [u8; 16])
    ensures
        out@ == memreserve_bytes(),
{
    let mut out: [u8; 16] = [0u8; 16];
    let capacity: u64 = (PAGE_SIZE - MEMRESERVE_HEADER_SIZE) / MEMRESERVE_ENTRY_SIZE;
    put_le(&mut out, 0, capacity, 4);
    proof {
        lemma_le_bytes_len(capacity as nat, 4);
        lemma_zero_bytes(4);
        lemma_zero_bytes(8);
        assert(out@ =~= memreserve_bytes());
    }
    out
}

/// The parts of a system table have the lengths of their fields.
proof fn lemma_system_table_parts(checksum: u32, fw_vendor_addr: u64, config_addr: u64)
    ensures
        le_bytes(EFI_SYSTEM_TABLE_SIGNATURE as nat, 8).len() == 8,
        le_bytes(EFI_2_70_SYSTEM_TABLE_REVISION as nat, 4).len() == 4,
        le_bytes(EFI_SYSTEM_TABLE_SIZE as nat, 4).len() == 4,
        le_bytes(checksum as nat, 4).len() == 4,
        le_bytes(fw_vendor_addr as nat, 8).len() == 8,
        le_bytes(FIRMWARE_REVISION as nat, 4).len() == 4,
        le_bytes(CONFIG_ENTRY_COUNT as nat, 8).len() == 8,
        le_bytes(config_addr as nat, 8).len() == 8,
        system_table_with(checksum, fw_vendor_addr, config_addr).len() == EFI_SYSTEM_TABLE_SIZE,
{
    lemma_le_bytes_len(EFI_SYSTEM_TABLE_SIGNATURE as nat, 8);
    lemma_le_bytes_len(EFI_2_70_SYSTEM_TABLE_REVISION as nat, 4);
    lemma_le_bytes_len(EFI_SYSTEM_TABLE_SIZE as nat, 4);
    lemma_le_bytes_len(checksum as nat, 4);
    lemma_le_bytes_len(fw_vendor_addr as nat, 8);
    lemma_le_bytes_len(FIRMWARE_REVISION as nat, 4);
    lemma_le_bytes_len(CONFIG_ENTRY_COUNT as nat, 8);
    lemma_le_bytes_len(config_addr as nat, 8);
}

/// Builds the system table, checksum included.
pub fn system_table(fw_vendor_addr: u64, config_addr: u64) -> (out: [u8; 0x78])
    ensures
        out@ == system_table_bytes(fw_vendor_addr, config_addr),
{
    let mut out: [u8; 0x78] = [0u8; 0x78];
    put_le(&mut out, 0x00, EFI_SYSTEM_TABLE_SIGNATURE, 8);
    put_le(&mut out, 0x08, EFI_2_70_SYSTEM_TABLE_REVISION as u64, 4);
    put_le(&mut out, 0x0c, EFI_SYSTEM_TABLE_SIZE, 4);
    put_le(&mut out, 0x18, fw_vendor_addr, 8);
    put_le(&mut out, 0x20, FIRMWARE_REVISION as u64, 4);
    put_le(&mut out, 0x68, CONFIG_ENTRY_COUNT, 8);
    put_le(&mut out, 0x70, config_addr, 8);
    proof {
        lemma_system_table_parts(0, fw_vendor_addr, config_addr);
        lemma_zero_bytes(4);
        assert(out@ =~= system_table_with(0, fw_vendor_addr, config_addr));
    }
    let checksum: u32 = crc32(&out);
    put_le(&mut out, 0x10, checksum as u64, 4);
    proof {
        lemma_system_table_parts(checksum, fw_vendor_addr, config_addr);
        assert(out@ =~= system_table_with(checksum, fw_vendor_addr, config_addr));
    }
    out
}

/// Every field of the system table is where the kernel reads it.
pub proof fn law_system_table_header_is_well_formed(fw_vendor_addr: u64, config_addr: u64)
    ensures
        ({
            let table = system_table_bytes(fw_vendor_addr, config_addr);
            &&& table.len() == EFI_SYSTEM_TABLE_SIZE
            &&& field(table, 0x00, 8) == EFI_SYSTEM_TABLE_SIGNATURE
            &&& field(table, 0x08, 4) == EFI_2_70_SYSTEM_TABLE_REVISION
            &&& field(table, 0x0c, 4) == EFI_SYSTEM_TABLE_SIZE
            &&& field(table, 0x18, 8) == fw_vendor_addr
            &&& field(table, 0x20, 4) == FIRMWARE_REVISION
            &&& field(table, 0x68, 8) == CONFIG_ENTRY_COUNT
            &&& field(table, 0x70, 8) == config_addr
        }),
{
    let checksum = crc32_spec(system_table_with(0, fw_vendor_addr, config_addr));
    let table = system_table_bytes(fw_vendor_addr, config_addr);
    lemma_words_read_back();
    lemma_system_table_parts(checksum, fw_vendor_addr, config_addr);
    assert(table.subrange(0x00, 0x08) =~= le_bytes(EFI_SYSTEM_TABLE_SIGNATURE as nat, 8));
    assert(table.subrange(0x08, 0x0c) =~= le_bytes(EFI_2_70_SYSTEM_TABLE_REVISION as nat, 4));
    assert(table.subrange(0x0c, 0x10) =~= le_bytes((EFI_SYSTEM_TABLE_SIZE as u32) as nat, 4));
    assert(table.subrange(0x18, 0x20) =~= le_bytes(fw_vendor_addr as nat, 8));
    assert(table.subrange(0x20, 0x24) =~= le_bytes(FIRMWARE_REVISION as nat, 4));
    assert(table.subrange(0x68, 0x70) =~= le_bytes(CONFIG_ENTRY_COUNT as nat, 8));
    assert(table.subrange(0x70, 0x78) =~= le_bytes(config_addr as nat, 8));
}

/// The checksum in the system table is the CRC-32 of the table with the CRC field zeroed.
pub proof fn law_system_table_checksum(fw_vendor_addr: u64, config_addr: u64)
    ensures
        ({
            let table = system_table_bytes(fw_vendor_addr, config_addr);
            field(table, 0x10, 4) == crc32_spec(overlay(table, 0x10, zeros(4)))
        }),
{
    let cleared = system_table_with(0, fw_vendor_addr, config_addr);
    let checksum = crc32_spec(cleared);
    let table = system_table_bytes(fw_vendor_addr, config_addr);
    lemma_words_read_back();
    lemma_zero_bytes(4);
    lemma_system_table_parts(0, fw_vendor_addr, config_addr);
    lemma_system_table_parts(checksum, fw_vendor_addr, config_addr);
    assert(table.subrange(0x10, 0x14) =~= le_bytes(checksum as nat, 4));
    assert(overlay(table, 0x10, zeros(4)) =~= cleared);
}

/// The address that a configuration table of `count` entries gives for `guid`: that of its first
/// entry with this GUID.
pub open spec fn config_lookup(table: Seq<u8>, guid: [u8; 16], count: nat) -> Option<nat>
    decreases count,
{
    if count == 0 {
        None
    } else if table.subrange(0, 16) == guid@ {
        Some(field(table, 16, 8))
    } else {
        config_lookup(table.skip(CONFIG_ENTRY_SIZE as int), guid, (count - 1) as nat)
    }
}

/// A lookup by GUID finds each structure.
pub proof fn law_configuration_table_points_at_every_structure(
    rsdp_addr: u64,
    rt_props_addr: u64,
    smbios_addr: u64,
    memreserve_addr: u64,
)
    ensures
        ({
            let table = config_table_bytes(
                rsdp_addr,
                rt_props_addr,
                smbios_addr,
                memreserve_addr,
            );
            let count = CONFIG_ENTRY_COUNT as nat;
            &&& table.len() == CONFIG_ENTRY_COUNT * CONFIG_ENTRY_SIZE
            &&& config_lookup(table, ACPI_20_TABLE_GUID, count) == Some(rsdp_addr as nat)
            &&& config_lookup(table, EFI_RT_PROPERTIES_TABLE_GUID, count) == Some(
                rt_props_addr as nat,
            )
            &&& config_lookup(table, SMBIOS3_TABLE_GUID, count) == Some(smbios_addr as nat)
            &&& config_lookup(table, LINUX_EFI_MEMRESERVE_TABLE_GUID, count) == Some(
                memreserve_addr as nat,
            )
        }),
{
    let table = config_table_bytes(rsdp_addr, rt_props_addr, smbios_addr, memreserve_addr);
    lemma_words_read_back();
    lemma_le_bytes_len(rsdp_addr as nat, 8);
    lemma_le_bytes_len(rt_props_addr as nat, 8);
    lemma_le_bytes_len(smbios_addr as nat, 8);
    lemma_le_bytes_len(memreserve_addr as nat, 8);
    let second = table.skip(24);
    let third = second.skip(24);
    let fourth = third.skip(24);
    assert(table.subrange(0, 16) =~= ACPI_20_TABLE_GUID@);
    assert(table.subrange(16, 24) =~= le_bytes(rsdp_addr as nat, 8));
    assert(second.subrange(0, 16) =~= EFI_RT_PROPERTIES_TABLE_GUID@);
    assert(second.subrange(16, 24) =~= le_bytes(rt_props_addr as nat, 8));
    assert(third.subrange(0, 16) =~= SMBIOS3_TABLE_GUID@);
    assert(third.subrange(16, 24) =~= le_bytes(smbios_addr as nat, 8));
    assert(fourth.subrange(0, 16) =~= LINUX_EFI_MEMRESERVE_TABLE_GUID@);
    assert(fourth.subrange(16, 24) =~= le_bytes(memreserve_addr as nat, 8));
    assert(ACPI_20_TABLE_GUID@[0] == 0x71 && EFI_RT_PROPERTIES_TABLE_GUID@[0] == 0x8a
        && SMBIOS3_TABLE_GUID@[0] == 0x44 && LINUX_EFI_MEMRESERVE_TABLE_GUID@[0] == 0xc6);
    reveal_with_fuel(config_lookup, 5);
}

/// The runtime properties declare that no service is supported.
pub proof fn law_no_runtime_service_is_supported()
    ensures
        rt_properties_bytes().len() == EFI_RT_PROPERTIES_TABLE_SIZE,
        field(rt_properties_bytes(), 0, 2) == EFI_RT_PROPERTIES_TABLE_VERSION,
        field(rt_properties_bytes(), 2, 2) == EFI_RT_PROPERTIES_TABLE_SIZE,
        field(rt_properties_bytes(), 4, 4) == 0,
{
    lemma_words_read_back();
    lemma_le_bytes_len(EFI_RT_PROPERTIES_TABLE_VERSION as nat, 2);
    lemma_le_bytes_len(EFI_RT_PROPERTIES_TABLE_SIZE as nat, 2);
    lemma_le_bytes_len(0, 4);
    let table = rt_properties_bytes();
    assert(table.subrange(0, 2) =~= le_bytes(EFI_RT_PROPERTIES_TABLE_VERSION as nat, 2));
    assert(table.subrange(2, 4) =~= le_bytes((EFI_RT_PROPERTIES_TABLE_SIZE as u16) as nat, 2));
    assert(table.subrange(4, 8) =~= le_bytes(0u32 as nat, 4));
}

/// The memory reservation table starts empty, with room for entries in its page and no successor.
pub proof fn law_memory_reservations_start_empty()
    ensures
        memreserve_bytes().len() == MEMRESERVE_HEADER_SIZE,
        field(memreserve_bytes(), 0, 4) == memreserve_capacity(),
        0 < memreserve_capacity(),
        MEMRESERVE_HEADER_SIZE + memreserve_capacity() * MEMRESERVE_ENTRY_SIZE <= PAGE_SIZE,
        field(memreserve_bytes(), 4, 4) == 0,
        field(memreserve_bytes(), 8, 8) == 0,
{
    lemma_words_read_back();
    lemma_le_bytes_len(memreserve_capacity() as nat, 4);
    lemma_le_bytes_len(0, 4);
    lemma_le_bytes_len(0, 8);
    let table = memreserve_bytes();
    assert(table.subrange(0, 4) =~= le_bytes((memreserve_capacity() as u32) as nat, 4));
    assert(table.subrange(4, 8) =~= le_bytes(0u32 as nat, 4));
    assert(table.subrange(8, 16) =~= le_bytes(0u64 as nat, 8));
}

/// Every byte of the system table: the fields that are set, and zero for the reserved word and for
/// the consoles, the runtime services and the boot services, none of which exist.
pub proof fn law_absent_services_are_null(fw_vendor_addr: u64, config_addr: u64)
    ensures
        ({
            let table = system_table_bytes(fw_vendor_addr, config_addr);
            &&& table.len() == 0x78
            &&& field(table, 0x00, 8) == 0x5453_5953_2049_4249
            &&& field(table, 0x08, 4) == 0x0002_0046
            &&& field(table, 0x0c, 4) == 0x78
            &&& forall|i: int| 0x14 <= i < 0x18 ==> #[trigger] table[i] == 0
            &&& field(table, 0x18, 8) == fw_vendor_addr
            &&& field(table, 0x20, 4) == 1
            &&& forall|i: int| 0x24 <= i < 0x68 ==> #[trigger] table[i] == 0
            &&& field(table, 0x68, 8) == 4
            &&& field(table, 0x70, 8) == config_addr
        }),
{
    let checksum = crc32_spec(system_table_with(0, fw_vendor_addr, config_addr));
    law_system_table_header_is_well_formed(fw_vendor_addr, config_addr);
    lemma_system_table_parts(checksum, fw_vendor_addr, config_addr);
}

/// Two system tables differ only in the pointers that differ and in the checksum.
pub proof fn law_system_tables_differ_only_in_pointers(
    vendor_a: u64,
    config_a: u64,
    vendor_b: u64,
    config_b: u64,
    i: int,
)
    requires
        0 <= i < 0x78,
        !(0x10 <= i < 0x14),
        vendor_a == vendor_b || !(0x18 <= i < 0x20),
        config_a == config_b || !(0x70 <= i < 0x78),
    ensures
        system_table_bytes(vendor_a, config_a)[i] == system_table_bytes(vendor_b, config_b)[i],
{
    let a = crc32_spec(system_table_with(0, vendor_a, config_a));
    let b = crc32_spec(system_table_with(0, vendor_b, config_b));
    lemma_system_table_parts(a, vendor_a, config_a);
    lemma_system_table_parts(b, vendor_b, config_b);
}

/// Every byte of the configuration table: the GUID and the address of each of its four entries.
pub proof fn law_configuration_entries(
    rsdp_addr: u64,
    rt_props_addr: u64,
    smbios_addr: u64,
    memreserve_addr: u64,
)
    ensures
        ({
            let table = config_table_bytes(
                rsdp_addr,
                rt_props_addr,
                smbios_addr,
                memreserve_addr,
            );
            &&& table.len() == 96
            &&& table.subrange(0, 16) == ACPI_20_TABLE_GUID@
            &&& field(table, 16, 8) == rsdp_addr
            &&& table.subrange(24, 40) == EFI_RT_PROPERTIES_TABLE_GUID@
            &&& field(table, 40, 8) == rt_props_addr
            &&& table.subrange(48, 64) == SMBIOS3_TABLE_GUID@
            &&& field(table, 64, 8) == smbios_addr
            &&& table.subrange(72, 88) == LINUX_EFI_MEMRESERVE_TABLE_GUID@
            &&& field(table, 88, 8) == memreserve_addr
        }),
{
    lemma_config_entry(ACPI_20_TABLE_GUID, rsdp_addr);
    lemma_config_entry(EFI_RT_PROPERTIES_TABLE_GUID, rt_props_addr);
    lemma_config_entry(SMBIOS3_TABLE_GUID, smbios_addr);
    lemma_config_entry(LINUX_EFI_MEMRESERVE_TABLE_GUID, memreserve_addr);
    lemma_four_entries(
        config_entry_bytes(ACPI_20_TABLE_GUID, rsdp_addr),
        config_entry_bytes(EFI_RT_PROPERTIES_TABLE_GUID, rt_props_addr),
        config_entry_bytes(SMBIOS3_TABLE_GUID, smbios_addr),
        config_entry_bytes(LINUX_EFI_MEMRESERVE_TABLE_GUID, memreserve_addr),
    );
}

/// An entry is its GUID and its address.
proof fn lemma_config_entry(guid: [u8; 16], addr: u64)
    ensures
        config_entry_bytes(guid, addr).len() == 24,
        config_entry_bytes(guid, addr).subrange(0, 16) == guid@,
        field(config_entry_bytes(guid, addr), 16, 8) == addr,
{
    lemma_words_read_back();
    lemma_le_bytes_len(addr as nat, 8);
    let entry = config_entry_bytes(guid, addr);
    assert(entry.subrange(0, 16) =~= guid@);
    assert(entry.subrange(16, 24) =~= le_bytes(addr as nat, 8));
}

/// Four entries in a row are found one after another.
proof fn lemma_four_entries(a: Seq<u8>, b: Seq<u8>, c: Seq<u8>, d: Seq<u8>)
    requires
        a.len() == 24,
        b.len() == 24,
        c.len() == 24,
        d.len() == 24,
    ensures
        (a + b + c + d).len() == 96,
        (a + b + c + d).subrange(0, 16) == a.subrange(0, 16),
        field(a + b + c + d, 16, 8) == field(a, 16, 8),
        (a + b + c + d).subrange(24, 40) == b.subrange(0, 16),
        field(a + b + c + d, 40, 8) == field(b, 16, 8),
        (a + b + c + d).subrange(48, 64) == c.subrange(0, 16),
        field(a + b + c + d, 64, 8) == field(c, 16, 8),
        (a + b + c + d).subrange(72, 88) == d.subrange(0, 16),
        field(a + b + c + d, 88, 8) == field(d, 16, 8),
{
    let table = a + b + c + d;
    assert(table.subrange(0, 16) =~= a.subrange(0, 16));
    assert(table.subrange(16, 24) =~= a.subrange(16, 24));
    assert(table.subrange(24, 40) =~= b.subrange(0, 16));
    assert(table.subrange(40, 48) =~= b.subrange(16, 24));
    assert(table.subrange(48, 64) =~= c.subrange(0, 16));
    assert(table.subrange(64, 72) =~= c.subrange(16, 24));
    assert(table.subrange(72, 88) =~= d.subrange(0, 16));
    assert(table.subrange(88, 96) =~= d.subrange(16, 24));
}

/// A lookup finds the first entry with the GUID, and nothing where there is none.
pub proof fn law_lookup_finds_the_first_match(table: Seq<u8>, guid: [u8; 16], count: nat, k: int)
    requires
        table.len() >= 24 * count,
        0 <= k <= count,
        forall|j: int|
            0 <= j < k ==> (#[trigger] table.subrange(24 * j, 24 * j + 16)) != guid@,
        k < count ==> table.subrange(24 * k, 24 * k + 16) == guid@,
    ensures
        config_lookup(table, guid, count) == if k < count {
            Some(field(table, 24 * k + 16, 8))
        } else {
            None
        },
    decreases count,
{
    if count > 0 {
        if k == 0 {
        } else {
            assert(table.subrange(24 * 0int, 24 * 0int + 16) != guid@);
            let rest = table.skip(24);
            assert forall|j: int| 0 <= j < k - 1 implies (#[trigger] rest.subrange(
                24 * j,
                24 * j + 16,
            )) != guid@ by {
                assert(rest.subrange(24 * j, 24 * j + 16) =~= table.subrange(
                    24 * (j + 1),
                    24 * (j + 1) + 16,
                ));
            }
            if k < count {
                assert(rest.subrange(24 * (k - 1), 24 * (k - 1) + 16) =~= table.subrange(
                    24 * k,
                    24 * k + 16,
                ));
                assert(rest.subrange(24 * (k - 1) + 16, 24 * (k - 1) + 24) =~= table.subrange(
                    24 * k + 16,
                    24 * k + 24,
                ));
            }
            law_lookup_finds_the_first_match(
                rest,
                guid,
                (count - 1) as nat,
                k - 1,
            );
        }
    }
}

/// The GUIDs, as they are written: 8868e871-e4f1-11d3-bc22-0080c73c8881 for ACPI,
/// eb66918a-7eef-402a-842e-931d21c38ae9 for the runtime properties,
/// f2fd1544-9794-4a2c-992e-e5bbcf20e394 for SMBIOS and 888eb0c6-8ede-4ff5-a8f0-9aee5cb977c2 for the
/// memory reservations.
pub proof fn law_guids_read_as_written()
    ensures
        field(ACPI_20_TABLE_GUID@, 0, 4) == 0x8868e871,
        field(ACPI_20_TABLE_GUID@, 4, 2) == 0xe4f1,
        field(ACPI_20_TABLE_GUID@, 6, 2) == 0x11d3,
        ACPI_20_TABLE_GUID@.subrange(8, 16) == seq![
            0xbcu8, 0x22, 0x00, 0x80, 0xc7, 0x3c, 0x88, 0x81,
        ],
        field(EFI_RT_PROPERTIES_TABLE_GUID@, 0, 4) == 0xeb66918a,
        field(EFI_RT_PROPERTIES_TABLE_GUID@, 4, 2) == 0x7eef,
        field(EFI_RT_PROPERTIES_TABLE_GUID@, 6, 2) == 0x402a,
        EFI_RT_PROPERTIES_TABLE_GUID@.subrange(8, 16) == seq![
            0x84u8, 0x2e, 0x93, 0x1d, 0x21, 0xc3, 0x8a, 0xe9,
        ],
        field(SMBIOS3_TABLE_GUID@, 0, 4) == 0xf2fd1544,
        field(SMBIOS3_TABLE_GUID@, 4, 2) == 0x9794,
        field(SMBIOS3_TABLE_GUID@, 6, 2) == 0x4a2c,
        SMBIOS3_TABLE_GUID@.subrange(8, 16) == seq![
            0x99u8, 0x2e, 0xe5, 0xbb, 0xcf, 0x20, 0xe3, 0x94,
        ],
        field(LINUX_EFI_MEMRESERVE_TABLE_GUID@, 0, 4) == 0x888eb0c6,
        field(LINUX_EFI_MEMRESERVE_TABLE_GUID@, 4, 2) == 0x8ede,
        field(LINUX_EFI_MEMRESERVE_TABLE_GUID@, 6, 2) == 0x4ff5,
        LINUX_EFI_MEMRESERVE_TABLE_GUID@.subrange(8, 16) == seq![
            0xa8u8, 0xf0, 0x9a, 0xee, 0x5c, 0xb9, 0x77, 0xc2,
        ],
{
    reveal_with_fuel(le_value, 5);
    assert(ACPI_20_TABLE_GUID@.subrange(8, 16) =~= seq![
        0xbcu8, 0x22, 0x00, 0x80, 0xc7, 0x3c, 0x88, 0x81,
    ]);
    assert(EFI_RT_PROPERTIES_TABLE_GUID@.subrange(8, 16) =~= seq![
        0x84u8, 0x2e, 0x93, 0x1d, 0x21, 0xc3, 0x8a, 0xe9,
    ]);
    assert(SMBIOS3_TABLE_GUID@.subrange(8, 16) =~= seq![
        0x99u8, 0x2e, 0xe5, 0xbb, 0xcf, 0x20, 0xe3, 0x94,
    ]);
    assert(LINUX_EFI_MEMRESERVE_TABLE_GUID@.subrange(8, 16) =~= seq![
        0xa8u8, 0xf0, 0x9a, 0xee, 0x5c, 0xb9, 0x77, 0xc2,
    ]);
}

/// The fixed tables byte for byte: runtime properties of version 1 and 8 bytes without a service,
/// and an empty page of 255 reservations without a successor.
pub proof fn law_fixed_tables()
    ensures
        rt_properties_bytes() == seq![1u8, 0, 8, 0, 0, 0, 0, 0],
        memreserve_bytes() == seq![255u8] + zeros(15),
        memreserve_capacity() == 255,
{
    reveal_with_fuel(le_bytes, 9);
    assert(rt_properties_bytes() =~= seq![1u8, 0, 8, 0, 0, 0, 0, 0]);
    assert(memreserve_bytes() =~= seq![255u8] + zeros(15));
}

} // verus!
