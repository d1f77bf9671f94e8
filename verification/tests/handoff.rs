use efi_handoff::crc::crc32;
use efi_handoff::handoff::{
    build_tables, write_efi_tables, write_efi_tables_to_new_ram, Error,
};
use efi_handoff::layout::{
    Layout, CONFIG_ENTRY_COUNT, CONFIG_ENTRY_SIZE, EFI_RT_PROPERTIES_TABLE_SIZE,
    EFI_SYSTEM_TABLE_SIZE, PAGE_SIZE,
};
use efi_handoff::memory::{anonymous_ram, write_all, GuestMemoryMmap};
use efi_handoff::memory_map::{
    memory_map, EFI_CONVENTIONAL_MEMORY, EFI_MEMORY_DESCRIPTOR_SIZE, EFI_MEMORY_DESCRIPTOR_VERSION,
    EFI_RUNTIME_SERVICES_DATA,
};
use efi_handoff::tables::{
    ACPI_20_TABLE_GUID, EFI_2_70_SYSTEM_TABLE_REVISION, EFI_RT_PROPERTIES_TABLE_GUID,
    EFI_SYSTEM_TABLE_SIGNATURE, LINUX_EFI_MEMRESERVE_TABLE_GUID, MEMRESERVE_HEADER_SIZE,
    SMBIOS3_TABLE_GUID,
};
use vm_memory::{
    Address, Bytes, GuestAddress, GuestMemoryBackend, GuestMemoryError, GuestMemoryRegion,
};

const RAM_START: u64 = 0x4000_0000;
const KERNEL_START: u64 = 0x4040_0000;
const RSDP_POINTER: u64 = 0x4020_0000;

fn layout() -> Layout {
    Layout {
        fdt_start: RAM_START,
        efi_start: 0x401f_0000,
        efi_max_size: 0x1_0000,
        acpi_start: 0x4020_0000,
        acpi_max_size: 0x1f_0000,
        smbios_start: 0x403f_0000,
        smbios_max_size: 0x1_0000,
    }
}

fn ram(ranges: &[(u64, usize)]) -> GuestMemoryMmap {
    let ranges: Vec<(GuestAddress, usize)> =
        ranges.iter().map(|r| (GuestAddress(r.0), r.1)).collect();
    GuestMemoryMmap::from_ranges(&ranges).unwrap()
}

// RAM big enough to hold the whole firmware carve-out plus a little usable memory above it.
fn test_mem() -> GuestMemoryMmap {
    ram(&[(RAM_START, (KERNEL_START - RAM_START + 0x10_0000) as usize)])
}

fn read(mem: &GuestMemoryMmap, addr: u64, len: usize) -> Vec<u8> {
    let mut out = vec![0u8; len];
    mem.read_slice(&mut out, GuestAddress(addr)).unwrap();
    out
}

fn le64(bytes: &[u8]) -> u64 {
    u64::from_le_bytes(bytes.try_into().unwrap())
}

fn le32(bytes: &[u8]) -> u32 {
    u32::from_le_bytes(bytes.try_into().unwrap())
}

#[test]
fn system_table_header_is_well_formed() {
    let mut mem = test_mem();
    let handoff = write_efi_tables(&mut mem, RSDP_POINTER, &layout()).unwrap();
    let systab = read(&mem, handoff.systab_addr, EFI_SYSTEM_TABLE_SIZE as usize);

    assert_eq!(le64(&systab[0x00..0x08]), EFI_SYSTEM_TABLE_SIGNATURE);
    assert_eq!(le32(&systab[0x08..0x0c]), EFI_2_70_SYSTEM_TABLE_REVISION);
    assert_eq!(le32(&systab[0x0c..0x10]), EFI_SYSTEM_TABLE_SIZE as u32);
    assert_eq!(le64(&systab[0x68..0x70]), CONFIG_ENTRY_COUNT);

    // The checksum covers header_size bytes with crc32 zeroed.
    let stored = le32(&systab[0x10..0x14]);
    let mut zeroed = systab.clone();
    zeroed[0x10..0x14].fill(0);
    assert_eq!(stored, crc32(&zeroed));

    // firmware_vendor must point at NUL-terminated UTF-16LE.
    let vendor_addr = le64(&systab[0x18..0x20]);
    let vendor = read(&mem, vendor_addr, 34);
    let utf16: Vec<u16> = vendor
        .chunks_exact(2)
        .map(|c| u16::from_le_bytes([c[0], c[1]]))
        .take_while(|c| *c != 0)
        .collect();
    assert_eq!(String::from_utf16(&utf16).unwrap(), "Cloud Hypervisor");
}

#[test]
fn configuration_table_points_at_every_structure() {
    let mut mem = test_mem();
    let handoff = write_efi_tables(&mut mem, RSDP_POINTER, &layout()).unwrap();
    let systab = read(&mem, handoff.systab_addr, EFI_SYSTEM_TABLE_SIZE as usize);
    let table_addr = le64(&systab[0x70..0x78]);
    let entries = read(
        &mem,
        table_addr,
        (CONFIG_ENTRY_COUNT * CONFIG_ENTRY_SIZE) as usize,
    );

    let found: Vec<([u8; 16], u64)> = entries
        .chunks_exact(CONFIG_ENTRY_SIZE as usize)
        .map(|e| (e[0..16].try_into().unwrap(), le64(&e[16..24])))
        .collect();

    let lookup = |guid: [u8; 16]| {
        found
            .iter()
            .find(|(g, _)| *g == guid)
            .unwrap_or_else(|| panic!("missing configuration table entry"))
            .1
    };

    assert_eq!(lookup(ACPI_20_TABLE_GUID), RSDP_POINTER);
    assert_eq!(lookup(SMBIOS3_TABLE_GUID), layout().smbios_start);

    // RT Properties must declare that nothing is supported, otherwise the
    // guest will call into runtime services this handoff does not have.
    let rt_props = read(
        &mem,
        lookup(EFI_RT_PROPERTIES_TABLE_GUID),
        EFI_RT_PROPERTIES_TABLE_SIZE as usize,
    );
    assert_eq!(u16::from_le_bytes([rt_props[0], rt_props[1]]), 1);
    assert_eq!(le32(&rt_props[4..8]), 0);

    // The memreserve table starts empty with room for entries.
    let memreserve = read(
        &mem,
        lookup(LINUX_EFI_MEMRESERVE_TABLE_GUID),
        MEMRESERVE_HEADER_SIZE as usize,
    );
    assert!(le32(&memreserve[0..4]) > 0, "no capacity for entries");
    assert_eq!(le32(&memreserve[4..8]), 0, "count must start at zero");
    assert_eq!(le64(&memreserve[8..16]), 0, "next must be null");
}

#[test]
fn memory_map_covers_ram_without_overlapping() {
    let mut mem = test_mem();
    let layout = layout();
    let handoff = write_efi_tables(&mut mem, RSDP_POINTER, &layout).unwrap();
    assert_eq!(handoff.mmap_desc_size, EFI_MEMORY_DESCRIPTOR_SIZE as u32);
    assert_eq!(handoff.mmap_desc_ver, EFI_MEMORY_DESCRIPTOR_VERSION);

    let raw = read(&mem, handoff.mmap_addr, handoff.mmap_size as usize);
    let mut ranges: Vec<(u64, u64, u32)> = raw
        .chunks_exact(EFI_MEMORY_DESCRIPTOR_SIZE as usize)
        .map(|d| {
            let start = le64(&d[8..16]);
            (start, start + le64(&d[24..32]) * PAGE_SIZE, le32(&d[0..4]))
        })
        .collect();
    assert!(!ranges.is_empty());
    ranges.sort_by_key(|r| r.0);

    // A hole or an overlap both make the kernel reject the map, and the
    // stub tree has no /memory node to fall back on.
    for pair in ranges.windows(2) {
        assert_eq!(pair[0].1, pair[1].0, "gap or overlap in the memory map");
    }
    assert_eq!(ranges[0].0, layout.fdt_start);
    assert_eq!(ranges.last().unwrap().1, mem.last_addr().raw_value() + 1);

    // Everything firmware owns has to be typed as such; handing the ACPI
    // tables or the EFI structures back as conventional memory would let
    // the guest allocate over them.
    let firmware_end = layout.smbios_start + layout.smbios_max_size;
    for (start, end, typ) in &ranges {
        if *start < firmware_end {
            assert_ne!(*typ, EFI_CONVENTIONAL_MEMORY, "{start:#x}..{end:#x}");
        } else {
            assert_eq!(*typ, EFI_CONVENTIONAL_MEMORY, "{start:#x}..{end:#x}");
        }
    }
    // The EFI structures outlive boot services: the kernel keeps appending
    // to the memreserve table after they end.
    let efi_region = ranges
        .iter()
        .find(|(s, _, _)| *s == layout.efi_start)
        .expect("EFI region missing from the map");
    assert_eq!(efi_region.2, EFI_RUNTIME_SERVICES_DATA);
    // So does SMBIOS: a boot-services range would be given back as System RAM
    // before DMI is scanned.
    let smbios_region = ranges
        .iter()
        .find(|(s, _, _)| *s == layout.smbios_start)
        .expect("SMBIOS region missing from the map");
    assert_eq!(smbios_region.2, EFI_RUNTIME_SERVICES_DATA);
}

#[test]
fn metadata_stays_below_the_acpi_region() {
    let mut mem = test_mem();
    let handoff = write_efi_tables(&mut mem, RSDP_POINTER, &layout()).unwrap();
    let acpi_base = layout().acpi_start;
    assert!(handoff.systab_addr < acpi_base);
    assert!(handoff.mmap_addr + u64::from(handoff.mmap_size) < acpi_base);
}

#[test]
fn handoff_points_at_the_structures() {
    let mut mem = test_mem();
    let handoff = write_efi_tables(&mut mem, RSDP_POINTER, &layout()).unwrap();
    assert_eq!(handoff.systab_addr, 0x401f_1000);
    assert_eq!(handoff.mmap_addr, 0x401f_0000);
    assert_eq!(handoff.mmap_size, 200);
    assert_eq!(handoff.mmap_desc_size, 40);
    assert_eq!(handoff.mmap_desc_ver, 1);
    for (addr, bytes) in build_tables(&layout(), RSDP_POINTER) {
        assert_eq!(read(&mem, addr, bytes.len()), bytes);
    }
    let map = memory_map(&layout(), &vec![(RAM_START, 0x50_0000)]);
    assert_eq!(read(&mem, 0x401f_0000, map.len()), map);
}

#[test]
fn other_memory_is_untouched() {
    let mut mem = test_mem();
    let len = 0x50_0000;
    mem.write_slice(&vec![0xa5u8; len], GuestAddress(RAM_START)).unwrap();
    write_efi_tables(&mut mem, RSDP_POINTER, &layout()).unwrap();
    let all = read(&mem, RAM_START, len);
    let from = 0x1f_0000usize;
    let to = 0x1f_3000usize;
    assert!(all[..from].iter().all(|b| *b == 0xa5));
    assert!(all[to..].iter().all(|b| *b == 0xa5));
    // Between the memory map and the system table nothing is written either.
    assert!(all[from + 200..from + 0x1000].iter().all(|b| *b == 0xa5));
    assert_eq!(all[from + 0x1000], b'I');
}

#[test]
fn structures_may_span_adjoining_regions() {
    let mut mem = ram(&[(RAM_START, 0x1f_1010), (RAM_START + 0x1f_1010, 0x30_eff0)]);
    let handoff = write_efi_tables(&mut mem, RSDP_POINTER, &layout()).unwrap();
    let systab = read(&mem, handoff.systab_addr, EFI_SYSTEM_TABLE_SIZE as usize);
    assert_eq!(le64(&systab[0x00..0x08]), EFI_SYSTEM_TABLE_SIGNATURE);
    assert_eq!(le64(&systab[0x70..0x78]), 0x401f_1078);
}

#[test]
fn too_little_space_is_refused_before_writing() {
    let mut tight = layout();
    tight.acpi_start = 0x401f_2fff;
    let mut mem = test_mem();
    match write_efi_tables(&mut mem, RSDP_POINTER, &tight) {
        Err(Error::MetadataOverflow(end, limit)) => {
            assert_eq!(end, 0x401f_3000);
            assert_eq!(limit, 0x401f_2fff);
        }
        other => panic!("{other:?}"),
    }
    assert!(read(&mem, 0x401f_0000, 0x3000).iter().all(|b| *b == 0));
    // Ending exactly at the ACPI tables is fine.
    tight.acpi_start = 0x401f_3000;
    assert!(write_efi_tables(&mut mem, RSDP_POINTER, &tight).is_ok());
}

fn scattered_ram(count: u64) -> GuestMemoryMmap {
    let mut ranges = vec![(RAM_START, 0x50_0000usize)];
    for i in 1..count {
        ranges.push((0x1_0000_0000 + i * 0x2000, 0x1000));
    }
    ram(&ranges)
}

#[test]
fn memory_map_fills_its_page() {
    let mut mem = scattered_ram(98);
    let handoff = write_efi_tables(&mut mem, RSDP_POINTER, &layout()).unwrap();
    assert_eq!(handoff.mmap_size, 4080);
}

#[test]
fn oversized_memory_map_is_not_written() {
    let mut mem = scattered_ram(99);
    match write_efi_tables(&mut mem, RSDP_POINTER, &layout()) {
        Err(Error::MemoryMapOverflow(size, limit)) => {
            assert_eq!(size, 4120);
            assert_eq!(limit, 0x1000);
        }
        other => panic!("{other:?}"),
    }
    assert!(read(&mem, 0x401f_0000, 0x1000).iter().all(|b| *b == 0));
    // The tables are already in place.
    assert_eq!(read(&mem, 0x401f_1000, 8), b"IBI SYST");
}

#[test]
fn unmapped_structures_are_an_error() {
    let mut mem = ram(&[(0x8000_0000, 0x1000)]);
    match write_efi_tables(&mut mem, RSDP_POINTER, &layout()) {
        // The runtime properties are written first.
        Err(Error::WriteEfiTables(GuestMemoryError::InvalidGuestAddress(addr))) => {
            assert_eq!(addr, GuestAddress(0x401f_1100));
        }
        other => panic!("{other:?}"),
    }
}

#[test]
fn a_write_stops_at_the_first_hole() {
    // RAM ends in the middle of the runtime properties.
    let mut mem = ram(&[(RAM_START, 0x1f_1104)]);
    match write_efi_tables(&mut mem, RSDP_POINTER, &layout()) {
        Err(Error::WriteEfiTables(GuestMemoryError::PartialBuffer {
            expected,
            completed,
        })) => {
            assert_eq!(expected, 8);
            assert_eq!(completed, 4);
        }
        other => panic!("{other:?}"),
    }
    assert_eq!(read(&mem, 0x401f_1100, 4), vec![1, 0, 8, 0]);
    // Nothing after it was written.
    assert!(read(&mem, 0x401f_0000, 0x1100).iter().all(|b| *b == 0));
}

#[test]
fn unmapped_memory_map_is_an_error_after_the_tables() {
    let mut mem = ram(&[(0x401f_1000, 0x2000)]);
    match write_efi_tables(&mut mem, RSDP_POINTER, &layout()) {
        Err(Error::WriteEfiTables(GuestMemoryError::InvalidGuestAddress(addr))) => {
            assert_eq!(addr, GuestAddress(0x401f_0000));
        }
        other => panic!("{other:?}"),
    }
    assert_eq!(read(&mem, 0x401f_1000, 8), b"IBI SYST");
}

#[test]
fn writes_happen_in_order_until_one_fails() {
    let mut mem = ram(&[(0x1000, 0x1000)]);
    let writes = vec![
        (0x1000u64, vec![1u8, 2, 3]),
        (0x1001, vec![9]),
        // Nothing to write always succeeds.
        (0x9000, vec![]),
        (0x1ffe, vec![4, 5, 6]),
        (0x1100, vec![7]),
    ];
    assert!(write_all(&mut mem, &writes).is_err());
    assert_eq!(read(&mem, 0x1000, 3), vec![1, 9, 3]);
    assert_eq!(read(&mem, 0x1ffe, 2), vec![4, 5]);
    assert_eq!(read(&mem, 0x1100, 1), vec![0]);
    assert!(write_all(&mut mem, &vec![]).is_ok());
}

#[test]
fn anonymous_ram_is_zero_and_where_it_was_asked_for() {
    let mem = anonymous_ram(&vec![(0x1000, 0x1000), (0x2000, 0x800), (0x8000, 0x10)]).unwrap();
    let regions: Vec<(u64, u64)> = mem
        .iter()
        .map(|region| (region.start_addr().raw_value(), region.len()))
        .collect();
    assert_eq!(regions, vec![(0x1000, 0x1000), (0x2000, 0x800), (0x8000, 0x10)]);
    assert!(read(&mem, 0x1000, 0x1800).iter().all(|b| *b == 0));
    assert!(read(&mem, 0x8000, 0x10).iter().all(|b| *b == 0));
}

#[test]
fn anonymous_ram_refuses_ranges_out_of_order() {
    assert!(anonymous_ram(&vec![]).is_none());
    // Descending.
    assert!(anonymous_ram(&vec![(0x8000, 0x1000), (0x1000, 0x1000)]).is_none());
    // Overlapping.
    assert!(anonymous_ram(&vec![(0x1000, 0x1001), (0x2000, 0x1000)]).is_none());
    // Past the end of the address space.
    assert!(anonymous_ram(&vec![(0xffff_ffff_ffff_f000, 0x1001)]).is_none());
    // Empty.
    assert!(anonymous_ram(&vec![(0x1000, 0)]).is_none());
}

#[test]
fn new_ram_holds_the_structures() {
    let ranges = vec![(RAM_START, 0x50_0000usize)];
    let (mem, outcome) = write_efi_tables_to_new_ram(&ranges, RSDP_POINTER, &layout()).unwrap();
    let handoff = outcome.unwrap();
    assert_eq!(handoff.systab_addr, 0x401f_1000);
    for (addr, bytes) in build_tables(&layout(), RSDP_POINTER) {
        assert_eq!(read(&mem, addr, bytes.len()), bytes);
    }
    assert!(read(&mem, RAM_START, 0x1f_0000).iter().all(|b| *b == 0));
    // Refused structures leave the new RAM empty.
    let mut tight = layout();
    tight.acpi_start = tight.efi_start;
    let (mem, outcome) = write_efi_tables_to_new_ram(&ranges, RSDP_POINTER, &tight).unwrap();
    assert!(matches!(outcome, Err(Error::MetadataOverflow(0x401f_3000, 0x401f_0000))));
    assert!(read(&mem, RAM_START, 0x50_0000).iter().all(|b| *b == 0));
    assert!(write_efi_tables_to_new_ram(&vec![], RSDP_POINTER, &layout()).is_none());
}
