use efi_handoff::align::align_up;
use efi_handoff::crc::crc32;
use efi_handoff::layout::{fw_vendor, plan_metadata, Layout};
use efi_handoff::memory_map::{memory_descriptor, memory_map, subtract_reserved};
use efi_handoff::tables::{
    config_table, memreserve, rt_properties, system_table, ACPI_20_TABLE_GUID, SMBIOS3_TABLE_GUID,
};
use efi_handoff::utf16::encode_utf16le;

fn layout() -> Layout {
    Layout {
        fdt_start: 0x4000_0000,
        efi_start: 0x401f_0000,
        efi_max_size: 0x1_0000,
        acpi_start: 0x4020_0000,
        acpi_max_size: 0x1f_0000,
        smbios_start: 0x403f_0000,
        smbios_max_size: 0x1_0000,
    }
}

fn le64(bytes: &[u8]) -> u64 {
    u64::from_le_bytes(bytes.try_into().unwrap())
}

fn le32(bytes: &[u8]) -> u32 {
    u32::from_le_bytes(bytes.try_into().unwrap())
}

#[test]
fn crc32_matches_known_vector() {
    assert_eq!(crc32(b"123456789"), 0xcbf4_3926);
}

#[test]
fn crc32_of_short_messages() {
    assert_eq!(crc32(b""), 0);
    assert_eq!(crc32(b"a"), 0xe8b7_be43);
    assert_eq!(crc32(&[0u8; 4]), 0x2144_df1c);
}

#[test]
fn reserved_span_is_punched_out_of_ram() {
    // A region containing the whole reserved span splits in two.
    assert_eq!(
        subtract_reserved(0x4000_0000, 0x8000_0000, 0x4000_0000, 0x4040_0000),
        vec![(0x4040_0000, 0x8000_0000)]
    );
    // A region entirely above it is untouched.
    assert_eq!(
        subtract_reserved(0x1_0000_0000, 0x2_0000_0000, 0x4000_0000, 0x4040_0000),
        vec![(0x1_0000_0000, 0x2_0000_0000)]
    );
    // A region straddling the tail keeps only what is above.
    assert_eq!(
        subtract_reserved(0x4030_0000, 0x5000_0000, 0x4000_0000, 0x4040_0000),
        vec![(0x4040_0000, 0x5000_0000)]
    );
}

#[test]
fn reserved_span_edges() {
    // Both sides remain, in ascending order.
    assert_eq!(subtract_reserved(0, 100, 40, 60), vec![(0, 40), (60, 100)]);
    // A region straddling the head keeps only what is below.
    assert_eq!(subtract_reserved(0, 50, 40, 60), vec![(0, 40)]);
    // Nothing is left of a region inside the span.
    assert_eq!(subtract_reserved(40, 60, 40, 60), vec![]);
    assert_eq!(subtract_reserved(45, 55, 40, 60), vec![]);
    // Touching the span is not meeting it.
    assert_eq!(subtract_reserved(0, 40, 40, 60), vec![(0, 40)]);
    assert_eq!(subtract_reserved(60, 80, 40, 60), vec![(60, 80)]);
    // An empty region stays as it is.
    assert_eq!(subtract_reserved(7, 7, 40, 60), vec![(7, 7)]);
}

#[test]
fn align_up_rounds_to_the_next_boundary() {
    assert_eq!(align_up(0, 8), 0);
    assert_eq!(align_up(1, 8), 8);
    assert_eq!(align_up(8, 8), 8);
    assert_eq!(align_up(0x1108, 0x1000), 0x2000);
    assert_eq!(align_up(5, 1), 5);
    // Only powers of two give multiples.
    assert_eq!(align_up(7, 6), 8);
}

#[test]
fn utf16le_of_plain_and_supplementary_text() {
    assert_eq!(encode_utf16le("A\0"), vec![0x41, 0x00, 0x00, 0x00]);
    assert_eq!(encode_utf16le("\u{20ac}"), vec![0xac, 0x20]);
    assert_eq!(encode_utf16le("\u{10437}"), vec![0x01, 0xd8, 0x37, 0xdc]);
    let text = "h\u{e9}llo \u{1f600} w\u{ffff}\u{10ffff}";
    let units: Vec<u16> = text.encode_utf16().collect();
    let bytes: Vec<u8> = units.iter().flat_map(|u| u.to_le_bytes()).collect();
    assert_eq!(encode_utf16le(text), bytes);
}

#[test]
fn vendor_name_is_nul_terminated() {
    let name = fw_vendor();
    assert_eq!(name.len(), 34);
    assert_eq!(&name[0..4], &[b'C', 0, b'l', 0]);
    assert_eq!(&name[32..34], &[0, 0]);
}

#[test]
fn metadata_follows_the_page_of_the_memory_map() {
    let plan = plan_metadata(0x401f_0000);
    assert_eq!(plan.systab_addr, 0x401f_1000);
    assert_eq!(plan.config_table_addr, 0x401f_1078);
    assert_eq!(plan.fw_vendor_addr, 0x401f_10d8);
    assert_eq!(plan.rt_props_addr, 0x401f_1100);
    assert_eq!(plan.memreserve_addr, 0x401f_2000);
    assert_eq!(plan.end, 0x401f_3000);
}

#[test]
fn layout_validity() {
    assert!(layout().is_valid());
    let mut bad = layout();
    bad.efi_start = bad.fdt_start - 1;
    assert!(!bad.is_valid());
    bad = layout();
    bad.smbios_start = u64::MAX;
    assert!(!bad.is_valid());
    bad = layout();
    bad.efi_start = u64::MAX;
    assert!(!bad.is_valid());
    // The structures end at the last page boundary of the address space, or just past it.
    bad = layout();
    bad.efi_start = 0xffff_ffff_ffff_c000;
    assert!(bad.is_valid());
    bad.efi_start = 0xffff_ffff_ffff_d000;
    assert!(!bad.is_valid());
}

#[test]
fn descriptor_fields() {
    let d = memory_descriptor(7, 0x1122_3344_5566_7788, 0x99aa);
    assert_eq!(le32(&d[0..4]), 7);
    assert_eq!(le32(&d[4..8]), 0);
    assert_eq!(&d[8..16], &[0x88, 0x77, 0x66, 0x55, 0x44, 0x33, 0x22, 0x11]);
    assert_eq!(le64(&d[16..24]), 0);
    assert_eq!(le64(&d[24..32]), 0x99aa);
    assert_eq!(le64(&d[32..40]), 8);
}

#[test]
fn memory_map_of_two_regions() {
    let map = memory_map(&layout(), &vec![(0x4000_0000, 0x50_0000), (0x1_0000_0000, 0x1800)]);
    let entries: Vec<(u32, u64, u64)> = map
        .chunks_exact(40)
        .map(|d| (le32(&d[0..4]), le64(&d[8..16]), le64(&d[24..32])))
        .collect();
    assert_eq!(map.len(), 240);
    assert_eq!(
        entries,
        vec![
            (4, 0x4000_0000, 0x1f0),
            (6, 0x401f_0000, 0x10),
            (9, 0x4020_0000, 0x1f0),
            (6, 0x403f_0000, 0x10),
            (7, 0x4040_0000, 0x100),
            // The half page at the end has no entry.
            (7, 0x1_0000_0000, 1),
        ]
    );
}

#[test]
fn runtime_properties_and_reservations() {
    assert_eq!(rt_properties(), [1, 0, 8, 0, 0, 0, 0, 0]);
    let mut expected = [0u8; 16];
    expected[0] = 255;
    assert_eq!(memreserve(), expected);
}

#[test]
fn configuration_entries_in_order() {
    let table = config_table(1, 2, 3, 4);
    assert_eq!(&table[0..16], &ACPI_20_TABLE_GUID);
    assert_eq!(&table[48..64], &SMBIOS3_TABLE_GUID);
    assert_eq!(le64(&table[16..24]), 1);
    assert_eq!(le64(&table[40..48]), 2);
    assert_eq!(le64(&table[64..72]), 3);
    assert_eq!(le64(&table[88..96]), 4);
}

#[test]
fn system_table_fields() {
    let table = system_table(0x1234, 0x5678);
    assert_eq!(&table[0..8], b"IBI SYST");
    assert_eq!(le32(&table[0x08..0x0c]), (2 << 16) | 70);
    assert_eq!(le32(&table[0x0c..0x10]), 0x78);
    assert_eq!(le32(&table[0x14..0x18]), 0);
    assert_eq!(le64(&table[0x18..0x20]), 0x1234);
    assert_eq!(le32(&table[0x20..0x24]), 1);
    assert!(table[0x24..0x68].iter().all(|b| *b == 0));
    assert_eq!(le64(&table[0x68..0x70]), 4);
    assert_eq!(le64(&table[0x70..0x78]), 0x5678);
    let mut zeroed = table;
    zeroed[0x10..0x14].fill(0);
    assert_eq!(le32(&table[0x10..0x14]), crc32(&zeroed));
}
