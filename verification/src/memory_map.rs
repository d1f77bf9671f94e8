//! The EFI memory map: which guest RAM is free and which the firmware structures occupy.

use crate::bytes::{
    field, le_bytes, lemma_le_bytes_len, lemma_words_read_back, lemma_zero_bytes, put_le,
};
use crate::layout::{Layout, PAGE_SIZE};
use crate::memory::{mapped, spans_in_order};
use vstd::prelude::*;

verus! {

pub const EFI_MEMORY_DESCRIPTOR_VERSION: u32 = 1;

pub const EFI_MEMORY_DESCRIPTOR_SIZE: u64 = 40;

/// The memory attribute of a range that supports write-back caching.
pub const EFI_MEMORY_WB: u64 = 0x8;

pub const EFI_BOOT_SERVICES_DATA: u32 = 4;

pub const EFI_RUNTIME_SERVICES_DATA: u32 = 6;

pub const EFI_CONVENTIONAL_MEMORY: u32 = 7;

pub const EFI_ACPI_RECLAIM_MEMORY: u32 = 9;

/// What one descriptor of the map says: `pages` pages of type `typ` from `start` on.
pub struct MapEntry {
    pub typ: u32,
    pub start: u64,
    pub pages: u64,
}

impl MapEntry {
    /// Whether `addr` lies in the described range.
    pub open spec fn covers(self, addr: int) -> bool {
        self.start <= addr < self.start + self.pages * PAGE_SIZE
    }
}

/// The bytes of a descriptor: type, padding, physical start, virtual start, number of pages,
/// attributes.
pub open spec fn descriptor_bytes(entry: MapEntry) -> Seq<u8> {
    le_bytes(entry.typ as nat, 4) + le_bytes(0, 4) + le_bytes(entry.start as nat, 8) + le_bytes(
        0,
        8,
    ) + le_bytes(entry.pages as nat, 8) + le_bytes(EFI_MEMORY_WB as nat, 8)
}

/// The descriptors one after another.
pub open spec fn map_bytes(entries: Seq<MapEntry>) -> Seq<u8>
    decreases entries.len(),
{
    if entries.len() == 0 {
        Seq::empty()
    } else {
        map_bytes(entries.drop_last()) + descriptor_bytes(entries.last())
    }
}

/// The range from `from` to `to` as an entry. Only whole pages count.
pub open spec fn range_entry(typ: u32, from: u64, to: u64) -> MapEntry {
    MapEntry { typ, start: from, pages: ((to - from) / PAGE_SIZE as int) as u64 }
}

/// What is left of the range from `start` to `end` without the reserved span: the part below it
/// and the part above it, as far as they are not empty. A range that does not meet the span is
/// left as it is.
pub open spec fn free_ranges(start: u64, end: u64, reserved_start: u64, reserved_end: u64) -> Seq<
    (u64, u64),
> {
    if end <= reserved_start || start >= reserved_end {
        seq![(start, end)]
    } else {
        let below = if start < reserved_start {
            seq![(start, reserved_start)]
        } else {
            Seq::empty()
        };
        let above = if end > reserved_end {
            seq![(reserved_end, end)]
        } else {
            Seq::empty()
        };
        below + above
    }
}

/// The entries for free ranges.
pub open spec fn free_entries(ranges: Seq<(u64, u64)>) -> Seq<MapEntry> {
    Seq::new(ranges.len(), |i: int| range_entry(EFI_CONVENTIONAL_MEMORY, ranges[i].0, ranges[i].1))
}

/// The free ranges of one region of RAM.
pub open spec fn region_ranges(layout: Layout, span: (u64, u64)) -> Seq<(u64, u64)> {
    free_ranges(
        span.0,
        (span.0 + span.1) as u64,
        layout.fdt_start,
        layout.reserved_end() as u64,
    )
}

/// The entries for the RAM that the firmware structures leave free, region by region.
pub open spec fn ram_entries(layout: Layout, spans: Seq<(u64, u64)>) -> Seq<MapEntry>
    decreases spans.len(),
{
    if spans.len() == 0 {
        Seq::empty()
    } else {
        ram_entries(layout, spans.drop_last()) + free_entries(region_ranges(layout, spans.last()))
    }
}

/// The entries for the firmware structures. The kernel may reclaim the device tree blob once it is
/// unflattened. The EFI structures and the SMBIOS tables are in use after boot services end.
pub open spec fn firmware_entries(layout: Layout) -> Seq<MapEntry> {
    seq![
        range_entry(EFI_BOOT_SERVICES_DATA, layout.fdt_start, layout.efi_start),
        MapEntry {
            typ: EFI_RUNTIME_SERVICES_DATA,
            start: layout.efi_start,
            pages: layout.efi_max_size / PAGE_SIZE,
        },
        MapEntry {
            typ: EFI_ACPI_RECLAIM_MEMORY,
            start: layout.acpi_start,
            pages: layout.acpi_max_size / PAGE_SIZE,
        },
        MapEntry {
            typ: EFI_RUNTIME_SERVICES_DATA,
            start: layout.smbios_start,
            pages: layout.smbios_max_size / PAGE_SIZE,
        },
    ]
}

/// The whole map.
pub open spec fn map_entries(layout: Layout, spans: Seq<(u64, u64)>) -> Seq<MapEntry> {
    firmware_entries(layout) + ram_entries(layout, spans)
}

/// One descriptor of the memory map, for write-back cached memory.
pub fn memory_descriptor(typ: u32, physical_start: u64, pages: u64) -> (out: [u8; 40])
    ensures
        out@ == descriptor_bytes((MapEntry { typ, start: physical_start, pages })),
{
    let mut out: [u8; 40] = [0u8; 40];
    put_le(&mut out, 0, typ as u64, 4);
    put_le(&mut out, 8, physical_start, 8);
    put_le(&mut out, 24, pages, 8);
    put_le(&mut out, 32, EFI_MEMORY_WB, 8);
    proof {
        let entry = MapEntry { typ, start: physical_start, pages };
        lemma_descriptor_len(entry);
        lemma_le_bytes_len(typ as nat, 4);
        lemma_le_bytes_len(physical_start as nat, 8);
        lemma_le_bytes_len(pages as nat, 8);
        lemma_le_bytes_len(EFI_MEMORY_WB as nat, 8);
        lemma_zero_bytes(4);
        lemma_zero_bytes(8);
        assert(out@ =~= descriptor_bytes(entry));
    }
    out
}

proof fn lemma_descriptor_len(entry: MapEntry)
    ensures
        descriptor_bytes(entry).len() == EFI_MEMORY_DESCRIPTOR_SIZE,
{
    lemma_le_bytes_len(entry.typ as nat, 4);
    lemma_le_bytes_len(0, 4);
    lemma_le_bytes_len(entry.start as nat, 8);
    lemma_le_bytes_len(0, 8);
    lemma_le_bytes_len(entry.pages as nat, 8);
    lemma_le_bytes_len(EFI_MEMORY_WB as nat, 8);
}

/// Takes the reserved span out of the range from `start` to `end`.
pub fn subtract_reserved(start: u64, end: u64, reserved_start: u64, reserved_end: u64) -> (out: Vec<
    (u64, u64),
>)
    ensures
        out@ == free_ranges(start, end, reserved_start, reserved_end),
{
    let mut out: Vec<(u64, u64)> = Vec::new();
    if end <= reserved_start || start >= reserved_end {
        out.push((start, end));
        return out;
    }
    if start < reserved_start {
        out.push((start, reserved_start));
    }
    if end > reserved_end {
        out.push((reserved_end, end));
    }
    out
}

fn push_entry(map: &mut Vec<u8>, entries: Ghost<Seq<MapEntry>>, typ: u32, start: u64, pages: u64)
    requires
        old(map)@ == map_bytes(entries@),
    ensures
        final(map)@ == map_bytes(entries@.push(MapEntry { typ, start, pages })),
{
    let descriptor = memory_descriptor(typ, start, pages);
    map.extend_from_slice(&descriptor);
    proof {
        let entry = MapEntry { typ, start, pages };
        assert(entries@.push(entry).drop_last() =~= entries@);
        assert(map@ =~= map_bytes(entries@) + descriptor@);
    }
}

/// Builds the memory map of a guest whose RAM is `regions`, given by start address and length.
pub fn memory_map(layout: &Layout, regions: &Vec<(u64, u64)>) -> (map: Vec<u8>)
    requires
        layout.wf(),
        forall|r: int|
            0 <= r < regions@.len() ==> (#[trigger] regions@[r]).0 + regions@[r].1 <= u64::MAX,
    ensures
        map@ == map_bytes(map_entries(*layout, regions@)),
{
    let reserved_start: u64 = layout.fdt_start;
    let reserved_end: u64 = layout.smbios_start + layout.smbios_max_size;
    let mut map: Vec<u8> = Vec::new();
    let ghost mut entries: Seq<MapEntry> = Seq::empty();
    push_entry(
        &mut map,
        Ghost(entries),
        EFI_BOOT_SERVICES_DATA,
        layout.fdt_start,
        (layout.efi_start - layout.fdt_start) / PAGE_SIZE,
    );
    proof {
        entries = entries.push(firmware_entries(*layout)[0]);
    }
    push_entry(
        &mut map,
        Ghost(entries),
        EFI_RUNTIME_SERVICES_DATA,
        layout.efi_start,
        layout.efi_max_size / PAGE_SIZE,
    );
    proof {
        entries = entries.push(firmware_entries(*layout)[1]);
    }
    push_entry(
        &mut map,
        Ghost(entries),
        EFI_ACPI_RECLAIM_MEMORY,
        layout.acpi_start,
        layout.acpi_max_size / PAGE_SIZE,
    );
    proof {
        entries = entries.push(firmware_entries(*layout)[2]);
    }
    push_entry(
        &mut map,
        Ghost(entries),
        EFI_RUNTIME_SERVICES_DATA,
        layout.smbios_start,
        layout.smbios_max_size / PAGE_SIZE,
    );
    proof {
        entries = entries.push(firmware_entries(*layout)[3]);
        assert(regions@.take(0) =~= Seq::empty());
        assert(entries =~= map_entries(*layout, regions@.take(0)));
    }
    let mut r: usize = 0;
    while r < regions.len()
        invariant
            r <= regions@.len(),
            layout.wf(),
            reserved_start == layout.fdt_start,
            reserved_end == layout.reserved_end(),
            forall|r: int|
                0 <= r < regions@.len() ==> (#[trigger] regions@[r]).0 + regions@[r].1
                    <= u64::MAX,
            entries == map_entries(*layout, regions@.take(r as int)),
            map@ == map_bytes(entries),
        decreases regions@.len() - r,
    {
        let (start, len) = regions[r];
        let free = subtract_reserved(start, start + len, reserved_start, reserved_end);
        let ghost before = entries;
        let mut i: usize = 0;
        proof {
            assert(entries =~= before + free_entries(free@).take(0));
        }
        while i < free.len()
            invariant
                i <= free@.len(),
                free@ == free_ranges(start, (start + len) as u64, reserved_start, reserved_end),
                start + len <= u64::MAX,
                entries == before + free_entries(free@).take(i as int),
                map@ == map_bytes(entries),
            decreases free@.len() - i,
        {
            let (from, to) = free[i];
            push_entry(
                &mut map,
                Ghost(entries),
                EFI_CONVENTIONAL_MEMORY,
                from,
                (to - from) / PAGE_SIZE,
            );
            proof {
                let entry = range_entry(EFI_CONVENTIONAL_MEMORY, from, to);
                entries = entries.push(entry);
                assert(free_entries(free@)[i as int] == entry);
                assert(entries =~= before + free_entries(free@).take(i + 1));
            }
            i = i + 1;
        }
        proof {
            assert(free_entries(free@).take(free@.len() as int) =~= free_entries(free@));
            assert(regions@.take(r + 1).drop_last() =~= regions@.take(r as int));
            assert(entries =~= map_entries(*layout, regions@.take(r + 1)));
        }
        r = r + 1;
    }
    assert(regions@.take(r as int) =~= regions@);
    map
}

/// A descriptor says what it was made of.
pub proof fn law_descriptor_reads_back(entry: MapEntry)
    ensures
        descriptor_bytes(entry).len() == EFI_MEMORY_DESCRIPTOR_SIZE,
        field(descriptor_bytes(entry), 0, 4) == entry.typ,
        field(descriptor_bytes(entry), 8, 8) == entry.start,
        field(descriptor_bytes(entry), 24, 8) == entry.pages,
        field(descriptor_bytes(entry), 32, 8) == EFI_MEMORY_WB,
{
    lemma_words_read_back();
    lemma_le_bytes_len(entry.typ as nat, 4);
    lemma_le_bytes_len(0, 4);
    lemma_le_bytes_len(entry.start as nat, 8);
    lemma_le_bytes_len(0, 8);
    lemma_le_bytes_len(entry.pages as nat, 8);
    lemma_le_bytes_len(EFI_MEMORY_WB as nat, 8);
    let bytes = descriptor_bytes(entry);
    assert(bytes.subrange(0, 4) =~= le_bytes(entry.typ as nat, 4));
    assert(bytes.subrange(8, 16) =~= le_bytes(entry.start as nat, 8));
    assert(bytes.subrange(24, 32) =~= le_bytes(entry.pages as nat, 8));
    assert(bytes.subrange(32, 40) =~= le_bytes(EFI_MEMORY_WB as nat, 8));
}

/// The map is an array of descriptors: the one at index `i` is found at `i` times the descriptor
/// size.
pub proof fn law_map_is_an_array(entries: Seq<MapEntry>)
    ensures
        map_bytes(entries).len() == EFI_MEMORY_DESCRIPTOR_SIZE * entries.len(),
        forall|i: int|
            0 <= i < entries.len() ==> map_bytes(entries).subrange(
                EFI_MEMORY_DESCRIPTOR_SIZE * i,
                EFI_MEMORY_DESCRIPTOR_SIZE * i + EFI_MEMORY_DESCRIPTOR_SIZE,
            ) == descriptor_bytes(#[trigger] entries[i]),
    decreases entries.len(),
{
    if entries.len() > 0 {
        let shorter = entries.drop_last();
        law_map_is_an_array(shorter);
        lemma_descriptor_len(entries.last());
        assert forall|i: int| 0 <= i < entries.len() implies map_bytes(entries).subrange(
            EFI_MEMORY_DESCRIPTOR_SIZE * i,
            EFI_MEMORY_DESCRIPTOR_SIZE * i + EFI_MEMORY_DESCRIPTOR_SIZE,
        ) == descriptor_bytes(#[trigger] entries[i]) by {
            let from = EFI_MEMORY_DESCRIPTOR_SIZE * i;
            let to = from + EFI_MEMORY_DESCRIPTOR_SIZE;
            if i < shorter.len() {
                assert(shorter[i] == entries[i]);
                assert(map_bytes(entries).subrange(from, to) =~= map_bytes(shorter).subrange(
                    from,
                    to,
                ));
            } else {
                assert(map_bytes(entries).subrange(from, to) =~= descriptor_bytes(entries[i]));
            }
        }
    }
}

/// Taking a span out of a range leaves exactly the addresses of the range outside the span.
pub proof fn law_reserved_span_is_punched_out(
    start: u64,
    end: u64,
    reserved_start: u64,
    reserved_end: u64,
    addr: int,
)
    ensures
        in_ranges(free_ranges(start, end, reserved_start, reserved_end), addr) <==> start
            <= addr < end && !(reserved_start <= addr < reserved_end),
{
    let ranges = free_ranges(start, end, reserved_start, reserved_end);
    if start <= addr < end && !(reserved_start <= addr < reserved_end) {
        if end <= reserved_start || start >= reserved_end {
            assert(ranges[0].0 <= addr < ranges[0].1);
        } else if addr < reserved_start {
            assert(ranges[0].0 <= addr < ranges[0].1);
        } else {
            let last = ranges.len() - 1;
            assert(ranges[last].0 <= addr < ranges[last].1);
        }
    }
}

/// Whether one of the ranges, each from its first address to before its second, contains `addr`.
pub open spec fn in_ranges(ranges: Seq<(u64, u64)>, addr: int) -> bool {
    exists|i: int| 0 <= i < ranges.len() && (#[trigger] ranges[i]).0 <= addr < ranges[i].1
}

/// What is left of a range comes in ascending order and without overlap, and no part of it is
/// empty unless the range was.
pub proof fn law_free_ranges_are_in_order(
    start: u64,
    end: u64,
    reserved_start: u64,
    reserved_end: u64,
)
    requires
        start <= end,
        reserved_start <= reserved_end,
    ensures
        ({
            let ranges = free_ranges(start, end, reserved_start, reserved_end);
            &&& forall|i: int| #![trigger ranges[i]]
                0 <= i < ranges.len() ==> {
                    &&& start <= ranges[i].0 <= ranges[i].1 <= end
                    &&& start < end ==> ranges[i].0 < ranges[i].1
                }
            &&& forall|i: int, j: int|
                0 <= i < j < ranges.len() ==> (#[trigger] ranges[i]).1 <= (#[trigger] ranges[j]).0
        }),
{
}

/// What an entry for a range covers lies in the range, and is all of it if it has whole pages.
proof fn lemma_range_entry(typ: u32, from: u64, to: u64)
    requires
        from <= to,
    ensures
        from + range_entry(typ, from, to).pages * PAGE_SIZE <= to,
        (to - from) % (PAGE_SIZE as int) == 0 ==> from + range_entry(typ, from, to).pages
            * PAGE_SIZE == to,
{
}

/// Every entry for free RAM is conventional memory inside RAM and outside the carve-out.
proof fn lemma_ram_entries_are_free(layout: Layout, spans: Seq<(u64, u64)>)
    requires
        layout.wf(),
        forall|r: int|
            0 <= r < spans.len() ==> (#[trigger] spans[r]).0 + spans[r].1 <= u64::MAX,
    ensures
        forall|k: int|
            0 <= k < ram_entries(layout, spans).len() ==> (#[trigger] ram_entries(
                layout,
                spans,
            )[k]).typ == EFI_CONVENTIONAL_MEMORY,
        forall|k: int, addr: int|
            0 <= k < ram_entries(layout, spans).len() && #[trigger] ram_entries(
                layout,
                spans,
            )[k].covers(addr) ==> mapped(spans, addr) && !(layout.fdt_start <= addr
                < layout.reserved_end()),
    decreases spans.len(),
{
    if spans.len() > 0 {
        let shorter = spans.drop_last();
        let last = spans.last();
        lemma_ram_entries_are_free(layout, shorter);
        let ranges = region_ranges(layout, last);
        let before = ram_entries(layout, shorter);
        let all = ram_entries(layout, spans);
        assert forall|k: int, addr: int|
            0 <= k < all.len() && #[trigger] all[k].covers(addr) implies mapped(spans, addr) && !(
        layout.fdt_start <= addr < layout.reserved_end()) by {
            if k < before.len() {
                assert(before[k].covers(addr));
                let r = choose|r: int|
                    0 <= r < shorter.len() && #[trigger] shorter[r].0 <= addr < shorter[r].0
                        + shorter[r].1;
                assert(spans[r].0 <= addr < spans[r].0 + spans[r].1);
            } else {
                let i = k - before.len();
                assert(all[k] == free_entries(ranges)[i]);
                lemma_range_entry(EFI_CONVENTIONAL_MEMORY, ranges[i].0, ranges[i].1);
                assert(ranges[i].0 <= addr < ranges[i].1);
                law_reserved_span_is_punched_out(
                    last.0,
                    (last.0 + last.1) as u64,
                    layout.fdt_start,
                    layout.reserved_end() as u64,
                    addr,
                );
                assert(in_ranges(ranges, addr));
                assert(spans[spans.len() - 1].0 <= addr < spans[spans.len() - 1].0
                    + spans[spans.len() - 1].1);
            }
        }
    }
}

/// The entries for free RAM ascend without overlap and end with the last region.
proof fn lemma_ram_entries_ascend(layout: Layout, spans: Seq<(u64, u64)>)
    requires
        layout.wf(),
        layout.ordered(),
        spans_in_order(spans),
    ensures
        ({
            let entries = ram_entries(layout, spans);
            &&& forall|k: int|
                0 <= k < entries.len() ==> spans.len() > 0 && (#[trigger] entries[k]).start
                    + entries[k].pages * PAGE_SIZE <= spans.last().0 + spans.last().1
            &&& forall|k: int, l: int|
                0 <= k < l < entries.len() ==> (#[trigger] entries[k]).start + entries[k].pages
                    * PAGE_SIZE <= (#[trigger] entries[l]).start
        }),
    decreases spans.len(),
{
    if spans.len() > 0 {
        let shorter = spans.drop_last();
        let last = spans.last();
        lemma_ram_entries_ascend(layout, shorter);
        let ranges = region_ranges(layout, last);
        let before = ram_entries(layout, shorter);
        let all = ram_entries(layout, spans);
        law_free_ranges_are_in_order(
            last.0,
            (last.0 + last.1) as u64,
            layout.fdt_start,
            layout.reserved_end() as u64,
        );
        assert forall|k: int| before.len() <= k < all.len() implies {
            &&& last.0 <= (#[trigger] all[k]).start
            &&& all[k].start + all[k].pages * PAGE_SIZE <= ranges[k - before.len()].1
            &&& all[k].start == ranges[k - before.len()].0
        } by {
            let i = k - before.len();
            lemma_range_entry(EFI_CONVENTIONAL_MEMORY, ranges[i].0, ranges[i].1);
        }
        if shorter.len() > 0 {
            assert(spans[shorter.len() - 1].0 + spans[shorter.len() - 1].1 <= spans[spans.len()
                - 1].0);
        }
    }
}

/// No address is described twice. Overlapping descriptors make a kernel reject the whole map.
pub proof fn law_map_has_no_overlap(
    layout: Layout,
    spans: Seq<(u64, u64)>,
    k: int,
    l: int,
    addr: int,
)
    requires
        layout.wf(),
        layout.ordered(),
        spans_in_order(spans),
        0 <= k < l < map_entries(layout, spans).len(),
    ensures
        !(map_entries(layout, spans)[k].covers(addr) && map_entries(layout, spans)[l].covers(addr)),
{
    let firmware = firmware_entries(layout);
    let ram = ram_entries(layout, spans);
    lemma_ram_entries_are_free(layout, spans);
    lemma_ram_entries_ascend(layout, spans);
    lemma_range_entry(EFI_BOOT_SERVICES_DATA, layout.fdt_start, layout.efi_start);
    if k >= 4 {
        assert(map_entries(layout, spans)[k] == ram[k - 4]);
        assert(map_entries(layout, spans)[l] == ram[l - 4]);
    } else if l >= 4 {
        assert(map_entries(layout, spans)[k] == firmware[k]);
        assert(map_entries(layout, spans)[l] == ram[l - 4]);
        if ram[l - 4].covers(addr) && firmware[k].covers(addr) {
            assert(layout.fdt_start <= addr < layout.reserved_end());
        }
    }
}

/// Everything that the firmware owns is typed as such: conventional memory never reaches into the
/// carve-out, and it is RAM.
pub proof fn law_conventional_memory_is_free_ram(
    layout: Layout,
    spans: Seq<(u64, u64)>,
    k: int,
    addr: int,
)
    requires
        layout.wf(),
        forall|r: int|
            0 <= r < spans.len() ==> (#[trigger] spans[r]).0 + spans[r].1 <= u64::MAX,
        0 <= k < map_entries(layout, spans).len(),
        map_entries(layout, spans)[k].typ == EFI_CONVENTIONAL_MEMORY,
        map_entries(layout, spans)[k].covers(addr),
    ensures
        mapped(spans, addr),
        !(layout.fdt_start <= addr < layout.reserved_end()),
{
    lemma_ram_entries_are_free(layout, spans);
    if k >= 4 {
        assert(map_entries(layout, spans)[k] == ram_entries(layout, spans)[k - 4]);
        assert(ram_entries(layout, spans)[k - 4].covers(addr));
    } else {
        assert(map_entries(layout, spans)[k] == firmware_entries(layout)[k]);
    }
}

/// The entries of a region are among those of all regions.
proof fn lemma_region_is_in_ram_entries(layout: Layout, spans: Seq<(u64, u64)>, r: int, i: int)
    requires
        0 <= r < spans.len(),
        0 <= i < region_ranges(layout, spans[r]).len(),
    ensures
        ram_entries(layout, spans).contains(
            range_entry(
                EFI_CONVENTIONAL_MEMORY,
                region_ranges(layout, spans[r])[i].0,
                region_ranges(layout, spans[r])[i].1,
            ),
        ),
    decreases spans.len(),
{
    let shorter = spans.drop_last();
    let before = ram_entries(layout, shorter);
    let all = ram_entries(layout, spans);
    let entry = range_entry(
        EFI_CONVENTIONAL_MEMORY,
        region_ranges(layout, spans[r])[i].0,
        region_ranges(layout, spans[r])[i].1,
    );
    if r < shorter.len() {
        lemma_region_is_in_ram_entries(layout, shorter, r, i);
        let k = choose|k: int| 0 <= k < before.len() && before[k] == entry;
        assert(all[k] == entry);
    } else {
        assert(all[before.len() + i] == entry);
    }
}

/// RAM outside the carve-out appears in the map as conventional memory, provided that what the
/// carve-out leaves of its region consists of whole pages. The map counts in pages and has no
/// entry for the rest of one.
pub proof fn law_map_covers_free_ram(
    layout: Layout,
    spans: Seq<(u64, u64)>,
    r: int,
    addr: int,
)
    requires
        layout.wf(),
        0 <= r < spans.len(),
        spans[r].0 + spans[r].1 <= u64::MAX,
        forall|i: int|
            0 <= i < region_ranges(layout, spans[r]).len() ==> ((#[trigger] region_ranges(
                layout,
                spans[r],
            )[i]).1 - region_ranges(layout, spans[r])[i].0) % (PAGE_SIZE as int) == 0,
        spans[r].0 <= addr < spans[r].0 + spans[r].1,
        !(layout.fdt_start <= addr < layout.reserved_end()),
    ensures
        exists|k: int|
            0 <= k < map_entries(layout, spans).len() && (#[trigger] map_entries(
                layout,
                spans,
            )[k]).covers(addr) && map_entries(layout, spans)[k].typ == EFI_CONVENTIONAL_MEMORY,
{
    let ranges = region_ranges(layout, spans[r]);
    law_reserved_span_is_punched_out(
        spans[r].0,
        (spans[r].0 + spans[r].1) as u64,
        layout.fdt_start,
        layout.reserved_end() as u64,
        addr,
    );
    let i = choose|i: int|
        0 <= i < ranges.len() && (#[trigger] ranges[i]).0 <= addr < ranges[i].1;
    let entry = range_entry(EFI_CONVENTIONAL_MEMORY, ranges[i].0, ranges[i].1);
    lemma_range_entry(EFI_CONVENTIONAL_MEMORY, ranges[i].0, ranges[i].1);
    lemma_region_is_in_ram_entries(layout, spans, r, i);
    let ram = ram_entries(layout, spans);
    let k = choose|k: int| 0 <= k < ram.len() && ram[k] == entry;
    assert(map_entries(layout, spans)[4 + k] == entry);
}

/// Who owns an address of the carve-out. The device tree blob may be reclaimed after boot, the
/// ACPI tables once they are parsed; the EFI structures and the SMBIOS tables outlive boot
/// services.
pub open spec fn carve_out_type(layout: Layout, addr: int) -> u32 {
    if addr < layout.efi_start {
        EFI_BOOT_SERVICES_DATA
    } else if addr < layout.acpi_start {
        EFI_RUNTIME_SERVICES_DATA
    } else if addr < layout.smbios_start {
        EFI_ACPI_RECLAIM_MEMORY
    } else {
        EFI_RUNTIME_SERVICES_DATA
    }
}

/// A size of whole pages is that many pages.
proof fn lemma_whole_pages(size: u64)
    requires
        size % PAGE_SIZE == 0,
    ensures
        (size / PAGE_SIZE) * PAGE_SIZE == size,
{
}

/// Each part of a carve-out without holes is covered by its entry up to the start of the next.
proof fn lemma_parts_are_covered(layout: Layout)
    requires
        layout.wf(),
        layout.gapless(),
    ensures
        ({
            let entries = firmware_entries(layout);
            &&& forall|addr: int|
                layout.fdt_start <= addr < layout.efi_start ==> #[trigger] entries[0].covers(addr)
            &&& forall|addr: int|
                layout.efi_start <= addr < layout.acpi_start ==> #[trigger] entries[1].covers(addr)
            &&& forall|addr: int|
                layout.acpi_start <= addr < layout.smbios_start ==> #[trigger] entries[2].covers(
                    addr,
                )
            &&& forall|addr: int|
                layout.smbios_start <= addr < layout.reserved_end() ==> #[trigger] entries[3].covers(
                    addr,
                )
        }),
{
    lemma_range_entry(EFI_BOOT_SERVICES_DATA, layout.fdt_start, layout.efi_start);
    lemma_whole_pages(layout.efi_max_size);
    lemma_whole_pages(layout.acpi_max_size);
    lemma_whole_pages(layout.smbios_max_size);
}

/// The firmware entries come first in the map.
proof fn lemma_firmware_entries_come_first(layout: Layout, spans: Seq<(u64, u64)>, k: int)
    requires
        0 <= k < 4,
    ensures
        k < map_entries(layout, spans).len(),
        map_entries(layout, spans)[k] == firmware_entries(layout)[k],
{
}

/// Every address of a carve-out without holes appears in the map, under the type of its owner.
pub proof fn law_map_covers_the_carve_out(layout: Layout, spans: Seq<(u64, u64)>, addr: int)
    requires
        layout.wf(),
        layout.gapless(),
        layout.fdt_start <= addr < layout.reserved_end(),
    ensures
        exists|k: int|
            0 <= k < map_entries(layout, spans).len() && (#[trigger] map_entries(
                layout,
                spans,
            )[k]).covers(addr) && map_entries(layout, spans)[k].typ == carve_out_type(layout, addr),
{
    lemma_parts_are_covered(layout);
    let k = if addr < layout.efi_start {
        0int
    } else if addr < layout.acpi_start {
        1
    } else if addr < layout.smbios_start {
        2
    } else {
        3
    };
    lemma_firmware_entries_come_first(layout, spans, k);
    assert(firmware_entries(layout)[k].covers(addr));
}

/// A descriptor covers its pages of 4096 bytes and nothing else. Its padding and its virtual start
/// are zero and it is write-back cached, so every one of its bytes is determined.
pub proof fn law_descriptor_byte_by_byte(entry: MapEntry, addr: int)
    ensures
        entry.covers(addr) <==> entry.start <= addr < entry.start + entry.pages * 0x1000,
        descriptor_bytes(entry).len() == 40,
        field(descriptor_bytes(entry), 0, 4) == entry.typ,
        field(descriptor_bytes(entry), 4, 4) == 0,
        field(descriptor_bytes(entry), 8, 8) == entry.start,
        field(descriptor_bytes(entry), 16, 8) == 0,
        field(descriptor_bytes(entry), 24, 8) == entry.pages,
        field(descriptor_bytes(entry), 32, 8) == 8,
{
    law_descriptor_reads_back(entry);
    lemma_words_read_back();
    lemma_le_bytes_len(entry.typ as nat, 4);
    lemma_le_bytes_len(0, 4);
    lemma_le_bytes_len(entry.start as nat, 8);
    lemma_le_bytes_len(0, 8);
    lemma_le_bytes_len(entry.pages as nat, 8);
    let bytes = descriptor_bytes(entry);
    assert(bytes.subrange(4, 8) =~= le_bytes(0u32 as nat, 4));
    assert(bytes.subrange(16, 24) =~= le_bytes(0u64 as nat, 8));
}

/// Whether an address is in ranges is membership: one more range adds its own addresses only.
pub proof fn law_in_ranges_is_membership(ranges: Seq<(u64, u64)>, range: (u64, u64), addr: int)
    ensures
        !in_ranges(Seq::empty(), addr),
        in_ranges(ranges.push(range), addr) <==> in_ranges(ranges, addr) || range.0 <= addr
            < range.1,
{
    let longer = ranges.push(range);
    if in_ranges(ranges, addr) {
        let i = choose|i: int|
            0 <= i < ranges.len() && (#[trigger] ranges[i]).0 <= addr < ranges[i].1;
        assert(longer[i] == ranges[i]);
    }
    if range.0 <= addr < range.1 {
        assert(longer[ranges.len() as int] == range);
    }
    if in_ranges(longer, addr) {
        let i = choose|i: int|
            0 <= i < longer.len() && (#[trigger] longer[i]).0 <= addr < longer[i].1;
        if i < ranges.len() {
            assert(ranges[i] == longer[i]);
        }
    }
}

/// At most one range is left below the reserved span and at most one above it, each reaching all
/// the way: from the start of the range to the span, and from the span to the end. A range that
/// does not meet the span is left in one piece.
pub proof fn law_free_ranges_are_not_cut_up(
    start: u64,
    end: u64,
    reserved_start: u64,
    reserved_end: u64,
)
    ensures
        ({
            let ranges = free_ranges(start, end, reserved_start, reserved_end);
            let meets = reserved_start < end && start < reserved_end;
            let below = meets && start < reserved_start;
            let above = meets && reserved_end < end;
            &&& !meets ==> ranges.len() == 1 && ranges[0] == (start, end)
            &&& meets ==> ranges.len() == (if below {
                1int
            } else {
                0
            }) + (if above {
                1int
            } else {
                0
            })
            &&& below ==> ranges.first() == (start, reserved_start)
            &&& above ==> ranges.last() == (reserved_end, end)
            &&& forall|i: int| #![trigger ranges[i]]
                0 <= i < ranges.len() ==> {
                    &&& ranges[i].0 == start || ranges[i].0 == reserved_end
                    &&& ranges[i].1 == end || ranges[i].1 == reserved_start
                }
        }),
{
}

/// Whether ranges are non-empty, ascending and not even touching.
pub open spec fn separate_ranges(ranges: Seq<(u64, u64)>) -> bool {
    &&& forall|i: int| 0 <= i < ranges.len() ==> (#[trigger] ranges[i]).0 < ranges[i].1
    &&& forall|i: int, j: int|
        0 <= i < j < ranges.len() ==> (#[trigger] ranges[i]).1 < (#[trigger] ranges[j]).0
}

/// Separate ranges are determined by the addresses in them.
proof fn lemma_same_addresses_same_ranges(a: Seq<(u64, u64)>, b: Seq<(u64, u64)>)
    requires
        separate_ranges(a),
        separate_ranges(b),
        forall|addr: int| in_ranges(a, addr) <==> in_ranges(b, addr),
    ensures
        a =~= b,
    decreases a.len(),
{
    if a.len() == 0 || b.len() == 0 {
        if a.len() > 0 {
            assert(in_ranges(a, a[0].0 as int));
        }
        if b.len() > 0 {
            assert(in_ranges(b, b[0].0 as int));
        }
    } else {
        lemma_first_range_starts_lower(a, b);
        lemma_first_range_starts_lower(b, a);
        lemma_first_range_ends_lower(a, b);
        lemma_first_range_ends_lower(b, a);
        let x = a.drop_first();
        let y = b.drop_first();
        assert forall|i: int| 0 <= i < x.len() implies #[trigger] x[i] == a[i + 1] by {}
        assert forall|i: int| 0 <= i < y.len() implies #[trigger] y[i] == b[i + 1] by {}
        lemma_rest_of_ranges(a);
        lemma_rest_of_ranges(b);
        lemma_same_addresses_same_ranges(x, y);
        assert forall|i: int| 0 <= i < a.len() implies a[i] == b[i] by {
            if i > 0 {
                assert(x[i - 1] == y[i - 1]);
            }
        }
    }
}

proof fn lemma_first_range_starts_lower(a: Seq<(u64, u64)>, b: Seq<(u64, u64)>)
    requires
        separate_ranges(a),
        separate_ranges(b),
        forall|addr: int| in_ranges(a, addr) <==> in_ranges(b, addr),
        a.len() > 0,
        b.len() > 0,
    ensures
        b[0].0 <= a[0].0,
{
    let addr = a[0].0 as int;
    assert(a[0].0 <= addr < a[0].1);
    assert(in_ranges(a, addr));
    let j = choose|j: int| 0 <= j < b.len() && (#[trigger] b[j]).0 <= addr < b[j].1;
    if j > 0 {
        assert(b[0].1 < b[j].0);
        assert(b[0].0 < b[0].1);
    }
}

proof fn lemma_first_range_ends_lower(a: Seq<(u64, u64)>, b: Seq<(u64, u64)>)
    requires
        separate_ranges(a),
        separate_ranges(b),
        forall|addr: int| in_ranges(a, addr) <==> in_ranges(b, addr),
        a.len() > 0,
        b.len() > 0,
        a[0].0 == b[0].0,
    ensures
        b[0].1 <= a[0].1,
{
    if a[0].1 < b[0].1 {
        let addr = a[0].1 as int;
        assert(a[0].0 < a[0].1);
        assert(b[0].0 <= addr < b[0].1);
        assert(in_ranges(b, addr));
        let j = choose|j: int| 0 <= j < a.len() && (#[trigger] a[j]).0 <= addr < a[j].1;
        if j > 0 {
            assert(a[0].1 < a[j].0);
        }
    }
}

/// Without the first range, the addresses behind it are left.
proof fn lemma_rest_of_ranges(ranges: Seq<(u64, u64)>)
    requires
        separate_ranges(ranges),
        ranges.len() > 0,
    ensures
        separate_ranges(ranges.drop_first()),
        forall|addr: int| #[trigger]
            in_ranges(ranges.drop_first(), addr) <==> in_ranges(ranges, addr) && ranges[0].1
                <= addr,
{
    let rest = ranges.drop_first();
    assert forall|i: int| 0 <= i < rest.len() implies #[trigger] rest[i] == ranges[i + 1] by {}
    assert forall|addr: int| #[trigger]
        in_ranges(rest, addr) <==> in_ranges(ranges, addr) && ranges[0].1 <= addr by {
        if in_ranges(rest, addr) {
            let i = choose|i: int|
                0 <= i < rest.len() && (#[trigger] rest[i]).0 <= addr < rest[i].1;
            assert(ranges[i + 1].0 <= addr < ranges[i + 1].1);
            assert(ranges[0].1 < ranges[i + 1].0);
        }
        if in_ranges(ranges, addr) && ranges[0].1 <= addr {
            let i = choose|i: int|
                0 <= i < ranges.len() && (#[trigger] ranges[i]).0 <= addr < ranges[i].1;
            assert(rest[i - 1] == ranges[i]);
        }
    }
}

/// There is only one way to write down what is left of a range: any separate ranges that hold
/// exactly its addresses outside the reserved span are the ones that are returned.
pub proof fn law_free_ranges_are_the_only_answer(
    start: u64,
    end: u64,
    reserved_start: u64,
    reserved_end: u64,
    candidate: Seq<(u64, u64)>,
)
    requires
        start < end,
        reserved_start < reserved_end,
        forall|i: int| 0 <= i < candidate.len() ==> (#[trigger] candidate[i]).0 < candidate[i].1,
        forall|i: int, j: int|
            0 <= i < j < candidate.len() ==> (#[trigger] candidate[i]).1 < (
            #[trigger] candidate[j]).0,
        forall|addr: int| #[trigger]
            in_ranges(candidate, addr) <==> start <= addr < end && !(reserved_start <= addr
                < reserved_end),
    ensures
        free_ranges(start, end, reserved_start, reserved_end) == candidate,
{
    let ranges = free_ranges(start, end, reserved_start, reserved_end);
    assert(separate_ranges(ranges));
    assert forall|addr: int| in_ranges(ranges, addr) <==> in_ranges(candidate, addr) by {
        law_reserved_span_is_punched_out(start, end, reserved_start, reserved_end, addr);
    }
    lemma_same_addresses_same_ranges(ranges, candidate);
}

/// Nothing but RAM and the carve-out is in the map, under whatever type.
pub proof fn law_map_covers_nothing_else(
    layout: Layout,
    spans: Seq<(u64, u64)>,
    k: int,
    addr: int,
)
    requires
        layout.wf(),
        layout.ordered(),
        forall|r: int|
            0 <= r < spans.len() ==> (#[trigger] spans[r]).0 + spans[r].1 <= u64::MAX,
        0 <= k < map_entries(layout, spans).len(),
        map_entries(layout, spans)[k].covers(addr),
    ensures
        mapped(spans, addr) || layout.fdt_start <= addr < layout.smbios_start
            + layout.smbios_max_size,
        map_entries(layout, spans)[k].typ != EFI_CONVENTIONAL_MEMORY ==> layout.fdt_start <= addr
            < layout.smbios_start + layout.smbios_max_size,
{
    lemma_ram_entries_are_free(layout, spans);
    if k >= 4 {
        assert(map_entries(layout, spans)[k] == ram_entries(layout, spans)[k - 4]);
        assert(ram_entries(layout, spans)[k - 4].covers(addr));
    } else {
        assert(map_entries(layout, spans)[k] == firmware_entries(layout)[k]);
        lemma_range_entry(EFI_BOOT_SERVICES_DATA, layout.fdt_start, layout.efi_start);
    }
}

/// Without RAM the map has the four parts of the carve-out, with their sizes in pages. A region
/// behind the others leaves what the map has so far and adds one entry of conventional memory for
/// each range that is free in it. So every entry is determined, with its place in the map.
pub proof fn law_map_grows_region_by_region(
    layout: Layout,
    spans: Seq<(u64, u64)>,
    span: (u64, u64),
)
    requires
        layout.wf(),
        span.0 + span.1 <= u64::MAX,
    ensures
        ({
            let bare = map_entries(layout, Seq::empty());
            &&& bare.len() == 4
            &&& bare[0].typ == 4 && bare[0].start == layout.fdt_start && bare[0].pages == (
            layout.efi_start - layout.fdt_start) / 0x1000
            &&& bare[1].typ == 6 && bare[1].start == layout.efi_start && bare[1].pages
                == layout.efi_max_size / 0x1000
            &&& bare[2].typ == 9 && bare[2].start == layout.acpi_start && bare[2].pages
                == layout.acpi_max_size / 0x1000
            &&& bare[3].typ == 6 && bare[3].start == layout.smbios_start && bare[3].pages
                == layout.smbios_max_size / 0x1000
        }),
        ({
            let before = map_entries(layout, spans);
            let after = map_entries(layout, spans.push(span));
            let free = free_ranges(
                span.0,
                (span.0 + span.1) as u64,
                layout.fdt_start,
                (layout.smbios_start + layout.smbios_max_size) as u64,
            );
            &&& after.len() == before.len() + free.len()
            &&& forall|k: int| 0 <= k < before.len() ==> #[trigger] after[k] == before[k]
            &&& forall|i: int|
                0 <= i < free.len() ==> {
                    let added = after[before.len() + i];
                    &&& added.typ == 7
                    &&& added.start == (#[trigger] free[i]).0
                    &&& added.pages == (free[i].1 - free[i].0) / 0x1000
                }
        }),
{
    let before = map_entries(layout, spans);
    let after = map_entries(layout, spans.push(span));
    let free = region_ranges(layout, span);
    assert(spans.push(span).drop_last() =~= spans);
    assert(after =~= before + free_entries(free));
    assert(map_entries(layout, Seq::empty()) =~= firmware_entries(layout));
    assert forall|i: int| 0 <= i < free.len() implies {
        let added = after[before.len() + i];
        &&& added.typ == 7
        &&& added.start == (#[trigger] free[i]).0
        &&& added.pages == (free[i].1 - free[i].0) / 0x1000
    } by {
        assert(after[before.len() + i] == free_entries(free)[i]);
        assert(free[i].0 <= free[i].1);
    }
}

/// RAM outside the carve-out is conventional memory in the map, where what lies between the ends of
/// the region and the carve-out is whole pages.
pub proof fn law_free_ram_is_conventional(
    layout: Layout,
    spans: Seq<(u64, u64)>,
    r: int,
    addr: int,
)
    requires
        layout.wf(),
        0 <= r < spans.len(),
        spans[r].0 + spans[r].1 <= u64::MAX,
        spans[r].0 <= addr < spans[r].0 + spans[r].1,
        !(layout.fdt_start <= addr < layout.smbios_start + layout.smbios_max_size),
        ({
            let start = spans[r].0 as int;
            let end = spans[r].0 + spans[r].1;
            let reserved_start = layout.fdt_start as int;
            let reserved_end = layout.smbios_start + layout.smbios_max_size;
            let meets = reserved_start < end && start < reserved_end;
            &&& !meets ==> (end - start) % 0x1000 == 0
            &&& meets && start < reserved_start ==> (reserved_start - start) % 0x1000 == 0
            &&& meets && reserved_end < end ==> (end - reserved_end) % 0x1000 == 0
        }),
    ensures
        exists|k: int|
            0 <= k < map_entries(layout, spans).len() && (#[trigger] map_entries(
                layout,
                spans,
            )[k]).covers(addr) && map_entries(layout, spans)[k].typ == 7,
{
    let ranges = region_ranges(layout, spans[r]);
    assert forall|i: int| 0 <= i < ranges.len() implies ((#[trigger] ranges[i]).1 - ranges[i].0) % (
    PAGE_SIZE as int) == 0 by {}
    law_map_covers_free_ram(layout, spans, r, addr);
}

/// The carve-out is in the map part by part: the device tree blob as boot services data, the EFI
/// structures as runtime services data, the ACPI tables as reclaimable and the SMBIOS tables as
/// runtime services data.
pub proof fn law_carve_out_types(layout: Layout, spans: Seq<(u64, u64)>, addr: int)
    requires
        layout.wf(),
        layout.gapless(),
        layout.fdt_start <= addr < layout.smbios_start + layout.smbios_max_size,
    ensures
        exists|k: int|
            0 <= k < map_entries(layout, spans).len() && (#[trigger] map_entries(
                layout,
                spans,
            )[k]).covers(addr) && map_entries(layout, spans)[k].typ == if addr
                < layout.efi_start {
                4u32
            } else if addr < layout.acpi_start {
                6
            } else if addr < layout.smbios_start {
                9
            } else {
                6
            },
{
    law_map_covers_the_carve_out(layout, spans, addr);
}

} // verus!
