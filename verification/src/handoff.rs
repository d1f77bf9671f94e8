//! Writing the EFI structures into guest RAM.

use crate::bytes::field;
use crate::layout::{
    fw_vendor, fw_vendor_bytes, law_metadata_is_laid_out_in_order, law_metadata_is_packed,
    lemma_fw_vendor_len,
    metadata_end, metadata_plan, plan_metadata, Layout, CONFIG_ENTRY_COUNT, CONFIG_ENTRY_SIZE,
    EFI_RT_PROPERTIES_TABLE_SIZE, EFI_SYSTEM_TABLE_SIZE, PAGE_SIZE,
};
use crate::memory::{
    all_stored, anonymous_ram, disjoint_writes, exclusive_backing, first_failure, guest_regions,
    holds, lands, law_disjoint_writes_read_back, law_mapped_prefix_stops_at_the_first_hole,
    law_writes_leave_other_bytes, law_writes_stop_at_the_first_failure, lemma_all_land,
    lemma_mapped_range_lands, lemma_success_lands, mapped, mapped_prefix, memory_after, present,
    region_spans, spans, spans_in_order, storable, stored, touches, write_all, write_error,
    write_list, write_outcome, zeroed_regions, GuestMemoryMmap,
};
use crate::memory_map::{
    law_map_is_an_array, map_bytes, map_entries, memory_map, EFI_MEMORY_DESCRIPTOR_SIZE,
    EFI_MEMORY_DESCRIPTOR_VERSION,
};
use crate::tables::{
    config_lookup, config_table, config_table_bytes,
    law_configuration_table_points_at_every_structure, law_memory_reservations_start_empty,
    law_no_runtime_service_is_supported, law_system_table_header_is_well_formed, memreserve,
    memreserve_bytes, rt_properties, rt_properties_bytes, system_table, system_table_bytes,
    ACPI_20_TABLE_GUID, EFI_RT_PROPERTIES_TABLE_GUID, LINUX_EFI_MEMRESERVE_TABLE_GUID,
    MEMRESERVE_HEADER_SIZE, SMBIOS3_TABLE_GUID,
};
use crate::utf16::law_plain_text_takes_two_bytes_each;
use vm_memory::GuestMemoryError;
use vstd::prelude::*;
use vstd::slice::slice_to_vec;

verus! {

/// Why the structures could not be written.
#[derive(Debug)]
pub enum Error {
    /// Writing to guest RAM failed.
    WriteEfiTables(GuestMemoryError),
    /// The structures would end at the first address, past the ACPI tables at the second.
    MetadataOverflow(u64, u64),
    /// The memory map has the first number of bytes, more than the second, its page.
    MemoryMapOverflow(usize, u64),
}

/// What the device tree has to publish for the EFI stub to pick the structures up.
#[derive(Clone, Copy, Debug)]
pub struct EfiHandoff {
    pub systab_addr: u64,
    pub mmap_addr: u64,
    pub mmap_size: u32,
    pub mmap_desc_size: u32,
    pub mmap_desc_ver: u32,
}

/// The tables and where each goes, in the order in which they are written.
pub open spec fn table_list(layout: Layout, rsdp_addr: u64) -> Seq<(u64, Seq<u8>)> {
    let plan = metadata_plan(layout.efi_start);
    seq![
        (plan.rt_props_addr, rt_properties_bytes()),
        (
            plan.config_table_addr,
            config_table_bytes(
                rsdp_addr,
                plan.rt_props_addr,
                layout.smbios_start,
                plan.memreserve_addr,
            ),
        ),
        (plan.fw_vendor_addr, fw_vendor_bytes()),
        (plan.memreserve_addr, memreserve_bytes()),
        (plan.systab_addr, system_table_bytes(plan.fw_vendor_addr, plan.config_table_addr)),
    ]
}

/// The memory map and where it goes.
pub open spec fn map_write(layout: Layout, spans: Seq<(u64, u64)>) -> (u64, Seq<u8>) {
    (layout.efi_start, map_bytes(map_entries(layout, spans)))
}

/// What writing the structures comes to in RAM with the given spans. The space is checked before
/// anything is written, and the size of the memory map before the map is.
pub open spec fn handoff_outcome(
    layout: Layout,
    rsdp_addr: u64,
    spans: Seq<(u64, u64)>,
) -> Result<EfiHandoff, Error> {
    let plan = metadata_plan(layout.efi_start);
    let map = map_write(layout, spans);
    if plan.end > layout.acpi_start {
        Err(Error::MetadataOverflow(plan.end, layout.acpi_start))
    } else {
        match write_outcome(spans, table_list(layout, rsdp_addr)) {
            Err(error) => Err(Error::WriteEfiTables(error)),
            Ok(_) => if map.1.len() > PAGE_SIZE {
                Err(Error::MemoryMapOverflow(map.1.len() as usize, PAGE_SIZE))
            } else {
                match write_outcome(spans, seq![map]) {
                    Err(error) => Err(Error::WriteEfiTables(error)),
                    Ok(_) => Ok(
                        EfiHandoff {
                            systab_addr: plan.systab_addr,
                            mmap_addr: layout.efi_start,
                            mmap_size: map.1.len() as u32,
                            mmap_desc_size: EFI_MEMORY_DESCRIPTOR_SIZE as u32,
                            mmap_desc_ver: EFI_MEMORY_DESCRIPTOR_VERSION,
                        },
                    ),
                }
            },
        }
    }
}

/// What RAM holds after writing the structures, whatever the outcome.
pub open spec fn handoff_memory(
    layout: Layout,
    rsdp_addr: u64,
    regions: Seq<(u64, Seq<u8>)>,
) -> Seq<(u64, Seq<u8>)> {
    let tables = table_list(layout, rsdp_addr);
    let map = map_write(layout, spans(regions));
    if metadata_plan(layout.efi_start).end > layout.acpi_start {
        regions
    } else if write_outcome(spans(regions), tables) is Err || map.1.len() > PAGE_SIZE {
        memory_after(regions, tables)
    } else {
        memory_after(memory_after(regions, tables), seq![map])
    }
}

/// Builds the tables for a guest whose RSDP is at `rsdp_addr`.
pub fn build_tables(layout: &Layout, rsdp_addr: u64) -> (tables: Vec<(u64, Vec<u8>)>)
    requires
        layout.wf(),
    ensures
        write_list(tables@) == table_list(*layout, rsdp_addr),
{
    let plan = plan_metadata(layout.efi_start);
    let mut tables: Vec<(u64, Vec<u8>)> = Vec::new();
    tables.push((plan.rt_props_addr, slice_to_vec(&rt_properties())));
    tables.push(
        (
            plan.config_table_addr,
            slice_to_vec(
                &config_table(
                    rsdp_addr,
                    plan.rt_props_addr,
                    layout.smbios_start,
                    plan.memreserve_addr,
                ),
            ),
        ),
    );
    tables.push((plan.fw_vendor_addr, fw_vendor()));
    tables.push((plan.memreserve_addr, slice_to_vec(&memreserve())));
    tables.push(
        (
            plan.systab_addr,
            slice_to_vec(&system_table(plan.fw_vendor_addr, plan.config_table_addr)),
        ),
    );
    assert(write_list(tables@) =~= table_list(*layout, rsdp_addr));
    tables
}

/// Writes the EFI structures into guest RAM. `rsdp_addr` is where the ACPI RSDP already is.
/// `memory::anonymous_ram` maps memory that can be stored to and that nobody else writes.
pub fn write_efi_tables(
    guest_mem: &mut GuestMemoryMmap,
    rsdp_addr: u64,
    layout: &Layout,
) -> (result: Result<EfiHandoff, Error>)
    requires
        layout.wf(),
        storable(*old(guest_mem)),
    ensures
        result == handoff_outcome(*layout, rsdp_addr, spans(guest_regions(*old(guest_mem)))),
        spans(guest_regions(*final(guest_mem))) == spans(guest_regions(*old(guest_mem))),
        storable(*final(guest_mem)),
        exclusive_backing(*old(guest_mem)) ==> exclusive_backing(*final(guest_mem)),
        result matches Err(Error::MetadataOverflow(end, limit)) ==> *final(guest_mem) == *old(
            guest_mem,
        ),
        result is Ok ==> spans_in_order(spans(guest_regions(*old(guest_mem)))),
        result matches Ok(handoff) ==> {
            &&& handoff.systab_addr == layout.efi_start + 0x1000
            &&& handoff.mmap_addr == layout.efi_start
            &&& handoff.mmap_size == 40 * map_entries(
                *layout,
                spans(guest_regions(*old(guest_mem))),
            ).len()
            &&& handoff.mmap_desc_size == 40
            &&& handoff.mmap_desc_ver == 1
        },
        exclusive_backing(*old(guest_mem)) ==> guest_regions(*final(guest_mem)) == handoff_memory(
            *layout,
            rsdp_addr,
            guest_regions(*old(guest_mem)),
        ),
{
    let plan = plan_metadata(layout.efi_start);
    if plan.end > layout.acpi_start {
        return Err(Error::MetadataOverflow(plan.end, layout.acpi_start));
    }
    let tables = build_tables(layout, rsdp_addr);
    match write_all(guest_mem, &tables) {
        Ok(()) => {},
        Err(error) => {
            return Err(Error::WriteEfiTables(error));
        },
    }
    let regions = region_spans(guest_mem);
    let map = memory_map(layout, &regions);
    let map_len: usize = map.len();
    if map_len as u64 > PAGE_SIZE {
        return Err(Error::MemoryMapOverflow(map_len, PAGE_SIZE));
    }
    let mut map_writes: Vec<(u64, Vec<u8>)> = Vec::new();
    map_writes.push((layout.efi_start, map));
    assert(write_list(map_writes@) =~= seq![map_write(*layout, regions@)]);
    match write_all(guest_mem, &map_writes) {
        Ok(()) => {},
        Err(error) => {
            return Err(Error::WriteEfiTables(error));
        },
    }
    proof {
        law_metadata_is_packed(layout.efi_start);
        law_map_is_an_array(map_entries(*layout, regions@));
    }
    Ok(
        EfiHandoff {
            systab_addr: plan.systab_addr,
            mmap_addr: layout.efi_start,
            mmap_size: map_len as u32,
            mmap_desc_size: EFI_MEMORY_DESCRIPTOR_SIZE as u32,
            mmap_desc_ver: EFI_MEMORY_DESCRIPTOR_VERSION,
        },
    )
}

/// Maps fresh RAM at `ranges` and writes the EFI structures into it. Returns the RAM with the
/// outcome, or `None` if it could not be mapped.
pub fn write_efi_tables_to_new_ram(
    ranges: &Vec<(u64, usize)>,
    rsdp_addr: u64,
    layout: &Layout,
) -> (result: Option<(GuestMemoryMmap, Result<EfiHandoff, Error>)>)
    requires
        layout.wf(),
    ensures
        result matches Some((mem, outcome)) ==> {
            let fresh = zeroed_regions(ranges@);
            &&& outcome == handoff_outcome(*layout, rsdp_addr, spans(fresh))
            &&& guest_regions(mem) == handoff_memory(*layout, rsdp_addr, fresh)
            &&& storable(mem)
            &&& exclusive_backing(mem)
        },
        ranges@.len() == 0 || !spans_in_order(spans(zeroed_regions(ranges@))) ==> result is None,
{
    match anonymous_ram(ranges) {
        Some(mem) => {
            let mut mem = mem;
            let outcome = write_efi_tables(&mut mem, rsdp_addr, layout);
            Some((mem, outcome))
        },
        None => None,
    }
}

/// All structures of a successful handoff, the memory map last.
pub open spec fn structure_list(
    layout: Layout,
    rsdp_addr: u64,
    spans: Seq<(u64, u64)>,
) -> Seq<(u64, Seq<u8>)> {
    table_list(layout, rsdp_addr).push(map_write(layout, spans))
}

/// Each table has the length that the plan reserves for it.
proof fn lemma_table_lengths(layout: Layout, rsdp_addr: u64)
    ensures
        ({
            let tables = table_list(layout, rsdp_addr);
            &&& tables.len() == 5
            &&& tables[0].1.len() == EFI_RT_PROPERTIES_TABLE_SIZE
            &&& tables[1].1.len() == CONFIG_ENTRY_COUNT * CONFIG_ENTRY_SIZE
            &&& tables[2].1.len() == fw_vendor_bytes().len()
            &&& tables[3].1.len() == MEMRESERVE_HEADER_SIZE
            &&& tables[4].1.len() == EFI_SYSTEM_TABLE_SIZE
        }),
{
    let plan = metadata_plan(layout.efi_start);
    law_no_runtime_service_is_supported();
    law_configuration_table_points_at_every_structure(
        rsdp_addr,
        plan.rt_props_addr,
        layout.smbios_start,
        plan.memreserve_addr,
    );
    law_memory_reservations_start_empty();
    law_system_table_header_is_well_formed(plan.fw_vendor_addr, plan.config_table_addr);
}

/// The tables lie between the page of the memory map and the end of the plan, apart from one
/// another.
proof fn lemma_tables_are_apart(layout: Layout, rsdp_addr: u64)
    requires
        layout.wf(),
    ensures
        ({
            let tables = table_list(layout, rsdp_addr);
            &&& disjoint_writes(tables)
            &&& forall|k: int|
                0 <= k < tables.len() ==> {
                    &&& layout.efi_start + PAGE_SIZE <= (#[trigger] tables[k]).0
                    &&& tables[k].0 + tables[k].1.len() <= metadata_end(layout.efi_start as int)
                }
        }),
{
    let tables = table_list(layout, rsdp_addr);
    law_metadata_is_laid_out_in_order(layout.efi_start);
    lemma_table_lengths(layout, rsdp_addr);
    // By address: system table, configuration table, vendor name, runtime properties,
    // reservations.
    assert(layout.efi_start + PAGE_SIZE <= tables[4].0);
    assert(tables[4].0 + tables[4].1.len() <= tables[1].0);
    assert(tables[1].0 + tables[1].1.len() <= tables[2].0);
    assert(tables[2].0 + tables[2].1.len() <= tables[0].0);
    assert(tables[0].0 + tables[0].1.len() <= tables[3].0);
    assert(tables[3].0 + tables[3].1.len() <= metadata_end(layout.efi_start as int));
}

/// After a successful handoff every structure is in memory, in full and undamaged by the others.
pub proof fn law_structures_read_back(
    layout: Layout,
    rsdp_addr: u64,
    regions: Seq<(u64, Seq<u8>)>,
)
    requires
        layout.wf(),
        handoff_outcome(layout, rsdp_addr, spans(regions)) is Ok,
    ensures
        forall|k: int|
            0 <= k < structure_list(layout, rsdp_addr, spans(regions)).len() ==> {
                let structure = #[trigger] structure_list(layout, rsdp_addr, spans(regions))[k];
                present(
                    handoff_memory(layout, rsdp_addr, regions),
                    structure.0 as int,
                    structure.1,
                )
            },
{
    let tables = table_list(layout, rsdp_addr);
    let map = map_write(layout, spans(regions));
    let all = structure_list(layout, rsdp_addr, spans(regions));
    lemma_tables_are_apart(layout, rsdp_addr);
    assert(disjoint_writes(all)) by {
        assert forall|j: int, k: int| 0 <= j < k < all.len() implies (#[trigger] all[j]).0
            + all[j].1.len() <= (#[trigger] all[k]).0 || all[k].0 + all[k].1.len()
            <= all[j].0 by {
            assert(all[j] == tables[j]);
            if k < tables.len() {
                assert(all[k] == tables[k]);
            }
        }
    }
    law_disjoint_writes_read_back(regions, all);
    let after = memory_after(regions, tables);
    law_writes_leave_other_bytes(regions, tables);
    assert(spans(after) =~= spans(regions));
    lemma_success_lands(spans(regions), tables);
    lemma_success_lands(spans(regions), seq![map]);
    assert(seq![map].drop_last() =~= Seq::empty());
    assert(all.drop_last() =~= tables);
    assert(memory_after(after, seq![map]) == stored(after, map.0 as int, map.1)) by {
        reveal_with_fuel(all_stored, 2);
    }
    assert(handoff_memory(layout, rsdp_addr, regions) == all_stored(regions, all));
    law_other_memory_is_untouched(layout, rsdp_addr, regions);
    assert(spans(handoff_memory(layout, rsdp_addr, regions)) =~= spans(regions));
    assert forall|k: int| 0 <= k < all.len() implies lands(
        spans(regions),
        #[trigger] all[k],
    ) by {
        if k < tables.len() {
            assert(all[k] == tables[k]);
        } else {
            assert(all[k] == seq![map][0]);
        }
    }
}

/// From what a successful handoff publishes, a kernel finds everything in memory: the system table
/// names the vendor and the configuration table, a lookup there finds the ACPI RSDP, the SMBIOS
/// tables, the runtime properties and the memory reservations, and the memory map is an array of
/// descriptors of the published size.
pub proof fn law_kernel_finds_every_structure(
    layout: Layout,
    rsdp_addr: u64,
    regions: Seq<(u64, Seq<u8>)>,
)
    requires
        layout.wf(),
        handoff_outcome(layout, rsdp_addr, spans(regions)) is Ok,
    ensures
        ({
            let handoff = handoff_outcome(layout, rsdp_addr, spans(regions))->Ok_0;
            let memory = handoff_memory(layout, rsdp_addr, regions);
            let plan = metadata_plan(layout.efi_start);
            let systab = system_table_bytes(plan.fw_vendor_addr, plan.config_table_addr);
            let config = config_table_bytes(
                rsdp_addr,
                plan.rt_props_addr,
                layout.smbios_start,
                plan.memreserve_addr,
            );
            let count = field(systab, 0x68, 8);
            let rt_props = config_lookup(config, EFI_RT_PROPERTIES_TABLE_GUID, count);
            let reservations = config_lookup(config, LINUX_EFI_MEMRESERVE_TABLE_GUID, count);
            let entries = map_entries(layout, spans(regions));
            &&& present(memory, handoff.systab_addr as int, systab)
            &&& present(memory, field(systab, 0x18, 8) as int, fw_vendor_bytes())
            &&& present(memory, field(systab, 0x70, 8) as int, config)
            &&& config_lookup(config, ACPI_20_TABLE_GUID, count) == Some(rsdp_addr as nat)
            &&& config_lookup(config, SMBIOS3_TABLE_GUID, count) == Some(
                layout.smbios_start as nat,
            )
            &&& rt_props is Some && present(memory, rt_props->0 as int, rt_properties_bytes())
            &&& reservations is Some && present(
                memory,
                reservations->0 as int,
                memreserve_bytes(),
            )
            &&& present(memory, handoff.mmap_addr as int, map_bytes(entries))
            &&& handoff.mmap_size == map_bytes(entries).len()
            &&& handoff.mmap_size == handoff.mmap_desc_size * entries.len()
        }),
{
    let plan = metadata_plan(layout.efi_start);
    let all = structure_list(layout, rsdp_addr, spans(regions));
    law_structures_read_back(layout, rsdp_addr, regions);
    law_system_table_header_is_well_formed(plan.fw_vendor_addr, plan.config_table_addr);
    law_configuration_table_points_at_every_structure(
        rsdp_addr,
        plan.rt_props_addr,
        layout.smbios_start,
        plan.memreserve_addr,
    );
    law_map_is_an_array(map_entries(layout, spans(regions)));
    assert(all[0] == table_list(layout, rsdp_addr)[0]);
    assert(all[1] == table_list(layout, rsdp_addr)[1]);
    assert(all[2] == table_list(layout, rsdp_addr)[2]);
    assert(all[3] == table_list(layout, rsdp_addr)[3]);
    assert(all[4] == table_list(layout, rsdp_addr)[4]);
    assert(all[5] == map_write(layout, spans(regions)));
}

/// Whatever the outcome, no byte outside the EFI structures changes, and no region moves.
pub proof fn law_other_memory_is_untouched(
    layout: Layout,
    rsdp_addr: u64,
    regions: Seq<(u64, Seq<u8>)>,
)
    requires
        layout.wf(),
    ensures
        ({
            let after = handoff_memory(layout, rsdp_addr, regions);
            &&& after.len() == regions.len()
            &&& forall|r: int|
                0 <= r < regions.len() ==> (#[trigger] after[r]).0 == regions[r].0
                    && after[r].1.len() == regions[r].1.len()
            &&& forall|r: int, i: int|
                0 <= r < regions.len() && 0 <= i < regions[r].1.len() && !(layout.efi_start
                    <= regions[r].0 + i < metadata_end(layout.efi_start as int))
                    ==> #[trigger] after[r].1[i] == regions[r].1[i]
        }),
{
    let tables = table_list(layout, rsdp_addr);
    let map = map_write(layout, spans(regions));
    let between = memory_after(regions, tables);
    let after = handoff_memory(layout, rsdp_addr, regions);
    lemma_tables_are_apart(layout, rsdp_addr);
    law_metadata_is_laid_out_in_order(layout.efi_start);
    law_writes_leave_other_bytes(regions, tables);
    law_writes_leave_other_bytes(between, seq![map]);
    assert forall|r: int, i: int|
        0 <= r < regions.len() && 0 <= i < regions[r].1.len() && !(layout.efi_start
            <= regions[r].0 + i < metadata_end(
            layout.efi_start as int,
        )) implies #[trigger] after[r].1[i] == regions[r].1[i] by {
        let addr = regions[r].0 + i;
        assert forall|k: int| 0 <= k < tables.len() implies !touches(#[trigger] tables[k], addr) by {}
        assert(between[r].1[i] == regions[r].1[i]);
        assert(between[r].0 == regions[r].0);
        if map.1.len() <= PAGE_SIZE {
            lemma_fw_vendor_len();
            assert(!touches(map, addr));
            assert(memory_after(between, seq![map])[r].1[i] == between[r].1[i]);
        }
    }
}

/// Too little space for the structures is found out before anything is written. A memory map that
/// is too large for its page is not written at all, so the system table behind it is safe.
pub proof fn law_overflow_is_refused_before_writing(
    layout: Layout,
    rsdp_addr: u64,
    regions: Seq<(u64, Seq<u8>)>,
)
    requires
        layout.wf(),
    ensures
        handoff_outcome(layout, rsdp_addr, spans(regions)) matches Err(
            Error::MetadataOverflow(end, limit),
        ) ==> end > limit && handoff_memory(layout, rsdp_addr, regions) == regions,
        handoff_outcome(layout, rsdp_addr, spans(regions)) matches Err(
            Error::MemoryMapOverflow(size, limit),
        ) ==> forall|k: int|
            0 <= k < table_list(layout, rsdp_addr).len() ==> holds(
                handoff_memory(layout, rsdp_addr, regions),
                (#[trigger] table_list(layout, rsdp_addr)[k]).0 as int,
                table_list(layout, rsdp_addr)[k].1,
            ),
        handoff_outcome(layout, rsdp_addr, spans(regions)) matches Err(
            Error::MemoryMapOverflow(size, limit),
        ) ==> forall|r: int, i: int|
            0 <= r < regions.len() && 0 <= i < regions[r].1.len() && layout.efi_start
                <= regions[r].0 + i < layout.efi_start + PAGE_SIZE ==> #[trigger] handoff_memory(
                layout,
                rsdp_addr,
                regions,
            )[r].1[i] == regions[r].1[i],
{
    let tables = table_list(layout, rsdp_addr);
    let outcome = handoff_outcome(layout, rsdp_addr, spans(regions));
    lemma_tables_are_apart(layout, rsdp_addr);
    law_disjoint_writes_read_back(regions, tables);
    law_writes_leave_other_bytes(regions, tables);
    if outcome is Err && outcome->Err_0 is MemoryMapOverflow {
        let after = handoff_memory(layout, rsdp_addr, regions);
        assert forall|r: int, i: int|
            0 <= r < regions.len() && 0 <= i < regions[r].1.len() && layout.efi_start
                <= regions[r].0 + i < layout.efi_start + PAGE_SIZE implies #[trigger] after[r].1[i]
            == regions[r].1[i] by {
            let addr = regions[r].0 + i;
            assert forall|k: int| 0 <= k < tables.len() implies !touches(
                #[trigger] tables[k],
                addr,
            ) by {}
        }
    }
}

/// The structures that a handoff points at stay below the ACPI tables, and the memory map stays
/// below the system table.
pub proof fn law_metadata_stays_below_the_acpi_tables(
    layout: Layout,
    rsdp_addr: u64,
    spans: Seq<(u64, u64)>,
)
    requires
        layout.wf(),
        handoff_outcome(layout, rsdp_addr, spans) is Ok,
    ensures
        ({
            let handoff = handoff_outcome(layout, rsdp_addr, spans)->Ok_0;
            &&& handoff.systab_addr < layout.acpi_start
            &&& handoff.mmap_addr + handoff.mmap_size <= handoff.systab_addr
            &&& handoff.mmap_addr + handoff.mmap_size < layout.acpi_start
            &&& forall|k: int|
                0 <= k < structure_list(layout, rsdp_addr, spans).len() ==> (
                #[trigger] structure_list(layout, rsdp_addr, spans)[k]).0 + structure_list(
                    layout,
                    rsdp_addr,
                    spans,
                )[k].1.len() <= layout.acpi_start
        }),
{
    lemma_tables_are_apart(layout, rsdp_addr);
    law_metadata_is_laid_out_in_order(layout.efi_start);
    let tables = table_list(layout, rsdp_addr);
    let all = structure_list(layout, rsdp_addr, spans);
    assert forall|k: int| 0 <= k < all.len() implies (#[trigger] all[k]).0 + all[k].1.len()
        <= layout.acpi_start by {
        if k < tables.len() {
            assert(all[k] == tables[k]);
        }
    }
}

/// A handoff succeeds where the structures end below the ACPI tables, their whole space is RAM and
/// the memory map fits its page.
pub proof fn law_handoff_succeeds_in_mapped_space(
    layout: Layout,
    rsdp_addr: u64,
    spans: Seq<(u64, u64)>,
)
    requires
        layout.wf(),
        metadata_end(layout.efi_start as int) <= layout.acpi_start,
        forall|addr: int|
            layout.efi_start <= addr < metadata_end(layout.efi_start as int) ==> #[trigger] mapped(
                spans,
                addr,
            ),
        map_entries(layout, spans).len() * EFI_MEMORY_DESCRIPTOR_SIZE <= PAGE_SIZE,
    ensures
        handoff_outcome(layout, rsdp_addr, spans) is Ok,
{
    let tables = table_list(layout, rsdp_addr);
    let map = map_write(layout, spans);
    lemma_tables_are_apart(layout, rsdp_addr);
    law_metadata_is_laid_out_in_order(layout.efi_start);
    law_map_is_an_array(map_entries(layout, spans));
    assert forall|k: int| 0 <= k < tables.len() implies lands(spans, #[trigger] tables[k]) by {
        lemma_mapped_range_lands(spans, tables[k].0 as int, tables[k].1.len());
    }
    lemma_all_land(spans, tables);
    lemma_mapped_range_lands(spans, map.0 as int, map.1.len());
    lemma_all_land(spans, seq![map]);
}

/// Which structure goes where, and in which order they are written. The pointers in the tables are
/// the addresses at which the others lie.
pub proof fn law_tables_point_at_one_another(layout: Layout, rsdp_addr: u64)
    requires
        layout.wf(),
    ensures
        ({
            let tables = table_list(layout, rsdp_addr);
            let efi = layout.efi_start;
            &&& tables.len() == 5
            &&& efi + 0x10fa <= tables[0].0 < efi + 0x10fa + 8 && tables[0].0 % 8 == 0
            &&& tables[0].1 == rt_properties_bytes()
            &&& tables[1].0 == efi + 0x1078
            &&& tables[1].1 == config_table_bytes(
                rsdp_addr,
                tables[0].0,
                layout.smbios_start,
                tables[3].0,
            )
            &&& tables[2].0 == efi + 0x10d8
            &&& tables[2].1 == fw_vendor_bytes()
            &&& tables[0].0 + 8 <= tables[3].0 < tables[0].0 + 8 + 0x1000 && tables[3].0 % 0x1000
                == 0
            &&& tables[3].1 == memreserve_bytes()
            &&& tables[4].0 == efi + 0x1000
            &&& tables[4].1 == system_table_bytes(tables[2].0, tables[1].0)
        }),
{
    law_metadata_is_packed(layout.efi_start);
}

/// The firmware vendor is "Cloud Hypervisor", with one zero code unit behind it and none inside.
pub proof fn law_vendor_name_is_terminated(i: int)
    requires
        0 <= i < 17,
    ensures
        fw_vendor_bytes().len() == 34,
        field(fw_vendor_bytes(), 2 * i, 2) == ("Cloud Hypervisor\0"@)[i] as u32,
        field(fw_vendor_bytes(), 2 * i, 2) == 0 <==> i == 16,
{
    reveal_strlit("Cloud Hypervisor\0");
    let text = "Cloud Hypervisor\0"@;
    assert forall|j: int| 0 <= j < text.len() implies (#[trigger] text[j]) as u32 <= 0xffff by {}
    law_plain_text_takes_two_bytes_each(text);
    assert(text[i] as u32 == 0 <==> i == 16);
}

/// Every outcome with the inputs on which it comes. The structures have to end at the ACPI tables at
/// the latest, each table has to land in RAM, the map has to fit in a page and has to land in RAM,
/// and the first of these that does not hold decides. A success publishes the system table one
/// page behind the map, the map at the start of the EFI space with its size, and descriptors of
/// 40 bytes and version 1.
pub proof fn law_outcome_for_every_input(layout: Layout, rsdp_addr: u64, spans: Seq<(u64, u64)>)
    requires
        layout.wf(),
    ensures
        ({
            let outcome = handoff_outcome(layout, rsdp_addr, spans);
            let end = metadata_end(layout.efi_start as int);
            let tables = table_list(layout, rsdp_addr);
            let size = 40 * map_entries(layout, spans).len();
            let tables_land = forall|k: int|
                0 <= k < tables.len() ==> lands(spans, #[trigger] tables[k]);
            let map_lands = forall|a: int|
                layout.efi_start <= a < layout.efi_start + size ==> #[trigger] mapped(spans, a);
            &&& end > layout.acpi_start ==> outcome == Err::<EfiHandoff, Error>(
                Error::MetadataOverflow(end as u64, layout.acpi_start),
            )
            &&& end <= layout.acpi_start ==> forall|k: int|
                0 <= k < tables.len() && !lands(spans, #[trigger] tables[k]) && (forall|j: int|
                    0 <= j < k ==> lands(spans, #[trigger] tables[j])) ==> outcome == Err::<
                    EfiHandoff,
                    Error,
                >(
                    Error::WriteEfiTables(
                        write_error(
                            tables[k].0,
                            tables[k].1.len(),
                            mapped_prefix(spans, tables[k].0 as int, tables[k].1.len()),
                        ),
                    ),
                )
            &&& end <= layout.acpi_start && tables_land && size > 0x1000 ==> outcome == Err::<
                EfiHandoff,
                Error,
            >(Error::MemoryMapOverflow(size as usize, 0x1000))
            &&& end <= layout.acpi_start && tables_land && size <= 0x1000 && !map_lands
                ==> outcome == Err::<EfiHandoff, Error>(
                Error::WriteEfiTables(
                    write_error(
                        layout.efi_start,
                        size,
                        mapped_prefix(spans, layout.efi_start as int, size),
                    ),
                ),
            )
            &&& end <= layout.acpi_start && tables_land && size <= 0x1000 && map_lands ==> {
                &&& outcome is Ok
                &&& outcome->Ok_0.systab_addr == layout.efi_start + 0x1000
                &&& outcome->Ok_0.mmap_addr == layout.efi_start
                &&& outcome->Ok_0.mmap_size == size
                &&& outcome->Ok_0.mmap_desc_size == 40
                &&& outcome->Ok_0.mmap_desc_ver == 1
            }
        }),
{
    let tables = table_list(layout, rsdp_addr);
    let map = map_write(layout, spans);
    law_metadata_is_packed(layout.efi_start);
    law_map_is_an_array(map_entries(layout, spans));
    law_writes_stop_at_the_first_failure(spans, tables);
    law_writes_stop_at_the_first_failure(spans, seq![map]);
    law_mapped_prefix_stops_at_the_first_hole(spans, map.0, map.1);
    let stop = first_failure(spans, tables) as int;
    assert forall|k: int|
        0 <= k < tables.len() && !lands(spans, #[trigger] tables[k]) && (forall|j: int|
            0 <= j < k ==> lands(spans, #[trigger] tables[j])) implies k == stop by {
        if stop < k {
            assert(lands(spans, tables[stop]));
        }
    }
    assert(seq![map][0] == map);
    let map_stop = first_failure(spans, seq![map]) as int;
    assert(map_stop == 1 <==> lands(spans, map)) by {
        if map_stop == 1 {
            assert(lands(spans, seq![map][0]));
        } else {
            assert(!lands(spans, seq![map][map_stop]));
        }
    }
}

/// What every successful handoff publishes.
pub proof fn law_published_handoff(layout: Layout, rsdp_addr: u64, spans: Seq<(u64, u64)>)
    requires
        layout.wf(),
        handoff_outcome(layout, rsdp_addr, spans) is Ok,
    ensures
        ({
            let handoff = handoff_outcome(layout, rsdp_addr, spans)->Ok_0;
            &&& handoff.systab_addr == layout.efi_start + 0x1000
            &&& handoff.mmap_addr == layout.efi_start
            &&& handoff.mmap_size == 40 * map_entries(layout, spans).len()
            &&& handoff.mmap_size <= 0x1000
            &&& handoff.mmap_desc_size == 40
            &&& handoff.mmap_desc_ver == 1
        }),
{
    law_metadata_is_packed(layout.efi_start);
    law_map_is_an_array(map_entries(layout, spans));
}

/// What memory holds is decided by the outcome: nothing is written where the space does not do, the
/// tables as far as they land, and the map behind them only where all of them landed and it fits
/// its page.
pub proof fn law_memory_for_every_outcome(
    layout: Layout,
    rsdp_addr: u64,
    regions: Seq<(u64, Seq<u8>)>,
)
    requires
        layout.wf(),
    ensures
        ({
            let after = handoff_memory(layout, rsdp_addr, regions);
            let end = metadata_end(layout.efi_start as int);
            let tables = table_list(layout, rsdp_addr);
            let map = map_bytes(map_entries(layout, spans(regions)));
            let tables_land = forall|k: int|
                0 <= k < tables.len() ==> lands(spans(regions), #[trigger] tables[k]);
            &&& end > layout.acpi_start ==> after == regions
            &&& end <= layout.acpi_start && !(tables_land && map.len() <= 0x1000) ==> after
                == memory_after(regions, tables)
            &&& end <= layout.acpi_start && tables_land && map.len() <= 0x1000 ==> after
                == memory_after(memory_after(regions, tables), seq![(layout.efi_start, map)])
        }),
{
    let tables = table_list(layout, rsdp_addr);
    law_metadata_is_packed(layout.efi_start);
    law_writes_stop_at_the_first_failure(spans(regions), tables);
    let stop = first_failure(spans(regions), tables) as int;
    if forall|k: int| 0 <= k < tables.len() ==> lands(spans(regions), #[trigger] tables[k]) {
        if stop < tables.len() {
            assert(lands(spans(regions), tables[stop]));
        }
    }
}

/// Whatever the outcome, only the bytes of the structures themselves change: the map, the system
/// table with the configuration table and the vendor name behind it, the runtime properties, and the
/// header of the reservations. The space between them stays as it was.
pub proof fn law_only_the_structures_change(
    layout: Layout,
    rsdp_addr: u64,
    regions: Seq<(u64, Seq<u8>)>,
    r: int,
    i: int,
)
    requires
        layout.wf(),
        0 <= r < regions.len(),
        0 <= i < regions[r].1.len(),
        ({
            let plan = metadata_plan(layout.efi_start);
            let addr = regions[r].0 + i;
            let size = 40 * map_entries(layout, spans(regions)).len();
            &&& !(layout.efi_start <= addr < layout.efi_start + size && size <= 0x1000)
            &&& !(layout.efi_start + 0x1000 <= addr < layout.efi_start + 0x10fa)
            &&& !(plan.rt_props_addr <= addr < plan.rt_props_addr + 8)
            &&& !(plan.memreserve_addr <= addr < plan.memreserve_addr + 16)
        }),
    ensures
        handoff_memory(layout, rsdp_addr, regions).len() == regions.len(),
        handoff_memory(layout, rsdp_addr, regions)[r].0 == regions[r].0,
        handoff_memory(layout, rsdp_addr, regions)[r].1.len() == regions[r].1.len(),
        handoff_memory(layout, rsdp_addr, regions)[r].1[i] == regions[r].1[i],
{
    let tables = table_list(layout, rsdp_addr);
    let map = map_write(layout, spans(regions));
    let between = memory_after(regions, tables);
    let addr = regions[r].0 + i;
    law_metadata_is_packed(layout.efi_start);
    law_map_is_an_array(map_entries(layout, spans(regions)));
    lemma_table_lengths(layout, rsdp_addr);
    law_writes_leave_other_bytes(regions, tables);
    law_writes_leave_other_bytes(between, seq![map]);
    assert(!touches(tables[0], addr));
    assert(!touches(tables[1], addr));
    assert(!touches(tables[2], addr));
    assert(!touches(tables[3], addr));
    assert(!touches(tables[4], addr));
    assert forall|k: int| 0 <= k < tables.len() implies !touches(#[trigger] tables[k], addr) by {}
    assert(between[r].1[i] == regions[r].1[i]);
    assert(between[r].0 == regions[r].0);
    if map.1.len() <= PAGE_SIZE {
        assert(!touches(map, addr));
        assert(memory_after(between, seq![map])[r].1[i] == between[r].1[i]);
    }
}

} // verus!
