//! Where the firmware structures lie in guest RAM.

use crate::align::{align_up, round_up};
use crate::utf16::{encode_utf16le, law_plain_text_takes_two_bytes_each, utf16le};
use vstd::prelude::*;

verus! {

pub const PAGE_SIZE: u64 = 0x1000;

pub const EFI_SYSTEM_TABLE_SIZE: u64 = 0x78;

pub const CONFIG_ENTRY_SIZE: u64 = 16 + 8;

pub const CONFIG_ENTRY_COUNT: u64 = 4;

pub const EFI_RT_PROPERTIES_TABLE_SIZE: u64 = 8;

/// The firmware carve-out of guest RAM: the device tree blob, the EFI structures, the ACPI tables
/// and the SMBIOS tables, in this order of addresses.
#[derive(Clone, Copy, Debug)]
pub struct Layout {
    /// Start of the device tree blob and of the whole carve-out.
    pub fdt_start: u64,
    /// Start of the EFI structures and end of the space for the device tree blob.
    pub efi_start: u64,
    pub efi_max_size: u64,
    pub acpi_start: u64,
    pub acpi_max_size: u64,
    pub smbios_start: u64,
    pub smbios_max_size: u64,
}

/// The addresses of the EFI structures that follow the page of the memory map.
#[derive(Clone, Copy, Debug)]
pub struct MetadataPlan {
    pub systab_addr: u64,
    pub config_table_addr: u64,
    pub fw_vendor_addr: u64,
    pub rt_props_addr: u64,
    pub memreserve_addr: u64,
    /// The first address after the structures.
    pub end: u64,
}

/// The name that the system table gives as its firmware vendor, NUL-terminated UTF-16LE.
pub open spec fn fw_vendor_bytes() -> Seq<u8> {
    utf16le("Cloud Hypervisor\0"@)
}

/// Where the runtime properties table goes: behind the vendor name, on an 8-byte boundary.
pub open spec fn rt_props_offset(efi_start: int) -> int {
    round_up(
        efi_start + PAGE_SIZE + EFI_SYSTEM_TABLE_SIZE + CONFIG_ENTRY_COUNT * CONFIG_ENTRY_SIZE
            + fw_vendor_bytes().len(),
        8,
    )
}

/// Where the memory reservation table goes: the first page boundary behind the runtime
/// properties table.
pub open spec fn memreserve_offset(efi_start: int) -> int {
    round_up(rt_props_offset(efi_start) + EFI_RT_PROPERTIES_TABLE_SIZE, PAGE_SIZE as int)
}

/// The first address after the EFI structures. The memory reservation table has a page.
pub open spec fn metadata_end(efi_start: int) -> int {
    memreserve_offset(efi_start) + PAGE_SIZE
}

/// The plan for structures that start at `efi_start`. The first page is the memory map's; the
/// system table starts the second.
pub open spec fn metadata_plan(efi_start: u64) -> MetadataPlan {
    MetadataPlan {
        systab_addr: (efi_start + PAGE_SIZE) as u64,
        config_table_addr: (efi_start + PAGE_SIZE + EFI_SYSTEM_TABLE_SIZE) as u64,
        fw_vendor_addr: (efi_start + PAGE_SIZE + EFI_SYSTEM_TABLE_SIZE + CONFIG_ENTRY_COUNT
            * CONFIG_ENTRY_SIZE) as u64,
        rt_props_addr: rt_props_offset(efi_start as int) as u64,
        memreserve_addr: memreserve_offset(efi_start as int) as u64,
        end: metadata_end(efi_start as int) as u64,
    }
}

impl Layout {
    /// The carve-out ends inside the address space, and the EFI structures come after the device
    /// tree blob and end inside the address space too.
    pub open spec fn wf(self) -> bool {
        &&& self.fdt_start <= self.efi_start
        &&& metadata_end(self.efi_start as int) <= u64::MAX
        &&& self.smbios_start + self.smbios_max_size <= u64::MAX
    }

    /// The end of the carve-out.
    pub open spec fn reserved_end(self) -> int {
        self.smbios_start + self.smbios_max_size
    }

    /// The parts of the carve-out do not overlap.
    pub open spec fn ordered(self) -> bool {
        &&& self.efi_start + self.efi_max_size <= self.acpi_start
        &&& self.acpi_start + self.acpi_max_size <= self.smbios_start
    }

    /// The parts of the carve-out leave no hole and consist of whole pages.
    pub open spec fn gapless(self) -> bool {
        &&& self.efi_start + self.efi_max_size == self.acpi_start
        &&& self.acpi_start + self.acpi_max_size == self.smbios_start
        &&& (self.efi_start - self.fdt_start) % (PAGE_SIZE as int) == 0
        &&& self.efi_max_size % PAGE_SIZE == 0
        &&& self.acpi_max_size % PAGE_SIZE == 0
        &&& self.smbios_max_size % PAGE_SIZE == 0
    }

    /// Whether tables can be laid out for this carve-out.
    pub fn is_valid(&self) -> (valid: bool)
        ensures
            valid == self.wf(),
    {
        proof {
            lemma_fw_vendor_len();
        }
        if self.fdt_start > self.efi_start || self.efi_start > u64::MAX - 2 * PAGE_SIZE
            || self.smbios_start > u64::MAX - self.smbios_max_size {
            return false;
        }
        let used: u64 = PAGE_SIZE + EFI_SYSTEM_TABLE_SIZE + CONFIG_ENTRY_COUNT * CONFIG_ENTRY_SIZE
            + fw_vendor().len() as u64;
        proof {
            vstd::arithmetic::power2::lemma2_to64();
        }
        let rt_props: u64 = align_up(self.efi_start + used, 8);
        let behind: u64 = rt_props + EFI_RT_PROPERTIES_TABLE_SIZE;
        if behind > u64::MAX - (PAGE_SIZE - 1) {
            return false;
        }
        align_up(behind, PAGE_SIZE) <= u64::MAX - PAGE_SIZE
    }
}

/// The vendor name with its terminator takes 34 bytes.
pub(crate) proof fn lemma_fw_vendor_len()
    ensures
        fw_vendor_bytes().len() == 34,
{
    reveal_strlit("Cloud Hypervisor\0");
    let text = "Cloud Hypervisor\0"@;
    assert forall|i: int| 0 <= i < text.len() implies (#[trigger] text[i]) as u32 <= 0xffff by {}
    law_plain_text_takes_two_bytes_each(text);
}

/// The firmware vendor name for the system table.
pub fn fw_vendor() -> (name: Vec<u8>)
    ensures
        name@ == fw_vendor_bytes(),
{
    encode_utf16le("Cloud Hypervisor\0")
}

/// Lays out the EFI structures from `efi_start` on.
pub fn plan_metadata(efi_start: u64) -> (plan: MetadataPlan)
    requires
        metadata_end(efi_start as int) <= u64::MAX,
    ensures
        plan == metadata_plan(efi_start),
{
    proof {
        lemma_fw_vendor_len();
        vstd::arithmetic::power2::lemma2_to64();
    }
    let systab_addr: u64 = efi_start + PAGE_SIZE;
    let config_table_addr: u64 = systab_addr + EFI_SYSTEM_TABLE_SIZE;
    let fw_vendor_addr: u64 = config_table_addr + CONFIG_ENTRY_COUNT * CONFIG_ENTRY_SIZE;
    let rt_props_addr: u64 = align_up(fw_vendor_addr + fw_vendor().len() as u64, 8);
    let memreserve_addr: u64 = align_up(
        rt_props_addr + EFI_RT_PROPERTIES_TABLE_SIZE,
        PAGE_SIZE,
    );
    MetadataPlan {
        systab_addr,
        config_table_addr,
        fw_vendor_addr,
        rt_props_addr,
        memreserve_addr,
        end: memreserve_addr + PAGE_SIZE,
    }
}

/// The structures follow one another in the order system table, configuration table, vendor name,
/// runtime properties, memory reservations. None overlaps the next or the page of the memory map,
/// the runtime properties are 8-byte aligned, and the reservations have a whole page of their own.
pub proof fn law_metadata_is_laid_out_in_order(efi_start: u64)
    requires
        metadata_end(efi_start as int) <= u64::MAX,
    ensures
        ({
            let plan = metadata_plan(efi_start);
            &&& plan.systab_addr == efi_start + PAGE_SIZE
            &&& plan.config_table_addr == plan.systab_addr + EFI_SYSTEM_TABLE_SIZE
            &&& plan.fw_vendor_addr == plan.config_table_addr + CONFIG_ENTRY_COUNT
                * CONFIG_ENTRY_SIZE
            &&& plan.rt_props_addr >= plan.fw_vendor_addr + fw_vendor_bytes().len()
            &&& plan.rt_props_addr % 8 == 0
            &&& plan.memreserve_addr >= plan.rt_props_addr + EFI_RT_PROPERTIES_TABLE_SIZE
            &&& plan.memreserve_addr % PAGE_SIZE == 0
            &&& plan.end == plan.memreserve_addr + PAGE_SIZE
        }),
{
}

/// Where each structure lies, counted from the start of the EFI space: nothing is left between them
/// but what alignment takes.
pub proof fn law_metadata_is_packed(efi_start: u64)
    requires
        metadata_end(efi_start as int) <= u64::MAX,
    ensures
        ({
            let plan = metadata_plan(efi_start);
            &&& fw_vendor_bytes().len() == 34
            &&& plan.systab_addr == efi_start + 0x1000
            &&& plan.config_table_addr == efi_start + 0x1078
            &&& plan.fw_vendor_addr == efi_start + 0x10d8
            &&& efi_start + 0x10fa <= plan.rt_props_addr < efi_start + 0x10fa + 8
            &&& plan.rt_props_addr % 8 == 0
            &&& plan.rt_props_addr + 8 <= plan.memreserve_addr < plan.rt_props_addr + 8 + 0x1000
            &&& plan.memreserve_addr % 0x1000 == 0
            &&& plan.end == plan.memreserve_addr + 0x1000
            &&& plan.end == metadata_end(efi_start as int)
        }),
{
    lemma_fw_vendor_len();
}

/// A layout is valid exactly if the device tree blob does not start behind the EFI structures and
/// both the EFI structures and the carve-out end inside the address space.
pub proof fn law_valid_layouts(layout: Layout)
    ensures
        layout.wf() <==> {
            &&& layout.fdt_start <= layout.efi_start
            &&& layout.efi_start <= 0xffff_ffff_ffff_cefe
            &&& layout.smbios_start + layout.smbios_max_size <= 0xffff_ffff_ffff_ffff
        },
{
    lemma_fw_vendor_len();
}

/// What it means that the parts of a carve-out do not overlap, and that they leave no hole and are
/// whole pages.
pub proof fn law_carve_out_parts(layout: Layout)
    ensures
        layout.reserved_end() == layout.smbios_start + layout.smbios_max_size,
        layout.ordered() <==> {
            &&& layout.efi_start + layout.efi_max_size <= layout.acpi_start
            &&& layout.acpi_start + layout.acpi_max_size <= layout.smbios_start
        },
        layout.gapless() <==> {
            &&& layout.efi_start + layout.efi_max_size == layout.acpi_start
            &&& layout.acpi_start + layout.acpi_max_size == layout.smbios_start
            &&& (layout.efi_start - layout.fdt_start) % 0x1000 == 0
            &&& layout.efi_max_size % 0x1000 == 0
            &&& layout.acpi_max_size % 0x1000 == 0
            &&& layout.smbios_max_size % 0x1000 == 0
        },
{
}

} // verus!
