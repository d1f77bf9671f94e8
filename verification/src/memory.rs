//! Guest RAM: what it holds, and what a list of writes does to it.

use crate::bytes::zeros;
use vm_memory::{
    Address, Bytes, GuestAddress, GuestMemoryBackend, GuestMemoryError, GuestMemoryRegion,
};
use vstd::prelude::*;

verus! {

/// `vm_memory::GuestRegionCollection`, the type behind `vm_memory::GuestMemoryMmap`.
#[verifier::external_type_specification]
#[verifier::external_body]
#[verifier::reject_recursive_types(R)]
pub struct ExGuestRegionCollection<R>(vm_memory::GuestRegionCollection<R>);

/// `vm_memory::GuestRegionMmap`, one mapped region of guest RAM.
#[verifier::external_type_specification]
#[verifier::external_body]
#[verifier::reject_recursive_types(B)]
pub struct ExGuestRegionMmap<B>(vm_memory::GuestRegionMmap<B>);

/// `vm_memory::bitmap::AtomicBitmap`, the dirty page tracking of a region.
#[verifier::external_type_specification]
#[verifier::external_body]
pub struct ExAtomicBitmap(vm_memory::bitmap::AtomicBitmap);

/// `vm_memory::GuestMemoryError`, why an access to guest RAM failed.
#[verifier::external_type_specification]
#[verifier::external_body]
pub struct ExGuestMemoryError(vm_memory::GuestMemoryError);

/// Guest RAM with dirty page tracking.
pub type GuestMemoryMmap = vm_memory::GuestMemoryMmap<vm_memory::bitmap::AtomicBitmap>;

/// What guest RAM holds: the start address and the bytes of each region, in the order in which
/// the collection keeps them.
pub uninterp spec fn guest_regions(mem: GuestMemoryMmap) -> Seq<(u64, Seq<u8>)>;

/// Whether every guest address has a host byte of its own, which nothing but the holder of `mem`
/// writes for as long as it is held. Regions can be built that share a mapping, and a handle can be cloned, so this is a
/// property of the memory at hand and not of the type.
pub uninterp spec fn exclusive_backing(mem: GuestMemoryMmap) -> bool;

/// Whether no region is empty and every byte of each mapping can be stored to, for as long as `mem`
/// is held. A region can be mapped without write access, from a file that ends before the mapping
/// does, or from a raw pointer with no length, so this too is a property of the memory at hand.
pub uninterp spec fn storable(mem: GuestMemoryMmap) -> bool;

/// The error of `vm_memory::Bytes::write_slice` for `expected` bytes at `addr` of which it stored
/// `completed` before it came to an unmapped address.
pub uninterp spec fn write_error(addr: u64, expected: nat, completed: nat) -> GuestMemoryError;

/// The start address and the length of each region.
pub open spec fn spans(regions: Seq<(u64, Seq<u8>)>) -> Seq<(u64, u64)> {
    Seq::new(regions.len(), |r: int| (regions[r].0, regions[r].1.len() as u64))
}

/// Whether one of the spans contains `addr`.
pub open spec fn mapped(spans: Seq<(u64, u64)>, addr: int) -> bool {
    exists|r: int|
        0 <= r < spans.len() && #[trigger] spans[r].0 <= addr < spans[r].0 + spans[r].1
}

/// How many of the `len` addresses from `addr` on come before the first unmapped one.
pub open spec fn mapped_prefix(spans: Seq<(u64, u64)>, addr: int, len: nat) -> nat
    decreases len,
{
    if len == 0 {
        0
    } else {
        let before = mapped_prefix(spans, addr, (len - 1) as nat);
        if before == len - 1 && mapped(spans, addr + len - 1) {
            len
        } else {
            before
        }
    }
}

/// Spans that follow one another without overlap and end inside the address space.
pub open spec fn spans_in_order(spans: Seq<(u64, u64)>) -> bool {
    &&& forall|r: int|
        0 <= r < spans.len() ==> (#[trigger] spans[r]).0 + spans[r].1 <= u64::MAX
    &&& forall|r: int, s: int|
        0 <= r < s < spans.len() ==> (#[trigger] spans[r]).0 + spans[r].1 <= (
        #[trigger] spans[s]).0
}

/// The regions with `bytes` stored from address `addr` on, wherever that is mapped.
pub open spec fn stored(regions: Seq<(u64, Seq<u8>)>, addr: int, bytes: Seq<u8>) -> Seq<
    (u64, Seq<u8>),
> {
    Seq::new(
        regions.len(),
        |r: int|
            (
                regions[r].0,
                Seq::new(
                    regions[r].1.len(),
                    |i: int|
                        if addr <= regions[r].0 + i < addr + bytes.len() {
                            bytes[regions[r].0 + i - addr]
                        } else {
                            regions[r].1[i]
                        },
                ),
            ),
    )
}

/// `vm_memory::Bytes::write_slice` on guest RAM.
///
/// Claimed of it: it succeeds exactly if every address of the range is mapped, by one region or
/// by several adjoining ones. Otherwise it stops at the first unmapped address, and its error
/// depends on the address, the number of bytes and how many of them were stored by then. Which
/// addresses are mapped does not change. Where the backing is exclusive, the bytes up to the stop
/// are in memory afterwards and no other byte changed. Only storable memory is admitted: an empty
/// region makes the call panic, and a store to a mapping that does not take it ends the process.
/// The marks that the dirty page tracking receives are not described.
#[verifier::external_body]
pub(crate) fn write_slice(mem: &mut GuestMemoryMmap, buf: &[u8], addr: u64) -> (result: Result<
    (),
    GuestMemoryError,
>)
    requires
        storable(*old(mem)),
    ensures
        ({
            let mapped_spans = spans(guest_regions(*old(mem)));
            let completed = mapped_prefix(mapped_spans, addr as int, buf@.len());
            &&& result == if completed == buf@.len() {
                Ok(())
            } else {
                Err(write_error(addr, buf@.len(), completed))
            }
            &&& spans(guest_regions(*final(mem))) == mapped_spans
            &&& storable(*final(mem))
            &&& exclusive_backing(*old(mem)) ==> exclusive_backing(*final(mem))
            &&& exclusive_backing(*old(mem)) ==> guest_regions(*final(mem)) == stored(
                guest_regions(*old(mem)),
                addr as int,
                buf@.take(completed as int),
            )
        }),
{
    mem.write_slice(buf, GuestAddress(addr))
}

/// `vm_memory::GuestMemoryBackend::iter` on guest RAM, with `start_addr` and `len` of each region.
///
/// Claimed of it: the regions come in the order of the collection, which keeps them sorted and
/// free of overlap, and no region reaches past the end of the address space.
#[verifier::external_body]
pub(crate) fn region_spans(mem: &GuestMemoryMmap) -> (result: Vec<(u64, u64)>)
    ensures
        result@ == spans(guest_regions(*mem)),
        spans_in_order(result@),
{
    mem.iter().map(|region| (region.start_addr().raw_value(), region.len())).collect()
}

/// Fresh RAM: a region of zero bytes for each range, given by start address and length.
pub open spec fn zeroed_regions(ranges: Seq<(u64, usize)>) -> Seq<(u64, Seq<u8>)> {
    Seq::new(ranges.len(), |r: int| (ranges[r].0, zeros(ranges[r].1 as nat)))
}

/// `vm_memory::GuestMemoryMmap::from_ranges`.
///
/// Claimed of it: what it returns is one new anonymous mapping for each range, readable and
/// writable, held by nobody else and zero throughout. It fails unless there is a range, the ranges
/// ascend without overlap and none reaches past the end of the address space. Whether the system
/// then grants the memory is not described.
#[verifier::external_body]
pub(crate) fn from_ranges(ranges: &Vec<(u64, usize)>) -> (result: Option<GuestMemoryMmap>)
    ensures
        result matches Some(mem) ==> {
            &&& storable(mem)
            &&& exclusive_backing(mem)
            &&& guest_regions(mem) == zeroed_regions(ranges@)
            &&& ranges@.len() > 0
            &&& spans_in_order(spans(zeroed_regions(ranges@)))
        },
{
    let ranges: Vec<(GuestAddress, usize)> =
        ranges.iter().map(|range| (GuestAddress(range.0), range.1)).collect();
    GuestMemoryMmap::from_ranges(&ranges).ok()
}

/// Maps fresh RAM at `ranges`, each given by start address and length, or returns `None` if they
/// are out of order or the system does not grant the memory.
pub fn anonymous_ram(ranges: &Vec<(u64, usize)>) -> (result: Option<GuestMemoryMmap>)
    ensures
        result matches Some(mem) ==> {
            &&& storable(mem)
            &&& exclusive_backing(mem)
            &&& guest_regions(mem) == zeroed_regions(ranges@)
        },
        ranges@.len() == 0 || !spans_in_order(spans(zeroed_regions(ranges@))) ==> result is None,
{
    from_ranges(ranges)
}

/// A list of writes as plain values: where each goes and what it stores.
pub open spec fn write_list(writes: Seq<(u64, Vec<u8>)>) -> Seq<(u64, Seq<u8>)> {
    Seq::new(writes.len(), |i: int| (writes[i].0, writes[i].1@))
}

/// Whether every address of one write is mapped.
pub open spec fn lands(spans: Seq<(u64, u64)>, write: (u64, Seq<u8>)) -> bool {
    mapped_prefix(spans, write.0 as int, write.1.len()) == write.1.len()
}

/// The index of the first write that does not land, or the number of writes if all do.
pub open spec fn first_failure(spans: Seq<(u64, u64)>, writes: Seq<(u64, Seq<u8>)>) -> nat
    decreases writes.len(),
{
    if writes.len() == 0 {
        0
    } else {
        let before = first_failure(spans, writes.drop_last());
        if before == writes.len() - 1 && lands(spans, writes.last()) {
            writes.len()
        } else {
            before
        }
    }
}

/// What a list of writes comes to: they stop at the first that does not land, with its error.
pub open spec fn write_outcome(spans: Seq<(u64, u64)>, writes: Seq<(u64, Seq<u8>)>) -> Result<
    (),
    GuestMemoryError,
> {
    let stop = first_failure(spans, writes) as int;
    if stop == writes.len() {
        Ok(())
    } else {
        Err(
            write_error(
                writes[stop].0,
                writes[stop].1.len(),
                mapped_prefix(spans, writes[stop].0 as int, writes[stop].1.len()),
            ),
        )
    }
}

/// The regions after all of `writes`, in order.
pub open spec fn all_stored(regions: Seq<(u64, Seq<u8>)>, writes: Seq<(u64, Seq<u8>)>) -> Seq<
    (u64, Seq<u8>),
>
    decreases writes.len(),
{
    if writes.len() == 0 {
        regions
    } else {
        stored(
            all_stored(regions, writes.drop_last()),
            writes.last().0 as int,
            writes.last().1,
        )
    }
}

/// The regions after a list of writes: those before the first that does not land are stored in
/// full, of that one only what comes before its first unmapped address.
pub open spec fn memory_after(regions: Seq<(u64, Seq<u8>)>, writes: Seq<(u64, Seq<u8>)>) -> Seq<
    (u64, Seq<u8>),
> {
    let stop = first_failure(spans(regions), writes) as int;
    if stop == writes.len() {
        all_stored(regions, writes)
    } else {
        stored(
            all_stored(regions, writes.take(stop)),
            writes[stop].0 as int,
            writes[stop].1.take(
                mapped_prefix(
                    spans(regions),
                    writes[stop].0 as int,
                    writes[stop].1.len(),
                ) as int,
            ),
        )
    }
}

/// A write that fails keeps failing first, whatever follows it.
proof fn lemma_first_failure_stays(
    spans: Seq<(u64, u64)>,
    writes: Seq<(u64, Seq<u8>)>,
    shorter: int,
)
    requires
        0 <= shorter <= writes.len(),
        first_failure(spans, writes.take(shorter)) < shorter,
    ensures
        first_failure(spans, writes) == first_failure(spans, writes.take(shorter)),
    decreases writes.len(),
{
    if shorter == writes.len() {
        assert(writes.take(shorter) =~= writes);
    } else {
        assert(writes.drop_last().take(shorter) =~= writes.take(shorter));
        lemma_first_failure_stays(spans, writes.drop_last(), shorter);
    }
}

/// Performs `writes` in order and stops at the first that fails.
pub fn write_all(mem: &mut GuestMemoryMmap, writes: &Vec<(u64, Vec<u8>)>) -> (result: Result<
    (),
    GuestMemoryError,
>)
    requires
        storable(*old(mem)),
    ensures
        result == write_outcome(spans(guest_regions(*old(mem))), write_list(writes@)),
        spans(guest_regions(*final(mem))) == spans(guest_regions(*old(mem))),
        storable(*final(mem)),
        exclusive_backing(*old(mem)) ==> exclusive_backing(*final(mem)),
        exclusive_backing(*old(mem)) ==> guest_regions(*final(mem)) == memory_after(
            guest_regions(*old(mem)),
            write_list(writes@),
        ),
{
    let ghost list = write_list(writes@);
    let ghost before = guest_regions(*mem);
    let ghost exclusive = exclusive_backing(*mem);
    let mut i: usize = 0;
    assert(list.take(0) =~= Seq::empty());
    while i < writes.len()
        invariant
            i <= writes@.len(),
            list == write_list(writes@),
            before == guest_regions(*old(mem)),
            exclusive == exclusive_backing(*old(mem)),
            spans(guest_regions(*mem)) == spans(before),
            storable(*mem),
            exclusive ==> exclusive_backing(*mem),
            first_failure(spans(before), list.take(i as int)) == i,
            exclusive ==> guest_regions(*mem) == all_stored(before, list.take(i as int)),
        decreases writes@.len() - i,
    {
        assert(list.take(i + 1).drop_last() =~= list.take(i as int));
        let result = write_slice(mem, writes[i].1.as_slice(), writes[i].0);
        match result {
            Ok(()) => {
                assert(list[i as int].1.take(list[i as int].1.len() as int)
                    =~= list[i as int].1);
            },
            Err(error) => {
                proof {
                    lemma_first_failure_stays(spans(before), list, i + 1);
                }
                return Err(error);
            },
        }
        i = i + 1;
    }
    assert(list.take(i as int) =~= list);
    Ok(())
}

/// Whether every mapped byte of the range that starts at `addr` is the one that `bytes` has there.
pub open spec fn holds(regions: Seq<(u64, Seq<u8>)>, addr: int, bytes: Seq<u8>) -> bool {
    forall|r: int, i: int|
        0 <= r < regions.len() && 0 <= i < regions[r].1.len() && addr <= regions[r].0 + i < addr
            + bytes.len() ==> #[trigger] regions[r].1[i] == bytes[regions[r].0 + i - addr]
}

/// Whether `bytes` can be read from `addr` on: the whole range is mapped and holds them.
pub open spec fn present(regions: Seq<(u64, Seq<u8>)>, addr: int, bytes: Seq<u8>) -> bool {
    &&& mapped_prefix(spans(regions), addr, bytes.len()) == bytes.len()
    &&& holds(regions, addr, bytes)
}

/// Whether a write touches `addr`.
pub open spec fn touches(write: (u64, Seq<u8>), addr: int) -> bool {
    write.0 <= addr < write.0 + write.1.len()
}

/// Whether no two of the writes touch the same address.
pub open spec fn disjoint_writes(writes: Seq<(u64, Seq<u8>)>) -> bool {
    forall|j: int, k: int|
        0 <= j < k < writes.len() ==> (#[trigger] writes[j]).0 + writes[j].1.len() <= (
        #[trigger] writes[k]).0 || writes[k].0 + writes[k].1.len() <= writes[j].0
}

/// Stored writes change neither the regions' places nor a byte that none of them touches.
proof fn lemma_stored_leaves_the_rest(
    regions: Seq<(u64, Seq<u8>)>,
    writes: Seq<(u64, Seq<u8>)>,
)
    ensures
        ({
            let after = all_stored(regions, writes);
            &&& after.len() == regions.len()
            &&& forall|r: int|
                0 <= r < regions.len() ==> (#[trigger] after[r]).0 == regions[r].0
                    && after[r].1.len() == regions[r].1.len()
            &&& forall|r: int, i: int|
                0 <= r < regions.len() && 0 <= i < regions[r].1.len() && (forall|k: int|
                    0 <= k < writes.len() ==> !touches(
                        #[trigger] writes[k],
                        regions[r].0 + i,
                    )) ==> #[trigger] after[r].1[i] == regions[r].1[i]
        }),
    decreases writes.len(),
{
    if writes.len() > 0 {
        let shorter = writes.drop_last();
        lemma_stored_leaves_the_rest(regions, shorter);
        let before = all_stored(regions, shorter);
        let after = all_stored(regions, writes);
        assert forall|r: int, i: int|
            0 <= r < regions.len() && 0 <= i < regions[r].1.len() && (forall|k: int|
                0 <= k < writes.len() ==> !touches(
                    #[trigger] writes[k],
                    regions[r].0 + i,
                )) implies #[trigger] after[r].1[i] == regions[r].1[i] by {
            assert forall|k: int| 0 <= k < shorter.len() implies !touches(
                #[trigger] shorter[k],
                regions[r].0 + i,
            ) by {
                assert(shorter[k] == writes[k]);
            }
            assert(!touches(writes[writes.len() - 1], regions[r].0 + i));
            assert(before[r].1[i] == regions[r].1[i]);
            assert(after[r].1[i] == before[r].1[i]);
        }
    }
}

/// Writes do not move or resize a region, and a byte that none of them touches stays, also where
/// they stop early.
pub proof fn law_writes_leave_other_bytes(
    regions: Seq<(u64, Seq<u8>)>,
    writes: Seq<(u64, Seq<u8>)>,
)
    ensures
        ({
            let after = memory_after(regions, writes);
            &&& after.len() == regions.len()
            &&& forall|r: int|
                0 <= r < regions.len() ==> (#[trigger] after[r]).0 == regions[r].0
                    && after[r].1.len() == regions[r].1.len()
            &&& forall|r: int, i: int|
                0 <= r < regions.len() && 0 <= i < regions[r].1.len() && (forall|k: int|
                    0 <= k < writes.len() ==> !touches(
                        #[trigger] writes[k],
                        regions[r].0 + i,
                    )) ==> #[trigger] after[r].1[i] == regions[r].1[i]
        }),
{
    let stop = first_failure(spans(regions), writes) as int;
    lemma_first_failure_bound(spans(regions), writes);
    if stop == writes.len() {
        lemma_stored_leaves_the_rest(regions, writes);
    } else {
        let done = writes.take(stop);
        let before = all_stored(regions, done);
        lemma_stored_leaves_the_rest(regions, done);
        lemma_mapped_prefix_bound(spans(regions), writes[stop].0 as int, writes[stop].1.len());
        let after = memory_after(regions, writes);
        assert forall|r: int, i: int|
            0 <= r < regions.len() && 0 <= i < regions[r].1.len() && (forall|k: int|
                0 <= k < writes.len() ==> !touches(
                    #[trigger] writes[k],
                    regions[r].0 + i,
                )) implies #[trigger] after[r].1[i] == regions[r].1[i] by {
            assert forall|k: int| 0 <= k < done.len() implies !touches(
                #[trigger] done[k],
                regions[r].0 + i,
            ) by {
                assert(done[k] == writes[k]);
            }
            assert(!touches(writes[stop], regions[r].0 + i));
            assert(before[r].1[i] == regions[r].1[i]);
        }
    }
}

proof fn lemma_first_failure_bound(spans: Seq<(u64, u64)>, writes: Seq<(u64, Seq<u8>)>)
    ensures
        first_failure(spans, writes) <= writes.len(),
    decreases writes.len(),
{
    if writes.len() > 0 {
        lemma_first_failure_bound(spans, writes.drop_last());
    }
}

proof fn lemma_mapped_prefix_bound(spans: Seq<(u64, u64)>, addr: int, len: nat)
    ensures
        mapped_prefix(spans, addr, len) <= len,
    decreases len,
{
    if len > 0 {
        lemma_mapped_prefix_bound(spans, addr, (len - 1) as nat);
    }
}

/// Writes that do not touch one another can all be read back afterwards.
pub proof fn law_disjoint_writes_read_back(
    regions: Seq<(u64, Seq<u8>)>,
    writes: Seq<(u64, Seq<u8>)>,
)
    requires
        disjoint_writes(writes),
    ensures
        forall|k: int|
            0 <= k < writes.len() ==> holds(
                all_stored(regions, writes),
                (#[trigger] writes[k]).0 as int,
                writes[k].1,
            ),
    decreases writes.len(),
{
    if writes.len() > 0 {
        let shorter = writes.drop_last();
        let last = writes.last();
        assert forall|j: int, k: int| 0 <= j < k < shorter.len() implies (
        #[trigger] shorter[j]).0 + shorter[j].1.len() <= (#[trigger] shorter[k]).0 || shorter[k].0
            + shorter[k].1.len() <= shorter[j].0 by {
            assert(shorter[j] == writes[j] && shorter[k] == writes[k]);
        }
        law_disjoint_writes_read_back(regions, shorter);
        let before = all_stored(regions, shorter);
        let after = all_stored(regions, writes);
        assert forall|k: int| 0 <= k < writes.len() implies holds(
            after,
            (#[trigger] writes[k]).0 as int,
            writes[k].1,
        ) by {
            if k < shorter.len() {
                assert(shorter[k] == writes[k]);
                assert(holds(before, shorter[k].0 as int, shorter[k].1));
                assert(writes[k].0 + writes[k].1.len() <= writes[writes.len() - 1].0
                    || writes[writes.len() - 1].0 + writes[writes.len() - 1].1.len()
                    <= writes[k].0);
                assert forall|r: int, i: int|
                    0 <= r < after.len() && 0 <= i < after[r].1.len() && writes[k].0 <= after[r].0
                        + i < writes[k].0 + writes[k].1.len() implies #[trigger] after[r].1[i]
                    == writes[k].1[after[r].0 + i - writes[k].0] by {
                    assert(before[r].1[i] == writes[k].1[before[r].0 + i - writes[k].0]);
                    assert(!touches(last, after[r].0 + i));
                }
            }
        }
    }
}

/// A write lands if every address of its range is mapped.
pub(crate) proof fn lemma_mapped_range_lands(
    spans: Seq<(u64, u64)>,
    addr: int,
    len: nat,
)
    requires
        forall|a: int| addr <= a < addr + len ==> #[trigger] mapped(spans, a),
    ensures
        mapped_prefix(spans, addr, len) == len,
    decreases len,
{
    if len > 0 {
        lemma_mapped_range_lands(spans, addr, (len - 1) as nat);
        assert(mapped(spans, addr + len - 1));
    }
}

/// Writes that land one by one all succeed.
pub(crate) proof fn lemma_all_land(spans: Seq<(u64, u64)>, writes: Seq<(u64, Seq<u8>)>)
    requires
        forall|k: int| 0 <= k < writes.len() ==> lands(spans, #[trigger] writes[k]),
    ensures
        first_failure(spans, writes) == writes.len(),
        write_outcome(spans, writes) == Ok::<(), GuestMemoryError>(()),
    decreases writes.len(),
{
    if writes.len() > 0 {
        let shorter = writes.drop_last();
        assert forall|k: int| 0 <= k < shorter.len() implies lands(spans, #[trigger] shorter[k]) by {
            assert(shorter[k] == writes[k]);
        }
        lemma_all_land(spans, shorter);
        assert(lands(spans, writes[writes.len() - 1]));
    }
}

/// Where writes succeed, each of them landed.
pub(crate) proof fn lemma_success_lands(spans: Seq<(u64, u64)>, writes: Seq<(u64, Seq<u8>)>)
    requires
        first_failure(spans, writes) == writes.len(),
    ensures
        forall|k: int| 0 <= k < writes.len() ==> lands(spans, #[trigger] writes[k]),
    decreases writes.len(),
{
    if writes.len() > 0 {
        let shorter = writes.drop_last();
        lemma_first_failure_bound(spans, shorter);
        lemma_success_lands(spans, shorter);
        assert forall|k: int| 0 <= k < writes.len() implies lands(spans, #[trigger] writes[k]) by {
            if k < shorter.len() {
                assert(lands(spans, shorter[k]));
            }
        }
    }
}

/// The spans of regions are their starts and lengths. An address is mapped if one of the spans
/// contains it: none does at first, and one more span adds its own addresses and no others.
pub proof fn law_mapped_is_membership(
    regions: Seq<(u64, Seq<u8>)>,
    list: Seq<(u64, u64)>,
    span: (u64, u64),
    addr: int,
)
    ensures
        spans(regions).len() == regions.len(),
        forall|r: int|
            0 <= r < regions.len() && regions[r].1.len() <= u64::MAX ==> (#[trigger] spans(
                regions,
            )[r]).0 == regions[r].0 && spans(regions)[r].1 == regions[r].1.len(),
        !mapped(Seq::empty(), addr),
        mapped(list.push(span), addr) <==> mapped(list, addr) || span.0 <= addr < span.0 + span.1,
{
    let longer = list.push(span);
    if mapped(list, addr) {
        let r = choose|r: int|
            0 <= r < list.len() && #[trigger] list[r].0 <= addr < list[r].0 + list[r].1;
        assert(longer[r] == list[r]);
        assert(longer[r].0 <= addr < longer[r].0 + longer[r].1);
    }
    if span.0 <= addr < span.0 + span.1 {
        assert(longer[list.len() as int].0 <= addr < longer[list.len() as int].0
            + longer[list.len() as int].1);
    }
    if mapped(longer, addr) {
        let r = choose|r: int|
            0 <= r < longer.len() && #[trigger] longer[r].0 <= addr < longer[r].0 + longer[r].1;
        if r < list.len() {
            assert(list[r].0 <= addr < list[r].0 + list[r].1);
        }
    }
}

/// What it means that spans are in order: each ends inside the address space and before the next
/// begins.
pub proof fn law_spans_in_order(list: Seq<(u64, u64)>, span: (u64, u64))
    ensures
        spans_in_order(Seq::empty()),
        spans_in_order(list.push(span)) <==> {
            &&& spans_in_order(list)
            &&& span.0 + span.1 <= 0xffff_ffff_ffff_ffff
            &&& forall|r: int|
                0 <= r < list.len() ==> (#[trigger] list[r]).0 + list[r].1 <= span.0
        },
{
    let longer = list.push(span);
    assert forall|r: int| 0 <= r < list.len() implies #[trigger] longer[r] == list[r] by {}
    assert(longer[list.len() as int] == span);
    if spans_in_order(longer) {
        assert forall|r: int| 0 <= r < list.len() implies (#[trigger] list[r]).0 + list[r].1
            <= u64::MAX && list[r].0 + list[r].1 <= span.0 by {
            assert(longer[r] == list[r]);
        }
        assert forall|r: int, s: int| 0 <= r < s < list.len() implies (#[trigger] list[r]).0
            + list[r].1 <= (#[trigger] list[s]).0 by {
            assert(longer[r] == list[r] && longer[s] == list[s]);
        }
    }
}

/// A write gets as far as the first unmapped address of its range, and lands if there is none.
pub proof fn law_mapped_prefix_stops_at_the_first_hole(
    list: Seq<(u64, u64)>,
    addr: u64,
    bytes: Seq<u8>,
)
    ensures
        ({
            let k = mapped_prefix(list, addr as int, bytes.len()) as int;
            &&& k <= bytes.len()
            &&& forall|a: int| addr <= a < addr + k ==> #[trigger] mapped(list, a)
            &&& k < bytes.len() ==> !mapped(list, addr + k)
        }),
        lands(list, (addr, bytes)) <==> forall|a: int|
            addr <= a < addr + bytes.len() ==> #[trigger] mapped(list, a),
{
    lemma_prefix_stops_at_the_first_hole(list, addr as int, bytes.len());
    if forall|a: int| addr <= a < addr + bytes.len() ==> #[trigger] mapped(list, a) {
        lemma_mapped_range_lands(list, addr as int, bytes.len());
    }
}

proof fn lemma_prefix_stops_at_the_first_hole(list: Seq<(u64, u64)>, addr: int, len: nat)
    ensures
        ({
            let k = mapped_prefix(list, addr, len);
            &&& k <= len
            &&& forall|a: int| addr <= a < addr + k ==> #[trigger] mapped(list, a)
            &&& k < len ==> !mapped(list, addr + k)
        }),
    decreases len,
{
    if len > 0 {
        lemma_prefix_stops_at_the_first_hole(list, addr, (len - 1) as nat);
    }
}

/// Storing bytes keeps the regions where they are, puts each byte at its address and leaves every
/// other byte.
pub proof fn law_stored_byte_by_byte(
    regions: Seq<(u64, Seq<u8>)>,
    addr: int,
    bytes: Seq<u8>,
    r: int,
    i: int,
)
    requires
        0 <= r < regions.len(),
        0 <= i < regions[r].1.len(),
    ensures
        stored(regions, addr, bytes).len() == regions.len(),
        stored(regions, addr, bytes)[r].0 == regions[r].0,
        stored(regions, addr, bytes)[r].1.len() == regions[r].1.len(),
        ({
            let a = regions[r].0 + i;
            let byte = stored(regions, addr, bytes)[r].1[i];
            &&& addr <= a < addr + bytes.len() ==> byte == bytes[a - addr]
            &&& a < addr || addr + bytes.len() <= a ==> byte == regions[r].1[i]
        }),
{
}

/// Writes stop at the first that does not land, with the error of that one; before it all land, and
/// without one they succeed.
pub proof fn law_writes_stop_at_the_first_failure(
    list: Seq<(u64, u64)>,
    writes: Seq<(u64, Seq<u8>)>,
)
    ensures
        ({
            let stop = first_failure(list, writes) as int;
            &&& stop <= writes.len()
            &&& forall|j: int| 0 <= j < stop ==> lands(list, #[trigger] writes[j])
            &&& stop < writes.len() ==> !lands(list, writes[stop])
            &&& stop == writes.len() ==> write_outcome(list, writes) == Ok::<
                (),
                GuestMemoryError,
            >(())
            &&& stop < writes.len() ==> write_outcome(list, writes) == Err::<
                (),
                GuestMemoryError,
            >(
                write_error(
                    writes[stop].0,
                    writes[stop].1.len(),
                    mapped_prefix(list, writes[stop].0 as int, writes[stop].1.len()),
                ),
            )
        }),
    decreases writes.len(),
{
    if writes.len() > 0 {
        let shorter = writes.drop_last();
        law_writes_stop_at_the_first_failure(list, shorter);
        let stop = first_failure(list, writes) as int;
        assert forall|j: int| 0 <= j < stop implies lands(list, #[trigger] writes[j]) by {
            if j < shorter.len() {
                assert(lands(list, shorter[j]));
            }
        }
        if stop < shorter.len() {
            assert(!lands(list, shorter[stop]));
        }
    }
}

/// Where all of `writes` are stored, each byte is that of the last write that touches it, and what
/// none touches stays.
pub proof fn law_the_last_write_counts(
    regions: Seq<(u64, Seq<u8>)>,
    writes: Seq<(u64, Seq<u8>)>,
    k: int,
    r: int,
    i: int,
)
    requires
        0 <= r < regions.len(),
        0 <= i < regions[r].1.len(),
        -1 <= k < writes.len(),
        k >= 0 ==> writes[k].0 <= regions[r].0 + i < writes[k].0 + writes[k].1.len(),
        forall|j: int|
            k < j < writes.len() ==> !((#[trigger] writes[j]).0 <= regions[r].0 + i < writes[j].0
                + writes[j].1.len()),
    ensures
        all_stored(regions, writes).len() == regions.len(),
        all_stored(regions, writes)[r].0 == regions[r].0,
        all_stored(regions, writes)[r].1.len() == regions[r].1.len(),
        all_stored(regions, writes)[r].1[i] == if k >= 0 {
            writes[k].1[regions[r].0 + i - writes[k].0]
        } else {
            regions[r].1[i]
        },
    decreases writes.len(),
{
    lemma_stored_leaves_the_rest(regions, writes);
    if writes.len() > 0 {
        let shorter = writes.drop_last();
        lemma_stored_leaves_the_rest(regions, shorter);
        if k < shorter.len() {
            assert forall|j: int| k < j < shorter.len() implies !((#[trigger] shorter[j]).0
                <= regions[r].0 + i < shorter[j].0 + shorter[j].1.len()) by {
                assert(shorter[j] == writes[j]);
            }
            law_the_last_write_counts(regions, shorter, k, r, i);
            let last = writes[writes.len() - 1];
            assert(!(last.0 <= regions[r].0 + i < last.0 + last.1.len()));
        }
    }
}

/// Memory after a list of writes is memory with all of them stored, the first that does not land
/// cut short at its hole and those behind it left out.
pub proof fn law_memory_after_writes(
    regions: Seq<(u64, Seq<u8>)>,
    writes: Seq<(u64, Seq<u8>)>,
    stop: int,
)
    requires
        0 <= stop <= writes.len(),
        forall|j: int| 0 <= j < stop ==> lands(spans(regions), #[trigger] writes[j]),
        stop < writes.len() ==> !lands(spans(regions), writes[stop]),
    ensures
        memory_after(regions, writes) == all_stored(
            regions,
            if stop == writes.len() {
                writes
            } else {
                writes.take(stop).push(
                    (
                        writes[stop].0,
                        writes[stop].1.take(
                            mapped_prefix(
                                spans(regions),
                                writes[stop].0 as int,
                                writes[stop].1.len(),
                            ) as int,
                        ),
                    ),
                )
            },
        ),
{
    let list = spans(regions);
    law_writes_stop_at_the_first_failure(list, writes);
    let found = first_failure(list, writes) as int;
    if found < stop {
        assert(lands(list, writes[found]));
    }
    if stop < found {
        assert(lands(list, writes[stop]));
    }
    if stop < writes.len() {
        let cut = (
            writes[stop].0,
            writes[stop].1.take(
                mapped_prefix(list, writes[stop].0 as int, writes[stop].1.len()) as int,
            ),
        );
        assert(writes.take(stop).push(cut).drop_last() =~= writes.take(stop));
    }
}

/// Bytes that are present can be read: each of their addresses is mapped, and a region that
/// contains the address has that byte there.
pub proof fn law_present_bytes_can_be_read(
    regions: Seq<(u64, Seq<u8>)>,
    addr: int,
    bytes: Seq<u8>,
    k: int,
)
    requires
        present(regions, addr, bytes),
        0 <= k < bytes.len(),
        forall|r: int| 0 <= r < regions.len() ==> (#[trigger] regions[r]).1.len() <= u64::MAX,
    ensures
        exists|r: int, i: int|
            0 <= r < regions.len() && 0 <= i < regions[r].1.len() && regions[r].0 + i == addr + k
                && #[trigger] regions[r].1[i] == bytes[k],
        forall|r: int, i: int|
            0 <= r < regions.len() && 0 <= i < regions[r].1.len() && regions[r].0 + i == addr + k
                ==> #[trigger] regions[r].1[i] == bytes[k],
{
    let list = spans(regions);
    lemma_prefix_stops_at_the_first_hole(list, addr, bytes.len());
    assert(mapped(list, addr + k));
    let r = choose|r: int|
        0 <= r < list.len() && #[trigger] list[r].0 <= addr + k < list[r].0 + list[r].1;
    let i = addr + k - regions[r].0;
    assert(regions[r].1.len() <= u64::MAX);
    assert(regions[r].1[i] == bytes[regions[r].0 + i - addr]);
}

/// A list of writes is taken as it is, and fresh RAM is zero at the ranges that it was asked for.
pub proof fn law_plain_views(writes: Seq<(u64, Vec<u8>)>, ranges: Seq<(u64, usize)>)
    ensures
        write_list(writes).len() == writes.len(),
        forall|k: int|
            0 <= k < writes.len() ==> (#[trigger] write_list(writes)[k]).0 == writes[k].0
                && write_list(writes)[k].1 == writes[k].1@,
        zeroed_regions(ranges).len() == ranges.len(),
        forall|r: int|
            0 <= r < ranges.len() ==> (#[trigger] zeroed_regions(ranges)[r]).0 == ranges[r].0
                && zeroed_regions(ranges)[r].1.len() == ranges[r].1,
        forall|r: int, i: int|
            0 <= r < ranges.len() && 0 <= i < ranges[r].1 ==> #[trigger] zeroed_regions(
                ranges,
            )[r].1[i] == 0,
{
}

} // verus!
