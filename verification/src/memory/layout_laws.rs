//! What the plan for the allocator's data is, in terms of the memory map alone.
//!
//! In these laws, `regions` are the usable entries of the memory map, in order, and `size` is how
//! many bytes the data takes: for each region a bit for each of its frames, rounded up to whole
//! bytes, and a `MemoryRegion`.

use crate::memory::addr::PhysAddr;
use crate::memory::frame::FrameRange;
use crate::memory::layout::{
    bitmap_total, host, is_host, layout, lemma_host, metadata_size, usable, LayoutError,
    MemoryMapEntry, MetadataLayout,
};
use crate::memory::region::MemoryRegion;
use vstd::layout::size_of;
use vstd::prelude::*;

verus! {

/// Planning succeeds whenever it can, and packs the data into the first region that is long
/// enough: where every region ends below the highest physical address, the size of the data and
/// where it ends are in range, region `k` is the first one as long as the data, and its bitmap has
/// a bit for every frame of the data.
pub proof fn planning_succeeds_whenever_it_can(
    entries: Seq<MemoryMapEntry>,
    hhdm_offset: u64,
    regions: Seq<MemoryMapEntry>,
    size: int,
    k: int,
)
    requires
        regions == entries.filter(|e: MemoryMapEntry| e.usable),
        size == regions.fold_left(
            0int,
            |sum: int, e: MemoryMapEntry| sum + (e.length as int / 4096 + 7) / 8,
        ) + regions.len() * size_of::<MemoryRegion<'static>>(),
        forall|j: int|
            0 <= j < regions.len() ==> (#[trigger] regions[j]).base + regions[j].length
                < 0x10_0000_0000_0000 && regions[j].length as int / 4096 <= usize::MAX,
        0 <= k < regions.len(),
        size <= regions[k].length,
        forall|j: int| 0 <= j < k ==> (#[trigger] regions[j]).length < size,
        (size + 4095) / 4096 <= (regions[k].length as int / 4096 + 7) / 8 * 8,
        regions[k].base + hhdm_offset + size <= usize::MAX,
        regions.len() <= usize::MAX,
    ensures
        layout(entries, hhdm_offset) matches Ok(plan) && {
            &&& plan.num_regions == regions.len()
            &&& plan.size == size
            &&& plan.size <= 4096 * plan.frames_needed < plan.size + 4096
            &&& plan.host == k
            &&& plan.host_base == regions[k].base
            &&& plan.region_start == regions[k].base + hhdm_offset
            &&& plan.bitmap_start == plan.region_start + regions.len() * size_of::<
                MemoryRegion<'static>,
            >()
        },
{
    lemma_data_of(entries, regions, size);
    lemma_host(regions, size);
    assert(is_host(regions, size, k));
    assert(0 <= regions.len() * size_of::<MemoryRegion<'static>>()) by (nonlinear_arith);
    assert(metadata_size(regions) == size);
    assert(size <= usize::MAX);
    assert(host(regions, size) == Some(k));
}

/// Planning fails only where it must. It is an overflow only where a region does not end below
/// the highest physical address, or a number of frames, the size of the data or the address past
/// it is out of range; there is no space only where no region is as long as the data; and the host
/// is too short only where the bitmap of the first region that is as long as the data has too few
/// bits for the frames of the data.
pub proof fn planning_fails_only_where_it_must(
    entries: Seq<MemoryMapEntry>,
    hhdm_offset: u64,
    regions: Seq<MemoryMapEntry>,
    size: int,
)
    requires
        regions == entries.filter(|e: MemoryMapEntry| e.usable),
        size == regions.fold_left(
            0int,
            |sum: int, e: MemoryMapEntry| sum + (e.length as int / 4096 + 7) / 8,
        ) + regions.len() * size_of::<MemoryRegion<'static>>(),
    ensures
        layout(entries, hhdm_offset) == Err::<MetadataLayout, _>(LayoutError::Overflow) ==> {
            ||| exists|j: int|
                0 <= j < regions.len() && ((#[trigger] regions[j]).base + regions[j].length
                    >= 0x10_0000_0000_0000 || regions[j].length as int / 4096 > usize::MAX)
            ||| size > usize::MAX
            ||| exists|k: int|
                0 <= k < regions.len() && (#[trigger] regions[k]).length >= size && regions[k].base
                    + hhdm_offset + size > usize::MAX && forall|j: int|
                    0 <= j < k ==> (#[trigger] regions[j]).length < size
        },
        layout(entries, hhdm_offset) == Err::<MetadataLayout, _>(LayoutError::NoSpace) ==> forall|
            j: int,
        |
            0 <= j < regions.len() ==> (#[trigger] regions[j]).length < size,
        layout(entries, hhdm_offset) == Err::<MetadataLayout, _>(LayoutError::HostTooShort)
            ==> exists|k: int|
            0 <= k < regions.len() && (#[trigger] regions[k]).length >= size && (size + 4095) / 4096
                > (regions[k].length as int / 4096 + 7) / 8 * 8 && forall|j: int|
                0 <= j < k ==> (#[trigger] regions[j]).length < size,
{
    lemma_data_of(entries, regions, size);
    lemma_host(regions, size);
    assert(metadata_size(regions) == size);
    if let Some(k) = host(regions, size) {
        assert(is_host(regions, size, k));
        assert(regions[k].length >= size);
    }
}

/// A plan places the data inside its host, which is usable memory: it starts where the host starts,
/// and ends where the host ends or before. The regions come one after the other, then the bitmaps
/// in the same order, each with a bit for every frame of its region. The frames that are reserved
/// are those that the data lies in.
pub proof fn plan_places_the_data(
    plan: MetadataLayout,
    entries: Seq<MemoryMapEntry>,
    hhdm_offset: u64,
    regions: Seq<MemoryMapEntry>,
    k: int,
)
    requires
        layout(entries, hhdm_offset) == Ok::<_, LayoutError>(plan),
        regions == entries.filter(|e: MemoryMapEntry| e.usable),
        0 <= k < regions.len(),
        regions.len() <= usize::MAX,
    ensures
        usable(entries) == regions,
        plan.num_regions == regions.len(),
        plan.host < regions.len(),
        plan.host_base == regions[plan.host as int].base,
        plan.size <= regions[plan.host as int].length,
        plan.region_start == plan.host_base + hhdm_offset,
        plan.region_at(k) == plan.region_start + k * size_of::<MemoryRegion<'static>>(),
        plan.bitmap_at(regions, 0) == plan.region_start + regions.len() * size_of::<
            MemoryRegion<'static>,
        >(),
        k + 1 < regions.len() ==> plan.bitmap_at(regions, k + 1) == plan.bitmap_at(regions, k) + (
        regions[k].length as int / 4096 + 7) / 8,
        k + 1 == regions.len() ==> plan.bitmap_at(regions, k) + (regions[k].length as int / 4096
            + 7) / 8 == plan.region_start + plan.size,
        regions[k].bitmap_bytes() == (regions[k].length as int / 4096 + 7) / 8,
        plan.reserved() == (FrameRange {
            start: PhysAddr(plan.host_base),
            count: plan.frames_needed,
        }),
        plan.size <= 4096 * plan.frames_needed < plan.size + 4096,
{
    let f = |e: MemoryMapEntry| e.usable;
    lemma_usable_is_filter(entries, f);
    lemma_host(regions, metadata_size(regions) as int);
    let h = host(regions, metadata_size(regions) as int)->0;
    assert(is_host(regions, metadata_size(regions) as int, h));
    assert(0 <= regions.len() * size_of::<MemoryRegion<'static>>()) by (nonlinear_arith);
    assert(regions.take(0) =~= Seq::empty());
    assert(regions.take(k + 1).drop_last() =~= regions.take(k));
    if k + 1 == regions.len() {
        assert(regions.take(k + 1) =~= regions);
    }
}

proof fn lemma_data_of(
    entries: Seq<MemoryMapEntry>,
    regions: Seq<MemoryMapEntry>,
    size: int,
)
    requires
        regions == entries.filter(|e: MemoryMapEntry| e.usable),
        size == regions.fold_left(
            0int,
            |sum: int, e: MemoryMapEntry| sum + (e.length as int / 4096 + 7) / 8,
        ) + regions.len() * size_of::<MemoryRegion<'static>>(),
    ensures
        usable(entries) == regions,
        metadata_size(regions) == size,
{
    lemma_usable_is_filter(entries, |e: MemoryMapEntry| e.usable);
    lemma_bitmap_total_is_sum(
        regions,
        |sum: int, e: MemoryMapEntry| sum + (e.length as int / 4096 + 7) / 8,
    );
}

proof fn lemma_usable_is_filter(
    entries: Seq<MemoryMapEntry>,
    f: spec_fn(MemoryMapEntry) -> bool,
)
    requires
        forall|e: MemoryMapEntry| #[trigger] f(e) == e.usable,
    ensures
        usable(entries) == entries.filter(f),
    decreases entries.len(),
{
    reveal(Seq::filter);
    if entries.len() > 0 {
        lemma_usable_is_filter(entries.drop_last(), f);
    }
}

proof fn lemma_bitmap_total_is_sum(
    regions: Seq<MemoryMapEntry>,
    f: spec_fn(int, MemoryMapEntry) -> int,
)
    requires
        forall|sum: int, e: MemoryMapEntry| #[trigger]
            f(sum, e) == sum + (e.length as int / 4096 + 7) / 8,
    ensures
        bitmap_total(regions) == regions.fold_left(0int, f),
    decreases regions.len(),
{
    if regions.len() > 0 {
        lemma_bitmap_total_is_sum(regions.drop_last(), f);
    }
}

} // verus!
