//! Physical memory as the rest of the kernel sees it: frames to take and give back, and the
//! direct map, through which all of physical memory is reachable at a fixed offset.

pub mod addr;
pub mod bitmap;
pub mod bitmap_laws;
pub mod frame;
pub mod layout;
pub mod layout_laws;
pub mod memory_laws;
pub mod region;
pub mod region_laws;
pub mod shared;
pub mod vmm;
pub mod vmm_laws;

use crate::memory::addr::{
    is_canonical, is_phys, PhysAddr, VirtAddr, LOWER_HALF_LIMIT, UPPER_HALF_START,
};
use crate::memory::bitmap::{
    after_alloc, after_dealloc, alloc_result, fresh, lemma_owner, lemma_serving, models,
    regions_wf, BitmapFrameAllocator,
};
use crate::memory::bitmap_laws::{
    aligned, allocation_takes_free_frames, regions_do_not_move, served_iff_run_exists,
};
use crate::memory::frame::{
    as_single_run, is_frame_base, Frame, FrameAllocError, FrameAllocator, FrameRange, FRAME_SIZE,
};
use crate::memory::layout::MetadataLayout;
use crate::memory::region::{MemoryRegion, RegionModel};
use crate::sync::WellFormed;
use vstd::prelude::*;

verus! {

/// The state of physical memory: the frame allocator and the offset of the direct map.
pub struct PhysicalMemory<'a> {
    pub frame_allocator: BitmapFrameAllocator<'a>,
    pub hhdm_offset: u64,
}

/// What the direct map's offset must be a multiple of, for stacks to be aligned.
pub const OFFSET_ALIGN: u64 = 16;

/// Whether the direct map at `hhdm_offset` shows the bytes `lo..hi` at canonical addresses, and
/// the address past the last one fits a `u64`.
pub open spec fn range_mapped(hhdm_offset: u64, lo: int, hi: int) -> bool {
    ||| hi + hhdm_offset <= LOWER_HALF_LIMIT
    ||| UPPER_HALF_START <= lo + hhdm_offset && hi + hhdm_offset <= u64::MAX
}

/// Whether the kernel can use all of `regions` through the direct map at `hhdm_offset`: it reaches
/// all of them, and they start at frame boundaries.
pub open spec fn reachable(regions: Seq<RegionModel>, hhdm_offset: u64) -> bool {
    &&& hhdm_offset as int % OFFSET_ALIGN as int == 0
    &&& aligned(regions)
    &&& forall|k: int|
        0 <= k < regions.len() ==> range_mapped(
            hhdm_offset,
            (#[trigger] regions[k]).start,
            regions[k].end,
        )
}

/// Whether the kernel can use all of `regions` through the direct map at `hhdm_offset`.
pub fn is_reachable(regions: &[MemoryRegion<'_>], hhdm_offset: u64) -> (r: bool)
    ensures
        r == reachable(models(regions@), hhdm_offset),
{
    if hhdm_offset % OFFSET_ALIGN != 0 {
        return false;
    }
    let ghost all = models(regions@);
    let mut k: usize = 0;
    while k < regions.len()
        invariant
            k <= regions@.len(),
            all == models(regions@),
            hhdm_offset as int % OFFSET_ALIGN as int == 0,
            forall|i: int|
                0 <= i < k ==> is_frame_base((#[trigger] all[i]).start) && range_mapped(
                    hhdm_offset,
                    all[i].start,
                    all[i].end,
                ),
        decreases regions@.len() - k,
    {
        let start: PhysAddr = regions[k].start;
        let end: PhysAddr = regions[k].end;
        assert(all[k as int].start == start.0 && all[k as int].end == end.0);
        if !start.is_aligned(FRAME_SIZE as u64) {
            return false;
        }
        let lo: u128 = start.as_u64() as u128 + hhdm_offset as u128;
        let hi: u128 = end.as_u64() as u128 + hhdm_offset as u128;
        let mapped: bool = hi <= LOWER_HALF_LIMIT as u128 || (lo >= UPPER_HALF_START as u128 && hi
            <= u64::MAX as u128);
        if !mapped {
            assert(!range_mapped(hhdm_offset, all[k as int].start, all[k as int].end));
            return false;
        }
        k = k + 1;
    }
    true
}

impl<'a> WellFormed for PhysicalMemory<'a> {
    /// The kernel can use all of the memory that it allocates.
    open spec fn wf(&self) -> bool {
        &&& self.frame_allocator.inv()
        &&& self.frame_allocator@ matches Some(regions) ==> reachable(regions, self.hhdm_offset)
    }
}

impl<'a> PhysicalMemory<'a> {
    /// The state before `init`: no frames, and no direct map.
    pub fn new() -> (memory: Self)
        ensures
            memory.frame_allocator@ is None,
            memory.hhdm_offset == 0,
            memory.wf(),
    {
        PhysicalMemory { frame_allocator: BitmapFrameAllocator::new(), hhdm_offset: 0 }
    }
}

/// Initializes physical memory. Must be called exactly once, before anything tries to allocate
/// frames or translate addresses.
pub fn init<'a>(
    memory: &mut PhysicalMemory<'a>,
    hhdm_offset: u64,
    regions: &'a mut [MemoryRegion<'a>],
    layout: &MetadataLayout,
)
    requires
        old(memory).frame_allocator@ is None,
        regions_wf(models(old(regions)@)),
        layout.host < old(regions)@.len(),
        is_phys(layout.host_base as int),
        is_frame_base(layout.host_base as int),
        old(regions)@[layout.host as int]@.covers(layout.reserved()),
    ensures
        final(memory).hhdm_offset == hhdm_offset,
        final(memory).frame_allocator.inv(),
        final(memory).frame_allocator@ == Some(
            fresh(models(old(regions)@), layout.host as int, layout.reserved()),
        ),
        reachable(models(old(regions)@), hhdm_offset) ==> final(memory).wf(),
{
    proof {
        if reachable(models(regions@), hhdm_offset) {
            fresh_regions_are_reachable(
                models(regions@),
                hhdm_offset,
                layout.host as int,
                layout.reserved(),
            );
        }
    }
    memory.hhdm_offset = hhdm_offset;
    memory.frame_allocator.init(regions, layout);
}

pub fn alloc_frames(memory: &mut PhysicalMemory<'_>, count: usize) -> (result: Result<
    FrameRange,
    FrameAllocError,
>)
    requires
        old(memory).frame_allocator.inv(),
        old(memory).frame_allocator.can_alloc(count),
    ensures
        final(memory).frame_allocator.inv(),
        final(memory).hhdm_offset == old(memory).hhdm_offset,
        FrameAllocator::alloc_step(
            &old(memory).frame_allocator,
            count,
            result,
            &final(memory).frame_allocator,
        ),
        result matches Ok(frames) ==> is_frame_base(frames.start.0 as int) && frames.count == count
            && frames.start.wf(),
        old(memory).wf() ==> final(memory).wf(),
        old(memory).wf() ==> (result matches Ok(frames) ==> in_direct_map(
            old(memory).hhdm_offset,
            frames.start,
        )),
{
    proof {
        lemma_wf_after_alloc(*memory, count);
    }
    memory.frame_allocator.allocate(count)
}

pub fn alloc_frame(memory: &mut PhysicalMemory<'_>) -> (result: Result<Frame, FrameAllocError>)
    requires
        old(memory).frame_allocator.inv(),
        old(memory).frame_allocator.can_alloc(1),
    ensures
        final(memory).frame_allocator.inv(),
        final(memory).hhdm_offset == old(memory).hhdm_offset,
        FrameAllocator::alloc_step(
            &old(memory).frame_allocator,
            1,
            as_single_run(result),
            &final(memory).frame_allocator,
        ),
        result matches Ok(frame) ==> is_frame_base(frame.0.0 as int) && frame.0.wf(),
        old(memory).wf() ==> final(memory).wf(),
        old(memory).wf() ==> (result matches Ok(frame) ==> in_direct_map(
            old(memory).hhdm_offset,
            frame.0,
        )),
{
    proof {
        lemma_wf_after_alloc(*memory, 1);
    }
    memory.frame_allocator.alloc_one()
}

pub fn dealloc_frames(memory: &mut PhysicalMemory<'_>, frames: FrameRange)
    requires
        old(memory).frame_allocator.inv(),
        old(memory).frame_allocator.can_dealloc(frames),
    ensures
        final(memory).frame_allocator.inv(),
        final(memory).hhdm_offset == old(memory).hhdm_offset,
        FrameAllocator::dealloc_step(
            &old(memory).frame_allocator,
            frames,
            &final(memory).frame_allocator,
        ),
        old(memory).wf() ==> final(memory).wf(),
{
    proof {
        lemma_wf_after_dealloc(*memory, frames);
    }
    memory.frame_allocator.dealloc(frames);
}

pub fn dealloc_frame(memory: &mut PhysicalMemory<'_>, frame: Frame)
    requires
        old(memory).frame_allocator.inv(),
        is_frame_base(frame.0.0 as int),
        old(memory).frame_allocator.can_dealloc(FrameRange { start: frame.0, count: 1 }),
    ensures
        final(memory).frame_allocator.inv(),
        final(memory).hhdm_offset == old(memory).hhdm_offset,
        FrameAllocator::dealloc_step(
            &old(memory).frame_allocator,
            (FrameRange { start: frame.0, count: 1 }),
            &final(memory).frame_allocator,
        ),
        old(memory).wf() ==> final(memory).wf(),
{
    proof {
        lemma_wf_after_dealloc(*memory, FrameRange { start: frame.0, count: 1 });
    }
    memory.frame_allocator.dealloc_one(frame);
}

pub fn total_frames(memory: &PhysicalMemory<'_>) -> (count: usize)
    requires
        memory.frame_allocator.inv(),
    ensures
        count == memory.frame_allocator.total(),
{
    memory.frame_allocator.total_frames()
}

pub fn free_frames(memory: &PhysicalMemory<'_>) -> (count: usize)
    requires
        memory.frame_allocator.inv(),
    ensures
        count == memory.frame_allocator.free(),
{
    memory.frame_allocator.free_frames()
}

/// The answer to a request for `count` frames, by an allocator whose view is `allocator`.
pub open spec fn answer(allocator: Option<Seq<RegionModel>>, count: usize) -> Result<
    FrameRange,
    FrameAllocError,
> {
    match allocator {
        None => Err(FrameAllocError::NotInitialized),
        Some(regions) => match alloc_result(regions, count) {
            Some(frames) => Ok(frames),
            None => Err(FrameAllocError::OutOfMemory),
        },
    }
}

/// The view of the allocator after a request for `count` frames.
pub open spec fn after_answer(allocator: Option<Seq<RegionModel>>, count: usize) -> Option<
    Seq<RegionModel>,
> {
    match allocator {
        None => None,
        Some(regions) => Some(after_alloc(regions, count)),
    }
}

/// The answer to a request for `count` frames.
pub open spec fn frames_for(memory: PhysicalMemory<'_>, count: usize) -> Result<
    FrameRange,
    FrameAllocError,
> {
    answer(memory.frame_allocator@, count)
}

/// Whether `after` is the memory after a request for `count` frames in `before`.
pub open spec fn frames_requested(
    before: PhysicalMemory<'_>,
    count: usize,
    after: PhysicalMemory<'_>,
) -> bool {
    &&& after.frame_allocator.inv()
    &&& after.hhdm_offset == before.hhdm_offset
    &&& after.frame_allocator@ == after_answer(before.frame_allocator@, count)
}

/// Well-formed memory can always be asked for frames, and the direct map reaches whatever it hands
/// out, to the last byte.
pub proof fn well_formed_memory_serves(memory: PhysicalMemory<'_>, count: usize)
    requires
        memory.wf(),
    ensures
        memory.frame_allocator.can_alloc(count),
        memory.frame_allocator@ matches Some(regions) ==> (alloc_result(regions, count) matches Some(
            frames,
        ) ==> {
            &&& frames.count == count
            &&& is_frame_base(frames.start.0 as int)
            &&& in_direct_map(memory.hhdm_offset, frames.start)
            &&& range_mapped(memory.hhdm_offset, frames.start.0 as int, frames.end())
            &&& 1 <= count
            &&& count * FRAME_SIZE <= u64::MAX
        }),
{
    if let Some(regions) = memory.frame_allocator@ {
        regions_do_not_move(regions, count, FrameRange { start: PhysAddr(0), count: 0 });
        if let Some(frames) = alloc_result(regions, count) {
            let (k, at) = allocation_takes_free_frames(regions, count, frames);
            lemma_serving(regions, count as int, 0);
            regions[k].lemma_first_fit(count as int);
            assert(regions[k].wf());
            assert(range_mapped(memory.hhdm_offset, regions[k].start, regions[k].end));
            regions[k].lemma_frame_addr(at);
            assert(is_frame_base(regions[k].start));
            served_iff_run_exists(regions, count);
        }
    }
}

/// Regions stay reachable when every frame is marked free but those of `reserved`.
proof fn fresh_regions_are_reachable(
    regions: Seq<RegionModel>,
    hhdm_offset: u64,
    host: int,
    reserved: FrameRange,
)
    requires
        reachable(regions, hhdm_offset),
    ensures
        reachable(fresh(regions, host, reserved), hhdm_offset),
{
    let start = fresh(regions, host, reserved);
    assert forall|k: int| 0 <= k < start.len() implies range_mapped(
        hhdm_offset,
        (#[trigger] start[k]).start,
        start[k].end,
    ) && is_frame_base(start[k].start) by {
        assert(range_mapped(hhdm_offset, regions[k].start, regions[k].end));
        assert(is_frame_base(regions[k].start));
    }
}

proof fn lemma_wf_after_alloc(memory: PhysicalMemory<'_>, count: usize)
    ensures
        memory.wf() ==> (memory.frame_allocator@ matches Some(regions) ==> {
            &&& reachable(after_alloc(regions, count), memory.hhdm_offset)
            &&& alloc_result(regions, count) matches Some(frames) ==> in_direct_map(
                memory.hhdm_offset,
                frames.start,
            )
        }),
{
    if memory.wf() {
        well_formed_memory_serves(memory, count);
        if let Some(regions) = memory.frame_allocator@ {
            regions_do_not_move(regions, count, FrameRange { start: PhysAddr(0), count: 0 });
            lemma_serving(regions, count as int, 0);
            let after = after_alloc(regions, count);
            assert forall|k: int| 0 <= k < after.len() implies range_mapped(
                memory.hhdm_offset,
                (#[trigger] after[k]).start,
                after[k].end,
            ) by {
                assert(range_mapped(memory.hhdm_offset, regions[k].start, regions[k].end));
            }
        }
    }
}

proof fn lemma_wf_after_dealloc(memory: PhysicalMemory<'_>, frames: FrameRange)
    ensures
        memory.wf() ==> (memory.frame_allocator@ matches Some(regions) ==> reachable(
            after_dealloc(regions, frames),
            memory.hhdm_offset,
        )),
{
    if memory.wf() {
        if let Some(regions) = memory.frame_allocator@ {
            regions_do_not_move(regions, 0, frames);
            lemma_owner(regions, frames.start.0 as int, 0);
            let after = after_dealloc(regions, frames);
            assert forall|k: int| 0 <= k < after.len() implies range_mapped(
                memory.hhdm_offset,
                (#[trigger] after[k]).start,
                after[k].end,
            ) by {
                assert(range_mapped(memory.hhdm_offset, regions[k].start, regions[k].end));
            }
        }
    }
}

/// Whether the direct map at `hhdm_offset` reaches the physical address `addr`.
pub open spec fn in_direct_map(hhdm_offset: u64, addr: PhysAddr) -> bool {
    is_canonical(addr.0 + hhdm_offset)
}

/// The virtual address at which the direct map at `hhdm_offset` shows `addr`.
pub open spec fn mapped_at(hhdm_offset: u64, addr: PhysAddr) -> VirtAddr {
    VirtAddr((addr.0 + hhdm_offset) as u64)
}

/// The physical address that the direct map at `hhdm_offset` shows at `addr`.
pub open spec fn shown_at(hhdm_offset: u64, addr: VirtAddr) -> PhysAddr {
    PhysAddr((addr.0 - hhdm_offset) as u64)
}

pub fn phys_to_virt(memory: &PhysicalMemory<'_>, addr: PhysAddr) -> (virt: VirtAddr)
    requires
        in_direct_map(memory.hhdm_offset, addr),
    ensures
        virt == mapped_at(memory.hhdm_offset, addr),
        virt.wf(),
{
    VirtAddr::new(addr.as_u64() + memory.hhdm_offset)
}

pub fn virt_to_phys(memory: &PhysicalMemory<'_>, addr: VirtAddr) -> (phys: PhysAddr)
    requires
        is_phys(addr.0 - memory.hhdm_offset),
    ensures
        phys == shown_at(memory.hhdm_offset, addr),
        phys.wf(),
{
    PhysAddr::new(addr.as_u64() - memory.hhdm_offset)
}

/// Translating a physical address to the direct map and back gives it back; and so does
/// translating an address of the direct map to a physical address and back.
pub proof fn direct_map_round_trip(hhdm_offset: u64, phys: PhysAddr, virt: VirtAddr)
    ensures
        in_direct_map(hhdm_offset, phys) ==> shown_at(hhdm_offset, mapped_at(hhdm_offset, phys))
            == phys,
        is_phys(virt.0 - hhdm_offset) ==> mapped_at(hhdm_offset, shown_at(hhdm_offset, virt))
            == virt,
{
}

} // verus!
