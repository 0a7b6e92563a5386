//! A physical memory manager without a trait in front of it: the same regions and bitmaps as the
//! frame allocator, together with the offset of the direct map.

use crate::memory::addr::{is_canonical, is_phys, PhysAddr, VirtAddr};
use crate::memory::bitmap::{
    after_alloc, after_dealloc, alloc_result, covered, fresh, lemma_alloc_keeps_wf,
    lemma_dealloc_keeps_wf, lemma_same_frames, models, owner, owner_from, regions_wf, serving,
    serving_from,
};
use crate::memory::layout::MetadataLayout;
use crate::memory::mapped_at;
use crate::memory::region::{MemoryRegion, RegionModel};
use crate::sync::WellFormed;
use vstd::prelude::*;

pub use crate::memory::frame::FrameRange;

verus! {

pub struct PhysicalMemoryManager<'a> {
    regions: &'a mut [MemoryRegion<'a>],
    hhdm_offset: u64,
}

impl<'a> View for PhysicalMemoryManager<'a> {
    type V = Seq<RegionModel>;

    closed spec fn view(&self) -> Seq<RegionModel> {
        models(self.regions@)
    }
}

impl<'a> WellFormed for PhysicalMemoryManager<'a> {
    open spec fn wf(&self) -> bool {
        regions_wf(self@)
    }
}

impl<'a> PhysicalMemoryManager<'a> {
    /// The offset of the direct map.
    pub closed spec fn offset(&self) -> u64 {
        self.hhdm_offset
    }

    /// A manager of `regions`: marks every frame free, then locks the frames at the start of the
    /// hosting region that the manager's own data takes.
    pub fn new(regions: &'a mut [MemoryRegion<'a>], layout: &MetadataLayout, hhdm_offset: u64)
        -> (manager: Self)
        requires
            regions_wf(models(old(regions)@)),
            layout.host < old(regions)@.len(),
            is_phys(layout.host_base as int),
            old(regions)@[layout.host as int]@.covers(layout.reserved()),
        ensures
            manager.wf(),
            manager@ == fresh(models(old(regions)@), layout.host as int, layout.reserved()),
            manager.offset() == hhdm_offset,
    {
        let ghost before = models(regions@);
        let mut k: usize = 0;
        while k < regions.len()
            invariant
                k <= regions@.len(),
                regions@.len() == before.len(),
                forall|i: int| 0 <= i < k ==> (#[trigger] regions@[i])@ == before[i].cleared(),
                forall|i: int| k <= i < before.len() ==> (#[trigger] regions@[i])@ == before[i],
            decreases regions@.len() - k,
        {
            regions[k].clear_all();
            k = k + 1;
        }
        regions[layout.host].reserve(
            FrameRange { start: PhysAddr::new(layout.host_base), count: layout.frames_needed },
        );
        proof {
            let after = fresh(before, layout.host as int, layout.reserved());
            assert(models(regions@) =~= after);
            lemma_same_frames(before, after);
        }
        PhysicalMemoryManager { regions, hhdm_offset }
    }

    /// Hands out the first run of `num_frames` free frames that a region has.
    pub fn allocate(&mut self, num_frames: usize) -> (result: Option<FrameRange>)
        requires
            old(self).wf(),
        ensures
            final(self).wf(),
            result == alloc_result(old(self)@, num_frames),
            final(self)@ == after_alloc(old(self)@, num_frames),
            final(self).offset() == old(self).offset(),
    {
        let ghost before = self@;
        proof {
            lemma_alloc_keeps_wf(before, num_frames);
        }
        let mut k: usize = 0;
        while k < self.regions.len()
            invariant
                k <= self.regions@.len(),
                self@ == before,
                before == old(self)@,
                self.hhdm_offset == old(self).hhdm_offset,
                regions_wf(before),
                regions_wf(after_alloc(before, num_frames)),
                serving(before, num_frames as int) == serving_from(
                    before,
                    num_frames as int,
                    k as int,
                ),
            decreases self.regions@.len() - k,
        {
            assert(before[k as int] == self.regions@[k as int]@);
            let result = self.regions[k].take_run(num_frames);
            if result.is_some() {
                assert(self@ =~= after_alloc(before, num_frames));
                return result;
            }
            assert(self@ =~= before);
            k = k + 1;
        }
        None
    }

    /// Takes `frames` back into the region that contains their start. Frames that no region
    /// contains are ignored.
    pub fn free(&mut self, frames: FrameRange)
        requires
            old(self).wf(),
            covered(old(self)@, frames),
        ensures
            final(self).wf(),
            final(self)@ == after_dealloc(old(self)@, frames),
            final(self).offset() == old(self).offset(),
    {
        let ghost before = self@;
        let ghost addr = frames.start.0 as int;
        proof {
            lemma_dealloc_keeps_wf(before, frames);
        }
        let mut k: usize = 0;
        while k < self.regions.len()
            invariant
                k <= self.regions@.len(),
                self@ == before,
                before == old(self)@,
                self.hhdm_offset == old(self).hhdm_offset,
                addr == frames.start.0,
                covered(before, frames),
                regions_wf(before),
                regions_wf(after_dealloc(before, frames)),
                owner(before, addr) == owner_from(before, addr, k as int),
            decreases self.regions@.len() - k,
        {
            assert(before[k as int] == self.regions@[k as int]@);
            if self.regions[k].contains(frames.start) {
                self.regions[k].dealloc(frames);
                assert(self@ =~= after_dealloc(before, frames));
                return;
            }
            k = k + 1;
        }
    }
}

/// Puts a manager of `regions` into the slot `pmm`.
pub fn pmm_init<'a>(
    pmm: &mut Option<PhysicalMemoryManager<'a>>,
    regions: &'a mut [MemoryRegion<'a>],
    layout: &MetadataLayout,
    hhdm_offset: u64,
)
    requires
        regions_wf(models(old(regions)@)),
        layout.host < old(regions)@.len(),
        is_phys(layout.host_base as int),
        old(regions)@[layout.host as int]@.covers(layout.reserved()),
    ensures
        *final(pmm) matches Some(manager) && manager.wf() && manager@ == fresh(
            models(old(regions)@),
            layout.host as int,
            layout.reserved(),
        ) && manager.offset() == hhdm_offset,
{
    *pmm = Some(PhysicalMemoryManager::new(regions, layout, hhdm_offset));
}

/// Hands out `num_frames` frames, if there is a manager and it has them.
pub fn alloc_frames(pmm: &mut Option<PhysicalMemoryManager<'_>>, num_frames: usize) -> (result:
    Option<FrameRange>)
    requires
        old(pmm).wf(),
    ensures
        final(pmm).wf(),
        match *old(pmm) {
            None => result is None && *final(pmm) is None,
            Some(manager) => {
                &&& result == alloc_result(manager@, num_frames)
                &&& *final(pmm) matches Some(after) && after@ == after_alloc(manager@, num_frames)
                    && after.offset() == manager.offset()
            },
        },
{
    match pmm {
        Some(manager) => manager.allocate(num_frames),
        None => None,
    }
}

/// Takes `frames` back, if there is a manager.
pub fn free_frames(pmm: &mut Option<PhysicalMemoryManager<'_>>, frames: FrameRange)
    requires
        old(pmm).wf(),
        *old(pmm) matches Some(manager) ==> covered(manager@, frames),
    ensures
        final(pmm).wf(),
        match *old(pmm) {
            None => *final(pmm) is None,
            Some(manager) => *final(pmm) matches Some(after) && after@ == after_dealloc(
                manager@,
                frames,
            ) && after.offset() == manager.offset(),
        },
{
    match pmm {
        Some(manager) => manager.free(frames),
        None => {},
    }
}

/// The virtual address at which the manager's direct map shows `addr`. There must be a manager.
pub fn phys_to_virt(pmm: &Option<PhysicalMemoryManager<'_>>, addr: PhysAddr) -> (virt: VirtAddr)
    requires
        pmm is Some,
        is_canonical(addr.0 + pmm->0.offset()),
    ensures
        virt == mapped_at(pmm->0.offset(), addr),
        virt.wf(),
{
    VirtAddr::new(addr.as_u64() + pmm.as_ref().unwrap().hhdm_offset)
}

} // verus!
