//! Bitmap-based physical frame allocator.
//!
//! The allocator owns one `MemoryRegion` for each usable entry of the memory map. `allocate`
//! asks each region in turn for a run of free frames; `dealloc` gives the frames back to the
//! region that contains them. The frames that hold the regions and their bitmaps are reserved by
//! `init`, so they are never handed out.

use crate::memory::addr::{is_phys, PhysAddr};
use crate::memory::frame::{is_frame_base, FrameAllocError, FrameAllocator, FrameRange};
use crate::memory::layout::MetadataLayout;
use crate::memory::region::{count_free, MemoryRegion, RegionModel};
use vstd::prelude::*;

verus! {

/// What the regions of a slice are.
pub open spec fn models(regions: Seq<MemoryRegion<'_>>) -> Seq<RegionModel> {
    Seq::new(regions.len(), |i: int| regions[i]@)
}

/// The first region, from region `from` on, that has `count` consecutive free frames.
pub open spec fn serving_from(regions: Seq<RegionModel>, count: int, from: int) -> Option<int>
    decreases regions.len() - from,
{
    if from >= regions.len() {
        None
    } else if regions[from].first_fit(count) is Some {
        Some(from)
    } else {
        serving_from(regions, count, from + 1)
    }
}

/// The first region that has `count` consecutive free frames.
pub open spec fn serving(regions: Seq<RegionModel>, count: int) -> Option<int> {
    serving_from(regions, count, 0)
}

/// The first region, from region `from` on, that spans `addr`.
pub open spec fn owner_from(regions: Seq<RegionModel>, addr: int, from: int) -> Option<int>
    decreases regions.len() - from,
{
    if from >= regions.len() {
        None
    } else if regions[from].spans(addr) {
        Some(from)
    } else {
        owner_from(regions, addr, from + 1)
    }
}

/// The first region that spans `addr`.
pub open spec fn owner(regions: Seq<RegionModel>, addr: int) -> Option<int> {
    owner_from(regions, addr, 0)
}

/// The answer to a request for `count` frames.
pub open spec fn alloc_result(regions: Seq<RegionModel>, count: usize) -> Option<FrameRange> {
    match serving(regions, count as int) {
        Some(k) => regions[k].alloc_result(count),
        None => None,
    }
}

/// The regions after a request for `count` frames.
pub open spec fn after_alloc(regions: Seq<RegionModel>, count: usize) -> Seq<RegionModel> {
    match serving(regions, count as int) {
        Some(k) => regions.update(k, regions[k].after_alloc(count)),
        None => regions,
    }
}

/// Whether a request for `count` frames is served, if at all, from a region that starts at a
/// frame boundary.
pub open spec fn serves_aligned(regions: Seq<RegionModel>, count: usize) -> bool {
    serving(regions, count as int) matches Some(k) ==> is_frame_base(regions[k].start)
}

/// The regions after `frames` were taken back: the region that contains their start has them
/// marked free, and nothing changes where none does.
pub open spec fn after_dealloc(regions: Seq<RegionModel>, frames: FrameRange) -> Seq<RegionModel> {
    match owner(regions, frames.start.0 as int) {
        Some(k) => regions.update(k, regions[k].with_range(frames, false)),
        None => regions,
    }
}

/// Whether the region that contains the start of `frames`, if any, has bits for all of them.
pub open spec fn covered(regions: Seq<RegionModel>, frames: FrameRange) -> bool {
    owner(regions, frames.start.0 as int) matches Some(k) ==> regions[k].covers(frames)
}

/// The regions as they start out: every frame free but those of `reserved` in region `host`.
pub open spec fn fresh(regions: Seq<RegionModel>, host: int, reserved: FrameRange) -> Seq<
    RegionModel,
> {
    Seq::new(
        regions.len(),
        |i: int|
            if i == host {
                regions[i].cleared().with_range(reserved, true)
            } else {
                regions[i].cleared()
            },
    )
}

/// How many frames the regions manage together.
pub open spec fn total_of(regions: Seq<RegionModel>) -> nat
    decreases regions.len(),
{
    if regions.len() == 0 {
        0
    } else {
        total_of(regions.drop_last()) + regions.last().frames as nat
    }
}

/// How many frames of the regions are free.
pub open spec fn free_of(regions: Seq<RegionModel>) -> nat
    decreases regions.len(),
{
    if regions.len() == 0 {
        0
    } else {
        free_of(regions.drop_last()) + regions.last().free()
    }
}

/// Every region is well formed, and the number of frames fits a `usize`.
pub open spec fn regions_wf(regions: Seq<RegionModel>) -> bool {
    &&& forall|k: int| 0 <= k < regions.len() ==> (#[trigger] regions[k]).wf()
    &&& total_of(regions) <= usize::MAX
}

struct Inner<'a> {
    regions: &'a mut [MemoryRegion<'a>],
}

/// A frame allocator over the usable memory of the machine. It starts out without any memory;
/// `init` gives it its regions.
pub struct BitmapFrameAllocator<'a> {
    inner: Option<Inner<'a>>,
}

impl<'a> View for BitmapFrameAllocator<'a> {
    type V = Option<Seq<RegionModel>>;

    closed spec fn view(&self) -> Option<Seq<RegionModel>> {
        match self.inner {
            Some(inner) => Some(inner@),
            None => None,
        }
    }
}

impl<'a> View for Inner<'a> {
    type V = Seq<RegionModel>;

    closed spec fn view(&self) -> Seq<RegionModel> {
        models(self.regions@)
    }
}

impl<'a> Inner<'a> {
    fn allocate(&mut self, count: usize) -> (result: Option<FrameRange>)
        requires
            regions_wf(old(self)@),
            serves_aligned(old(self)@, count),
        ensures
            result == alloc_result(old(self)@, count),
            final(self)@ == after_alloc(old(self)@, count),
    {
        let ghost before = self@;
        let mut k: usize = 0;
        while k < self.regions.len()
            invariant
                k <= self.regions@.len(),
                self@ == before,
                before == old(self)@,
                regions_wf(before),
                serves_aligned(before, count),
                serving(before, count as int) == serving_from(before, count as int, k as int),
            decreases self.regions@.len() - k,
        {
            assert(before[k as int] == self.regions@[k as int]@);
            let result = self.regions[k].allocate(count);
            if result.is_some() {
                assert(self@ =~= after_alloc(before, count));
                return result;
            }
            assert(self@ =~= before);
            k = k + 1;
        }
        None
    }

    fn dealloc(&mut self, frames: FrameRange)
        requires
            covered(old(self)@, frames),
        ensures
            final(self)@ == after_dealloc(old(self)@, frames),
    {
        let ghost before = self@;
        let ghost addr = frames.start.0 as int;
        let mut k: usize = 0;
        while k < self.regions.len()
            invariant
                k <= self.regions@.len(),
                self@ == before,
                before == old(self)@,
                addr == frames.start.0,
                covered(before, frames),
                owner(before, addr) == owner_from(before, addr, k as int),
            decreases self.regions@.len() - k,
        {
            assert(before[k as int] == self.regions@[k as int]@);
            if self.regions[k].contains(frames.start) {
                self.regions[k].dealloc(frames);
                assert(self@ =~= after_dealloc(before, frames));
                return;
            }
            k = k + 1;
        }
    }

    fn can_take_back(&self, frames: FrameRange) -> (can: bool)
        ensures
            can == covered(self@, frames),
    {
        let ghost regions = self@;
        let ghost addr = frames.start.0 as int;
        let mut k: usize = 0;
        while k < self.regions.len()
            invariant
                k <= self.regions@.len(),
                regions == self@,
                addr == frames.start.0,
                owner(regions, addr) == owner_from(regions, addr, k as int),
            decreases self.regions@.len() - k,
        {
            assert(regions[k as int] == self.regions@[k as int]@);
            if self.regions[k].contains(frames.start) {
                return self.regions[k].has_bits_for(frames);
            }
            k = k + 1;
        }
        true
    }

    fn total_frames(&self) -> (count: usize)
        requires
            regions_wf(self@),
        ensures
            count == total_of(self@),
    {
        let ghost regions = self@;
        let mut sum: usize = 0;
        let mut k: usize = 0;
        while k < self.regions.len()
            invariant
                k <= self.regions@.len(),
                regions == self@,
                regions_wf(regions),
                sum == total_of(regions.take(k as int)),
            decreases self.regions@.len() - k,
        {
            proof {
                assert(regions.take(k as int + 1).drop_last() =~= regions.take(k as int));
                lemma_totals_take(regions, k as int + 1);
                assert(regions[k as int].wf());
            }
            sum = sum + self.regions[k].total_frames();
            k = k + 1;
        }
        assert(regions.take(regions.len() as int) =~= regions);
        sum
    }

    fn free_frames(&self) -> (count: usize)
        requires
            regions_wf(self@),
        ensures
            count == free_of(self@),
    {
        let ghost regions = self@;
        let mut sum: usize = 0;
        let mut k: usize = 0;
        while k < self.regions.len()
            invariant
                k <= self.regions@.len(),
                regions == self@,
                regions_wf(regions),
                sum == free_of(regions.take(k as int)),
            decreases self.regions@.len() - k,
        {
            proof {
                assert(regions.take(k as int + 1).drop_last() =~= regions.take(k as int));
                lemma_totals_take(regions, k as int + 1);
                assert(regions[k as int].wf());
            }
            sum = sum + self.regions[k].free_frames();
            k = k + 1;
        }
        assert(regions.take(regions.len() as int) =~= regions);
        sum
    }
}

impl<'a> BitmapFrameAllocator<'a> {
    /// An allocator without memory.
    pub fn new() -> (allocator: Self)
        ensures
            allocator@ is None,
    {
        BitmapFrameAllocator { inner: None }
    }

    /// Gives the allocator its regions: marks every frame free, then reserves the frames at the
    /// start of the hosting region that the allocator's own data takes. Must be called once.
    pub fn init(&mut self, regions: &'a mut [MemoryRegion<'a>], layout: &MetadataLayout)
        requires
            old(self)@ is None,
            regions_wf(models(old(regions)@)),
            layout.host < old(regions)@.len(),
            is_phys(layout.host_base as int),
            is_frame_base(layout.host_base as int),
            old(regions)@[layout.host as int]@.covers(layout.reserved()),
        ensures
            final(self).inv(),
            final(self)@ == Some(
                fresh(models(old(regions)@), layout.host as int, layout.reserved()),
            ),
    {
        let ghost before = models(regions@);
        let mut k: usize = 0;
        while k < regions.len()
            invariant
                k <= regions@.len(),
                regions@.len() == before.len(),
                forall|i: int| 0 <= i < k ==> (#[trigger] regions@[i])@ == before[i].cleared(),
                forall|i: int| k <= i < before.len() ==> (#[trigger] regions@[i])@ == before[i],
            decreases regions@.len() - k,
        {
            regions[k].clear_all();
            k = k + 1;
        }
        regions[layout.host].reserve(
            FrameRange::new(PhysAddr::new(layout.host_base), layout.frames_needed),
        );
        proof {
            let after = fresh(before, layout.host as int, layout.reserved());
            assert(models(regions@) =~= after);
            lemma_same_frames(before, after);
        }
        self.inner = Some(Inner { regions });
    }
}

impl<'a> BitmapFrameAllocator<'a> {
    /// Whether the allocator can take `frames` back.
    pub fn can_take_back(&self, frames: FrameRange) -> (can: bool)
        requires
            self.inv(),
        ensures
            can == self.can_dealloc(frames),
    {
        match &self.inner {
            None => true,
            Some(inner) => inner.can_take_back(frames),
        }
    }
}

impl<'a> FrameAllocator for BitmapFrameAllocator<'a> {
    open spec fn inv(&self) -> bool {
        self@ matches Some(regions) ==> regions_wf(regions)
    }

    open spec fn can_alloc(&self, count: usize) -> bool {
        self@ matches Some(regions) ==> serves_aligned(regions, count)
    }

    open spec fn can_dealloc(&self, frames: FrameRange) -> bool {
        self@ matches Some(regions) ==> covered(regions, frames)
    }

    open spec fn alloc_step(
        pre: &Self,
        count: usize,
        result: Result<FrameRange, FrameAllocError>,
        post: &Self,
    ) -> bool {
        match pre@ {
            None => result == Err::<FrameRange, _>(FrameAllocError::NotInitialized) && post@
                == pre@,
            Some(regions) => {
                &&& result == match alloc_result(regions, count) {
                    Some(frames) => Ok(frames),
                    None => Err(FrameAllocError::OutOfMemory),
                }
                &&& post@ == Some(after_alloc(regions, count))
            },
        }
    }

    open spec fn dealloc_step(pre: &Self, frames: FrameRange, post: &Self) -> bool {
        match pre@ {
            None => post@ == pre@,
            Some(regions) => post@ == Some(after_dealloc(regions, frames)),
        }
    }

    open spec fn total(&self) -> nat {
        match self@ {
            None => 0,
            Some(regions) => total_of(regions),
        }
    }

    open spec fn free(&self) -> nat {
        match self@ {
            None => 0,
            Some(regions) => free_of(regions),
        }
    }

    fn allocate(&mut self, count: usize) -> (result: Result<FrameRange, FrameAllocError>) {
        match &mut self.inner {
            None => Err(FrameAllocError::NotInitialized),
            Some(inner) => {
                let ghost before = inner@;
                proof {
                    lemma_alloc_keeps_wf(before, count);
                }
                match inner.allocate(count) {
                    Some(frames) => Ok(frames),
                    None => Err(FrameAllocError::OutOfMemory),
                }
            },
        }
    }

    fn dealloc(&mut self, frames: FrameRange) {
        match &mut self.inner {
            None => {},
            Some(inner) => {
                proof {
                    lemma_dealloc_keeps_wf(inner@, frames);
                }
                inner.dealloc(frames);
            },
        }
    }

    fn total_frames(&self) -> (count: usize) {
        match &self.inner {
            None => 0,
            Some(inner) => inner.total_frames(),
        }
    }

    fn free_frames(&self) -> (count: usize) {
        match &self.inner {
            None => 0,
            Some(inner) => inner.free_frames(),
        }
    }
}

/// A region has no more free frames than it has frames.
proof fn lemma_count_free_bound(used: Seq<bool>, n: int)
    ensures
        count_free(used, n) <= (if n <= 0 {
            0
        } else {
            n
        }),
    decreases n,
{
    if n > 0 {
        lemma_count_free_bound(used, n - 1);
    }
}

/// The first `k` regions have no more frames than all of them, nor more free frames than frames.
proof fn lemma_totals_take(regions: Seq<RegionModel>, k: int)
    requires
        0 <= k <= regions.len(),
        forall|i: int| 0 <= i < regions.len() ==> (#[trigger] regions[i]).wf(),
    ensures
        free_of(regions.take(k)) <= total_of(regions.take(k)) <= total_of(regions),
    decreases regions.len() - k,
{
    if k == regions.len() {
        assert(regions.take(k) =~= regions);
        lemma_free_within_total(regions);
    } else {
        lemma_totals_take(regions, k + 1);
        assert(regions.take(k + 1).drop_last() =~= regions.take(k));
        assert forall|i: int| 0 <= i < k implies (#[trigger] regions.take(k)[i]).wf() by {
            assert(regions[i].wf());
        }
        lemma_free_within_total(regions.take(k));
    }
}

pub proof fn lemma_free_within_total(regions: Seq<RegionModel>)
    requires
        forall|i: int| 0 <= i < regions.len() ==> (#[trigger] regions[i]).wf(),
    ensures
        free_of(regions) <= total_of(regions),
    decreases regions.len(),
{
    if regions.len() > 0 {
        let rest = regions.drop_last();
        assert forall|i: int| 0 <= i < rest.len() implies (#[trigger] rest[i]).wf() by {
            assert(regions[i].wf());
        }
        lemma_free_within_total(rest);
        assert(regions[regions.len() - 1].wf());
        lemma_count_free_bound(regions.last().used, regions.last().frames);
    }
}

/// Regions that differ only in which frames are used have the same frames, and stay well formed.
pub proof fn lemma_same_frames(before: Seq<RegionModel>, after: Seq<RegionModel>)
    requires
        before.len() == after.len(),
        forall|i: int|
            0 <= i < before.len() ==> {
                &&& (#[trigger] after[i]).start == before[i].start
                &&& after[i].end == before[i].end
                &&& after[i].frames == before[i].frames
                &&& after[i].used.len() == before[i].used.len()
            },
    ensures
        total_of(after) == total_of(before),
        regions_wf(before) ==> regions_wf(after),
    decreases before.len(),
{
    if before.len() > 0 {
        assert(after[before.len() - 1].frames == before[before.len() - 1].frames);
        let rest_before = before.drop_last();
        let rest_after = after.drop_last();
        assert forall|i: int| 0 <= i < rest_before.len() implies {
            &&& (#[trigger] rest_after[i]).start == rest_before[i].start
            &&& rest_after[i].end == rest_before[i].end
            &&& rest_after[i].frames == rest_before[i].frames
            &&& rest_after[i].used.len() == rest_before[i].used.len()
        } by {
            assert(after[i].frames == before[i].frames);
        }
        lemma_same_frames(rest_before, rest_after);
    }
    if regions_wf(before) {
        assert forall|k: int| 0 <= k < after.len() implies (#[trigger] after[k]).wf() by {
            assert(before[k].wf());
        }
    }
}

pub proof fn lemma_alloc_keeps_wf(regions: Seq<RegionModel>, count: usize)
    requires
        regions_wf(regions),
    ensures
        regions_wf(after_alloc(regions, count)),
        total_of(after_alloc(regions, count)) == total_of(regions),
        alloc_result(regions, count) matches Some(frames) ==> {
            &&& frames.count == count
            &&& is_phys(frames.start.0 as int)
            &&& serves_aligned(regions, count) ==> is_frame_base(frames.start.0 as int)
        },
{
    lemma_serving(regions, count as int, 0);
    lemma_same_frames(regions, after_alloc(regions, count));
    if let Some(k) = serving(regions, count as int) {
        assert(regions[k].wf());
        regions[k].lemma_first_fit(count as int);
        regions[k].lemma_frame_addr(regions[k].first_fit(count as int)->0);
    }
}

pub proof fn lemma_dealloc_keeps_wf(regions: Seq<RegionModel>, frames: FrameRange)
    requires
        regions_wf(regions),
    ensures
        regions_wf(after_dealloc(regions, frames)),
        total_of(after_dealloc(regions, frames)) == total_of(regions),
{
    lemma_owner(regions, frames.start.0 as int, 0);
    lemma_same_frames(regions, after_dealloc(regions, frames));
}

/// `serving_from` is the first region, from `from` on, that can serve the request.
pub proof fn lemma_serving(regions: Seq<RegionModel>, count: int, from: int)
    requires
        0 <= from,
    ensures
        match serving_from(regions, count, from) {
            Some(k) => {
                &&& from <= k < regions.len()
                &&& regions[k].first_fit(count) is Some
                &&& forall|j: int| from <= j < k ==> (#[trigger] regions[j]).first_fit(count) is None
            },
            None => forall|j: int|
                from <= j < regions.len() ==> (#[trigger] regions[j]).first_fit(count) is None,
        },
    decreases regions.len() - from,
{
    if from < regions.len() && regions[from].first_fit(count) is None {
        lemma_serving(regions, count, from + 1);
    }
}

/// `owner_from` is the first region, from `from` on, that spans the address.
pub proof fn lemma_owner(regions: Seq<RegionModel>, addr: int, from: int)
    requires
        0 <= from,
    ensures
        match owner_from(regions, addr, from) {
            Some(k) => {
                &&& from <= k < regions.len()
                &&& regions[k].spans(addr)
                &&& forall|j: int| from <= j < k ==> !(#[trigger] regions[j]).spans(addr)
            },
            None => forall|j: int|
                from <= j < regions.len() ==> !(#[trigger] regions[j]).spans(addr),
        },
    decreases regions.len() - from,
{
    if from < regions.len() && !regions[from].spans(addr) {
        lemma_owner(regions, addr, from + 1);
    }
}

} // verus!
