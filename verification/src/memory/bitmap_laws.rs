//! What holds of the frame allocator as a whole.
//!
//! The laws speak of the regions of a `BitmapFrameAllocator` (its view) and of the functions
//! that its methods' contracts are stated with.

use crate::memory::addr::{is_phys, PhysAddr};
use crate::memory::bitmap::{
    after_alloc, after_dealloc, alloc_result, covered, free_of, fresh, lemma_alloc_keeps_wf,
    lemma_dealloc_keeps_wf, lemma_free_within_total, lemma_owner, lemma_same_frames, lemma_serving,
    owner, regions_wf, serves_aligned, serving, total_of,
};
use crate::memory::frame::{is_frame_base, FrameRange, FRAME_SIZE};
use crate::memory::layout::{
    bitmap_total, lemma_placements, region_size, usable, MemoryMapEntry, MetadataLayout,
};
use crate::memory::region::{count_free, mark, RegionModel};
use vstd::prelude::*;

verus! {

/// Whether no two regions share an address.
pub open spec fn disjoint(regions: Seq<RegionModel>) -> bool {
    forall|i: int, j: int|
        0 <= i < j < regions.len() ==> {
            ||| (#[trigger] regions[i]).end <= (#[trigger] regions[j]).start
            ||| regions[j].end <= regions[i].start
        }
}

/// Whether every region starts at a frame boundary.
pub open spec fn aligned(regions: Seq<RegionModel>) -> bool {
    forall|k: int| 0 <= k < regions.len() ==> is_frame_base((#[trigger] regions[k]).start)
}

/// Whether frame `at` of the region has a byte in `lo..hi`.
pub open spec fn frame_meets(region: RegionModel, at: int, lo: int, hi: int) -> bool {
    region.frame_addr(at) < hi && lo < region.frame_addr(at) + FRAME_SIZE
}

/// Whether the bytes `lo..hi` belong to region `k` and every frame that holds one of them is
/// marked used.
pub open spec fn taken_in(regions: Seq<RegionModel>, k: int, lo: int, hi: int) -> bool {
    &&& 0 <= k < regions.len()
    &&& regions[k].start <= lo
    &&& hi <= regions[k].end
    &&& forall|at: int|
        0 <= at < regions[k].frames && frame_meets(regions[k], at, lo, hi)
            ==> #[trigger] regions[k].used[at]
}

/// Whether the bytes `lo..hi` are in use.
pub open spec fn taken(regions: Seq<RegionModel>, lo: int, hi: int) -> bool {
    exists|k: int| taken_in(regions, k, lo, hi)
}

/// Whether no byte of `frames` lies in `lo..hi`.
pub open spec fn avoids(frames: FrameRange, lo: int, hi: int) -> bool {
    forall|addr: int| lo <= addr < hi ==> !#[trigger] frames.covers(addr)
}

/// A request is served exactly if some region has enough consecutive free frames; a request for
/// no frames is never served.
pub proof fn served_iff_run_exists(regions: Seq<RegionModel>, count: usize)
    ensures
        alloc_result(regions, count) is Some <==> exists|k: int, at: int|
            0 <= k < regions.len() && #[trigger] regions[k].run_at(at, count as int),
        count == 0 ==> alloc_result(regions, count) is None,
{
    lemma_serving(regions, count as int, 0);
    match serving(regions, count as int) {
        Some(k) => {
            regions[k].lemma_first_fit(count as int);
            assert(regions[k].run_at(regions[k].first_fit(count as int)->0, count as int));
        },
        None => {
            assert forall|k: int, at: int|
                0 <= k < regions.len() implies !#[trigger] regions[k].run_at(at, count as int) by {
                assert(regions[k].first_fit(count as int) is None);
                regions[k].lemma_first_fit(count as int);
            }
        },
    }
}

/// What an allocation hands out is a run of frames of one region that were all free and are all
/// used afterwards; no other frame changes.
pub proof fn allocation_takes_free_frames(
    regions: Seq<RegionModel>,
    count: usize,
    frames: FrameRange,
) -> (at: (int, int))
    requires
        regions_wf(regions),
        alloc_result(regions, count) == Some(frames),
    ensures
        0 <= at.0 < regions.len(),
        frames.count == count,
        frames.start.0 == regions[at.0].frame_addr(at.1),
        0 <= at.1,
        at.1 + count <= regions[at.0].frames,
        frames.end() <= regions[at.0].end,
        forall|j: int| at.1 <= j < at.1 + count ==> !#[trigger] regions[at.0].used[j],
        after_alloc(regions, count) == regions.update(
            at.0,
            regions[at.0].marked(at.1, count as int, true),
        ),
{
    lemma_serving(regions, count as int, 0);
    let k = serving(regions, count as int)->0;
    assert(regions[k].wf());
    regions[k].lemma_first_fit(count as int);
    let i = regions[k].first_fit(count as int)->0;
    regions[k].lemma_frame_addr(i);
    regions[k].lemma_frame_addr(i + count - 1);
    (k, i)
}

/// What an allocation hands out is in use afterwards.
pub proof fn allocated_frames_are_taken(
    regions: Seq<RegionModel>,
    count: usize,
    frames: FrameRange,
)
    requires
        regions_wf(regions),
        alloc_result(regions, count) == Some(frames),
    ensures
        taken(after_alloc(regions, count), frames.start.0 as int, frames.end()),
{
    let (k, i) = allocation_takes_free_frames(regions, count, frames);
    assert(regions[k].wf());
    let after = after_alloc(regions, count);
    assert forall|at: int|
        0 <= at < after[k].frames && frame_meets(
            after[k],
            at,
            frames.start.0 as int,
            frames.end(),
        ) implies #[trigger] after[k].used[at] by {
        assert(i <= at < i + count);
    }
    assert(taken_in(after, k, frames.start.0 as int, frames.end()));
}

/// An allocation never hands out a byte that is in use.
pub proof fn allocation_avoids_taken(
    regions: Seq<RegionModel>,
    count: usize,
    frames: FrameRange,
    lo: int,
    hi: int,
)
    requires
        regions_wf(regions),
        disjoint(regions),
        taken(regions, lo, hi),
        alloc_result(regions, count) == Some(frames),
    ensures
        avoids(frames, lo, hi),
{
    let (k, i) = allocation_takes_free_frames(regions, count, frames);
    let t = choose|t: int| taken_in(regions, t, lo, hi);
    assert(regions[k].wf());
    assert(regions[t].wf());
    assert forall|addr: int| lo <= addr < hi implies !#[trigger] frames.covers(addr) by {
        if frames.covers(addr) {
            if t == k {
                let at = regions[k].frame_of(addr);
                assert(i <= at < i + count);
                assert(frame_meets(regions[k], at, lo, hi));
                assert(regions[k].used[at]);
            } else if t < k {
                assert(regions[t].end <= regions[k].start || regions[k].end <= regions[t].start);
            } else {
                assert(regions[k].end <= regions[t].start || regions[t].end <= regions[k].start);
            }
        }
    }
}

/// What is in use stays in use through an allocation.
pub proof fn allocation_keeps_taken(regions: Seq<RegionModel>, count: usize, lo: int, hi: int)
    requires
        regions_wf(regions),
        taken(regions, lo, hi),
    ensures
        taken(after_alloc(regions, count), lo, hi),
{
    let t = choose|t: int| taken_in(regions, t, lo, hi);
    let after = after_alloc(regions, count);
    lemma_serving(regions, count as int, 0);
    assert forall|at: int|
        0 <= at < after[t].frames && frame_meets(after[t], at, lo, hi) implies
        #[trigger] after[t].used[at] by {
        assert(frame_meets(regions[t], at, lo, hi));
        assert(regions[t].used[at]);
        assert(regions[t].wf());
    }
    assert(taken_in(after, t, lo, hi));
}

/// What is in use stays in use when frames are taken back that do not touch it.
pub proof fn deallocation_keeps_taken(
    regions: Seq<RegionModel>,
    frames: FrameRange,
    lo: int,
    hi: int,
)
    requires
        regions_wf(regions),
        aligned(regions),
        is_frame_base(frames.start.0 as int),
        taken(regions, lo, hi),
        avoids(frames, lo, hi),
        lo < hi,
    ensures
        taken(after_dealloc(regions, frames), lo, hi),
{
    let t = choose|t: int| taken_in(regions, t, lo, hi);
    let after = after_dealloc(regions, frames);
    lemma_owner(regions, frames.start.0 as int, 0);
    assert forall|at: int|
        0 <= at < after[t].frames && frame_meets(after[t], at, lo, hi) implies
        #[trigger] after[t].used[at] by {
        assert(frame_meets(regions[t], at, lo, hi));
        assert(regions[t].used[at]);
        assert(regions[t].wf());
        assert(is_frame_base(regions[t].start));
        let base = regions[t].frame_addr(at);
        let inside = if lo < base {
            base
        } else {
            lo
        };
        assert(!frames.covers(inside));
    }
    assert(taken_in(after, t, lo, hi));
}

/// Allocations and deallocations leave the regions where they are: they stay disjoint, they
/// stay aligned, and the number of frames stays the same.
pub proof fn regions_do_not_move(
    regions: Seq<RegionModel>,
    count: usize,
    frames: FrameRange,
)
    requires
        regions_wf(regions),
    ensures
        disjoint(regions) ==> disjoint(after_alloc(regions, count)) && disjoint(
            after_dealloc(regions, frames),
        ),
        aligned(regions) ==> aligned(after_alloc(regions, count)) && aligned(
            after_dealloc(regions, frames),
        ),
        aligned(regions) ==> serves_aligned(regions, count),
        total_of(after_alloc(regions, count)) == total_of(regions),
        total_of(after_dealloc(regions, frames)) == total_of(regions),
{
    lemma_serving(regions, count as int, 0);
    lemma_owner(regions, frames.start.0 as int, 0);
    lemma_alloc_keeps_wf(regions, count);
    lemma_dealloc_keeps_wf(regions, frames);
    if aligned(regions) {
        if let Some(k) = serving(regions, count as int) {
            assert(is_frame_base(regions[k].start));
        }
        assert forall|k: int| 0 <= k < regions.len() implies is_frame_base(
            (#[trigger] after_alloc(regions, count)[k]).start,
        ) by {
            assert(is_frame_base(regions[k].start));
        }
        assert forall|k: int| 0 <= k < regions.len() implies is_frame_base(
            (#[trigger] after_dealloc(regions, frames)[k]).start,
        ) by {
            assert(is_frame_base(regions[k].start));
        }
    }
    if disjoint(regions) {
        let a = after_alloc(regions, count);
        let d = after_dealloc(regions, frames);
        assert forall|i: int, j: int| 0 <= i < j < regions.len() implies {
            ||| (#[trigger] a[i]).end <= (#[trigger] a[j]).start
            ||| a[j].end <= a[i].start
        } by {
            assert(regions[i].end <= regions[j].start || regions[j].end <= regions[i].start);
        }
        assert forall|i: int, j: int| 0 <= i < j < regions.len() implies {
            ||| (#[trigger] d[i]).end <= (#[trigger] d[j]).start
            ||| d[j].end <= d[i].start
        } by {
            assert(regions[i].end <= regions[j].start || regions[j].end <= regions[i].start);
        }
    }
}

/// A request to the allocator.
pub enum Request {
    Allocate(usize),
    Deallocate(FrameRange),
}

/// The regions after the allocator has answered `requests`, in order.
pub open spec fn answered(regions: Seq<RegionModel>, requests: Seq<Request>) -> Seq<RegionModel>
    decreases requests.len(),
{
    if requests.len() == 0 {
        regions
    } else {
        let before = answered(regions, requests.drop_last());
        match requests.last() {
            Request::Allocate(count) => after_alloc(before, count),
            Request::Deallocate(frames) => after_dealloc(before, frames),
        }
    }
}

/// Whether none of `requests` gives back a frame with a byte in `lo..hi`.
pub open spec fn keep(requests: Seq<Request>, lo: int, hi: int) -> bool {
    forall|i: int|
        0 <= i < requests.len() ==> ((#[trigger] requests[i]) matches Request::Deallocate(frames)
            ==> is_frame_base(frames.start.0 as int) && avoids(frames, lo, hi))
}

/// What is in use is not handed out, whatever is allocated and given back in the meantime, as
/// long as it is not itself given back.
pub proof fn memory_in_use_is_never_handed_out(
    regions: Seq<RegionModel>,
    requests: Seq<Request>,
    lo: int,
    hi: int,
    count: usize,
    frames: FrameRange,
)
    requires
        regions_wf(regions),
        disjoint(regions),
        aligned(regions),
        taken(regions, lo, hi),
        keep(requests, lo, hi),
        alloc_result(answered(regions, requests), count) == Some(frames),
    ensures
        avoids(frames, lo, hi),
{
    if lo < hi {
        lemma_stays_taken(regions, requests, lo, hi);
        allocation_avoids_taken(answered(regions, requests), count, frames, lo, hi);
    }
}

proof fn lemma_stays_taken(regions: Seq<RegionModel>, requests: Seq<Request>, lo: int, hi: int)
    requires
        regions_wf(regions),
        disjoint(regions),
        aligned(regions),
        taken(regions, lo, hi),
        keep(requests, lo, hi),
        lo < hi,
    ensures
        regions_wf(answered(regions, requests)),
        disjoint(answered(regions, requests)),
        aligned(answered(regions, requests)),
        taken(answered(regions, requests), lo, hi),
    decreases requests.len(),
{
    if requests.len() > 0 {
        let rest = requests.drop_last();
        assert forall|i: int| 0 <= i < rest.len() implies ((
        #[trigger] rest[i]) matches Request::Deallocate(frames) ==> is_frame_base(
            frames.start.0 as int,
        ) && avoids(frames, lo, hi)) by {
            assert(rest[i] == requests[i]);
        }
        lemma_stays_taken(regions, rest, lo, hi);
        let before = answered(regions, rest);
        match requests.last() {
            Request::Allocate(count) => {
                lemma_alloc_keeps_wf(before, count);
                allocation_keeps_taken(before, count, lo, hi);
                regions_do_not_move(
                    before,
                    count,
                    FrameRange { start: PhysAddr(0), count: 0 },
                );
            },
            Request::Deallocate(frames) => {
                assert(requests[requests.len() - 1] == Request::Deallocate(frames));
                lemma_dealloc_keeps_wf(before, frames);
                deallocation_keeps_taken(before, frames, lo, hi);
                regions_do_not_move(before, 0, frames);
            },
        }
    }
}

/// Two allocations in a row never overlap.
pub proof fn allocations_do_not_overlap(
    regions: Seq<RegionModel>,
    first_count: usize,
    first: FrameRange,
    second_count: usize,
    second: FrameRange,
)
    requires
        regions_wf(regions),
        disjoint(regions),
        alloc_result(regions, first_count) == Some(first),
        alloc_result(after_alloc(regions, first_count), second_count) == Some(second),
    ensures
        avoids(second, first.start.0 as int, first.end()),
{
    lemma_alloc_keeps_wf(regions, first_count);
    allocated_frames_are_taken(regions, first_count, first);
    regions_do_not_move(regions, first_count, first);
    allocation_avoids_taken(
        after_alloc(regions, first_count),
        second_count,
        second,
        first.start.0 as int,
        first.end(),
    );
}

/// What was handed out belongs to the region it came from.
proof fn lemma_owner_of_allocated(regions: Seq<RegionModel>, count: usize, frames: FrameRange) -> (
    at: (int, int))
    requires
        regions_wf(regions),
        disjoint(regions),
        alloc_result(regions, count) == Some(frames),
    ensures
        0 <= at.0 < regions.len(),
        0 <= at.1,
        at.1 + count <= regions[at.0].frames,
        frames.count == count,
        frames.start.0 == regions[at.0].frame_addr(at.1),
        regions[at.0].frame_of(frames.start.0 as int) == at.1,
        forall|j: int| at.1 <= j < at.1 + count ==> !#[trigger] regions[at.0].used[j],
        after_alloc(regions, count) == regions.update(
            at.0,
            regions[at.0].marked(at.1, count as int, true),
        ),
        owner(after_alloc(regions, count), frames.start.0 as int) == Some(at.0),
{
    let (k, i) = allocation_takes_free_frames(regions, count, frames);
    let after = after_alloc(regions, count);
    assert(regions[k].wf());
    served_iff_run_exists(regions, count);
    regions[k].lemma_frame_addr(i);
    lemma_owner(after, frames.start.0 as int, 0);
    let o = owner(after, frames.start.0 as int);
    assert(after[k].spans(frames.start.0 as int));
    assert(o == Some(k)) by {
        let o = o->0;
        if o < k {
            assert(regions[o].end <= regions[k].start || regions[k].end <= regions[o].start);
        } else if k < o {
            assert(regions[k].end <= regions[o].start || regions[o].end <= regions[k].start);
        }
    }
    (k, i)
}

/// What was just handed out can be given back.
pub proof fn allocated_frames_can_be_given_back(
    regions: Seq<RegionModel>,
    count: usize,
    frames: FrameRange,
)
    requires
        regions_wf(regions),
        disjoint(regions),
        alloc_result(regions, count) == Some(frames),
    ensures
        covered(after_alloc(regions, count), frames),
{
    let (k, i) = lemma_owner_of_allocated(regions, count, frames);
    assert(regions[k].wf());
    lemma_frames_fit(regions, k);
}

/// A region has no more frames than all regions together.
proof fn lemma_frames_fit(regions: Seq<RegionModel>, k: int)
    requires
        forall|i: int| 0 <= i < regions.len() ==> (#[trigger] regions[i]).wf(),
        0 <= k < regions.len(),
    ensures
        regions[k].frames <= total_of(regions),
    decreases regions.len(),
{
    let rest = regions.drop_last();
    assert(regions[regions.len() - 1].wf());
    if k < rest.len() {
        assert forall|i: int| 0 <= i < rest.len() implies (#[trigger] rest[i]).wf() by {
            assert(regions[i].wf());
        }
        lemma_frames_fit(rest, k);
        assert(rest[k] == regions[k]);
    }
}

/// Taking back what was just handed out restores the allocator.
pub proof fn deallocation_undoes_allocation(
    regions: Seq<RegionModel>,
    count: usize,
    frames: FrameRange,
)
    requires
        regions_wf(regions),
        disjoint(regions),
        alloc_result(regions, count) == Some(frames),
    ensures
        after_dealloc(after_alloc(regions, count), frames) == regions,
{
    let (k, i) = lemma_owner_of_allocated(regions, count, frames);
    let after = after_alloc(regions, count);
    assert(regions[k].wf());
    let back = after_dealloc(after, frames);
    assert(back[k].used =~= regions[k].used);
    assert(back =~= regions);
}

/// An allocation takes `count` frames off the free ones, and a request that is not served takes
/// none.
pub proof fn allocation_counts(regions: Seq<RegionModel>, count: usize)
    requires
        regions_wf(regions),
    ensures
        match alloc_result(regions, count) {
            Some(_) => free_of(after_alloc(regions, count)) + count == free_of(regions),
            None => free_of(after_alloc(regions, count)) == free_of(regions),
        },
        free_of(regions) <= total_of(regions),
{
    lemma_free_within_total(regions);
    lemma_serving(regions, count as int, 0);
    if let Some(frames) = alloc_result(regions, count) {
        let (k, i) = allocation_takes_free_frames(regions, count, frames);
        assert(regions[k].wf());
        lemma_count_marked(
            regions[k].used,
            i,
            count as int,
            regions[k].frames,
        );
        lemma_free_update(regions, k, regions[k].marked(i, count as int, true));
    } else if let Some(k) = serving(regions, count as int) {
        regions[k].lemma_first_fit(count as int);
    }
}

/// Taking back `count` used frames of a region adds `count` to the free ones.
pub proof fn deallocation_counts(regions: Seq<RegionModel>, frames: FrameRange, k: int, at: int)
    requires
        regions_wf(regions),
        owner(regions, frames.start.0 as int) == Some(k),
        at == regions[k].frame_of(frames.start.0 as int),
        at + frames.count <= regions[k].frames,
        forall|j: int| at <= j < at + frames.count ==> #[trigger] regions[k].used[j],
    ensures
        free_of(after_dealloc(regions, frames)) == free_of(regions) + frames.count,
{
    lemma_owner(regions, frames.start.0 as int, 0);
    assert(regions[k].wf());
    let after = regions[k].with_range(frames, false);
    lemma_count_marked(after.used, at, frames.count as int, after.frames);
    assert(mark(after.used, at, frames.count as int, true) =~= regions[k].used);
    lemma_free_update(regions, k, after);
}

/// The region that manages a usable entry, with a bitmap as long as `placement` makes it.
pub open spec fn manages(region: RegionModel, entry: MemoryMapEntry) -> bool {
    &&& region.start == entry.base
    &&& region.end == entry.end()
    &&& region.frames == entry.frames()
    &&& region.used.len() == entry.bitmap_bytes() * 8
}

/// Regions that manage the usable entries of the memory map can be given to the allocator: they
/// are well formed, the hosting one has bits for the frames to reserve, and there are no more
/// frames than the data has bits. On a machine whose `usize` has 64 bits, the number of frames
/// therefore fits a `usize`.
pub proof fn planned_regions_fit(
    plan: MetadataLayout,
    entries: Seq<MemoryMapEntry>,
    regions: Seq<RegionModel>,
)
    requires
        plan.is_for(entries),
        regions.len() == usable(entries).len(),
        forall|k: int|
            0 <= k < regions.len() ==> manages(#[trigger] regions[k], usable(entries)[k]),
    ensures
        forall|k: int| 0 <= k < regions.len() ==> (#[trigger] regions[k]).wf(),
        plan.host < regions.len(),
        is_phys(plan.host_base as int),
        regions[plan.host as int].covers(plan.reserved()),
        total_of(regions) <= 8 * plan.size,
        usize::MAX == u64::MAX ==> regions_wf(regions),
{
    lemma_placements(plan, entries);
    assert forall|k: int| 0 <= k < regions.len() implies (#[trigger] regions[k]).wf() by {
        assert(manages(regions[k], usable(entries)[k]));
        assert(is_phys(usable(entries)[k].end()));
    }
    let host = plan.host as int;
    assert(manages(regions[host], usable(entries)[host]));
    assert(is_phys(usable(entries)[host].end()));
    lemma_frames_within_bitmaps(regions, usable(entries));
    assert(plan.bitmap_start >= plan.region_start) by (nonlinear_arith)
        requires
            plan.bitmap_start == plan.region_start + plan.num_regions * region_size(),
            plan.num_regions >= 0,
    ;
}

/// Regions have no more frames than their bitmaps have bits.
proof fn lemma_frames_within_bitmaps(regions: Seq<RegionModel>, entries: Seq<MemoryMapEntry>)
    requires
        regions.len() == entries.len(),
        forall|k: int| 0 <= k < regions.len() ==> manages(#[trigger] regions[k], entries[k]),
    ensures
        total_of(regions) <= 8 * bitmap_total(entries),
    decreases regions.len(),
{
    if regions.len() > 0 {
        let last = regions.len() - 1;
        assert(manages(regions[last], entries[last]));
        assert forall|k: int| 0 <= k < last implies manages(
            #[trigger] regions.drop_last()[k],
            entries.drop_last()[k],
        ) by {
            assert(manages(regions[k], entries[k]));
        }
        lemma_frames_within_bitmaps(regions.drop_last(), entries.drop_last());
    }
}

/// The frames of the allocator's own data are in use from the start.
pub proof fn metadata_is_taken(
    plan: MetadataLayout,
    entries: Seq<MemoryMapEntry>,
    regions: Seq<RegionModel>,
)
    requires
        plan.is_for(entries),
        regions.len() == usable(entries).len(),
        manages(regions[plan.host as int], usable(entries)[plan.host as int]),
    ensures
        taken(
            fresh(regions, plan.host as int, plan.reserved()),
            plan.host_base as int,
            plan.host_base + plan.size,
        ),
{
    lemma_placements(plan, entries);
    let after = fresh(regions, plan.host as int, plan.reserved());
    let k = plan.host as int;
    let lo = plan.host_base as int;
    let hi = plan.host_base + plan.size;
    assert forall|at: int|
        0 <= at < after[k].frames && frame_meets(after[k], at, lo, hi) implies
        #[trigger] after[k].used[at] by {
        assert(at * FRAME_SIZE < plan.size);
        assert(at < plan.frames_needed);
    }
    assert(taken_in(after, k, lo, hi));
}

/// The allocator's own data is never handed out, whatever is allocated and given back, as long as
/// no one gives back frames of that data.
pub proof fn metadata_is_never_handed_out(
    plan: MetadataLayout,
    entries: Seq<MemoryMapEntry>,
    regions: Seq<RegionModel>,
    requests: Seq<Request>,
    count: usize,
    frames: FrameRange,
)
    requires
        plan.is_for(entries),
        regions.len() == usable(entries).len(),
        manages(regions[plan.host as int], usable(entries)[plan.host as int]),
        regions_wf(regions),
        disjoint(regions),
        aligned(regions),
        keep(requests, plan.host_base as int, plan.host_base + plan.size),
        alloc_result(
            answered(fresh(regions, plan.host as int, plan.reserved()), requests),
            count,
        ) == Some(frames),
    ensures
        avoids(frames, plan.host_base as int, plan.host_base + plan.size),
{
    let start = fresh(regions, plan.host as int, plan.reserved());
    metadata_is_taken(plan, entries, regions);
    lemma_same_frames(regions, start);
    assert forall|k: int| 0 <= k < start.len() implies is_frame_base(
        (#[trigger] start[k]).start,
    ) by {
        assert(is_frame_base(regions[k].start));
    }
    assert forall|i: int, j: int| 0 <= i < j < start.len() implies {
        ||| (#[trigger] start[i]).end <= (#[trigger] start[j]).start
        ||| start[j].end <= start[i].start
    } by {
        assert(regions[i].end <= regions[j].start || regions[j].end <= regions[i].start);
    }
    memory_in_use_is_never_handed_out(
        start,
        requests,
        plan.host_base as int,
        plan.host_base + plan.size,
        count,
        frames,
    );
}

/// Once the allocator has its regions, all frames are free but those of its own data: as many of
/// `reserved`, which starts where the hosting region does, as that region manages.
pub proof fn initial_counts(regions: Seq<RegionModel>, host: int, reserved: FrameRange)
    requires
        regions_wf(regions),
        0 <= host < regions.len(),
        regions[host].covers(reserved),
        reserved.start.0 == regions[host].start,
    ensures
        total_of(fresh(regions, host, reserved)) == total_of(regions),
        free_of(fresh(regions, host, reserved)) + (if reserved.count <= regions[host].frames {
            reserved.count as int
        } else {
            regions[host].frames
        }) == total_of(regions),
{
    let after = fresh(regions, host, reserved);
    let clear = Seq::new(regions.len(), |i: int| regions[i].cleared());
    lemma_same_frames(regions, after);
    lemma_cleared_counts(regions);
    assert(regions[host].wf());
    let region = clear[host].with_range(reserved, true);
    assert(after =~= clear.update(host, region));
    lemma_free_update(clear, host, region);
    lemma_count_marked(clear[host].used, 0, reserved.count as int, clear[host].frames);
}

/// Regions with every frame marked free have as many free frames as frames.
proof fn lemma_cleared_counts(regions: Seq<RegionModel>)
    requires
        forall|k: int| 0 <= k < regions.len() ==> (#[trigger] regions[k]).wf(),
    ensures
        free_of(Seq::new(regions.len(), |i: int| regions[i].cleared())) == total_of(regions),
        forall|k: int|
            0 <= k < regions.len() ==> (#[trigger] regions[k]).cleared().free()
                == regions[k].frames,
    decreases regions.len(),
{
    let clear = Seq::new(regions.len(), |i: int| regions[i].cleared());
    assert forall|k: int| 0 <= k < regions.len() implies (#[trigger] regions[k]).cleared().free()
        == regions[k].frames by {
        assert(regions[k].wf());
        lemma_all_free(regions[k].cleared().used, regions[k].frames);
    }
    if regions.len() > 0 {
        let rest = regions.drop_last();
        assert forall|k: int| 0 <= k < rest.len() implies (#[trigger] rest[k]).wf() by {
            assert(regions[k].wf());
        }
        lemma_cleared_counts(rest);
        assert(clear.drop_last() =~= Seq::new(rest.len(), |i: int| rest[i].cleared()));
        assert(regions[regions.len() - 1].cleared().free() == regions.last().frames);
    }
}

proof fn lemma_all_free(used: Seq<bool>, n: int)
    requires
        0 <= n <= used.len(),
        forall|i: int| 0 <= i < used.len() ==> !#[trigger] used[i],
    ensures
        count_free(used, n) == n,
    decreases n,
{
    if n > 0 {
        lemma_all_free(used, n - 1);
    }
}

/// Marking `count` free frames used leaves `count` fewer of them.
proof fn lemma_count_marked(used: Seq<bool>, at: int, count: int, n: int)
    requires
        0 <= at,
        0 <= count,
        0 <= n <= used.len(),
        forall|j: int| at <= j < at + count ==> !#[trigger] used[j],
    ensures
        n <= at ==> count_free(mark(used, at, count, true), n) == count_free(used, n),
        at <= n <= at + count ==> count_free(mark(used, at, count, true), n) + (n - at)
            == count_free(used, n),
        at + count <= n ==> count_free(mark(used, at, count, true), n) + count == count_free(
            used,
            n,
        ),
    decreases n,
{
    if n > 0 {
        lemma_count_marked(used, at, count, n - 1);
    }
}

/// Replacing one region changes the free frames by the difference.
proof fn lemma_free_update(regions: Seq<RegionModel>, k: int, region: RegionModel)
    requires
        0 <= k < regions.len(),
    ensures
        free_of(regions.update(k, region)) + regions[k].free() == free_of(regions) + region.free(),
    decreases regions.len(),
{
    let after = regions.update(k, region);
    if k == regions.len() - 1 {
        assert(after.drop_last() =~= regions.drop_last());
    } else {
        assert(after.drop_last() =~= regions.drop_last().update(k, region));
        lemma_free_update(regions.drop_last(), k, region);
    }
}

} // verus!
