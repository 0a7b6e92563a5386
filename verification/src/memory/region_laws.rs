//! What allocating and giving back do to the bits of a region and to the regions of an allocator.

use crate::memory::addr::PhysAddr;
use crate::memory::bitmap::{
    after_alloc, after_dealloc, alloc_result, covered, free_of, fresh, lemma_owner, lemma_serving,
    owner, serves_aligned, serving, total_of, BitmapFrameAllocator,
};
use crate::memory::frame::{FrameAllocError, FrameAllocator, FrameRange};
use crate::memory::region::{bits, count_free, MemoryRegion, RegionModel};
use vstd::arithmetic::power2::{lemma2_to64, pow2};
use vstd::bits::lemma_u8_shr_is_div;
use vstd::prelude::*;

verus! {

/// Frame `i` of a region has bit `i % 8` of byte `i / 8` of the bitmap, the lowest bit of a byte
/// first, and is used exactly if the bit is one.
pub proof fn frames_have_their_bits(bytes: Seq<u8>, i: int)
    requires
        0 <= i < bytes.len() * 8,
    ensures
        bits(bytes).len() == bytes.len() * 8,
        bits(bytes)[i] <==> bytes[i / 8] as int / pow2((i % 8) as nat) as int % 2 == 1,
{
    let byte = bytes[i / 8];
    let k: u8 = (i % 8) as u8;
    lemma2_to64();
    lemma_u8_shr_is_div(byte, k);
    let shifted: u8 = byte >> k;
    assert((byte & (1u8 << k) != 0) == (shifted % 2 == 1)) by (bit_vector)
        requires
            k < 8,
            shifted == byte >> k,
    ;
}

/// A request is answered with the first free run: the `count` frames from frame `at` on, if they
/// are managed and free, and each run further down holds a used frame. They are then used, and no
/// other frame changes.
pub proof fn allocation_is_the_first_free_run(region: RegionModel, count: usize, at: int)
    requires
        1 <= count,
        0 <= at,
        at + count <= region.frames <= region.used.len(),
        forall|j: int| at <= j < at + count ==> !#[trigger] region.used[j],
        forall|i: int|
            0 <= i && #[trigger] (i + count) < at + count ==> exists|j: int|
                i <= j < i + count && #[trigger] region.used[j],
        0 <= region.start,
        region.start + at * 4096 <= u64::MAX,
    ensures
        region.alloc_result(count) == Some(
            FrameRange { start: PhysAddr((region.start + at * 4096) as u64), count },
        ),
        region.after_alloc(count).used.len() == region.used.len(),
        forall|j: int|
            0 <= j < region.used.len() ==> #[trigger] region.after_alloc(count).used[j] == (
            region.used[j] || at <= j < at + count),
        region.after_alloc(count).start == region.start,
        region.after_alloc(count).end == region.end,
        region.after_alloc(count).frames == region.frames,
{
    assert(region.run_at(at, count as int));
    assert forall|i: int| 0 <= i < at implies !#[trigger] region.run_at(i, count as int) by {
        assert(i + count < at + count);
        let j = choose|j: int| i <= j < i + count && #[trigger] region.used[j];
        assert(i <= j < i + count && region.used[j]);
    }
    assert(region.first_run_at(at, count as int));
    region.lemma_first_fit(count as int);
}

/// A request for no frames is refused, and so is one for more consecutive frames than are free
/// anywhere in the region. Nothing changes then.
pub proof fn allocation_fails_without_a_free_run(region: RegionModel, count: usize)
    requires
        count == 0 || forall|i: int|
            0 <= i && #[trigger] (i + count) <= region.frames ==> exists|j: int|
                i <= j < i + count && #[trigger] region.used[j],
    ensures
        region.alloc_result(count) is None,
        region.after_alloc(count) == region,
{
    region.lemma_first_fit(count as int);
    if let Some(at) = region.first_fit(count as int) {
        assert(region.run_at(at, count as int));
        assert(at + count <= region.frames);
    }
}

/// Marking frames used or free changes the bits of those frames and nothing else: `frames.count`
/// bits, from that of the frame that `frames.start` lies in.
pub proof fn marking_changes_the_frames_only(
    region: RegionModel,
    frames: FrameRange,
    value: bool,
    j: int,
)
    requires
        region.start <= frames.start.0,
        0 <= j < region.used.len(),
    ensures
        ({
            let after = region.with_range(frames, value);
            let from = (frames.start.0 - region.start) / 4096;
            &&& from <= j < from + frames.count ==> after.used[j] == value
            &&& !(from <= j < from + frames.count) ==> after.used[j] == region.used[j]
            &&& after.used.len() == region.used.len()
            &&& after.start == region.start
            &&& after.end == region.end
            &&& after.frames == region.frames
            &&& !region.cleared().used[j]
            &&& region.cleared().used.len() == region.used.len()
            &&& region.cleared().start == region.start
            &&& region.cleared().end == region.end
            &&& region.cleared().frames == region.frames
        }),
{
}

/// A region contains the addresses from its start up to its end; it can take frames back where
/// they start in it and the bitmap has a bit for each of them; and its free frames are the managed
/// ones whose bits are zero.
pub proof fn regions_hold_addresses_and_frames(region: RegionModel, addr: int, frames: FrameRange)
    requires
        0 <= region.frames <= region.used.len(),
    ensures
        region.spans(addr) <==> region.start <= addr && addr < region.end,
        region.covers(frames) <==> region.start <= frames.start.0 && (frames.count == 0 || {
            &&& (frames.start.0 - region.start) / 4096 + frames.count <= region.used.len()
            &&& (frames.start.0 - region.start) / 4096 + frames.count <= usize::MAX
        }),
        region.free() == region.used.take(region.frames).filter(|used: bool| !used).len(),
{
    lemma_count_is_filter(region.used, region.frames, |used: bool| !used);
}

proof fn lemma_count_is_filter(used: Seq<bool>, n: int, f: spec_fn(bool) -> bool)
    requires
        0 <= n <= used.len(),
        forall|b: bool| #[trigger] f(b) == !b,
    ensures
        count_free(used, n) == used.take(n).filter(f).len(),
    decreases n,
{
    reveal(Seq::filter);
    if n > 0 {
        lemma_count_is_filter(used, n - 1, f);
        assert(used.take(n).drop_last() =~= used.take(n - 1));
    }
}

/// The regions are asked in turn: the first one that has an answer gives it, and only that one
/// changes. Where none has one, nothing is handed out and nothing changes.
pub proof fn first_region_with_an_answer_gives_it(
    regions: Seq<RegionModel>,
    count: usize,
    k: int,
)
    ensures
        0 <= k < regions.len() && regions[k].alloc_result(count) is Some && (forall|i: int|
            0 <= i < k ==> (#[trigger] regions[i]).alloc_result(count) is None) ==> {
            &&& alloc_result(regions, count) == regions[k].alloc_result(count)
            &&& after_alloc(regions, count).len() == regions.len()
            &&& after_alloc(regions, count)[k] == regions[k].after_alloc(count)
            &&& forall|i: int|
                0 <= i < regions.len() && i != k ==> #[trigger] after_alloc(regions, count)[i]
                    == regions[i]
            &&& serves_aligned(regions, count) <==> regions[k].start % 4096 == 0
        },
        (forall|i: int|
            0 <= i < regions.len() ==> (#[trigger] regions[i]).alloc_result(count) is None) ==> {
            &&& alloc_result(regions, count) is None
            &&& after_alloc(regions, count) == regions
        },
{
    lemma_serving(regions, count as int, 0);
    if 0 <= k < regions.len() && regions[k].alloc_result(count) is Some && (forall|i: int|
        0 <= i < k ==> (#[trigger] regions[i]).alloc_result(count) is None) {
        assert(regions[k].first_fit(count as int) is Some);
        let s = serving(regions, count as int)->0;
        if s < k {
            assert(regions[s].alloc_result(count) is None);
        }
    }
    if let Some(s) = serving(regions, count as int) {
        assert(regions[s].alloc_result(count) is Some);
    }
}

/// Frames are given back to the first region that contains their start, which marks them free. No
/// other region changes, and nothing does where no region contains it.
pub proof fn frames_go_back_to_their_region(
    regions: Seq<RegionModel>,
    frames: FrameRange,
    k: int,
)
    ensures
        0 <= k < regions.len() && regions[k].start <= frames.start.0 && frames.start.0
            < regions[k].end && (forall|i: int|
            0 <= i < k ==> !((#[trigger] regions[i]).start <= frames.start.0 && frames.start.0
                < regions[i].end)) ==> {
            &&& after_dealloc(regions, frames).len() == regions.len()
            &&& after_dealloc(regions, frames)[k] == regions[k].with_range(frames, false)
            &&& forall|i: int|
                0 <= i < regions.len() && i != k ==> #[trigger] after_dealloc(regions, frames)[i]
                    == regions[i]
            &&& covered(regions, frames) <==> regions[k].covers(frames)
        },
        (forall|i: int|
            0 <= i < regions.len() ==> !((#[trigger] regions[i]).start <= frames.start.0
                && frames.start.0 < regions[i].end)) ==> after_dealloc(regions, frames) == regions
            && covered(regions, frames),
{
    lemma_owner(regions, frames.start.0 as int, 0);
    if let Some(o) = owner(regions, frames.start.0 as int) {
        assert(regions[o].spans(frames.start.0 as int));
        if 0 <= k < o {
            assert(!regions[k].spans(frames.start.0 as int));
        }
    } else if 0 <= k < regions.len() {
        assert(!regions[k].spans(frames.start.0 as int));
    }
}

/// All regions together have as many frames, and as many free ones, as they have one by one. As
/// they start out, every frame is free but those that are reserved in the hosting region.
pub proof fn regions_add_up(
    regions: Seq<RegionModel>,
    host: int,
    reserved: FrameRange,
    k: int,
)
    requires
        forall|i: int| 0 <= i < regions.len() ==> (#[trigger] regions[i]).frames >= 0,
        0 <= k < regions.len(),
    ensures
        total_of(regions) == regions.fold_left(0int, |sum: int, r: RegionModel| sum + r.frames),
        free_of(regions) == regions.fold_left(
            0int,
            |sum: int, r: RegionModel| sum + r.free() as int,
        ),
        fresh(regions, host, reserved).len() == regions.len(),
        k != host ==> fresh(regions, host, reserved)[k] == regions[k].cleared(),
        k == host ==> fresh(regions, host, reserved)[k] == regions[k].cleared().with_range(
            reserved,
            true,
        ),
{
    lemma_sums(
        regions,
        |sum: int, r: RegionModel| sum + r.frames,
        |sum: int, r: RegionModel| sum + r.free() as int,
    );
}

proof fn lemma_sums(
    regions: Seq<RegionModel>,
    f: spec_fn(int, RegionModel) -> int,
    g: spec_fn(int, RegionModel) -> int,
)
    requires
        forall|i: int| 0 <= i < regions.len() ==> (#[trigger] regions[i]).frames >= 0,
        forall|sum: int, r: RegionModel| #[trigger] f(sum, r) == sum + r.frames,
        forall|sum: int, r: RegionModel| #[trigger] g(sum, r) == sum + r.free() as int,
    ensures
        total_of(regions) == regions.fold_left(0int, f),
        free_of(regions) == regions.fold_left(0int, g),
    decreases regions.len(),
{
    if regions.len() > 0 {
        let rest = regions.drop_last();
        assert forall|i: int| 0 <= i < rest.len() implies (#[trigger] rest[i]).frames >= 0 by {
            assert(regions[i].frames >= 0);
        }
        assert(regions[regions.len() - 1].frames >= 0);
        lemma_sums(rest, f, g);
    }
}

/// What the frame allocator answers: before it has its regions, that it has none; then the frames
/// that the regions hand out, or that there are none left. It keeps what the regions are then.
pub proof fn allocator_answers_for_its_regions(
    before: BitmapFrameAllocator<'_>,
    count: usize,
    result: Result<FrameRange, FrameAllocError>,
    frames: FrameRange,
    after: BitmapFrameAllocator<'_>,
)
    ensures
        FrameAllocator::alloc_step(&before, count, result, &after) ==> {
            &&& before@ is None ==> (result matches Err(error) && error
                == FrameAllocError::NotInitialized) && after@ is None
            &&& before@ matches Some(regions) ==> {
                &&& alloc_result(regions, count) matches Some(run) ==> (result matches Ok(handed)
                    && handed == run)
                &&& alloc_result(regions, count) is None ==> (result matches Err(error) && error
                    == FrameAllocError::OutOfMemory)
                &&& after@ matches Some(left) && left == after_alloc(regions, count)
            }
        },
        FrameAllocator::dealloc_step(&before, frames, &after) ==> {
            &&& before@ is None ==> after@ is None
            &&& before@ matches Some(regions) ==> (after@ matches Some(left) && left
                == after_dealloc(regions, frames))
        },
        before@ is None ==> before.total() == 0 && before.free() == 0,
        before@ matches Some(regions) ==> before.total() == total_of(regions) && before.free()
            == free_of(regions),
{
}

/// What is said of a region is said of its fields.
pub proof fn region_is_its_fields(region: MemoryRegion<'_>)
    ensures
        region@.start == region.start.0,
        region@.end == region.end.0,
        region@.frames == region.bitmap.size,
        region@.used == bits(old(region.bitmap.data)@),
{
}

} // verus!
