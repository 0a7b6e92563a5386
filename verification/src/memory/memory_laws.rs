//! What addresses are, and what requests for frames answer.

use crate::memory::addr::{is_canonical, is_phys, PhysAddr, VirtAddr};
use crate::memory::bitmap::{after_alloc, alloc_result};
use crate::memory::frame::{as_single_run, is_frame_base, Frame, FrameAllocError, FrameRange};
use crate::memory::region::RegionModel;
use crate::memory::shared::{answered_by, as_mapped_run, MappedFrames};
use crate::memory::{
    after_answer, answer, frames_for, frames_requested, in_direct_map, mapped_at, range_mapped,
    reachable, shown_at, PhysicalMemory,
};
use crate::sync::WellFormed;
use vstd::prelude::*;

verus! {

/// A physical address has 52 bits. A virtual address is canonical: its 17 upper bits are all zero
/// or all one. A frame is 4096 bytes, and starts at a multiple of that.
pub proof fn addresses_are_bounded(addr: int)
    ensures
        is_phys(addr) <==> 0 <= addr && addr < 0x10_0000_0000_0000,
        is_canonical(addr) <==> 0 <= addr && addr <= 0xffff_ffff_ffff_ffff && (addr
            / 0x8000_0000_0000 == 0 || addr / 0x8000_0000_0000 == 0x1_ffff),
        is_frame_base(addr) <==> addr % 4096 == 0,
{
}

/// The direct map shows a physical address `hhdm_offset` bytes further up.
pub proof fn direct_map_adds_its_offset(hhdm_offset: u64, phys: PhysAddr, virt: VirtAddr)
    ensures
        in_direct_map(hhdm_offset, phys) <==> is_canonical(phys.0 + hhdm_offset),
        phys.0 + hhdm_offset <= u64::MAX ==> mapped_at(hhdm_offset, phys).0 == phys.0 + hhdm_offset,
        virt.0 >= hhdm_offset ==> shown_at(hhdm_offset, virt).0 == virt.0 - hhdm_offset,
{
}

/// A run of frames ends `count` frames further up, and covers the bytes in between. A single frame
/// is a run of one.
pub proof fn runs_cover_their_frames(frames: FrameRange, addr: int, frame: Frame)
    ensures
        frames.end() == frames.start.0 + frames.count * 4096,
        frames.covers(addr) <==> frames.start.0 <= addr && addr < frames.start.0 + frames.count
            * 4096,
        as_single_run(Ok(frame)) == Ok::<_, FrameAllocError>(
            FrameRange { start: frame.0, count: 1 },
        ),
        as_single_run(Err(FrameAllocError::OutOfMemory)) == Err::<FrameRange, _>(
            FrameAllocError::OutOfMemory,
        ),
        as_single_run(Err(FrameAllocError::NotInitialized)) == Err::<FrameRange, _>(
            FrameAllocError::NotInitialized,
        ),
{
}

/// Memory can be used through the direct map exactly if the offset is a multiple of 16, every region
/// starts at a frame boundary, and every byte of it is shown at a canonical address, with the
/// address past the last one below the end of the address space.
pub proof fn reachable_memory_is_shown(regions: Seq<RegionModel>, hhdm_offset: u64)
    ensures
        reachable(regions, hhdm_offset) <==> hhdm_offset as int % 16 == 0 && forall|k: int|
            0 <= k < regions.len() ==> {
                &&& (#[trigger] regions[k]).start % 4096 == 0
                &&& (regions[k].end + hhdm_offset <= 0x8000_0000_0000 || (regions[k].start
                    + hhdm_offset >= 0xffff_8000_0000_0000 && regions[k].end + hhdm_offset
                    <= 0xffff_ffff_ffff_ffff))
            },
{
    if reachable(regions, hhdm_offset) {
        assert forall|k: int| 0 <= k < regions.len() implies {
            &&& (#[trigger] regions[k]).start % 4096 == 0
            &&& (regions[k].end + hhdm_offset <= 0x8000_0000_0000 || (regions[k].start
                + hhdm_offset >= 0xffff_8000_0000_0000 && regions[k].end + hhdm_offset
                <= 0xffff_ffff_ffff_ffff))
        } by {
            assert(is_frame_base(regions[k].start));
            assert(range_mapped(hhdm_offset, regions[k].start, regions[k].end));
        }
    }
}

/// A request for frames is answered by the regions, or with an error where there are none or they
/// have no such run; the regions are then those that the allocation leaves. Seen through a lock it
/// is the same, together with where the direct map shows the frames.
pub proof fn requests_are_answered_by_the_regions(
    memory: PhysicalMemory<'_>,
    count: usize,
    after: PhysicalMemory<'_>,
    r: Result<MappedFrames, FrameAllocError>,
)
    ensures
        memory.frame_allocator@ is None ==> (frames_for(memory, count) matches Err(error) && error
            == FrameAllocError::NotInitialized),
        memory.frame_allocator@ matches Some(regions) ==> {
            &&& alloc_result(regions, count) matches Some(run) ==> (frames_for(
                memory,
                count,
            ) matches Ok(frames) && frames == run)
            &&& alloc_result(regions, count) is None ==> (frames_for(memory, count) matches Err(
                error,
            ) && error == FrameAllocError::OutOfMemory)
        },
        answer(memory.frame_allocator@, count) == frames_for(memory, count),
        frames_requested(memory, count, after) ==> {
            &&& after.hhdm_offset == memory.hhdm_offset
            &&& after.frame_allocator@ == after_answer(memory.frame_allocator@, count)
            &&& memory.frame_allocator@ is None ==> after.frame_allocator@ is None
            &&& memory.frame_allocator@ matches Some(regions) ==> (
            after.frame_allocator@ matches Some(left) && left == after_alloc(regions, count))
        },
        answered_by(memory, count, r) ==> {
            &&& memory.wf()
            &&& frames_for(memory, count) matches Ok(frames) ==> (r matches Ok(served)
                && served.frames == frames && served.virt == mapped_at(
                memory.hhdm_offset,
                frames.start,
            ))
            &&& frames_for(memory, count) matches Err(error) ==> (r matches Err(shown) && shown
                == error)
        },
{
}

/// A frame and where it is shown are a run of one, and where that is shown.
pub proof fn mapped_frame_is_a_run_of_one(frame: Frame, virt: VirtAddr, error: FrameAllocError)
    ensures
        as_mapped_run(Ok((frame, virt))) matches Ok(served) && served.frames.start == frame.0
            && served.frames.count == 1 && served.virt == virt,
        as_mapped_run(Err(error)) matches Err(same) && same == error,
{
}

} // verus!
