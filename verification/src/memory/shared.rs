//! Physical memory that the CPUs share.
//!
//! These functions may be called from any CPU at any time: each of them takes the lock, and
//! releases it before it returns. What they answer depends on what the other CPUs have allocated,
//! so the contracts state what holds of every answer. Interrupts have to be off during a call.

use crate::memory::addr::VirtAddr;
use crate::memory::frame::{is_frame_base, Frame, FrameAllocError, FrameRange};
use crate::memory::{
    frames_for, frames_requested, mapped_at, phys_to_virt, range_mapped,
    well_formed_memory_serves, PhysicalMemory, OFFSET_ALIGN,
};
use crate::sync::{SpinLock, WellFormed};
use vstd::prelude::*;

verus! {

/// Frames that were handed out, and where the direct map shows them.
#[derive(Debug, Clone, Copy, PartialEq, Eq, Structural)]
pub struct MappedFrames {
    pub frames: FrameRange,
    pub virt: VirtAddr,
}

impl WellFormed for MappedFrames {
    /// The frames start at a frame boundary, and some direct map shows all of them, from `virt`
    /// on.
    open spec fn wf(&self) -> bool {
        &&& self.frames.count >= 1
        &&& self.frames.start.wf()
        &&& is_frame_base(self.frames.start.0 as int)
        &&& self.virt.wf()
        &&& exists|hhdm_offset: u64| #[trigger] self.shown_by(hhdm_offset)
    }
}

impl MappedFrames {
    /// Whether the direct map at `hhdm_offset` shows the frames, from `virt` on.
    pub open spec fn shown_by(self, hhdm_offset: u64) -> bool {
        &&& hhdm_offset as int % OFFSET_ALIGN as int == 0
        &&& self.virt == mapped_at(hhdm_offset, self.frames.start)
        &&& range_mapped(hhdm_offset, self.frames.start.0 as int, self.frames.end())
    }
}

/// Whether `r` is the answer of the memory `state` to a request for `count` frames: the frames that
/// its allocator hands out, and where its direct map shows them.
pub open spec fn answered_by(
    state: PhysicalMemory<'_>,
    count: usize,
    r: Result<MappedFrames, FrameAllocError>,
) -> bool {
    &&& state.wf()
    &&& match frames_for(state, count) {
        Ok(frames) => r == Ok::<_, FrameAllocError>(
            MappedFrames { frames, virt: mapped_at(state.hhdm_offset, frames.start) },
        ),
        Err(error) => r == Err::<MappedFrames, _>(error),
    }
}

/// Whether a holder of `lock` found the memory `before`, got `r` from it for a request for `count`
/// frames, and left the memory `after`.
pub open spec fn request_served(
    lock: SpinLock<PhysicalMemory<'_>>,
    before: PhysicalMemory<'_>,
    count: usize,
    r: Result<MappedFrames, FrameAllocError>,
    after: PhysicalMemory<'_>,
) -> bool {
    &&& lock.has_held(before)
    &&& answered_by(before, count, r)
    &&& frames_requested(before, count, after)
    &&& lock.has_held(after)
}

/// The answer to a request for one frame, read as the answer to a request for a run of one.
pub open spec fn as_mapped_run(r: Result<(Frame, VirtAddr), FrameAllocError>) -> Result<
    MappedFrames,
    FrameAllocError,
> {
    match r {
        Ok((frame, virt)) => Ok(
            MappedFrames { frames: FrameRange { start: frame.0, count: 1 }, virt },
        ),
        Err(error) => Err(error),
    }
}

/// Hands out `count` frames of `memory`, and says where the direct map shows them.
pub fn alloc_mapped(memory: &mut PhysicalMemory<'_>, count: usize) -> (r: Result<
    MappedFrames,
    FrameAllocError,
>)
    requires
        old(memory).wf(),
    ensures
        final(memory).wf(),
        answered_by(*old(memory), count, r),
        frames_requested(*old(memory), count, *final(memory)),
        r matches Ok(served) ==> served.wf() && served.shown_by(old(memory).hhdm_offset)
            && served.frames.count == count,
        count == 0 ==> r is Err,
{
    proof {
        well_formed_memory_serves(*memory, count);
    }
    match crate::memory::alloc_frames(memory, count) {
        Ok(frames) => {
            let served = MappedFrames { frames, virt: phys_to_virt(memory, frames.start_addr()) };
            assert(served.shown_by(memory.hhdm_offset));
            Ok(served)
        },
        Err(error) => Err(error),
    }
}

/// Hands out `count` frames of the memory behind the lock: the answer is that of the memory that is
/// found there, and the memory that is left has the frames marked used.
///
/// `interrupts_enabled` says whether interrupts were on before the caller turned them off; the
/// second result says whether they are to be turned on again.
pub fn alloc_frames(
    memory: &SpinLock<PhysicalMemory<'_>>,
    interrupts_enabled: bool,
    count: usize,
) -> (r: (Result<MappedFrames, FrameAllocError>, bool))
    ensures
        exists|before: PhysicalMemory<'_>, after: PhysicalMemory<'_>| #[trigger]
            request_served(*memory, before, count, r.0, after),
        r.0 matches Ok(served) ==> served.wf() && served.frames.count == count,
        count == 0 ==> r.0 is Err,
        r.1 == interrupts_enabled,
{
    let mut guard = memory.lock(interrupts_enabled);
    let ghost before = guard.data();
    let result: Result<MappedFrames, FrameAllocError> = alloc_mapped(guard.deref_mut(), count);
    let ghost after = guard.data();
    let enable_interrupts: bool = SpinLock::unlock(guard);
    assert(request_served(*memory, before, count, result, after));
    (result, enable_interrupts)
}

/// Hands out a single frame of the memory behind the lock, and says where the direct map shows it;
/// otherwise as `alloc_frames`.
pub fn alloc_frame(memory: &SpinLock<PhysicalMemory<'_>>, interrupts_enabled: bool) -> (r: (
    Result<(Frame, VirtAddr), FrameAllocError>,
    bool,
))
    ensures
        exists|before: PhysicalMemory<'_>, after: PhysicalMemory<'_>| #[trigger]
            request_served(*memory, before, 1, as_mapped_run(r.0), after),
        as_mapped_run(r.0) matches Ok(served) ==> served.wf(),
        r.1 == interrupts_enabled,
{
    let (result, enable_interrupts) = alloc_frames(memory, interrupts_enabled, 1);
    match result {
        Ok(served) => {
            let frame = Frame::new(served.frames.start_addr());
            let single: Result<(Frame, VirtAddr), FrameAllocError> = Ok((frame, served.virt));
            assert(as_mapped_run(single) == result);
            (single, enable_interrupts)
        },
        Err(error) => {
            let none: Result<(Frame, VirtAddr), FrameAllocError> = Err(error);
            assert(as_mapped_run(none) == result);
            (none, enable_interrupts)
        },
    }
}

} // verus!
