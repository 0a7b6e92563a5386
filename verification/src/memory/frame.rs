//! Frames: the 4 KiB units in which physical memory is handed out.

use crate::memory::addr::{is_phys, PhysAddr};
use crate::sync::WellFormed;
use vstd::prelude::*;

verus! {

pub const FRAME_SIZE: usize = 4096;

/// Whether `addr` is the base address of a frame.
pub open spec fn is_frame_base(addr: int) -> bool {
    addr % FRAME_SIZE as int == 0
}

/// A 4 KiB physical frame, identified by its base address.
#[derive(Debug, Clone, Copy, PartialEq, Eq, Structural)]
pub struct Frame(pub PhysAddr);

impl Frame {
    /// The frame at `addr`, which must be a multiple of the frame size.
    pub fn new(addr: PhysAddr) -> (frame: Frame)
        requires
            is_frame_base(addr.0 as int),
        ensures
            frame == Frame(addr),
    {
        Frame(addr)
    }

    pub fn addr(self) -> (addr: PhysAddr)
        ensures
            addr == self.0,
    {
        self.0
    }
}

/// A contiguous run of physical frames.
#[derive(Debug, Clone, Copy, PartialEq, Eq, Structural)]
pub struct FrameRange {
    pub start: PhysAddr,
    pub count: usize,
}

impl FrameRange {
    /// Where the run ends: the address of the first byte past it.
    pub open spec fn end(self) -> int {
        self.start.0 + self.count * FRAME_SIZE
    }

    /// Whether the byte at `addr` lies in the run.
    pub open spec fn covers(self, addr: int) -> bool {
        self.start.0 <= addr < self.end()
    }

    /// The run of `count` frames from `start`, which must be a multiple of the frame size.
    pub fn new(start: PhysAddr, count: usize) -> (range: FrameRange)
        requires
            is_frame_base(start.0 as int),
        ensures
            range == (FrameRange { start, count }),
    {
        FrameRange { start, count }
    }

    pub fn start_addr(self) -> (addr: PhysAddr)
        ensures
            addr == self.start,
    {
        self.start
    }

    /// The address of the first byte past the run, which must be a physical address.
    pub fn end_addr(self) -> (addr: PhysAddr)
        requires
            is_phys(self.end()),
        ensures
            addr.0 == self.end(),
            addr.wf(),
    {
        self.start.offset(self.count as u64 * FRAME_SIZE as u64)
    }
}

#[derive(Debug, Clone, Copy, PartialEq, Eq, Structural)]
pub enum FrameAllocError {
    OutOfMemory,
    NotInitialized,
}

/// Backend that manages physical frames.
///
/// An implementation states what an allocation and a deallocation do through the relations
/// `alloc_step` and `dealloc_step` between the states before and after. Its methods take the
/// backend by exclusive reference: where CPUs share one, it lives behind a `SpinLock`.
pub trait FrameAllocator: Sized + Send + Sync {
    /// The backend's invariant.
    spec fn inv(&self) -> bool;

    /// Whether the backend can answer a request for `count` frames.
    spec fn can_alloc(&self, count: usize) -> bool;

    /// Whether the backend can take `frames` back.
    spec fn can_dealloc(&self, frames: FrameRange) -> bool;

    /// A request for `count` frames in state `pre` yields `result` and state `post`.
    spec fn alloc_step(
        pre: &Self,
        count: usize,
        result: Result<FrameRange, FrameAllocError>,
        post: &Self,
    ) -> bool;

    /// Taking `frames` back in state `pre` leads to state `post`.
    spec fn dealloc_step(pre: &Self, frames: FrameRange, post: &Self) -> bool;

    /// How many frames the backend manages.
    spec fn total(&self) -> nat;

    /// How many of the managed frames are free.
    spec fn free(&self) -> nat;

    fn allocate(&mut self, count: usize) -> (result: Result<FrameRange, FrameAllocError>)
        requires
            old(self).inv(),
            old(self).can_alloc(count),
        ensures
            final(self).inv(),
            Self::alloc_step(old(self), count, result, final(self)),
            result matches Ok(frames) ==> is_frame_base(frames.start.0 as int) && frames.count
                == count && frames.start.wf(),
    ;

    fn dealloc(&mut self, frames: FrameRange)
        requires
            old(self).inv(),
            old(self).can_dealloc(frames),
        ensures
            final(self).inv(),
            Self::dealloc_step(old(self), frames, final(self)),
    ;

    /// A single frame: the one of a run of length one.
    fn alloc_one(&mut self) -> (result: Result<Frame, FrameAllocError>)
        requires
            old(self).inv(),
            old(self).can_alloc(1),
        ensures
            final(self).inv(),
            Self::alloc_step(old(self), 1, as_single_run(result), final(self)),
            result matches Ok(frame) ==> is_frame_base(frame.0.0 as int) && frame.0.wf(),
    {
        match self.allocate(1) {
            Ok(frames) => Ok(Frame::new(frames.start_addr())),
            Err(error) => Err(error),
        }
    }

    /// Takes a single frame back.
    fn dealloc_one(&mut self, frame: Frame)
        requires
            old(self).inv(),
            is_frame_base(frame.0.0 as int),
            old(self).can_dealloc(FrameRange { start: frame.0, count: 1 }),
        ensures
            final(self).inv(),
            Self::dealloc_step(old(self), (FrameRange { start: frame.0, count: 1 }), final(self)),
    {
        self.dealloc(FrameRange::new(frame.addr(), 1));
    }

    fn total_frames(&self) -> (count: usize)
        requires
            self.inv(),
        ensures
            count == self.total(),
    ;

    fn free_frames(&self) -> (count: usize)
        requires
            self.inv(),
        ensures
            count == self.free(),
    ;
}

/// The answer to a request for one frame, read as the answer to a request for a run of one.
pub open spec fn as_single_run(result: Result<Frame, FrameAllocError>) -> Result<
    FrameRange,
    FrameAllocError,
> {
    match result {
        Ok(frame) => Ok(FrameRange { start: frame.0, count: 1 }),
        Err(error) => Err(error),
    }
}

} // verus!
