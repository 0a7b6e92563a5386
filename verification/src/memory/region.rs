//! A region of usable memory and the bitmap of its frames.
//!
//! A `MemoryRegion` owns a bitmap with one bit per 4 KiB frame, 1 for used and 0 for free.
//! An allocation is a first-fit scan for a run of zero bits.

use crate::memory::addr::{is_phys, PhysAddr};
use crate::memory::frame::{is_frame_base, FrameRange, FRAME_SIZE};
use vstd::prelude::*;

verus! {

/// Bit `k` of `byte`.
pub open spec fn bit(byte: u8, k: int) -> bool {
    byte & (1u8 << (k as u8)) != 0
}

/// The bits of `bytes`, lowest bit of the first byte first.
pub open spec fn bits(bytes: Seq<u8>) -> Seq<bool> {
    Seq::new(bytes.len() * 8, |i: int| bit(bytes[i / 8], i % 8))
}

/// `used` with the `count` bits from `from` on set to `value`.
pub open spec fn mark(used: Seq<bool>, from: int, count: int, value: bool) -> Seq<bool> {
    Seq::new(
        used.len(),
        |i: int|
            if from <= i < from + count {
                value
            } else {
                used[i]
            },
    )
}

/// How many of the first `n` bits are zero.
pub open spec fn count_free(used: Seq<bool>, n: int) -> nat
    decreases n,
{
    if n <= 0 {
        0
    } else {
        count_free(used, n - 1) + (if used[n - 1] {
            0nat
        } else {
            1nat
        })
    }
}

proof fn lemma_set_bit(byte: u8, k: u8, j: u8)
    requires
        k < 8,
        j < 8,
    ensures
        bit(byte | (1u8 << k), j as int) == (j == k || bit(byte, j as int)),
        bit(byte & !(1u8 << k), j as int) == (j != k && bit(byte, j as int)),
{
    assert(((byte | (1u8 << k)) & (1u8 << j) != 0) == (j == k || byte & (1u8 << j) != 0))
        by (bit_vector)
        requires
            k < 8,
            j < 8,
    ;
    assert(((byte & !(1u8 << k)) & (1u8 << j) != 0) == (j != k && byte & (1u8 << j) != 0))
        by (bit_vector)
        requires
            k < 8,
            j < 8,
    ;
}

/// Bits laid over a slice of bytes. `size` is the number of bits in use; the slice may hold a
/// few more, up to the end of its last byte.
pub struct BitmapView<'a> {
    pub size: usize,
    pub data: &'a mut [u8],
}

impl<'a> View for BitmapView<'a> {
    type V = Seq<bool>;

    open spec fn view(&self) -> Seq<bool> {
        bits(self.data@)
    }
}

impl<'a> BitmapView<'a> {
    pub fn new(size: usize, data: &'a mut [u8]) -> (view: Self)
        ensures
            view.size == size,
            view@ == bits(old(data)@),
            final(view.data)@ == final(data)@,
    {
        BitmapView { size, data }
    }

    pub fn set(&mut self, index: usize)
        requires
            index < old(self)@.len(),
        ensures
            final(self)@ == old(self)@.update(index as int, true),
            final(self).size == old(self).size,
            final(final(self).data)@ == final(old(self).data)@,
    {
        let ghost before = self.data@;
        let byte: u8 = self.data[index / 8];
        self.data[index / 8] = byte | (1u8 << (index % 8) as u8);
        proof {
            self.lemma_one_byte(before, index, true);
        }
    }

    pub fn clear(&mut self, index: usize)
        requires
            index < old(self)@.len(),
        ensures
            final(self)@ == old(self)@.update(index as int, false),
            final(self).size == old(self).size,
            final(final(self).data)@ == final(old(self).data)@,
    {
        let ghost before = self.data@;
        let byte: u8 = self.data[index / 8];
        self.data[index / 8] = byte & !(1u8 << (index % 8) as u8);
        proof {
            self.lemma_one_byte(before, index, false);
        }
    }

    proof fn lemma_one_byte(&self, before: Seq<u8>, index: usize, value: bool)
        requires
            index < before.len() * 8,
            ({
                let mask = 1u8 << ((index % 8) as u8);
                let byte = before[index as int / 8];
                self.data@ == before.update(
                    index as int / 8,
                    if value {
                        byte | mask
                    } else {
                        byte & !mask
                    },
                )
            }),
        ensures
            self@ == bits(before).update(index as int, value),
    {
        assert forall|i: int| 0 <= i < before.len() * 8 implies self@[i] == bits(before).update(
            index as int,
            value,
        )[i] by {
            lemma_set_bit(before[index as int / 8], (index % 8) as u8, (i % 8) as u8);
        }
        assert(self@ =~= bits(before).update(index as int, value));
    }

    pub fn is_set(&self, index: usize) -> (set: bool)
        requires
            index < self@.len(),
        ensures
            set == self@[index as int],
    {
        (self.data[index / 8] & (1u8 << (index % 8) as u8)) != 0
    }
}

/// What a region is: the addresses it spans, how many frames of it are managed, and which of
/// them are used.
#[verifier::ext_equal]
pub struct RegionModel {
    pub start: int,
    pub end: int,
    pub frames: int,
    pub used: Seq<bool>,
}

impl RegionModel {
    /// The bitmap covers the managed frames, and these lie inside the region.
    pub open spec fn wf(self) -> bool {
        &&& 0 <= self.start
        &&& 0 <= self.frames <= self.used.len()
        &&& self.start + self.frames * FRAME_SIZE <= self.end
        &&& is_phys(self.end)
    }

    /// Whether the `count` frames from frame `at` on are managed and free.
    pub open spec fn run_at(self, at: int, count: int) -> bool {
        &&& count >= 1
        &&& 0 <= at
        &&& at + count <= self.frames
        &&& forall|j: int| at <= j < at + count ==> !#[trigger] self.used[j]
    }

    /// Whether `at` is the lowest frame at which `count` free frames start.
    pub open spec fn first_run_at(self, at: int, count: int) -> bool {
        &&& self.run_at(at, count)
        &&& forall|i: int| 0 <= i < at ==> !#[trigger] self.run_at(i, count)
    }

    /// The lowest frame at which `count` free frames start, where there is one.
    pub open spec fn first_fit(self, count: int) -> Option<int> {
        if exists|at: int| self.first_run_at(at, count) {
            Some(choose|at: int| self.first_run_at(at, count))
        } else {
            None
        }
    }

    /// The region with the `count` frames from frame `at` on marked used or free.
    pub open spec fn marked(self, at: int, count: int, value: bool) -> RegionModel {
        RegionModel { used: mark(self.used, at, count, value), ..self }
    }

    /// The base address of frame `at`.
    pub open spec fn frame_addr(self, at: int) -> int {
        self.start + at * FRAME_SIZE
    }

    /// The frame that the byte at `addr` lies in, counted from the start of the region.
    pub open spec fn frame_of(self, addr: int) -> int {
        (addr - self.start) / FRAME_SIZE as int
    }

    pub open spec fn spans(self, addr: int) -> bool {
        self.start <= addr < self.end
    }

    /// Whether the bitmap has a bit for each frame of `frames`, at an index that a `usize` holds.
    pub open spec fn covers(self, frames: FrameRange) -> bool {
        let past = self.frame_of(frames.start.0 as int) + frames.count;
        &&& self.start <= frames.start.0
        &&& frames.count == 0 || (past <= self.used.len() && past <= usize::MAX)
    }

    /// How many managed frames are free.
    pub open spec fn free(self) -> nat {
        count_free(self.used, self.frames)
    }

    /// The answer to a request for `count` frames.
    pub open spec fn alloc_result(self, count: usize) -> Option<FrameRange> {
        match self.first_fit(count as int) {
            Some(at) => Some(FrameRange { start: PhysAddr(self.frame_addr(at) as u64), count }),
            None => None,
        }
    }

    /// The region after a request for `count` frames.
    pub open spec fn after_alloc(self, count: usize) -> RegionModel {
        match self.first_fit(count as int) {
            Some(at) => self.marked(at, count as int, true),
            None => self,
        }
    }

    /// The region with the frames of `frames` marked used or free.
    pub open spec fn with_range(self, frames: FrameRange, value: bool) -> RegionModel {
        self.marked(self.frame_of(frames.start.0 as int), frames.count as int, value)
    }

    /// The region with every frame marked free.
    pub open spec fn cleared(self) -> RegionModel {
        RegionModel { used: Seq::new(self.used.len(), |i: int| false), ..self }
    }

    /// `first_fit` is the least frame with a free run, and is absent only where no frame has one.
    pub proof fn lemma_first_fit(self, count: int)
        ensures
            self.first_fit(count) matches Some(at) ==> self.first_run_at(at, count),
            self.first_fit(count) is None ==> forall|i: int| !self.run_at(i, count),
            forall|at: int| self.first_run_at(at, count) ==> self.first_fit(count) == Some(at),
    {
        if self.first_fit(count) is None {
            assert forall|i: int| !self.run_at(i, count) by {
                if self.run_at(i, count) {
                    self.lemma_least_run(i, count);
                }
            }
        }
        assert forall|at: int| self.first_run_at(at, count) implies self.first_fit(count) == Some(
            at,
        ) by {
            let chosen = choose|at: int| self.first_run_at(at, count);
            assert(self.first_run_at(chosen, count));
            assert(!(chosen < at)) by {
                if chosen < at {
                    assert(!self.run_at(chosen, count));
                }
            }
            assert(!(at < chosen)) by {
                if at < chosen {
                    assert(!self.run_at(at, count));
                }
            }
        }
    }

    /// The base address of a managed frame lies inside the region.
    pub proof fn lemma_frame_addr(self, at: int)
        requires
            self.wf(),
            0 <= at < self.frames,
        ensures
            self.start <= self.frame_addr(at),
            self.frame_addr(at) + FRAME_SIZE <= self.end,
            self.frame_of(self.frame_addr(at)) == at,
            is_frame_base(self.start) ==> is_frame_base(self.frame_addr(at)),
    {
    }

    proof fn lemma_least_run(self, i: int, count: int)
        requires
            self.run_at(i, count),
        ensures
            exists|at: int| self.first_run_at(at, count),
        decreases i,
    {
        if forall|k: int| 0 <= k < i ==> !#[trigger] self.run_at(k, count) {
            assert(self.first_run_at(i, count));
        } else {
            let k = choose|k: int| 0 <= k < i && #[trigger] self.run_at(k, count);
            self.lemma_least_run(k, count);
        }
    }
}

/// A region of usable memory, from `start` up to `end`.
pub struct MemoryRegion<'a> {
    pub start: PhysAddr,
    pub end: PhysAddr,
    pub bitmap: BitmapView<'a>,
}

impl<'a> View for MemoryRegion<'a> {
    type V = RegionModel;

    open spec fn view(&self) -> RegionModel {
        RegionModel {
            start: self.start.0 as int,
            end: self.end.0 as int,
            frames: self.bitmap.size as int,
            used: self.bitmap@,
        }
    }
}

impl<'a> MemoryRegion<'a> {
    /// The region of `length` bytes from `start`, with `data` as the bitmap of its whole frames.
    pub fn new(start: u64, length: u64, data: &'a mut [u8]) -> (region: Self)
        requires
            is_phys(start + length),
            length as int / FRAME_SIZE as int <= usize::MAX,
        ensures
            region@ == (RegionModel {
                start: start as int,
                end: start + length,
                frames: length as int / FRAME_SIZE as int,
                used: bits(old(data)@),
            }),
            final(region.bitmap.data)@ == final(data)@,
    {
        let count: usize = (length / FRAME_SIZE as u64) as usize;
        MemoryRegion {
            start: PhysAddr::new(start),
            end: PhysAddr::new(start + length),
            bitmap: BitmapView::new(count, data),
        }
    }

    /// Finds the first run of `count` free frames and marks it used. There is no run of length
    /// zero.
    pub fn take_run(&mut self, count: usize) -> (frames: Option<FrameRange>)
        requires
            old(self)@.wf(),
        ensures
            frames == old(self)@.alloc_result(count),
            final(self)@ == old(self)@.after_alloc(count),
            final(final(self).bitmap.data)@ == final(old(self).bitmap.data)@,
    {
        let ghost model = self@;
        let size: usize = self.bitmap.size;
        let mut consecutive_free: usize = 0;
        let mut start_index: usize = 0;
        let mut i: usize = 0;
        while i < size
            invariant
                self@ == model,
                model == old(self)@,
                final(self.bitmap.data)@ == final(old(self).bitmap.data)@,
                model.wf(),
                size == model.frames,
                i <= size,
                consecutive_free <= i,
                count == 0 || consecutive_free < count,
                consecutive_free > 0 ==> start_index + consecutive_free == i,
                forall|j: int| i - consecutive_free <= j < i ==> !#[trigger] model.used[j],
                consecutive_free < i ==> model.used[i - consecutive_free - 1],
                forall|k: int| k + count <= i ==> !#[trigger] model.run_at(k, count as int),
            decreases size - i,
        {
            if !self.bitmap.is_set(i) {
                if consecutive_free == 0 {
                    start_index = i;
                }
                consecutive_free = consecutive_free + 1;
                if consecutive_free == count {
                    proof {
                        assert(model.run_at(start_index as int, count as int));
                        assert(model.first_run_at(start_index as int, count as int));
                        model.lemma_first_fit(count as int);
                        model.lemma_frame_addr(start_index as int);
                    }
                    self.mark_range(start_index, count, true);
                    let addr: PhysAddr = self.start.offset(start_index as u64 * FRAME_SIZE as u64);
                    return Some(FrameRange { start: addr, count });
                }
                assert forall|k: int| k + count <= i + 1 implies !#[trigger] model.run_at(
                    k,
                    count as int,
                ) by {
                    if model.run_at(k, count as int) && k + count == i + 1 {
                        assert(model.used[i + 1 - consecutive_free - 1]);
                    }
                }
            } else {
                consecutive_free = 0;
                assert forall|k: int| k + count <= i + 1 implies !#[trigger] model.run_at(
                    k,
                    count as int,
                ) by {
                    if model.run_at(k, count as int) && k + count == i + 1 {
                        assert(model.used[i as int]);
                    }
                }
            }
            i = i + 1;
        }
        proof {
            model.lemma_first_fit(count as int);
            assert(model.first_fit(count as int) is None);
        }
        None
    }

    /// Hands out the first run of `count` free frames.
    ///
    /// A region that can serve the request must start at a frame boundary.
    pub fn allocate(&mut self, count: usize) -> (frames: Option<FrameRange>)
        requires
            old(self)@.wf(),
            is_frame_base(old(self)@.start) || old(self)@.first_fit(count as int) is None,
        ensures
            frames == old(self)@.alloc_result(count),
            final(self)@ == old(self)@.after_alloc(count),
            final(final(self).bitmap.data)@ == final(old(self).bitmap.data)@,
    {
        let ghost model = self@;
        match self.take_run(count) {
            Some(run) => {
                proof {
                    model.lemma_first_fit(count as int);
                    model.lemma_frame_addr(model.first_fit(count as int)->0);
                }
                Some(FrameRange::new(run.start, count))
            },
            None => None,
        }
    }

    /// The index of the frame that the byte at `addr` lies in.
    fn index_of(&self, addr: PhysAddr) -> (index: usize)
        requires
            self@.start <= addr.0,
        ensures
            self@.frame_of(addr.0 as int) <= usize::MAX ==> index == self@.frame_of(addr.0 as int),
    {
        let offset: u64 = addr.as_u64() - self.start.as_u64();
        (offset / FRAME_SIZE as u64) as usize
    }

    /// Whether the bitmap has a bit for each frame of `frames`.
    pub fn has_bits_for(&self, frames: FrameRange) -> (has: bool)
        ensures
            has == self@.covers(frames),
    {
        if frames.start.0 < self.start.0 {
            return false;
        }
        let first: u64 = (frames.start.0 - self.start.0) / FRAME_SIZE as u64;
        assert(first == self@.frame_of(frames.start.0 as int));
        let past: u128 = first as u128 + frames.count as u128;
        frames.count == 0 || (past <= self.bitmap.data.len() as u128 * 8 && past
            <= usize::MAX as u128)
    }

    /// Takes `frames` back: clears their bits.
    pub fn dealloc(&mut self, frames: FrameRange)
        requires
            old(self)@.covers(frames),
        ensures
            final(self)@ == old(self)@.with_range(frames, false),
            final(final(self).bitmap.data)@ == final(old(self).bitmap.data)@,
    {
        let start_index: usize = self.index_of(frames.start);
        let ghost model = self@;
        self.mark_range(start_index, frames.count, false);
        assert(self@ =~= model.with_range(frames, false));
    }

    /// Marks `frames` used without going through the allocator, for frames that it must never
    /// hand out, such as those of the bitmap data itself.
    pub fn reserve(&mut self, frames: FrameRange)
        requires
            old(self)@.covers(frames),
        ensures
            final(self)@ == old(self)@.with_range(frames, true),
            final(final(self).bitmap.data)@ == final(old(self).bitmap.data)@,
    {
        let start_index: usize = self.index_of(frames.start);
        let ghost model = self@;
        self.mark_range(start_index, frames.count, true);
        assert(self@ =~= model.with_range(frames, true));
    }

    pub fn contains(&self, addr: PhysAddr) -> (inside: bool)
        ensures
            inside == self@.spans(addr.0 as int),
    {
        addr.0 >= self.start.0 && addr.0 < self.end.0
    }

    pub fn total_frames(&self) -> (count: usize)
        ensures
            count == self@.frames,
    {
        self.bitmap.size
    }

    pub fn free_frames(&self) -> (count: usize)
        requires
            self@.wf(),
        ensures
            count == self@.free(),
    {
        let mut n: usize = 0;
        let mut i: usize = 0;
        while i < self.bitmap.size
            invariant
                self@.wf(),
                i <= self.bitmap.size,
                n <= i,
                n == count_free(self@.used, i as int),
            decreases self.bitmap.size - i,
        {
            if !self.bitmap.is_set(i) {
                n = n + 1;
            }
            i = i + 1;
        }
        n
    }

    /// Marks every frame free.
    pub fn clear_all(&mut self)
        ensures
            final(self)@ == old(self)@.cleared(),
            final(final(self).bitmap.data)@ == final(old(self).bitmap.data)@,
    {
        let mut i: usize = 0;
        while i < self.bitmap.data.len()
            invariant
                i <= self.bitmap.data@.len(),
                self.start == old(self).start,
                self.end == old(self).end,
                self.bitmap.size == old(self).bitmap.size,
                self.bitmap.data@.len() == old(self).bitmap.data@.len(),
                forall|k: int| 0 <= k < i ==> self.bitmap.data@[k] == 0,
                final(self.bitmap.data)@ == final(old(self).bitmap.data)@,
            decreases self.bitmap.data@.len() - i,
        {
            self.bitmap.data[i] = 0;
            i = i + 1;
        }
        assert(self@ =~= old(self)@.cleared()) by {
            assert forall|i: int| 0 <= i < self@.used.len() implies !#[trigger] self@.used[i] by {
                let k: u8 = (i % 8) as u8;
                assert(0u8 & (1u8 << k) == 0) by (bit_vector);
            }
        }
    }

    /// Sets or clears the `count` bits from `from` on.
    fn mark_range(&mut self, from: usize, count: usize, value: bool)
        requires
            count == 0 || from + count <= old(self)@.used.len(),
            count == 0 || from + count <= usize::MAX,
        ensures
            final(self)@ == old(self)@.marked(from as int, count as int, value),
            final(final(self).bitmap.data)@ == final(old(self).bitmap.data)@,
    {
        let ghost model = self@;
        let mut done: usize = 0;
        while done < count
            invariant
                done <= count,
                model == old(self)@,
                count == 0 || from + count <= model.used.len(),
                count == 0 || from + count <= usize::MAX,
                self@ == model.marked(from as int, done as int, value),
                final(self.bitmap.data)@ == final(old(self).bitmap.data)@,
            decreases count - done,
        {
            if value {
                self.bitmap.set(from + done);
            } else {
                self.bitmap.clear(from + done);
            }
            done = done + 1;
            assert(self@ =~= model.marked(from as int, done as int, value));
        }
    }
}

} // verus!
