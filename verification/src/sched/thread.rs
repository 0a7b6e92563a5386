//! Kernel threads, their stacks and the table that holds them.

use crate::arch::amd64::gdt::{KERNEL_CS, KERNEL_DS};
use crate::memory::addr::VirtAddr;
use crate::memory::bitmap::{lemma_serving, serving};
use crate::memory::frame::{FrameAllocError, FrameAllocator, FrameRange, FRAME_SIZE};
use crate::memory::{
    after_answer, alloc_frame, alloc_frames, answer, frames_for, frames_requested, in_direct_map,
    mapped_at, phys_to_virt, well_formed_memory_serves,
};
use crate::memory::PhysicalMemory;
use crate::sched::queue::{empty_slots, CAPACITY};
use crate::sync::WellFormed;
use vstd::prelude::*;

pub use crate::sched::queue::Queue;

verus! {

/// The registers of a thread that is not running, as they lie on its stack: the ones that the
/// switch to the thread pops, and then the frame that it returns through.
#[derive(Debug, Clone, Copy, PartialEq, Eq, Structural)]
pub struct CpuRegsOnStack {
    // callee-preserved registers
    pub r15: u64,
    pub r14: u64,
    pub r13: u64,
    pub r12: u64,
    pub rbp: u64,
    pub rbx: u64,
    // caller-saved registers
    pub r11: u64,
    pub r10: u64,
    pub r9: u64,
    pub r8: u64,
    pub rax: u64,
    pub rcx: u64,
    pub rdx: u64,
    pub rsi: u64,
    pub rdi: u64,
    // interrupt stack frame
    pub rip: u64,
    pub cs: u64,
    pub rflags: u64,
    pub rsp: u64,
    pub ss: u64,
}

/// The bytes that the registers take on a stack: twenty of eight bytes each.
pub const REGS_SIZE: u64 = 160;

/// The flags register of a new thread: interrupts are on.
pub const INITIAL_RFLAGS: u64 = 0x202;

/// The registers of a thread that is about to run `entry` inside the kernel, on an empty stack
/// whose top is at `stack_top`.
pub open spec fn kernel_regs(entry: u64, stack_top: u64) -> CpuRegsOnStack {
    CpuRegsOnStack {
        r15: 0,
        r14: 0,
        r13: 0,
        r12: 0,
        rbp: stack_top,
        rbx: 0,
        r11: 0,
        r10: 0,
        r9: 0,
        r8: 0,
        rax: 0,
        rcx: 0,
        rdx: 0,
        rsi: 0,
        rdi: 0,
        rip: entry,
        cs: KERNEL_CS as u64,
        rflags: INITIAL_RFLAGS,
        rsp: stack_top,
        ss: KERNEL_DS as u64,
    }
}

impl CpuRegsOnStack {
    /// The registers of a thread that starts at `entry`. The stack must be aligned to 16 bytes.
    pub fn new_inside_kernel(entry: u64, stack_top: u64) -> (regs: Self)
        requires
            stack_top as int % 16 == 0,
        ensures
            regs == kernel_regs(entry, stack_top),
    {
        CpuRegsOnStack {
            r15: 0,
            r14: 0,
            r13: 0,
            r12: 0,
            rbp: stack_top,
            rbx: 0,
            r11: 0,
            r10: 0,
            r9: 0,
            r8: 0,
            rax: 0,
            rcx: 0,
            rdx: 0,
            rsi: 0,
            rdi: 0,
            rip: entry,
            cs: KERNEL_CS as u64,
            rflags: INITIAL_RFLAGS,
            rsp: stack_top,
            ss: KERNEL_DS as u64,
        }
    }
}

/// A stack: `size` bytes from `base` on.
#[derive(Debug, Clone, Copy, PartialEq, Eq, Structural)]
pub struct Stack {
    pub base: u64,
    pub size: u64,
}

/// The stack that lies in `frames`, seen through the direct map at `hhdm_offset`.
pub open spec fn stack_in(frames: FrameRange, hhdm_offset: u64) -> Stack {
    Stack {
        base: mapped_at(hhdm_offset, frames.start).0,
        size: (frames.count * FRAME_SIZE) as u64,
    }
}

/// Whether `count` frames can be requested for the kernel's own use: the allocator can answer,
/// and the direct map reaches what it hands out.
pub open spec fn can_use_frames(memory: PhysicalMemory<'_>, count: usize) -> bool {
    &&& memory.frame_allocator.inv()
    &&& memory.frame_allocator.can_alloc(count)
    &&& frames_for(memory, count) matches Ok(frames) ==> in_direct_map(
        memory.hhdm_offset,
        frames.start,
    )
}

/// Whether a thread can be given a stack of `count` pages: its top is an address, aligned to 16
/// bytes.
pub open spec fn can_use_stack(memory: PhysicalMemory<'_>, count: usize) -> bool {
    &&& can_use_frames(memory, count)
    &&& frames_for(memory, count) matches Ok(frames) ==> {
        let top = stack_in(frames, memory.hhdm_offset).top();
        top <= u64::MAX && top % 16 == 0
    }
}

/// Whether a page for a closure can be requested: the address of the closure in it fits a `u64`.
pub open spec fn can_use_closure_page(memory: PhysicalMemory<'_>) -> bool {
    &&& can_use_frames(memory, 1)
    &&& frames_for(memory, 1) matches Ok(frames) ==> mapped_at(
        memory.hhdm_offset,
        frames.start,
    ).0 + CLOSURE_OFFSET <= u64::MAX
}

impl Stack {
    /// The address of the first byte past the stack.
    pub open spec fn top(self) -> int {
        self.base + self.size
    }

    /// A stack of `num_pages` pages in newly allocated frames.
    pub fn new(memory: &mut PhysicalMemory<'_>, num_pages: usize) -> (r: Result<
        Self,
        FrameAllocError,
    >)
        requires
            can_use_frames(*old(memory), num_pages),
        ensures
            frames_requested(*old(memory), num_pages, *final(memory)),
            old(memory).wf() ==> final(memory).wf(),
            r == match frames_for(*old(memory), num_pages) {
                Ok(frames) => Ok(stack_in(frames, old(memory).hhdm_offset)),
                Err(error) => Err(error),
            },
            r matches Ok(stack) ==> stack.size >= FRAME_SIZE,
    {
        let frames: FrameRange = match alloc_frames(memory, num_pages) {
            Ok(frames) => frames,
            Err(error) => return Err(error),
        };
        proof {
            let regions = old(memory).frame_allocator@->0;
            lemma_serving(regions, num_pages as int, 0);
            let k = serving(regions, num_pages as int)->0;
            assert(regions[k].wf());
            regions[k].lemma_first_fit(num_pages as int);
            assert(1 <= num_pages <= regions[k].frames);
            assert(num_pages * FRAME_SIZE <= regions[k].end);
        }
        let stack_addr: VirtAddr = phys_to_virt(memory, frames.start);
        Ok(Stack { base: stack_addr.as_u64(), size: num_pages as u64 * FRAME_SIZE as u64 })
    }

    pub fn get_top_address(&self) -> (top: u64)
        requires
            self.top() <= u64::MAX,
        ensures
            top == self.top(),
    {
        self.base + self.size
    }
}

#[derive(Debug, Clone, Copy, PartialEq, Eq, Structural)]
pub enum ThreadState {
    Born,
    Ready,
    Running,
    Blocked,
    Zombie,
}

/// Where a thread is in its life, and which CPU it belongs to.
#[derive(Debug, Clone, Copy, PartialEq, Eq)]
pub struct SchedState {
    pub cpu: Option<u32>,
    pub state: ThreadState,
}

/// A kernel thread.
#[derive(Debug)]
pub struct Thread {
    /// Where the registers lie while the thread is not running.
    pub regs: u64,
    pub id: u64,
    pub kernel_stack: Stack,
    pub sched_state: SchedState,
}

/// The thread, ready on the CPU `cpu_id`.
pub open spec fn readied(thread: Thread, cpu_id: u32) -> Thread {
    Thread {
        sched_state: SchedState { cpu: Some(cpu_id), state: ThreadState::Ready },
        ..thread
    }
}

/// A thread on an otherwise empty stack: its registers lie at the top.
pub open spec fn thread_on(id: u64, stack: Stack, state: ThreadState) -> Thread {
    Thread {
        regs: (stack.top() - REGS_SIZE) as u64,
        id,
        kernel_stack: stack,
        sched_state: SchedState { cpu: None, state },
    }
}

/// Where the ids of threads come from. Idle threads have the id 0, which is never given out.
pub struct ThreadIds {
    /// The id that was given out last, or 0 where none was.
    pub last: u64,
}

impl WellFormed for ThreadIds {
    open spec fn wf(&self) -> bool {
        true
    }
}

impl ThreadIds {
    /// A source that has not given out any id.
    pub fn new() -> (ids: Self)
        ensures
            ids.last == 0,
    {
        ThreadIds { last: 0 }
    }

    /// The next id. There must be one left.
    pub fn next(&mut self) -> (id: u64)
        requires
            old(self).last < u64::MAX,
        ensures
            id == old(self).last + 1,
            final(self).last == id,
    {
        self.last = self.last + 1;
        self.last
    }
}

/// What is left to be done for a thread that was spawned.
#[derive(Debug, Clone, Copy, PartialEq, Eq, Structural)]
pub struct SpawnedThread {
    pub id: u64,
    /// Where the registers have to be written.
    pub regs_addr: u64,
    pub regs: CpuRegsOnStack,
}

/// What is left to be done for the thread with the id `id` that is to run `entry` with the
/// argument `arg` on `stack`.
pub open spec fn about_to_start(id: u64, stack: Stack, entry: u64, arg: u64) -> SpawnedThread {
    SpawnedThread {
        id,
        regs_addr: thread_on(id, stack, ThreadState::Born).regs,
        regs: CpuRegsOnStack { rdi: arg, ..kernel_regs(entry, stack.top() as u64) },
    }
}

/// The thread table after a thread with the id `id` was spawned on `stack`, and the id of the
/// thread; or nothing where the table is full.
pub open spec fn spawned(slots: Seq<Option<Thread>>, id: u64, stack: Stack) -> (
    Seq<Option<Thread>>,
    Option<u64>,
) {
    match first_free(slots) {
        Some(k) => (
            slots.update(k, Some(thread_on(id, stack, ThreadState::Born))),
            Some(id),
        ),
        None => (slots, None),
    }
}

/// The page that a closure is handed to a new thread in: a pointer to it at the start, and the
/// closure itself further up.
#[derive(Debug, Clone, Copy, PartialEq, Eq, Structural)]
pub struct ClosurePage {
    pub page: VirtAddr,
    pub closure_slot: u64,
}

/// Where in its page the closure lies.
pub const CLOSURE_OFFSET: usize = 64;

/// The page for a closure that lies in `frames`, seen through the direct map at `hhdm_offset`.
pub open spec fn page_in(frames: FrameRange, hhdm_offset: u64) -> ClosurePage {
    let page = mapped_at(hhdm_offset, frames.start);
    ClosurePage { page, closure_slot: (page.0 + CLOSURE_OFFSET) as u64 }
}

/// How many pages the stack of a spawned thread has.
pub const THREAD_STACK_PAGES: usize = 4;

impl Thread {
    /// Marks the thread ready on the CPU `cpu_id` and appends its address `addr` to the ready
    /// queue of that CPU, which must not be full.
    pub fn ready(&mut self, addr: u64, cpu_id: u32, ready_queue: &mut Queue<u64>)
        requires
            old(ready_queue).wf(),
            old(ready_queue)@.len() < CAPACITY,
        ensures
            *final(self) == readied(*old(self), cpu_id),
            final(self).regs == old(self).regs,
            final(self).id == old(self).id,
            final(self).kernel_stack == old(self).kernel_stack,
            final(self).sched_state.state == ThreadState::Ready,
            final(self).sched_state.cpu == Some(cpu_id),
            final(ready_queue).wf(),
            final(ready_queue)@ == old(ready_queue)@.push(addr),
    {
        self.sched_state.state = ThreadState::Ready;
        self.sched_state.cpu = Some(cpu_id);
        let pushed: Result<(), u64> = ready_queue.push(addr);
        assert(pushed is Ok);
    }

    /// A new thread with the next id of `ids` that will run `entry` with the argument `arg`, put
    /// into the thread table.
    ///
    /// Returns the id, where the thread's registers have to be written before it can run, and
    /// their contents; or nothing where the table is full. The thread is not ready yet: see
    /// `ThreadTable::make_ready`.
    pub fn spawn_raw(
        memory: &mut PhysicalMemory<'_>,
        table: &mut ThreadTable,
        ids: &mut ThreadIds,
        entry: u64,
        arg: u64,
    ) -> (r: Result<Option<SpawnedThread>, FrameAllocError>)
        requires
            can_use_stack(*old(memory), THREAD_STACK_PAGES),
            old(ids).last < u64::MAX,
        ensures
            frames_requested(*old(memory), THREAD_STACK_PAGES, *final(memory)),
            old(memory).wf() ==> final(memory).wf(),
            final(ids).last == old(ids).last + 1,
            old(table).wf() ==> final(table).wf(),
            match frames_for(*old(memory), THREAD_STACK_PAGES) {
                Err(error) => {
                    &&& r == Err::<Option<SpawnedThread>, _>(error)
                    &&& final(table)@ == old(table)@
                },
                Ok(frames) => {
                    let stack = stack_in(frames, old(memory).hhdm_offset);
                    let (slots, spawned_id) = spawned(old(table)@, final(ids).last, stack);
                    &&& final(table)@ == slots
                    &&& match spawned_id {
                        None => r == Ok::<_, FrameAllocError>(None::<SpawnedThread>),
                        Some(id) => r == Ok::<_, FrameAllocError>(
                            Some(about_to_start(id, stack, entry, arg)),
                        ),
                    }
                },
            },
    {
        let id: u64 = ids.next();
        let stack: Stack = match Stack::new(memory, THREAD_STACK_PAGES) {
            Ok(stack) => stack,
            Err(error) => return Err(error),
        };
        let top: u64 = stack.get_top_address();
        let mut regs: CpuRegsOnStack = CpuRegsOnStack::new_inside_kernel(entry, top);
        regs.rdi = arg;
        let regs_addr: u64 = top - REGS_SIZE;
        let thread = Thread {
            regs: regs_addr,
            id,
            kernel_stack: stack,
            sched_state: SchedState { cpu: None, state: ThreadState::Born },
        };
        if !table.add_thread(thread) {
            return Ok(None);
        }
        Ok(Some(SpawnedThread { id, regs_addr, regs }))
    }

    /// A page for a closure of `size` bytes that a new thread is to run. It must fit the page
    /// together with the pointer to it.
    pub fn closure_page(memory: &mut PhysicalMemory<'_>, size: usize) -> (r: Result<
        ClosurePage,
        FrameAllocError,
    >)
        requires
            size < FRAME_SIZE - CLOSURE_OFFSET,
            can_use_closure_page(*old(memory)),
        ensures
            frames_requested(*old(memory), 1, *final(memory)),
            old(memory).wf() ==> final(memory).wf(),
            match frames_for(*old(memory), 1) {
                Ok(frames) => r == Ok::<_, FrameAllocError>(
                    page_in(frames, old(memory).hhdm_offset),
                ),
                Err(error) => r == Err::<ClosurePage, _>(error),
            },
    {
        match alloc_frame(memory) {
            Ok(frame) => {
                let page: VirtAddr = phys_to_virt(memory, frame.addr());
                Ok(ClosurePage { page, closure_slot: page.as_u64() + CLOSURE_OFFSET as u64 })
            },
            Err(error) => Err(error),
        }
    }

    /// A new thread that will run `entry`, with a page for a closure of `size` bytes as its
    /// argument.
    ///
    /// The closure and the pointer to it have to be written to the page, and the registers to
    /// the stack, before the thread is made ready. There is no thread where the table is full.
    pub fn spawn(
        memory: &mut PhysicalMemory<'_>,
        table: &mut ThreadTable,
        ids: &mut ThreadIds,
        entry: u64,
        size: usize,
    ) -> (r: Result<(ClosurePage, Option<SpawnedThread>), FrameAllocError>)
        requires
            old(memory).wf(),
            old(ids).last < u64::MAX,
            size < FRAME_SIZE - CLOSURE_OFFSET,
        ensures
            final(memory).wf(),
            final(memory).hhdm_offset == old(memory).hhdm_offset,
            old(table).wf() ==> final(table).wf(),
            ({
                let hhdm_offset = old(memory).hhdm_offset;
                let before = old(memory).frame_allocator@;
                let with_page = after_answer(before, 1);
                match answer(before, 1) {
                    Err(error) => {
                        &&& r == Err::<(ClosurePage, Option<SpawnedThread>), _>(error)
                        &&& final(memory).frame_allocator@ == with_page
                        &&& final(table)@ == old(table)@
                        &&& final(ids).last == old(ids).last
                    },
                    Ok(page_frames) => {
                        let place = page_in(page_frames, hhdm_offset);
                        &&& final(memory).frame_allocator@ == after_answer(
                            with_page,
                            THREAD_STACK_PAGES,
                        )
                        &&& final(ids).last == old(ids).last + 1
                        &&& match answer(with_page, THREAD_STACK_PAGES) {
                            Err(error) => {
                                &&& r == Err::<(ClosurePage, Option<SpawnedThread>), _>(error)
                                &&& final(table)@ == old(table)@
                            },
                            Ok(frames) => {
                                let stack = stack_in(frames, hhdm_offset);
                                let (slots, spawned_id) = spawned(
                                    old(table)@,
                                    final(ids).last,
                                    stack,
                                );
                                &&& final(table)@ == slots
                                &&& r == Ok::<_, FrameAllocError>(
                                    (
                                        place,
                                        match spawned_id {
                                            Some(id) => Some(
                                                about_to_start(id, stack, entry, place.page.0),
                                            ),
                                            None => None,
                                        },
                                    ),
                                )
                            },
                        }
                    },
                }
            }),
    {
        proof {
            lemma_stack_can_be_used(*memory, 1);
        }
        let place: ClosurePage = match Self::closure_page(memory, size) {
            Ok(place) => place,
            Err(error) => return Err(error),
        };
        proof {
            lemma_stack_can_be_used(*memory, THREAD_STACK_PAGES);
        }
        match Self::spawn_raw(memory, table, ids, entry, place.page.as_u64()) {
            Ok(thread) => Ok((place, thread)),
            Err(error) => Err(error),
        }
    }

    /// An idle thread that will run `entry`, and the registers that have to be written to its
    /// stack before it can run.
    pub fn new_idle(memory: &mut PhysicalMemory<'_>, entry: u64) -> (r: Result<
        (Thread, CpuRegsOnStack),
        FrameAllocError,
    >)
        requires
            can_use_stack(*old(memory), 1),
        ensures
            frames_requested(*old(memory), 1, *final(memory)),
            old(memory).wf() ==> final(memory).wf(),
            match frames_for(*old(memory), 1) {
                Ok(frames) => {
                    let stack = stack_in(frames, old(memory).hhdm_offset);
                    r == Ok::<_, FrameAllocError>(
                        (
                            thread_on(0, stack, ThreadState::Ready),
                            kernel_regs(entry, stack.top() as u64),
                        ),
                    )
                },
                Err(error) => r == Err::<(Thread, CpuRegsOnStack), _>(error),
            },
    {
        let stack: Stack = match Stack::new(memory, 1) {
            Ok(stack) => stack,
            Err(error) => return Err(error),
        };
        let top: u64 = stack.get_top_address();
        let regs: CpuRegsOnStack = CpuRegsOnStack::new_inside_kernel(entry, top);
        let thread = Thread {
            regs: top - REGS_SIZE,
            id: 0,
            kernel_stack: stack,
            sched_state: SchedState { cpu: None, state: ThreadState::Ready },
        };
        Ok((thread, regs))
    }
}

/// In well-formed memory, frames can be asked for, a stack can lie in them, and the direct map
/// shows at least a page of them.
pub proof fn lemma_stack_can_be_used(memory: PhysicalMemory<'_>, count: usize)
    requires
        memory.wf(),
    ensures
        can_use_frames(memory, count),
        can_use_stack(memory, count),
        frames_for(memory, count) matches Ok(frames) ==> mapped_at(
            memory.hhdm_offset,
            frames.start,
        ).0 + FRAME_SIZE <= u64::MAX,
{
    well_formed_memory_serves(memory, count);
    if let Ok(frames) = frames_for(memory, count) {
        let start = frames.start.0 as int;
        let offset = memory.hhdm_offset as int;
        let top = stack_in(frames, memory.hhdm_offset).top();
        assert(top == start + offset + count * FRAME_SIZE);
        assert(top % 16 == 0) by {
            assert(start % 4096 == 0 && offset % 16 == 0);
        }
    }
}

/// The first free slot, from slot `from` on.
pub open spec fn first_free_from(slots: Seq<Option<Thread>>, from: int) -> Option<int>
    decreases slots.len() - from,
{
    if from >= slots.len() {
        None
    } else if slots[from] is None {
        Some(from)
    } else {
        first_free_from(slots, from + 1)
    }
}

/// The first free slot.
pub open spec fn first_free(slots: Seq<Option<Thread>>) -> Option<int> {
    first_free_from(slots, 0)
}

/// Whether the slot holds the thread with the id `id`.
pub open spec fn has_id(slot: Option<Thread>, id: u64) -> bool {
    slot matches Some(thread) && thread.id == id
}

/// The first slot, from slot `from` on, that holds a thread with the id `id`.
pub open spec fn first_with_id_from(slots: Seq<Option<Thread>>, id: u64, from: int) -> Option<int>
    decreases slots.len() - from,
{
    if from >= slots.len() {
        None
    } else if has_id(slots[from], id) {
        Some(from)
    } else {
        first_with_id_from(slots, id, from + 1)
    }
}

/// The first slot that holds a thread with the id `id`.
pub open spec fn first_with_id(slots: Seq<Option<Thread>>, id: u64) -> Option<int> {
    first_with_id_from(slots, id, 0)
}

/// `first_with_id_from` is the first slot with the id, and is absent only where no slot has it.
pub proof fn lemma_first_with_id(slots: Seq<Option<Thread>>, id: u64, from: int)
    requires
        0 <= from,
    ensures
        match first_with_id_from(slots, id, from) {
            Some(k) => from <= k < slots.len() && has_id(slots[k], id) && forall|i: int|
                from <= i < k ==> !has_id(#[trigger] slots[i], id),
            None => forall|i: int| from <= i < slots.len() ==> !has_id(#[trigger] slots[i], id),
        },
    decreases slots.len() - from,
{
    if from < slots.len() && !has_id(slots[from], id) {
        lemma_first_with_id(slots, id, from + 1);
    }
}

/// A table of all threads.
pub struct ThreadTable {
    threads: [Option<Thread>; CAPACITY],
}

impl View for ThreadTable {
    type V = Seq<Option<Thread>>;

    closed spec fn view(&self) -> Seq<Option<Thread>> {
        self.threads@
    }
}

impl WellFormed for ThreadTable {
    /// There are as many slots as the kernel's tables have.
    open spec fn wf(&self) -> bool {
        self@.len() == CAPACITY
    }
}

impl ThreadTable {
    pub fn new() -> (table: Self)
        ensures
            table.wf(),
            forall|i: int| 0 <= i < CAPACITY ==> #[trigger] table@[i] is None,
    {
        ThreadTable { threads: empty_slots() }
    }

    /// Puts `thread` into the first free slot, if there is one, and says whether there was.
    pub fn add_thread(&mut self, thread: Thread) -> (added: bool)
        ensures
            match first_free(old(self)@) {
                Some(k) => added && final(self)@ == old(self)@.update(k, Some(thread)),
                None => !added && final(self)@ == old(self)@,
            },
            final(self).wf(),
    {
        let mut i: usize = 0;
        while i < CAPACITY
            invariant
                i <= CAPACITY,
                *self == *old(self),
                first_free(old(self)@) == first_free_from(old(self)@, i as int),
            decreases CAPACITY - i,
        {
            if self.threads[i].is_none() {
                self.threads[i] = Some(thread);
                return true;
            }
            i = i + 1;
        }
        false
    }

    /// The first thread with the id `id`, to be changed in place.
    pub fn get_thread_mut(&mut self, id: u64) -> (r: Option<&mut Thread>)
        ensures
            match first_with_id(old(self)@, id) {
                Some(k) => {
                    &&& r matches Some(thread)
                    &&& Some(*thread) == old(self)@[k]
                    &&& thread.id == id
                    &&& final(self)@ == old(self)@.update(k, Some(*final(thread)))
                },
                None => r is None && final(self)@ == old(self)@,
            },
            final(self).wf(),
    {
        let mut i: usize = 0;
        while i < CAPACITY
            invariant
                i <= CAPACITY,
                *self == *old(self),
                first_with_id(old(self)@, id) == first_with_id_from(old(self)@, id, i as int),
            decreases CAPACITY - i,
        {
            let found: bool = match &self.threads[i] {
                Some(thread) => thread.id == id,
                None => false,
            };
            if found {
                return self.threads[i].as_mut();
            }
            i = i + 1;
        }
        None
    }

    /// Marks the first thread with the id `id`, whose address is `addr`, ready on the CPU `cpu_id`,
    /// and appends the address to the ready queue of that CPU, which must not be full. Says
    /// whether there is such a thread.
    pub fn make_ready(
        &mut self,
        id: u64,
        addr: u64,
        cpu_id: u32,
        ready_queue: &mut Queue<u64>,
    ) -> (found: bool)
        requires
            old(ready_queue).wf(),
            old(ready_queue)@.len() < CAPACITY,
        ensures
            final(ready_queue).wf(),
            final(self).wf(),
            match first_with_id(old(self)@, id) {
                None => {
                    &&& !found
                    &&& final(self)@ == old(self)@
                    &&& final(ready_queue)@ == old(ready_queue)@
                },
                Some(k) => {
                    &&& found
                    &&& final(self)@ == old(self)@.update(
                        k,
                        Some(readied(old(self)@[k]->0, cpu_id)),
                    )
                    &&& final(self)@[k] matches Some(thread) && thread.regs
                        == old(self)@[k]->0.regs && thread.id == id && thread.kernel_stack
                        == old(self)@[k]->0.kernel_stack
                    &&& final(ready_queue)@ == old(ready_queue)@.push(addr)
                },
            },
    {
        proof {
            lemma_first_with_id(self@, id, 0);
        }
        match self.get_thread_mut(id) {
            Some(thread) => {
                thread.ready(addr, cpu_id, ready_queue);
                true
            },
            None => false,
        }
    }
}

} // verus!
