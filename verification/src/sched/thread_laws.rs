//! What threads are made of, field by field.

use crate::memory::addr::{PhysAddr, VirtAddr};
use crate::memory::frame::FrameRange;
use crate::sched::laws::added_thread_is_found;
use crate::sched::thread::{
    about_to_start, first_free, first_free_from, first_with_id, kernel_regs,
    lemma_first_with_id, page_in, readied, spawned, stack_in, thread_on, Stack, Thread, ThreadState,
    THREAD_STACK_PAGES,
};
use vstd::prelude::*;

verus! {

/// Making a thread ready changes its scheduling state only: it keeps its id, its stack and the
/// place of its registers.
pub proof fn readying_keeps_the_thread(thread: Thread, cpu_id: u32)
    ensures
        readied(thread, cpu_id).regs == thread.regs,
        readied(thread, cpu_id).id == thread.id,
        readied(thread, cpu_id).kernel_stack == thread.kernel_stack,
        readied(thread, cpu_id).sched_state.cpu == Some(cpu_id),
        readied(thread, cpu_id).sched_state.state == ThreadState::Ready,
{
}

/// A thread that was spawned and then made ready is found by its id; its registers lie in the 160
/// bytes below the top of its stack, which is where they have to be written.
pub proof fn spawned_and_ready_thread_can_be_switched_to(
    slots: Seq<Option<Thread>>,
    id: u64,
    stack: Stack,
    entry: u64,
    arg: u64,
    cpu_id: u32,
    k: int,
)
    requires
        forall|i: int|
            0 <= i < slots.len() ==> ((#[trigger] slots[i]) matches Some(thread) ==> thread.id
                != id),
        0 <= k < slots.len(),
        slots[k] is None,
        forall|i: int| 0 <= i < k ==> (#[trigger] slots[i]) is Some,
        stack.base + stack.size <= u64::MAX,
        stack.size >= 160,
    ensures
        ({
            let (table, spawned_id) = spawned(slots, id, stack);
            let ready = table.update(k, Some(readied(table[k]->0, cpu_id)));
            &&& spawned_id == Some(id)
            &&& first_with_id(table, id) == Some(k)
            &&& table.len() == slots.len()
            &&& forall|i: int|
                0 <= i < slots.len() && i != k ==> #[trigger] table[i] == slots[i]
            &&& table[k] matches Some(born) && born.sched_state.state == ThreadState::Born
                && born.sched_state.cpu is None
            &&& ready[k] matches Some(thread) && thread.id == id && thread.kernel_stack == stack
                && thread.regs + 160 == stack.base + stack.size && thread.regs == about_to_start(
                id,
                stack,
                entry,
                arg,
            ).regs_addr && thread.sched_state.state == ThreadState::Ready
                && thread.sched_state.cpu == Some(cpu_id)
        }),
{
    first_free_slot_is_used(slots, k);
    added_thread_is_found(slots, thread_on(id, stack, ThreadState::Born), k);
}

/// A thread that is about to start has the registers of a call of its entry with its argument, on
/// an empty stack, inside the kernel and with interrupts on; all other registers are zero.
pub proof fn new_thread_starts_at_its_entry(id: u64, stack: Stack, entry: u64, arg: u64)
    requires
        stack.base + stack.size <= u64::MAX,
        stack.size >= 160,
    ensures
        ({
            let thread = about_to_start(id, stack, entry, arg);
            let regs = thread.regs;
            &&& thread.id == id
            &&& thread.regs_addr + 160 == stack.base + stack.size
            &&& regs.rip == entry
            &&& regs.rdi == arg
            &&& regs.rsp == stack.base + stack.size
            &&& regs.rbp == stack.base + stack.size
            &&& regs.cs == 0x08
            &&& regs.ss == 0x10
            &&& regs.rflags == 0x202
            &&& regs.rax == 0 && regs.rbx == 0 && regs.rcx == 0 && regs.rdx == 0 && regs.rsi == 0
            &&& regs.r8 == 0 && regs.r9 == 0 && regs.r10 == 0 && regs.r11 == 0
            &&& regs.r12 == 0 && regs.r13 == 0 && regs.r14 == 0 && regs.r15 == 0
        }),
{
}

/// An idle thread starts at its entry, on an empty stack, inside the kernel and with interrupts on;
/// all other registers are zero.
pub proof fn idle_thread_starts_at_its_entry(entry: u64, stack_top: u64)
    ensures
        kernel_regs(entry, stack_top).rip == entry,
        kernel_regs(entry, stack_top).rsp == stack_top,
        kernel_regs(entry, stack_top).rbp == stack_top,
        kernel_regs(entry, stack_top).cs == 0x08,
        kernel_regs(entry, stack_top).ss == 0x10,
        kernel_regs(entry, stack_top).rflags == 0x202,
        kernel_regs(entry, stack_top).rdi == 0,
        kernel_regs(entry, stack_top).rsi == 0,
        kernel_regs(entry, stack_top).rax == 0,
        kernel_regs(entry, stack_top).rbx == 0,
        kernel_regs(entry, stack_top).rcx == 0,
        kernel_regs(entry, stack_top).rdx == 0,
        kernel_regs(entry, stack_top).r8 == 0,
        kernel_regs(entry, stack_top).r9 == 0,
        kernel_regs(entry, stack_top).r10 == 0,
        kernel_regs(entry, stack_top).r11 == 0,
        kernel_regs(entry, stack_top).r12 == 0,
        kernel_regs(entry, stack_top).r13 == 0,
        kernel_regs(entry, stack_top).r14 == 0,
        kernel_regs(entry, stack_top).r15 == 0,
{
}

/// A thread on an otherwise empty stack has its registers in the 160 bytes below the top, and
/// belongs to no CPU.
pub proof fn new_thread_is_on_its_stack(id: u64, stack: Stack, state: ThreadState)
    requires
        stack.base + stack.size <= u64::MAX,
        stack.size >= 160,
    ensures
        thread_on(id, stack, state).id == id,
        thread_on(id, stack, state).kernel_stack == stack,
        thread_on(id, stack, state).regs + 160 == stack.base + stack.size,
        thread_on(id, stack, state).sched_state.state == state,
        thread_on(id, stack, state).sched_state.cpu is None,
{
}

/// A stack takes up its frames: it starts where the direct map shows the first one, and ends where
/// the last one ends. A closure's page starts where the direct map shows its frame, and the closure
/// lies 64 bytes further up. The stack of a thread has four pages.
pub proof fn stacks_take_up_their_frames(start: u64, count: usize, hhdm_offset: u64)
    requires
        start + hhdm_offset + 64 <= u64::MAX,
        count * 4096 <= u64::MAX,
    ensures
        ({
            let frames = FrameRange { start: PhysAddr(start), count };
            let stack = stack_in(frames, hhdm_offset);
            &&& stack.base == start + hhdm_offset
            &&& stack.size == count * 4096
            &&& stack.top() == start + hhdm_offset + count * 4096
            &&& page_in(frames, hhdm_offset).page == VirtAddr((start + hhdm_offset) as u64)
            &&& page_in(frames, hhdm_offset).closure_slot == start + hhdm_offset + 64
        }),
        THREAD_STACK_PAGES == 4,
{
}

/// The free slot that is used is the first one, and there is none exactly if all slots are taken.
pub proof fn first_free_slot_is_used(slots: Seq<Option<Thread>>, k: int)
    ensures
        first_free(slots) == Some(k) <==> 0 <= k < slots.len() && slots[k] is None && (forall|i: int|
            0 <= i < k ==> (#[trigger] slots[i]) is Some),
        first_free(slots) is None <==> (forall|i: int|
            0 <= i < slots.len() ==> (#[trigger] slots[i]) is Some),
{
    lemma_first_free(slots, 0);
}

/// The thread that is found by an id is the first one that has it, and none is found exactly if no
/// thread has it.
pub proof fn first_thread_with_the_id_is_found(slots: Seq<Option<Thread>>, id: u64, k: int)
    ensures
        first_with_id(slots, id) == Some(k) <==> 0 <= k < slots.len() && (slots[k] matches Some(
            thread,
        ) && thread.id == id) && (forall|i: int|
            0 <= i < k ==> ((#[trigger] slots[i]) matches Some(thread) ==> thread.id != id)),
        first_with_id(slots, id) is None <==> (forall|i: int|
            0 <= i < slots.len() ==> ((#[trigger] slots[i]) matches Some(thread) ==> thread.id
                != id)),
{
    lemma_first_with_id(slots, id, 0);
}

proof fn lemma_first_free(slots: Seq<Option<Thread>>, from: int)
    requires
        0 <= from,
    ensures
        match first_free_from(slots, from) {
            Some(k) => from <= k < slots.len() && slots[k] is None && forall|i: int|
                from <= i < k ==> (#[trigger] slots[i]) is Some,
            None => forall|i: int| from <= i < slots.len() ==> (#[trigger] slots[i]) is Some,
        },
    decreases slots.len() - from,
{
    if from < slots.len() && slots[from] is Some {
        lemma_first_free(slots, from + 1);
    }
}

} // verus!
