//! What holds of the scheduler as a whole.

use crate::arch::amd64::cpu::MAX_CPUS;
use crate::memory::frame::FRAME_SIZE;
use crate::memory::PhysicalMemory;
use crate::sched::queue::CAPACITY;
use crate::sched::thread::{
    can_use_closure_page, can_use_frames, can_use_stack, first_free, first_free_from,
    first_with_id, first_with_id_from, has_id, lemma_stack_can_be_used, readied, spawned,
    thread_on, Stack, Thread, ThreadState, CLOSURE_OFFSET, REGS_SIZE,
};
use crate::sched::{
    balanced, lock_order, random_cpu, switched, to_move, BalanceAction, Migration, MAX_MOVED,
    RANDOM_CPUS,
};
use crate::sync::WellFormed;
use crate::util::xorshift64;
use vstd::prelude::*;

verus! {

/// The ready queue and the running thread after `n` switches, with no thread becoming ready in
/// between.
pub open spec fn switched_times(ready: Seq<u64>, running: u64, idle: u64, n: nat) -> (
    Seq<u64>,
    u64,
)
    decreases n,
{
    if n == 0 {
        (ready, running)
    } else {
        let (before, was_running) = switched_times(ready, running, idle, (n - 1) as nat);
        switched(before, was_running, idle)
    }
}

/// No thread is lost or duplicated by a switch, but for the idle thread, which never enters the
/// queue.
pub proof fn switch_keeps_threads(ready: Seq<u64>, running: u64, idle: u64)
    ensures
        ({
            let (after, now_running) = switched(ready, running, idle);
            &&& running != idle ==> after.push(now_running).to_multiset() == ready.push(
                running,
            ).to_multiset()
            &&& running == idle && ready.len() > 0 ==> after.push(now_running).to_multiset()
                == ready.to_multiset()
            &&& after.len() <= ready.len()
            &&& !ready.contains(idle) ==> !after.contains(idle)
        }),
{
    broadcast use vstd::seq_lib::group_to_multiset_ensures;

    if ready.len() > 0 {
        let rest = ready.drop_first();
        assert(seq![ready.first()] + rest =~= ready);
        vstd::seq_lib::lemma_multiset_commutative(seq![ready.first()], rest);
        assert(rest + seq![ready.first()] =~= rest.push(ready.first()));
        let (after, now_running) = switched(ready, running, idle);
        if running != idle {
            assert(after.push(now_running).to_multiset() =~= ready.push(running).to_multiset());
        }
        assert forall|i: int| 0 <= i < rest.len() implies #[trigger] rest[i] == ready[i + 1] by {}
        if after.contains(idle) {
            let i = choose|i: int| 0 <= i < after.len() && after[i] == idle;
            if i < rest.len() {
                assert(ready[i + 1] == idle);
            }
        }
    }
}

/// The threads of a CPU take turns: after as many switches as there are threads, each of them has
/// run once, in the order of the queue, and everything is as before.
pub proof fn threads_take_turns(ready: Seq<u64>, running: u64, idle: u64, n: nat)
    requires
        running != idle,
        !ready.contains(idle),
        n <= ready.len(),
    ensures
        n > 0 ==> switched_times(ready, running, idle, n) == (
            ready.skip(n as int) + seq![running] + ready.take(n - 1),
            ready[n - 1],
        ),
        switched_times(ready, running, idle, ready.len() + 1) == (ready, running),
{
    lemma_turns(ready, running, idle, n);
    lemma_turns(ready, running, idle, ready.len());
    let all = ready.len();
    let (last, last_running) = switched_times(ready, running, idle, all);
    if all > 0 {
        assert(last =~= seq![running] + ready.take(all - 1));
        assert(ready[all - 1] == last_running);
        assert(ready.contains(last_running));
        assert(last.drop_first() =~= ready.take(all - 1));
        assert(ready.take(all - 1).push(ready[all - 1]) =~= ready);
    }
}

proof fn lemma_turns(ready: Seq<u64>, running: u64, idle: u64, n: nat)
    requires
        running != idle,
        !ready.contains(idle),
        n <= ready.len(),
    ensures
        n > 0 ==> switched_times(ready, running, idle, n) == (
            ready.skip(n as int) + seq![running] + ready.take(n - 1),
            ready[n - 1],
        ),
    decreases n,
{
    if n == 1 {
        reveal_with_fuel(switched_times, 2);
        assert(ready.drop_first().push(running) =~= ready.skip(1) + seq![running] + ready.take(0));
    } else if n > 1 {
        let m = (n - 1) as nat;
        lemma_turns(ready, running, idle, m);
        let (before, was_running) = switched_times(ready, running, idle, m);
        assert(ready.contains(ready[m - 1]));
        assert(before.first() == ready[m as int]);
        assert(before.drop_first().push(was_running) =~= ready.skip(n as int) + seq![running]
            + ready.take(n - 1));
    }
}

/// Load balancing leaves queues whose lengths differ by one at most, and as many threads as there
/// were.
pub proof fn balancing_evens_out(a: Seq<u64>, b: Seq<u64>)
    ensures
        ({
            let (after_a, after_b) = balanced(a, b);
            &&& -1 <= after_a.len() - after_b.len() <= 1
            &&& after_a.len() + after_b.len() == a.len() + b.len()
        }),
{
}

/// Load balancing neither loses nor duplicates a thread.
pub proof fn balancing_keeps_threads(a: Seq<u64>, b: Seq<u64>)
    ensures
        ({
            let (after_a, after_b) = balanced(a, b);
            (after_a + after_b).to_multiset() == (a + b).to_multiset()
        }),
{
    broadcast use vstd::seq_lib::group_to_multiset_ensures;

    let (after_a, after_b) = balanced(a, b);
    if a.len() > b.len() {
        let n = (a.len() - b.len()) / 2;
        assert(a.take(n) + a.skip(n) =~= a);
        vstd::seq_lib::lemma_multiset_commutative(a.skip(n), b + a.take(n));
        vstd::seq_lib::lemma_multiset_commutative(b, a.take(n));
        vstd::seq_lib::lemma_multiset_commutative(a.take(n), a.skip(n));
        vstd::seq_lib::lemma_multiset_commutative(a, b);
    } else {
        let n = (b.len() - a.len()) / 2;
        assert(b.take(n) + b.skip(n) =~= b);
        assert((a + b.take(n)) + b.skip(n) =~= a + b);
    }
}

/// Balanced queues stay as they are.
pub proof fn balancing_settles(a: Seq<u64>, b: Seq<u64>)
    ensures
        ({
            let (after_a, after_b) = balanced(a, b);
            balanced(after_a, after_b) == (after_a, after_b)
        }),
{
    let (after_a, after_b) = balanced(a, b);
    assert(after_a.skip(0) =~= after_a);
    assert(after_b.skip(0) =~= after_b);
    assert(after_b + after_a.take(0) =~= after_b);
    assert(after_a + after_b.take(0) =~= after_a);
}

/// It does not matter which of two CPUs does the balancing.
pub proof fn balancing_is_symmetric(a: Seq<u64>, b: Seq<u64>)
    ensures
        balanced(b, a) == (balanced(a, b).1, balanced(a, b).0),
{
    if a.len() == b.len() {
        assert(a.skip(0) =~= a);
        assert(b.skip(0) =~= b);
        assert(b + a.take(0) =~= b);
        assert(a + b.take(0) =~= a);
    }
}

/// Two CPUs that balance with each other lock the same queue first.
pub proof fn lock_order_is_consistent(a: u32, b: u32)
    requires
        a != b,
    ensures
        lock_order(a, b) == BalanceAction::OwnQueueFirst <==> lock_order(b, a)
            == BalanceAction::OtherQueueFirst,
        lock_order(a, b) != BalanceAction::Skip,
{
}

/// The CPU that is picked at random is one of the first ones.
pub proof fn random_cpu_is_in_range(tsc: u64)
    ensures
        random_cpu(tsc) < RANDOM_CPUS,
{
}

/// The registers of a thread that has not run yet lie on its stack, at the very top.
pub proof fn registers_lie_on_the_stack(id: u64, stack: Stack, state: ThreadState)
    requires
        stack.size >= FRAME_SIZE,
        stack.top() <= u64::MAX,
    ensures
        stack.base <= thread_on(id, stack, state).regs,
        thread_on(id, stack, state).regs + REGS_SIZE == stack.top(),
        stack.top() % 16 == 0 ==> thread_on(id, stack, state).regs as int % 16 == 0,
{
}

/// In well-formed memory, frames, stacks of any size and closure pages can always be asked for.
pub proof fn well_formed_memory_serves_threads(memory: PhysicalMemory<'_>, count: usize)
    requires
        memory.wf(),
    ensures
        can_use_frames(memory, count),
        can_use_stack(memory, count),
        can_use_closure_page(memory),
{
    lemma_stack_can_be_used(memory, count);
    lemma_stack_can_be_used(memory, 1);
}

/// A closure that may be handed to a thread fits its page, past a pointer to it.
pub proof fn closure_fits_its_page(size: usize)
    requires
        size < FRAME_SIZE - CLOSURE_OFFSET,
    ensures
        CLOSURE_OFFSET + size < FRAME_SIZE,
        16 <= CLOSURE_OFFSET,
{
}

/// A thread that was added is the one that is found by its id, if no other thread has it.
pub proof fn added_thread_is_found(slots: Seq<Option<Thread>>, thread: Thread, k: int)
    requires
        first_free(slots) == Some(k),
        forall|i: int| 0 <= i < slots.len() ==> !has_id(#[trigger] slots[i], thread.id),
    ensures
        first_with_id(slots.update(k, Some(thread)), thread.id) == Some(k),
{
    lemma_first_free(slots, 0);
    lemma_found(slots.update(k, Some(thread)), thread.id, k, 0);
}

/// The id that was given out last, after `calls` more calls of `ThreadIds::next`.
pub open spec fn last_after(last: int, calls: nat) -> int
    decreases calls,
{
    if calls == 0 {
        last
    } else {
        last_after(last, (calls - 1) as nat) + 1
    }
}

/// Ids that are given out differ: later ones are larger, and none of them is that of the idle
/// threads.
pub proof fn thread_ids_grow(last: int, i: nat, j: nat)
    requires
        0 <= last,
        i < j,
    ensures
        last < last_after(last, i + 1) < last_after(last, j + 1),
        last_after(last, i + 1) >= 1,
{
    lemma_last_after(last, i + 1);
    lemma_last_after(last, j + 1);
}

proof fn lemma_last_after(last: int, calls: nat)
    ensures
        last_after(last, calls) == last + calls,
    decreases calls,
{
    if calls > 0 {
        lemma_last_after(last, (calls - 1) as nat);
    }
}

/// Of any calls that spawn threads from one source of ids, whatever the thread table is when they
/// are made, those that succeed give different ids: a later call gives a larger id, and none
/// gives that of the idle threads. A call fails for want of a slot exactly if all slots are
/// taken, and then leaves the table as it is.
pub proof fn spawned_threads_have_different_ids(
    last: u64,
    i: nat,
    slots_i: Seq<Option<Thread>>,
    stack_i: Stack,
    j: nat,
    slots_j: Seq<Option<Thread>>,
    stack_j: Stack,
)
    requires
        i < j,
        last_after(last as int, j + 1) <= u64::MAX,
    ensures
        ({
            let (after_i, id_i) = spawned(
                slots_i,
                last_after(last as int, i + 1) as u64,
                stack_i,
            );
            let (after_j, id_j) = spawned(
                slots_j,
                last_after(last as int, j + 1) as u64,
                stack_j,
            );
            &&& id_i matches Some(first) ==> 1 <= first
            &&& id_i matches Some(first) ==> (id_j matches Some(second) ==> first < second)
            &&& id_i is None <==> forall|k: int|
                0 <= k < slots_i.len() ==> (#[trigger] slots_i[k]) is Some
            &&& id_i is None ==> after_i == slots_i
        }),
{
    thread_ids_grow(last as int, i, j);
    table_is_full_iff_no_slot_is_free(slots_i);
}

/// Whether all threads of the table have ids that have been given out, the last one being `last`.
pub open spec fn ids_given_out(slots: Seq<Option<Thread>>, last: u64) -> bool {
    forall|k: int|
        0 <= k < slots.len() ==> ((#[trigger] slots[k]) matches Some(thread) ==> thread.id <= last)
}

/// A thread that was spawned is the one that is found by its id, and it is new; and the table
/// still holds only ids that have been given out.
pub proof fn spawned_thread_is_found(slots: Seq<Option<Thread>>, last: u64, stack: Stack)
    requires
        last < u64::MAX,
        ids_given_out(slots, last),
    ensures
        ({
            let (after, id) = spawned(slots, (last + 1) as u64, stack);
            &&& ids_given_out(after, (last + 1) as u64)
            &&& id matches Some(id) ==> {
                &&& first_with_id(after, id) == first_free(slots)
                &&& after[first_free(slots)->0] == Some(thread_on(id, stack, ThreadState::Born))
            }
        }),
{
    let id = (last + 1) as u64;
    lemma_first_free(slots, 0);
    if let Some(k) = first_free(slots) {
        assert forall|i: int| 0 <= i < slots.len() implies !has_id(#[trigger] slots[i], id) by {
            if let Some(thread) = slots[i] {
                assert(thread.id <= last);
            }
        }
        added_thread_is_found(slots, thread_on(id, stack, ThreadState::Born), k);
        let after = slots.update(k, Some(thread_on(id, stack, ThreadState::Born)));
        assert forall|i: int| 0 <= i < after.len() implies ((#[trigger] after[i]) matches Some(
            thread,
        ) ==> thread.id <= id) by {
            assert(i != k ==> after[i] == slots[i]);
        }
    }
}

/// Marking a thread ready keeps its id and its registers, and so which threads are found by which
/// ids.
pub proof fn readying_keeps_ids(
    slots: Seq<Option<Thread>>,
    k: int,
    cpu_id: u32,
    id: u64,
    last: u64,
)
    requires
        0 <= k < slots.len(),
        slots[k] is Some,
    ensures
        ({
            let after = slots.update(k, Some(readied(slots[k]->0, cpu_id)));
            &&& first_with_id(after, id) == first_with_id(slots, id)
            &&& first_free(after) == first_free(slots)
            &&& ids_given_out(slots, last) ==> ids_given_out(after, last)
        }),
{
    let after = slots.update(k, Some(readied(slots[k]->0, cpu_id)));
    lemma_same_ids(slots, after, id, 0);
    if ids_given_out(slots, last) {
        assert forall|i: int| 0 <= i < after.len() implies ((#[trigger] after[i]) matches Some(
            thread,
        ) ==> thread.id <= last) by {
            assert(slots[i] is Some ==> slots[i]->0.id <= last);
        }
    }
}

proof fn lemma_same_ids(
    slots: Seq<Option<Thread>>,
    after: Seq<Option<Thread>>,
    id: u64,
    from: int,
)
    requires
        0 <= from,
        slots.len() == after.len(),
        forall|i: int|
            0 <= i < slots.len() ==> {
                &&& has_id(#[trigger] slots[i], id) == has_id(after[i], id)
                &&& slots[i] is None == after[i] is None
            },
    ensures
        first_with_id_from(after, id, from) == first_with_id_from(slots, id, from),
        first_free_from(after, from) == first_free_from(slots, from),
    decreases slots.len() - from,
{
    if from < slots.len() {
        assert(has_id(slots[from], id) == has_id(after[from], id));
        lemma_same_ids(slots, after, id, from + 1);
    }
}

/// There is a free slot exactly if one of the slots is empty.
pub proof fn table_is_full_iff_no_slot_is_free(slots: Seq<Option<Thread>>)
    ensures
        first_free(slots) is None <==> forall|i: int|
            0 <= i < slots.len() ==> (#[trigger] slots[i]) is Some,
{
    lemma_first_free(slots, 0);
}

proof fn lemma_first_free(slots: Seq<Option<Thread>>, from: int)
    requires
        0 <= from,
    ensures
        match first_free_from(slots, from) {
            Some(k) => from <= k < slots.len() && slots[k] is None,
            None => forall|i: int| from <= i < slots.len() ==> (#[trigger] slots[i]) is Some,
        },
    decreases slots.len() - from,
{
    if from < slots.len() && slots[from] is Some {
        lemma_first_free(slots, from + 1);
    }
}

proof fn lemma_found(slots: Seq<Option<Thread>>, id: u64, k: int, from: int)
    requires
        0 <= from <= k < slots.len(),
        has_id(slots[k], id),
        forall|i: int| 0 <= i < slots.len() && i != k ==> !has_id(#[trigger] slots[i], id),
    ensures
        first_with_id_from(slots, id, from) == Some(k),
    decreases k - from,
{
    if from < k {
        lemma_found(slots, id, k, from + 1);
    }
}

/// What a switch does: where a thread is ready, the one at the front of the queue runs, those behind
/// it move up, and the thread that was running goes to the end, unless it is the idle thread. Where
/// no thread is ready, nothing changes.
pub proof fn front_of_the_queue_runs_next(ready: Seq<u64>, running: u64, idle: u64, i: int)
    ensures
        ({
            let (after, now_running) = switched(ready, running, idle);
            &&& ready.len() == 0 ==> after == ready && now_running == running
            &&& ready.len() > 0 ==> now_running == ready[0]
            &&& ready.len() > 0 && 0 <= i < ready.len() - 1 ==> after[i] == ready[i + 1]
            &&& ready.len() > 0 && running == idle ==> after.len() == ready.len() - 1
            &&& ready.len() > 0 && running != idle ==> after.len() == ready.len()
                && after[ready.len() - 1] == running
        }),
{
}

/// What balancing does to the longer queue `long` and the other one: half of the difference, rounded
/// down, leaves the front of the longer one and goes to the end of the other, in order; the rest
/// stay in order.
pub proof fn front_of_the_longer_queue_moves(long: Seq<u64>, short: Seq<u64>, i: int)
    requires
        long.len() >= short.len(),
        0 <= i,
    ensures
        ({
            let n = (long.len() - short.len()) / 2;
            let (after_long, after_short) = balanced(long, short);
            let (mirrored_short, mirrored_long) = balanced(short, long);
            &&& to_move(long.len() as int, short.len() as int) == n
            &&& to_move(short.len() as int, long.len() as int) == n
            &&& after_long.len() == long.len() - n
            &&& after_short.len() == short.len() + n
            &&& i < long.len() - n ==> after_long[i] == long[i + n]
            &&& i < short.len() ==> after_short[i] == short[i]
            &&& i < n ==> after_short[short.len() + i] == long[i]
            &&& mirrored_long == after_long
            &&& mirrored_short == after_short
        }),
{
    balancing_is_symmetric(long, short);
}

/// The CPU that is picked at random is the remainder of the lower 32 bits of the random number by
/// twelve.
pub proof fn random_cpu_is_a_remainder(tsc: u64)
    ensures
        random_cpu(tsc) == xorshift64(tsc) as int % 0x1_0000_0000 % 12,
{
}

/// The queue of the CPU with the lower id is locked first, and a CPU does not balance with itself.
pub proof fn lower_id_is_locked_first(cpu_id: u32, other: u32)
    ensures
        cpu_id < other ==> lock_order(cpu_id, other) == BalanceAction::OwnQueueFirst,
        cpu_id > other ==> lock_order(cpu_id, other) == BalanceAction::OtherQueueFirst,
        cpu_id == other ==> lock_order(cpu_id, other) == BalanceAction::Skip,
{
}

/// The threads of a migration are the first `count` of those listed.
pub proof fn migration_is_its_list(migration: Migration, i: int)
    requires
        migration.count <= 128,
        0 <= i < migration.count,
    ensures
        migration@.len() == migration.count,
        migration@[i] == migration.threads@[i],
{
}

/// How large the kernel's tables and pages are.
pub proof fn sizes_of_the_kernel()
    ensures
        CAPACITY == 256,
        MAX_CPUS == 256,
        MAX_MOVED == 128,
        FRAME_SIZE == 4096,
        REGS_SIZE == 160,
        CLOSURE_OFFSET == 64,
        RANDOM_CPUS == 12,
{
}

} // verus!
