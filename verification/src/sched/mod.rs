//! The scheduler.
//!
//! Each CPU runs the threads of its own ready queue in turn. Now and then a CPU picks another one
//! at random and evens out the lengths of their queues.

pub mod laws;
pub mod queue;
pub mod thread;
pub mod thread_laws;

use crate::arch::amd64::cpu::{cpu_tls, get_cpu_tls, CpuTable};
use crate::sched::queue::{Queue, CAPACITY};
use crate::sched::thread::{SchedState, Thread};
use crate::sync::WellFormed;
use crate::util::{random_u64, xorshift64};
use vstd::prelude::*;

verus! {

/// The ready queue and the running thread after a switch: the thread that has been ready for the
/// longest runs, and the one that was running goes to the end of the queue, unless it is the idle
/// thread. Where no thread is ready, the running one goes on.
pub open spec fn switched(ready: Seq<u64>, running: u64, idle: u64) -> (Seq<u64>, u64) {
    if ready.len() == 0 {
        (ready, running)
    } else if running != idle {
        (ready.drop_first().push(running), ready.first())
    } else {
        (ready.drop_first(), ready.first())
    }
}

/// Switches a CPU to the next thread of its ready queue. `thread_addr` is the address of the
/// running thread, `idle_thread_addr` that of the CPU's idle thread.
pub fn switch(ready_queue: &mut Queue<u64>, thread_addr: &mut u64, idle_thread_addr: u64)
    requires
        old(ready_queue).wf(),
    ensures
        final(ready_queue).wf(),
        (final(ready_queue)@, *final(thread_addr)) == switched(
            old(ready_queue)@,
            *old(thread_addr),
            idle_thread_addr,
        ),
{
    let next_thread_addr: u64 = match ready_queue.pop() {
        Some(addr) => addr,
        None => return,  // no ready thread, continue running the current one
    };
    if *thread_addr != idle_thread_addr {
        // add it back to the ready queue since it got preempted
        let pushed: Result<(), u64> = ready_queue.push(*thread_addr);
        assert(pushed is Ok);
    }
    *thread_addr = next_thread_addr;
}

/// The most threads that are moved at a time: half of a full queue.
pub const MAX_MOVED: usize = 128;

/// Threads that went from the front of one queue to the end of another.
#[derive(Debug, Clone, Copy)]
pub struct Migration {
    /// The CPU that the threads were taken from.
    pub from: u32,
    /// The CPU that the threads now belong to.
    pub to: u32,
    pub count: usize,
    /// The addresses of the threads, of which the first `count` count.
    pub threads: [u64; MAX_MOVED],
}

impl View for Migration {
    type V = Seq<u64>;

    open spec fn view(&self) -> Seq<u64> {
        self.threads@.take(self.count as int)
    }
}

impl Migration {
    /// Records in `thread`, one of those that have moved, which CPU it now belongs to.
    pub fn hand_over(&self, thread: &mut Thread)
        ensures
            *final(thread) == (Thread {
                sched_state: SchedState {
                    cpu: Some(self.to),
                    ..old(thread).sched_state
                },
                ..*old(thread)
            }),
    {
        thread.sched_state.cpu = Some(self.to);
    }
}

/// How many threads have to move between queues of `a` and `b` threads: half of the difference.
/// A difference of one is balanced enough, which also avoids oscillations.
pub open spec fn to_move(a: int, b: int) -> int {
    if a > b {
        (a - b) / 2
    } else {
        (b - a) / 2
    }
}

/// The queues of two CPUs after load balancing: the threads that move are the first ones of the
/// longer queue, and they go to the end of the shorter one.
pub open spec fn balanced(a: Seq<u64>, b: Seq<u64>) -> (Seq<u64>, Seq<u64>) {
    let n = to_move(a.len() as int, b.len() as int);
    if a.len() > b.len() {
        (a.skip(n), b + a.take(n))
    } else {
        (a + b.take(n), b.skip(n))
    }
}

/// Moves the first `count` items of `from` to the end of `to`, and lists them.
fn move_threads(from: &mut Queue<u64>, to: &mut Queue<u64>, count: usize) -> (threads: [u64;
    MAX_MOVED])
    requires
        old(from).wf(),
        old(to).wf(),
        count <= old(from)@.len(),
        count <= MAX_MOVED,
        old(to)@.len() + count <= CAPACITY,
    ensures
        final(from).wf(),
        final(to).wf(),
        final(from)@ == old(from)@.skip(count as int),
        final(to)@ == old(to)@ + old(from)@.take(count as int),
        threads@.take(count as int) == old(from)@.take(count as int),
{
    let mut threads: [u64; MAX_MOVED] = [0; MAX_MOVED];
    let mut i: usize = 0;
    assert(from@.skip(0) =~= from@);
    assert(to@ + from@.take(0) =~= to@);
    while i < count
        invariant
            i <= count,
            from.wf(),
            to.wf(),
            count <= old(from)@.len(),
            count <= MAX_MOVED,
            old(to)@.len() + count <= CAPACITY,
            from@ == old(from)@.skip(i as int),
            to@ == old(to)@ + old(from)@.take(i as int),
            forall|k: int| 0 <= k < i ==> threads@[k] == old(from)@[k],
        decreases count - i,
    {
        if let Some(thread_addr) = from.pop() {
            threads[i] = thread_addr;
            let pushed: Result<(), u64> = to.push(thread_addr);
            assert(pushed is Ok);
        }
        assert(old(from)@.skip(i as int).drop_first() =~= old(from)@.skip(i as int + 1));
        assert((old(to)@ + old(from)@.take(i as int)).push(old(from)@[i as int]) =~= old(to)@ + old(
            from,
        )@.take(i as int + 1));
        i = i + 1;
    }
    assert(threads@.take(count as int) =~= old(from)@.take(count as int));
    threads
}

/// Evens out the ready queues of the CPUs `cpu_id` and `other_cpu_id`, and says which threads
/// have moved: those now belong to the other CPU.
pub fn do_load_balance(
    qa: &mut Queue<u64>,
    qb: &mut Queue<u64>,
    cpu_id: u32,
    other_cpu_id: u32,
) -> (r: Option<Migration>)
    requires
        old(qa).wf(),
        old(qb).wf(),
    ensures
        final(qa).wf(),
        final(qb).wf(),
        (final(qa)@, final(qb)@) == balanced(old(qa)@, old(qb)@),
        ({
            let n = to_move(old(qa)@.len() as int, old(qb)@.len() as int);
            if n == 0 {
                r is None
            } else {
                &&& r matches Some(migration)
                &&& migration.count == n
                &&& if old(qa)@.len() > old(qb)@.len() {
                    &&& migration.from == cpu_id
                    &&& migration.to == other_cpu_id
                    &&& migration@ == old(qa)@.take(n)
                } else {
                    &&& migration.from == other_cpu_id
                    &&& migration.to == cpu_id
                    &&& migration@ == old(qb)@.take(n)
                }
            }
        }),
{
    let len_a: usize = qa.len();
    let len_b: usize = qb.len();
    if len_a > len_b {
        let count: usize = (len_a - len_b) / 2;
        // move from a to b
        let threads: [u64; MAX_MOVED] = move_threads(qa, qb, count);
        if count == 0 {
            return None;  // balanced enough, also avoids oscillations
        }
        Some(Migration { from: cpu_id, to: other_cpu_id, count, threads })
    } else {
        let count: usize = (len_b - len_a) / 2;
        // move from b to a
        let threads: [u64; MAX_MOVED] = move_threads(qb, qa, count);
        if count == 0 {
            return None;  // balanced enough, also avoids oscillations
        }
        Some(Migration { from: other_cpu_id, to: cpu_id, count, threads })
    }
}

/// How many CPUs the random choice is made among.
pub const RANDOM_CPUS: u32 = 12;

/// The CPU that is picked at the time `tsc`.
pub open spec fn random_cpu(tsc: u64) -> u32 {
    ((xorshift64(tsc) % 0x1_0000_0000) % RANDOM_CPUS as u64) as u32
}

/// The address of the data of a CPU that is picked at random, at the time `tsc`, if it is online.
pub fn get_random_online_cpu(table: &CpuTable, tsc: u64) -> (tls: Option<u64>)
    ensures
        tls == cpu_tls(table.cpus@, random_cpu(tsc)),
{
    let random: u64 = random_u64(tsc);
    assert(random as u32 == random % 0x1_0000_0000) by (bit_vector);
    let id: u32 = random as u32 % RANDOM_CPUS;
    get_cpu_tls(table, id)
}

/// Whether and how two CPUs are to be balanced.
#[derive(Debug, Clone, Copy, PartialEq, Eq, Structural)]
pub enum BalanceAction {
    /// There is nothing to balance.
    Skip,
    /// Lock the CPU's own queue, then the other one's.
    OwnQueueFirst,
    /// Lock the other one's queue, then the CPU's own.
    OtherQueueFirst,
}

/// How the CPU `cpu_id` locks the queues of itself and of the CPU `other`.
pub open spec fn lock_order(cpu_id: u32, other: u32) -> BalanceAction {
    if other == cpu_id {
        BalanceAction::Skip
    } else if cpu_id < other {
        BalanceAction::OwnQueueFirst
    } else {
        BalanceAction::OtherQueueFirst
    }
}

/// Whether the CPU `cpu_id` is to be balanced with the CPU that was picked, if it is online, and
/// in which order to lock their ready queues. To avoid deadlocks, queues are locked in the order
/// of the ids.
pub fn maybe_load_balance(cpu_id: u32, other_cpu_id: Option<u32>) -> (action: BalanceAction)
    ensures
        action == match other_cpu_id {
            None => BalanceAction::Skip,
            Some(other) => lock_order(cpu_id, other),
        },
{
    match other_cpu_id {
        None => BalanceAction::Skip,
        Some(other) => {
            if cpu_id == other {
                BalanceAction::Skip
            } else if cpu_id < other {
                BalanceAction::OwnQueueFirst
            } else {
                BalanceAction::OtherQueueFirst
            }
        },
    }
}

} // verus!
