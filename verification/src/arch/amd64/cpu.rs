//! The CPUs of the machine, and what each of them keeps for itself.

use crate::sched::queue::Queue;
use crate::sched::thread::Thread;
use crate::sync::WellFormed;
use vstd::prelude::*;

verus! {

/// How many CPUs there can be.
pub const MAX_CPUS: usize = 256;

/// What the other CPUs know of a CPU: whether it is running, and where it keeps its data.
#[derive(Debug, Clone, Copy, PartialEq, Eq, Structural)]
pub struct CpuData {
    pub online: bool,
    pub tls: u64,
}

/// All CPUs, by their ids.
pub struct CpuTable {
    pub cpus: [CpuData; MAX_CPUS],
}

impl WellFormed for CpuTable {
    open spec fn wf(&self) -> bool {
        true
    }
}

impl CpuTable {
    /// A table in which no CPU is online.
    pub fn new() -> (table: Self)
        ensures
            forall|id: int|
                0 <= id < MAX_CPUS ==> table.cpus@[id] == (CpuData { online: false, tls: 0 }),
    {
        CpuTable { cpus: [CpuData { online: false, tls: 0 }; MAX_CPUS] }
    }
}

/// What a CPU keeps for itself.
pub struct TlsData {
    pub cpu_id: u32,
    /// The address of the interrupt descriptor table.
    pub idt_addr: u64,
    /// The address of the global descriptor table.
    pub gdt_addr: u64,
    /// The address of the thread that is running.
    pub thread_addr: u64,
    /// The thread that runs when no other one is ready.
    pub idle_thread: Thread,
    /// The addresses of the threads that are ready to run.
    pub ready_queue: Queue<u64>,
}

/// The address of the data of the CPU `cpu_id`, if there is such a CPU and it is online.
pub open spec fn cpu_tls(cpus: Seq<CpuData>, cpu_id: u32) -> Option<u64> {
    if cpu_id < cpus.len() && cpus[cpu_id as int].online {
        Some(cpus[cpu_id as int].tls)
    } else {
        None
    }
}

/// The address of the data of the CPU `cpu_id`, if there is such a CPU and it is online.
pub fn get_cpu_tls(table: &CpuTable, cpu_id: u32) -> (tls: Option<u64>)
    ensures
        tls == cpu_tls(table.cpus@, cpu_id),
{
    if cpu_id as usize >= table.cpus.len() {
        return None;
    }
    if !table.cpus[cpu_id as usize].online {
        return None;
    }
    Some(table.cpus[cpu_id as usize].tls)
}

/// The data of the CPU `cpu_id` as it starts up, with `idle_thread` as its idle thread. The CPU
/// is put online: the others will find its data at `tls_addr`.
pub fn setup_tls(table: &mut CpuTable, cpu_id: u32, tls_addr: u64, idle_thread: Thread) -> (tls:
    TlsData)
    requires
        cpu_id < MAX_CPUS,
    ensures
        final(table).cpus@ == old(table).cpus@.update(
            cpu_id as int,
            CpuData { online: true, tls: tls_addr },
        ),
        tls.cpu_id == cpu_id,
        tls.idt_addr == 0,
        tls.gdt_addr == 0,
        tls.thread_addr == 0,
        tls.idle_thread == idle_thread,
        tls.ready_queue.wf(),
        tls.ready_queue@ == Seq::<u64>::empty(),
{
    let tls = TlsData {
        cpu_id,
        idt_addr: 0,
        gdt_addr: 0,
        thread_addr: 0,
        idle_thread,
        ready_queue: Queue::new(),
    };
    table.cpus[cpu_id as usize] = CpuData { online: true, tls: tls_addr };
    tls
}

/// A CPU that was set up is found at the address it gave, and setting it up changes nothing for
/// the others.
pub proof fn set_up_cpu_is_found(cpus: Seq<CpuData>, cpu_id: u32, tls_addr: u64, other: u32)
    requires
        cpu_id < cpus.len(),
    ensures
        ({
            let after = cpus.update(cpu_id as int, CpuData { online: true, tls: tls_addr });
            &&& cpu_tls(after, cpu_id) == Some(tls_addr)
            &&& other != cpu_id ==> cpu_tls(after, other) == cpu_tls(cpus, other)
        }),
{
}

/// A CPU is found exactly if it is in the table and online, and then at the address that it gave.
pub proof fn online_cpus_are_found(cpus: Seq<CpuData>, cpu_id: u32)
    ensures
        cpu_id < cpus.len() && cpus[cpu_id as int].online ==> cpu_tls(cpus, cpu_id) == Some(
            cpus[cpu_id as int].tls,
        ),
        cpu_id >= cpus.len() || !cpus[cpu_id as int].online ==> cpu_tls(cpus, cpu_id) is None,
{
}

} // verus!
