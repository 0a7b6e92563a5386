//! Starting the CPUs of the machine.

use vstd::prelude::*;

verus! {

/// What a CPU does at boot.
#[derive(Debug, Clone, Copy, PartialEq, Eq, Structural)]
pub enum CpuRole {
    /// The CPU is the one that boots the machine: it goes on by itself.
    Bootstrap,
    /// The CPU waits to be told where to start.
    Application,
}

/// The role of the CPU with the interrupt controller `lapic_id`, on a machine that was booted by
/// the CPU with the interrupt controller `bsp_lapic_id`.
pub fn cpu_role(lapic_id: u32, bsp_lapic_id: u32) -> (role: CpuRole)
    ensures
        role == (if lapic_id == bsp_lapic_id {
            CpuRole::Bootstrap
        } else {
            CpuRole::Application
        }),
{
    if lapic_id != bsp_lapic_id {
        CpuRole::Application
    } else {
        CpuRole::Bootstrap
    }
}

/// Whether `k` is the last of the CPUs with the interrupt controllers `lapic_ids` that has the
/// interrupt controller `bsp_lapic_id`.
pub open spec fn is_bootstrap(lapic_ids: Seq<u32>, bsp_lapic_id: u32, k: int) -> bool {
    &&& 0 <= k < lapic_ids.len()
    &&& lapic_ids[k] == bsp_lapic_id
    &&& forall|i: int| k < i < lapic_ids.len() ==> #[trigger] lapic_ids[i] != bsp_lapic_id
}

/// Which of the CPUs with the interrupt controllers `lapic_ids` goes on by itself. Where several
/// have the interrupt controller of the CPU that boots the machine, it is the last one.
pub fn bootstrap_cpu(lapic_ids: &[u32], bsp_lapic_id: u32) -> (cpu: Option<usize>)
    ensures
        match cpu {
            Some(k) => is_bootstrap(lapic_ids@, bsp_lapic_id, k as int),
            None => !lapic_ids@.contains(bsp_lapic_id),
        },
{
    let mut cpu: Option<usize> = None;
    let mut i: usize = 0;
    while i < lapic_ids.len()
        invariant
            i <= lapic_ids@.len(),
            match cpu {
                Some(k) => is_bootstrap(lapic_ids@.take(i as int), bsp_lapic_id, k as int),
                None => forall|j: int| 0 <= j < i ==> #[trigger] lapic_ids@[j] != bsp_lapic_id,
            },
        decreases lapic_ids@.len() - i,
    {
        if matches!(cpu_role(lapic_ids[i], bsp_lapic_id), CpuRole::Bootstrap) {
            cpu = Some(i);
        }
        i = i + 1;
    }
    assert(lapic_ids@.take(lapic_ids@.len() as int) =~= lapic_ids@);
    cpu
}

/// The CPU that goes on is one with the interrupt controller of the CPU that boots the machine, and
/// no later one has it.
pub proof fn bootstrap_cpu_is_the_last_match(lapic_ids: Seq<u32>, bsp_lapic_id: u32, k: int)
    ensures
        is_bootstrap(lapic_ids, bsp_lapic_id, k) <==> 0 <= k && k < lapic_ids.len() && lapic_ids[k]
            == bsp_lapic_id && forall|i: int|
            k < i && i < lapic_ids.len() ==> #[trigger] lapic_ids[i] != bsp_lapic_id,
{
}

} // verus!
