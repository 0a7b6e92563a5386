//! The local interrupt controller of a CPU, and its timer.
//!
//! The controller's registers lie in memory. Reading and writing them is up to the caller; this
//! module says which ones to write, and what.

use crate::memory::addr::{is_phys, PhysAddr, VirtAddr};
use crate::memory::{in_direct_map, mapped_at, phys_to_virt, PhysicalMemory};
use vstd::prelude::*;

verus! {

/// The end-of-interrupt register.
pub const EOI: u64 = 0xb0;

/// The spurious interrupt vector register, whose bit 8 enables the controller.
pub const SPURIOUS_VECTOR: u64 = 0xf0;

/// The register that holds the vector and the mode of the timer.
pub const TIMER_VECTOR_REGISTER: u64 = 0x320;

/// The register that the timer counts down from. Writing it starts the timer.
pub const TIMER_INITIAL_COUNT: u64 = 0x380;

/// The register that holds the timer's divider.
pub const TIMER_DIVIDER: u64 = 0x3e0;

/// The interrupt that the timer raises. With no other bit set, the timer runs once.
pub const TIMER_VECTOR: u32 = 32;

/// The value of the divider register that divides by 16.
pub const DIVIDE_BY_16: u32 = 3;

/// How far the timer counts. A value that gives decent results.
pub const TIMER_TICKS: u32 = 0x0fff;

/// A value to be written to a register.
#[derive(Debug, Clone, Copy, PartialEq, Eq, Structural)]
pub struct RegisterWrite {
    /// The virtual address of the register.
    pub address: u64,
    pub value: u32,
}

/// The interrupt controller whose registers start at a virtual address.
#[derive(Debug, Clone, Copy, PartialEq, Eq, Structural)]
pub struct Lapic {
    pub address: u64,
}

impl Lapic {
    pub fn new(address: u64) -> (lapic: Self)
        ensures
            lapic.address == address,
    {
        Lapic { address }
    }

    /// The address to read the register at `offset` from.
    pub fn read(&self, offset: u64) -> (address: u64)
        requires
            self.address + offset <= u64::MAX,
        ensures
            address == self.address + offset,
    {
        self.address + offset
    }

    /// How to write `value` to the register at `offset`.
    pub fn write(&self, offset: u64, value: u32) -> (w: RegisterWrite)
        requires
            self.address + offset <= u64::MAX,
        ensures
            w.address == self.address + offset,
            w.value == value,
    {
        RegisterWrite { address: self.address + offset, value }
    }

    /// How to tell the controller that the current interrupt has been handled.
    pub fn send_eoi(&self) -> (w: RegisterWrite)
        requires
            self.address + EOI <= u64::MAX,
        ensures
            w.address == self.address + EOI,
            w.value == 0,
    {
        self.write(EOI, 0)
    }
}

/// The physical address of the controller's registers, as the register `msr` gives it: the lower
/// 12 bits are flags.
pub open spec fn lapic_base(msr: u64) -> int {
    msr as int / 0x1000 * 0x1000
}

/// The physical address of the registers of the current CPU's controller, whose base register
/// holds `msr`.
pub fn lapic_phys_addr(msr: u64) -> (addr: u64)
    ensures
        addr == lapic_base(msr),
{
    assert(msr & !0xfffu64 == msr / 0x1000 * 0x1000) by (bit_vector);
    msr & !0xfff
}

/// The controller of the current CPU, whose base register holds `msr`, seen through the direct
/// map.
pub fn current_lapic(memory: &PhysicalMemory<'_>, msr: u64) -> (lapic: Lapic)
    requires
        is_phys(lapic_base(msr)),
        in_direct_map(memory.hhdm_offset, PhysAddr(lapic_base(msr) as u64)),
    ensures
        lapic.address == mapped_at(memory.hhdm_offset, PhysAddr(lapic_base(msr) as u64)).0,
{
    let virt: VirtAddr = phys_to_virt(memory, PhysAddr::new(lapic_phys_addr(msr)));
    Lapic::new(virt.as_u64())
}

/// How to start the timer of `lapic`, whose spurious vector register holds `svr`: enable the
/// controller, set the divider, set the vector and the one-shot mode, set the count.
///
/// The timer is started anew after each interrupt, so threads run for the same amount of time
/// and aren't affected by the time spent in the scheduler.
pub fn setup_lapic_timer(lapic: &Lapic, svr: u32) -> (writes: [RegisterWrite; 4])
    requires
        lapic.address + TIMER_DIVIDER <= u64::MAX,
    ensures
        writes@ == seq![
            RegisterWrite {
                address: (lapic.address + SPURIOUS_VECTOR) as u64,
                value: svr | 0x100,
            },
            RegisterWrite {
                address: (lapic.address + TIMER_DIVIDER) as u64,
                value: DIVIDE_BY_16,
            },
            RegisterWrite {
                address: (lapic.address + TIMER_VECTOR_REGISTER) as u64,
                value: TIMER_VECTOR,
            },
            RegisterWrite {
                address: (lapic.address + TIMER_INITIAL_COUNT) as u64,
                value: TIMER_TICKS,
            },
        ],
{
    [
        lapic.write(SPURIOUS_VECTOR, svr | 0x100),
        lapic.write(TIMER_DIVIDER, DIVIDE_BY_16),
        lapic.write(TIMER_VECTOR_REGISTER, TIMER_VECTOR),
        lapic.write(TIMER_INITIAL_COUNT, TIMER_TICKS),
    ]
}

/// How to end a timer interrupt: start the timer anew, then acknowledge the interrupt.
pub fn end_timer_interrupt(lapic: &Lapic) -> (writes: [RegisterWrite; 2])
    requires
        lapic.address + TIMER_INITIAL_COUNT <= u64::MAX,
    ensures
        writes@ == seq![
            RegisterWrite {
                address: (lapic.address + TIMER_INITIAL_COUNT) as u64,
                value: TIMER_TICKS,
            },
            RegisterWrite { address: (lapic.address + EOI) as u64, value: 0 },
        ],
{
    [lapic.write(TIMER_INITIAL_COUNT, TIMER_TICKS), lapic.send_eoi()]
}

/// The registers start at the page that the base register points into.
pub proof fn registers_start_at_a_page(msr: u64)
    ensures
        lapic_base(msr) % 0x1000 == 0,
        lapic_base(msr) <= msr && msr < lapic_base(msr) + 0x1000,
{
}

/// Where the registers lie in their page, and what starts the timer.
pub proof fn registers_of_the_controller()
    ensures
        EOI == 0xb0,
        SPURIOUS_VECTOR == 0xf0,
        TIMER_VECTOR_REGISTER == 0x320,
        TIMER_INITIAL_COUNT == 0x380,
        TIMER_DIVIDER == 0x3e0,
        TIMER_VECTOR == 32,
        DIVIDE_BY_16 == 3,
        TIMER_TICKS == 0xfff,
{
}

} // verus!
