//! The interrupt descriptor table: which interrupts the kernel handles.

use crate::arch::amd64::lapic::TIMER_VECTOR;
use vstd::prelude::*;

verus! {

/// What handles an interrupt.
#[derive(Debug, Clone, Copy, PartialEq, Eq, Structural)]
pub enum Handler {
    Breakpoint,
    PageFault,
    Timer,
}

/// An entry of the table.
#[derive(Debug, Clone, Copy, PartialEq, Eq, Structural)]
pub struct Gate {
    pub vector: u8,
    pub handler: Handler,
    /// The least privileged ring that may raise the interrupt by an instruction.
    pub ring: u8,
}

/// The breakpoint exception.
pub const BREAKPOINT: u8 = 3;

/// The page fault exception.
pub const PAGE_FAULT: u8 = 14;

/// The entries that every CPU's table has: breakpoints, which user programs may raise, page
/// faults, and the timer.
pub fn setup_idt() -> (gates: [Gate; 3])
    ensures
        gates@ == seq![
            Gate { vector: BREAKPOINT, handler: Handler::Breakpoint, ring: 3 },
            Gate { vector: PAGE_FAULT, handler: Handler::PageFault, ring: 0 },
            Gate { vector: TIMER_VECTOR as u8, handler: Handler::Timer, ring: 0 },
        ],
{
    [
        Gate { vector: BREAKPOINT, handler: Handler::Breakpoint, ring: 3 },
        Gate { vector: PAGE_FAULT, handler: Handler::PageFault, ring: 0 },
        Gate { vector: TIMER_VECTOR as u8, handler: Handler::Timer, ring: 0 },
    ]
}

} // verus!
