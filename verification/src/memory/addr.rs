//! Physical and virtual addresses, held as plain integers.
//!
//! Which integers are addresses at all is decided by the `x86_64` crate: a physical address
//! has 52 bits, and a virtual address is canonical, that is, bits 48 to 63 repeat bit 47.

use crate::sync::WellFormed;
use vstd::prelude::*;

verus! {

/// One past the highest physical address.
pub const PHYS_ADDR_LIMIT: u64 = 0x0010_0000_0000_0000;

/// One past the highest canonical address of the lower half.
pub const LOWER_HALF_LIMIT: u64 = 0x0000_8000_0000_0000;

/// The lowest canonical address of the upper half.
pub const UPPER_HALF_START: u64 = 0xffff_8000_0000_0000;

/// Whether `addr` fits the 52 bits of a physical address.
pub open spec fn is_phys(addr: int) -> bool {
    0 <= addr < PHYS_ADDR_LIMIT
}

/// Whether `addr` is canonical: in the lower half, or in the upper half, of the 48-bit space.
pub open spec fn is_canonical(addr: int) -> bool {
    0 <= addr < LOWER_HALF_LIMIT || UPPER_HALF_START <= addr <= u64::MAX
}

/// A physical memory address.
#[derive(Debug, Clone, Copy, PartialEq, Eq, Structural)]
pub struct PhysAddr(pub u64);

/// A virtual memory address.
#[derive(Debug, Clone, Copy, PartialEq, Eq, Structural)]
pub struct VirtAddr(pub u64);

impl WellFormed for PhysAddr {
    /// The integer is a physical address.
    open spec fn wf(&self) -> bool {
        is_phys(self.0 as int)
    }
}

impl WellFormed for VirtAddr {
    /// The integer is a canonical address.
    open spec fn wf(&self) -> bool {
        is_canonical(self.0 as int)
    }
}

/// Calls `x86_64::PhysAddr::try_new` and hands the address back as an integer. The function
/// accepts an integer exactly if its upper 12 bits are zero, and keeps its value.
#[verifier::external_body]
fn phys_addr_try_new(addr: u64) -> (checked: Option<u64>)
    ensures
        checked == (if is_phys(addr as int) { Some(addr) } else { None }),
{
    ::x86_64::PhysAddr::try_new(addr).ok().map(|a| a.as_u64())
}

/// Calls `x86_64::VirtAddr::try_new` and hands the address back as an integer. The function
/// accepts an integer exactly if bits 48 to 63 are copies of bit 47, and keeps its value.
#[verifier::external_body]
fn virt_addr_try_new(addr: u64) -> (checked: Option<u64>)
    ensures
        checked == (if is_canonical(addr as int) { Some(addr) } else { None }),
{
    ::x86_64::VirtAddr::try_new(addr).ok().map(|a| a.as_u64())
}

impl PhysAddr {
    /// The address `addr`, or nothing where it does not fit 52 bits.
    pub fn try_new(addr: u64) -> (r: Option<PhysAddr>)
        ensures
            r == (if is_phys(addr as int) { Some(PhysAddr(addr)) } else { None }),
            r.wf(),
    {
        match phys_addr_try_new(addr) {
            Some(checked) => Some(PhysAddr(checked)),
            None => None,
        }
    }

    /// The address `addr`, which must fit 52 bits.
    pub fn new(addr: u64) -> (r: PhysAddr)
        requires
            is_phys(addr as int),
        ensures
            r == PhysAddr(addr),
            r.wf(),
    {
        PhysAddr(phys_addr_try_new(addr).unwrap())
    }

    pub fn as_u64(self) -> (r: u64)
        ensures
            r == self.0,
    {
        self.0
    }

    /// Whether the address is a multiple of `align`.
    pub fn is_aligned(self, align: u64) -> (r: bool)
        requires
            align > 0,
        ensures
            r == (self.0 as int % align as int == 0),
    {
        self.0 % align == 0
    }

    /// The address `offset` bytes further up, which must still fit 52 bits.
    pub fn offset(self, offset: u64) -> (r: PhysAddr)
        requires
            is_phys(self.0 + offset),
        ensures
            r == PhysAddr((self.0 + offset) as u64),
            r.wf(),
    {
        PhysAddr::new(self.0 + offset)
    }
}

impl VirtAddr {
    /// The address `addr`, or nothing where it is not canonical.
    pub fn try_new(addr: u64) -> (r: Option<VirtAddr>)
        ensures
            r == (if is_canonical(addr as int) { Some(VirtAddr(addr)) } else { None }),
            r.wf(),
    {
        match virt_addr_try_new(addr) {
            Some(checked) => Some(VirtAddr(checked)),
            None => None,
        }
    }

    /// The address `addr`, which must be canonical.
    pub fn new(addr: u64) -> (r: VirtAddr)
        requires
            is_canonical(addr as int),
        ensures
            r == VirtAddr(addr),
            r.wf(),
    {
        VirtAddr(virt_addr_try_new(addr).unwrap())
    }

    pub fn as_u64(self) -> (r: u64)
        ensures
            r == self.0,
    {
        self.0
    }
}

} // verus!
