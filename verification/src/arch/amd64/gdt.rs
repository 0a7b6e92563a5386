//! The global descriptor table: the segments of the kernel and of user programs.

use vstd::prelude::*;
use ::x86_64::structures::gdt::{Descriptor, GlobalDescriptorTable};

verus! {

/// The selector of the kernel's code segment.
pub const KERNEL_CS: u16 = 0x08;

/// The selector of the kernel's data segment.
pub const KERNEL_DS: u16 = 0x10;

/// The selector of the data segment of user programs.
pub const USER_DS: u16 = 0x1b;

/// The selector of the code segment of user programs.
pub const USER_CS: u16 = 0x23;

/// The descriptor of a 64-bit code segment for the kernel.
pub const KERNEL_CODE: u64 = 0x00af_9b00_0000_ffff;

/// The descriptor of a data segment for the kernel.
pub const KERNEL_DATA: u64 = 0x00cf_9300_0000_ffff;

/// The descriptor of a data segment for user programs.
pub const USER_DATA: u64 = 0x00cf_f300_0000_ffff;

/// The descriptor of a 64-bit code segment for user programs.
pub const USER_CODE: u64 = 0x00af_fb00_0000_ffff;

/// `x86_64::structures::gdt::GlobalDescriptorTable`: a table of at most `MAX` entries, each of
/// them 64 bits.
#[verifier::external_type_specification]
#[verifier::external_body]
pub struct ExGlobalDescriptorTable<const MAX: usize>(
    ::x86_64::structures::gdt::GlobalDescriptorTable<MAX>,
);

/// The entries of the table, the null entry first.
pub uninterp spec fn gdt_entries(gdt: GlobalDescriptorTable<7>) -> Seq<u64>;

/// The privilege level in bits 45 and 46 of a descriptor.
pub open spec fn descriptor_ring(bits: u64) -> int {
    (bits as int / 0x2000_0000_0000) % 4
}

/// The selector of entry `index` for the privilege level `ring`.
pub open spec fn selector(index: int, ring: int) -> int {
    index * 8 + ring
}

/// Calls `GlobalDescriptorTable::empty`. The table it makes holds the null entry and nothing
/// else.
#[verifier::external_body]
fn gdt_empty() -> (gdt: GlobalDescriptorTable<7>)
    ensures
        gdt_entries(gdt) == seq![0u64],
{
    GlobalDescriptorTable::empty()
}

/// Calls `GlobalDescriptorTable::append` with a descriptor of one entry. The entry goes to the
/// end of the table; the result is the selector of its place, with the privilege level that the
/// descriptor states. The table must have room.
#[verifier::external_body]
fn gdt_append(gdt: &mut GlobalDescriptorTable<7>, bits: u64) -> (sel: u16)
    requires
        gdt_entries(*old(gdt)).len() < 7,
    ensures
        gdt_entries(*final(gdt)) == gdt_entries(*old(gdt)).push(bits),
        sel == selector(gdt_entries(*old(gdt)).len() as int, descriptor_ring(bits)),
{
    gdt.append(Descriptor::UserSegment(bits)).0
}

/// Calls `Descriptor::kernel_code_segment` and hands out the bits of its one entry. The function
/// always makes the same descriptor.
#[verifier::external_body]
fn kernel_code_segment() -> (bits: u64)
    ensures
        bits == KERNEL_CODE,
{
    match Descriptor::kernel_code_segment() {
        Descriptor::UserSegment(bits) => bits,
        Descriptor::SystemSegment(bits, _) => bits,
    }
}

/// Calls `Descriptor::kernel_data_segment` and hands out the bits of its one entry. The function
/// always makes the same descriptor.
#[verifier::external_body]
fn kernel_data_segment() -> (bits: u64)
    ensures
        bits == KERNEL_DATA,
{
    match Descriptor::kernel_data_segment() {
        Descriptor::UserSegment(bits) => bits,
        Descriptor::SystemSegment(bits, _) => bits,
    }
}

/// Calls `Descriptor::user_data_segment` and hands out the bits of its one entry. The function
/// always makes the same descriptor.
#[verifier::external_body]
fn user_data_segment() -> (bits: u64)
    ensures
        bits == USER_DATA,
{
    match Descriptor::user_data_segment() {
        Descriptor::UserSegment(bits) => bits,
        Descriptor::SystemSegment(bits, _) => bits,
    }
}

/// Calls `Descriptor::user_code_segment` and hands out the bits of its one entry. The function
/// always makes the same descriptor.
#[verifier::external_body]
fn user_code_segment() -> (bits: u64)
    ensures
        bits == USER_CODE,
{
    match Descriptor::user_code_segment() {
        Descriptor::UserSegment(bits) => bits,
        Descriptor::SystemSegment(bits, _) => bits,
    }
}

/// The table that every CPU loads. Of its seven entries, five are set:
///  1. null entry
///  2. kernel code
///  3. kernel data
///  4. user data (not code, due to sysret working in both 32 and 64 bit)
///  5. user code
///
/// The last two are left for a TSS.
pub fn setup_gdt() -> (gdt: GlobalDescriptorTable<7>)
    ensures
        gdt_entries(gdt) == seq![0u64, KERNEL_CODE, KERNEL_DATA, USER_DATA, USER_CODE],
{
    let mut gdt = gdt_empty();
    let code: u16 = gdt_append(&mut gdt, kernel_code_segment());
    let data: u16 = gdt_append(&mut gdt, kernel_data_segment());
    let user_data: u16 = gdt_append(&mut gdt, user_data_segment());
    let user_code: u16 = gdt_append(&mut gdt, user_code_segment());
    assert(code == KERNEL_CS && data == KERNEL_DS);
    assert(user_data == USER_DS && user_code == USER_CS);
    gdt
}

/// The selectors select the segments they are named after: each of them gives the place of the
/// descriptor in the table of `setup_gdt`, and the privilege level that the descriptor states.
pub proof fn selectors_select_their_segments(gdt: GlobalDescriptorTable<7>)
    requires
        gdt_entries(gdt) == seq![0u64, KERNEL_CODE, KERNEL_DATA, USER_DATA, USER_CODE],
    ensures
        gdt_entries(gdt)[KERNEL_CS as int / 8] == KERNEL_CODE,
        gdt_entries(gdt)[KERNEL_DS as int / 8] == KERNEL_DATA,
        gdt_entries(gdt)[USER_DS as int / 8] == USER_DATA,
        gdt_entries(gdt)[USER_CS as int / 8] == USER_CODE,
        KERNEL_CS as int % 8 == descriptor_ring(KERNEL_CODE),
        KERNEL_DS as int % 8 == descriptor_ring(KERNEL_DATA),
        USER_DS as int % 8 == descriptor_ring(USER_DATA),
        USER_CS as int % 8 == descriptor_ring(USER_CODE),
        descriptor_ring(KERNEL_CODE) == 0,
        descriptor_ring(USER_CODE) == 3,
{
}

/// A selector is eight times the place of the entry, and the privilege level; that of a descriptor
/// is in its bits 45 and 46.
pub proof fn selectors_hold_place_and_ring(index: int, ring: int, bits: u64)
    requires
        0 <= ring < 8,
    ensures
        selector(index, ring) / 8 == index,
        selector(index, ring) % 8 == ring,
        descriptor_ring(bits) == bits as int / 0x2000_0000_0000 % 4,
        KERNEL_CS == 0x08,
        KERNEL_DS == 0x10,
        USER_DS == 0x1b,
        USER_CS == 0x23,
        KERNEL_CODE == 0x00af_9b00_0000_ffff,
        KERNEL_DATA == 0x00cf_9300_0000_ffff,
        USER_DATA == 0x00cf_f300_0000_ffff,
        USER_CODE == 0x00af_fb00_0000_ffff,
{
}

} // verus!
