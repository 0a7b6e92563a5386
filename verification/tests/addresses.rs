use kernel::memory::addr::{PhysAddr, VirtAddr};
use kernel::memory::frame::{Frame, FrameRange, FRAME_SIZE};
use kernel::memory::{phys_to_virt, virt_to_phys, PhysicalMemory};

#[test]
fn physical_addresses_have_52_bits() {
    assert_eq!(PhysAddr::try_new(0), Some(PhysAddr(0)));
    assert_eq!(PhysAddr::try_new((1 << 52) - 1), Some(PhysAddr((1 << 52) - 1)));
    assert_eq!(PhysAddr::try_new(1 << 52), None);
    assert_eq!(PhysAddr::try_new(u64::MAX), None);
    assert_eq!(PhysAddr::new(0x1234).as_u64(), 0x1234);
}

#[test]
fn virtual_addresses_are_canonical() {
    assert_eq!(VirtAddr::try_new(0x7fff_ffff_ffff), Some(VirtAddr(0x7fff_ffff_ffff)));
    assert_eq!(VirtAddr::try_new(0x8000_0000_0000), None);
    assert_eq!(VirtAddr::try_new(0xffff_7fff_ffff_ffff), None);
    assert_eq!(
        VirtAddr::try_new(0xffff_8000_0000_0000),
        Some(VirtAddr(0xffff_8000_0000_0000))
    );
    assert_eq!(VirtAddr::new(u64::MAX).as_u64(), u64::MAX);
}

#[test]
fn alignment_and_offset() {
    assert!(PhysAddr(0x3000).is_aligned(0x1000));
    assert!(!PhysAddr(0x3008).is_aligned(0x1000));
    assert_eq!(PhysAddr(0x3000).offset(0x800), PhysAddr(0x3800));
}

#[test]
fn frames_and_ranges() {
    assert_eq!(FRAME_SIZE, 4096);
    assert_eq!(Frame::new(PhysAddr(0x5000)).addr(), PhysAddr(0x5000));
    let range = FrameRange::new(PhysAddr(0x10000), 3);
    assert_eq!(range.start_addr(), PhysAddr(0x10000));
    assert_eq!(range.end_addr(), PhysAddr(0x13000));
    assert_eq!(FrameRange::new(PhysAddr(0x10000), 0).end_addr(), PhysAddr(0x10000));
}

#[test]
fn direct_map_translates_both_ways() {
    let mut memory = PhysicalMemory::new();
    assert_eq!(phys_to_virt(&memory, PhysAddr(0x1000)), VirtAddr(0x1000));
    memory.hhdm_offset = 0xffff_8000_0000_0000;
    let virt = phys_to_virt(&memory, PhysAddr(0xfee0_0000));
    assert_eq!(virt, VirtAddr(0xffff_8000_fee0_0000));
    assert_eq!(virt_to_phys(&memory, virt), PhysAddr(0xfee0_0000));
}
