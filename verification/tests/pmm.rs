use kernel::memory::addr::{PhysAddr, VirtAddr};
use kernel::memory::layout::{MemoryMapEntry, MetadataLayout};
use kernel::memory::region::MemoryRegion;
use kernel::pmm::{
    alloc_frames, free_frames, phys_to_virt, pmm_init, FrameRange, PhysicalMemoryManager,
};

fn range(start: u64, count: usize) -> FrameRange {
    FrameRange { start: PhysAddr(start), count }
}

fn parts(base: u64) -> (&'static mut [MemoryRegion<'static>], MetadataLayout) {
    let entries = [
        MemoryMapEntry { base, length: 8 * 4096, usable: true },
        MemoryMapEntry { base: 0x20_0000, length: 4 * 4096, usable: true },
    ];
    let layout = MetadataLayout::plan(&entries, 0).unwrap();
    let regions: Vec<MemoryRegion<'static>> = (0..layout.num_regions)
        .map(|k| {
            let place = layout.placement(&entries, k);
            let data = Box::leak(vec![0xaau8; place.bitmap_bytes].into_boxed_slice());
            MemoryRegion::new(place.entry.base, place.entry.length, data)
        })
        .collect();
    (Box::leak(regions.into_boxed_slice()), layout)
}

#[test]
fn manager_locks_its_own_frames() {
    let (regions, layout) = parts(0x10_0000);
    let mut manager = PhysicalMemoryManager::new(regions, &layout, 0);
    assert_eq!(manager.allocate(1), Some(range(0x10_1000, 1)));
    assert_eq!(manager.allocate(6), Some(range(0x10_2000, 6)));
    assert_eq!(manager.allocate(5), None);
    assert_eq!(manager.allocate(2), Some(range(0x20_0000, 2)));
    manager.free(range(0x10_3000, 2));
    assert_eq!(manager.allocate(2), Some(range(0x10_3000, 2)));
    manager.free(range(0x50_0000, 2));
    assert_eq!(manager.allocate(3), None);
}

#[test]
fn manager_takes_regions_off_frame_boundaries() {
    let (regions, layout) = parts(0x10_0800);
    let mut manager = PhysicalMemoryManager::new(regions, &layout, 0);
    assert_eq!(manager.allocate(1), Some(range(0x10_1800, 1)));
}

#[test]
fn slot_without_a_manager() {
    let mut pmm: Option<PhysicalMemoryManager> = None;
    assert_eq!(alloc_frames(&mut pmm, 1), None);
    free_frames(&mut pmm, range(0x1000, 1));
    assert!(pmm.is_none());
}

#[test]
fn slot_with_a_manager() {
    let (regions, layout) = parts(0x10_0000);
    let mut pmm = None;
    pmm_init(&mut pmm, regions, &layout, 0xffff_8000_0000_0000);
    assert_eq!(alloc_frames(&mut pmm, 7), Some(range(0x10_1000, 7)));
    assert_eq!(alloc_frames(&mut pmm, 5), None);
    free_frames(&mut pmm, range(0x10_1000, 7));
    assert_eq!(alloc_frames(&mut pmm, 3), Some(range(0x10_1000, 3)));
    assert_eq!(
        phys_to_virt(&pmm, PhysAddr(0x1000)),
        VirtAddr(0xffff_8000_0000_1000)
    );
}
