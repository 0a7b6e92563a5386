use core::mem::size_of;
use kernel::memory::addr::PhysAddr;
use kernel::memory::bitmap::BitmapFrameAllocator;
use kernel::memory::frame::{Frame, FrameAllocError, FrameAllocator, FrameRange};
use kernel::memory::layout::{LayoutError, MemoryMapEntry, MetadataLayout};
use kernel::memory::region::{BitmapView, MemoryRegion};
use kernel::memory::{
    alloc_frame, alloc_frames, dealloc_frame, dealloc_frames, free_frames, init, is_reachable,
    shared, total_frames, PhysicalMemory,
};
use kernel::sync::SpinLock;

fn entry(base: u64, length: u64, usable: bool) -> MemoryMapEntry {
    MemoryMapEntry { base, length, usable }
}

fn range(start: u64, count: usize) -> FrameRange {
    FrameRange { start: PhysAddr(start), count }
}

/// Regions for the usable entries, with bitmaps full of ones.
fn regions_for(
    entries: &[MemoryMapEntry],
    layout: &MetadataLayout,
) -> &'static mut [MemoryRegion<'static>] {
    let mut regions = Vec::new();
    for k in 0..layout.num_regions {
        let place = layout.placement(entries, k);
        let data = Box::leak(vec![0xffu8; place.bitmap_bytes].into_boxed_slice());
        regions.push(MemoryRegion::new(place.entry.base, place.entry.length, data));
    }
    Box::leak(regions.into_boxed_slice())
}

const MAP: [(u64, u64, bool); 5] = [
    (0x0, 0x1000, true),
    (0x1000, 0x9000, false),
    (0x10_0000, 0x4_0000, true),
    (0x20_0000, 0x1000, false),
    (0x40_0000, 0x1_0000, true),
];

fn map() -> Vec<MemoryMapEntry> {
    MAP.iter().map(|&(base, length, usable)| entry(base, length, usable)).collect()
}

fn memory() -> PhysicalMemory<'static> {
    let entries = map();
    let hhdm = 0xffff_8000_0000_0000;
    let layout = MetadataLayout::plan(&entries, hhdm).unwrap();
    let mut memory = PhysicalMemory::new();
    init(&mut memory, hhdm, regions_for(&entries, &layout), &layout);
    memory
}

#[test]
fn bitmap_sets_and_clears_single_bits() {
    let mut data = [0b0000_0010u8, 0];
    {
        let mut view = BitmapView::new(12, &mut data);
        assert!(!view.is_set(0));
        assert!(view.is_set(1));
        view.set(9);
        view.set(15);
        view.clear(1);
        assert!(view.is_set(9));
        assert!(!view.is_set(8));
        assert!(!view.is_set(1));
    }
    assert_eq!(data, [0, 0b1000_0010]);
}

#[test]
fn region_hands_out_the_first_fit() {
    let mut data = [0b0000_1001u8, 0b1111_1000];
    let mut region = MemoryRegion::new(0x4000, 11 * 4096, &mut data);
    assert_eq!(region.total_frames(), 11);
    assert_eq!(region.free_frames(), 9);
    // Free: 1, 2, 4, 5, 6, 7, 8, 9, 10.
    assert_eq!(region.allocate(0), None);
    assert_eq!(region.allocate(3), Some(range(0x4000 + 4 * 4096, 3)));
    assert_eq!(region.allocate(2), Some(range(0x4000 + 4096, 2)));
    assert_eq!(region.allocate(5), None);
    assert_eq!(region.allocate(4), Some(range(0x4000 + 7 * 4096, 4)));
    assert_eq!(region.allocate(1), None);
    assert_eq!(region.free_frames(), 0);
    region.dealloc(range(0x4000 + 5 * 4096, 2));
    assert_eq!(region.free_frames(), 2);
    assert_eq!(region.allocate(1), Some(range(0x4000 + 5 * 4096, 1)));
}

#[test]
fn region_reserves_and_contains() {
    let mut data = [0u8; 1];
    let mut region = MemoryRegion::new(0x1000, 0x2800, &mut data);
    assert_eq!(region.total_frames(), 2);
    assert!(region.contains(PhysAddr(0x1000)));
    assert!(region.contains(PhysAddr(0x37ff)));
    assert!(!region.contains(PhysAddr(0x3800)));
    assert!(!region.contains(PhysAddr(0xfff)));
    region.reserve(range(0x1000, 1));
    assert_eq!(region.allocate(2), None);
    assert_eq!(region.allocate(1), Some(range(0x2000, 1)));
    region.clear_all();
    assert_eq!(region.free_frames(), 2);
}

#[test]
fn layout_packs_the_data_into_the_first_entry_that_is_long_enough() {
    let entries = map();
    let layout = MetadataLayout::plan(&entries, 0xffff_8000_0000_0000).unwrap();
    let region = size_of::<MemoryRegion>();
    // One, 64 and 16 frames: one, eight and two bytes of bitmap.
    assert_eq!(layout.num_regions, 3);
    assert_eq!(layout.size, 3 * region + 11);
    assert_eq!(layout.frames_needed, 1);
    assert_eq!(layout.host, 0);
    assert_eq!(layout.host_base, 0);
    assert_eq!(layout.region_start, 0xffff_8000_0000_0000);
    assert_eq!(layout.bitmap_start, 0xffff_8000_0000_0000 + 3 * region);

    let last = layout.placement(&entries, 2);
    assert_eq!(last.entry, entries[4]);
    assert_eq!(last.region_addr, layout.region_start + 2 * region);
    assert_eq!(last.bitmap_addr, layout.bitmap_start + 9);
    assert_eq!(last.bitmap_bytes, 2);
    assert_eq!(last.bitmap_addr + last.bitmap_bytes, layout.region_start + layout.size);
}

#[test]
fn layout_skips_entries_that_are_too_short() {
    let entries = [
        entry(0x3000, 64, true),
        entry(0x5000, 0x1000_0000, false),
        entry(0x8000_0000, 0x4000_0000, true),
    ];
    let layout = MetadataLayout::plan(&entries, 0).unwrap();
    assert_eq!(layout.host, 1);
    assert_eq!(layout.host_base, 0x8000_0000);
    assert_eq!(layout.size, 2 * size_of::<MemoryRegion>() + 0x4000_0000 / 4096 / 8);
    assert_eq!(layout.frames_needed, 9);
}

#[test]
fn layout_errors() {
    assert_eq!(MetadataLayout::plan(&[], 0), Err(LayoutError::NoSpace));
    assert_eq!(
        MetadataLayout::plan(&[entry(0x1000, 8, true)], 0),
        Err(LayoutError::NoSpace)
    );
    assert_eq!(
        MetadataLayout::plan(&[entry(0x1000, 0x10000, false)], 0),
        Err(LayoutError::NoSpace)
    );
    assert_eq!(
        MetadataLayout::plan(&[entry(u64::MAX, 2, true)], 0),
        Err(LayoutError::Overflow)
    );
    assert_eq!(
        MetadataLayout::plan(&[entry(0x1000, 0x10000, true)], u64::MAX),
        Err(LayoutError::Overflow)
    );
    // The data needs a frame, but the entry holds no whole one.
    assert_eq!(
        MetadataLayout::plan(&[entry(0x1000, 0x800, true)], 0),
        Err(LayoutError::HostTooShort)
    );
}

#[test]
fn allocator_without_memory() {
    let mut allocator = BitmapFrameAllocator::new();
    assert_eq!(allocator.allocate(1), Err(FrameAllocError::NotInitialized));
    assert_eq!(allocator.alloc_one(), Err(FrameAllocError::NotInitialized));
    allocator.dealloc(range(0x1000, 1));
    assert_eq!(allocator.total_frames(), 0);
    assert_eq!(allocator.free_frames(), 0);
}

#[test]
fn allocator_never_hands_out_its_own_data() {
    let mut memory = memory();
    assert_eq!(total_frames(&memory), 1 + 64 + 16);
    assert_eq!(free_frames(&memory), 64 + 16);
    let mut seen = Vec::new();
    while let Ok(Frame(addr)) = alloc_frame(&mut memory) {
        assert!(addr.0 >= 0x10_0000);
        assert!(!seen.contains(&addr.0));
        seen.push(addr.0);
    }
    assert_eq!(seen.len(), 80);
    assert_eq!(free_frames(&memory), 0);
    assert_eq!(alloc_frame(&mut memory), Err(FrameAllocError::OutOfMemory));
}

#[test]
fn allocator_serves_runs_from_the_first_region_that_has_them() {
    let mut memory = memory();
    assert_eq!(alloc_frames(&mut memory, 64), Ok(range(0x10_0000, 64)));
    assert_eq!(alloc_frames(&mut memory, 17), Err(FrameAllocError::OutOfMemory));
    assert_eq!(alloc_frames(&mut memory, 0), Err(FrameAllocError::OutOfMemory));
    assert_eq!(alloc_frames(&mut memory, 10), Ok(range(0x40_0000, 10)));
    assert_eq!(free_frames(&memory), 6);
    assert_eq!(alloc_frame(&mut memory), Ok(Frame(PhysAddr(0x40_a000))));
}

#[test]
fn deallocation_undoes_allocation() {
    let mut memory = memory();
    let first = alloc_frames(&mut memory, 5).unwrap();
    let second = alloc_frames(&mut memory, 7).unwrap();
    assert!(second.start.0 >= first.end_addr().0);
    dealloc_frames(&mut memory, first);
    assert_eq!(free_frames(&memory), 80 - 7);
    assert_eq!(alloc_frames(&mut memory, 5), Ok(first));
    dealloc_frames(&mut memory, second);
    dealloc_frames(&mut memory, first);
    assert_eq!(free_frames(&memory), 80);
    let frame = alloc_frame(&mut memory).unwrap();
    assert_eq!(frame.addr(), first.start);
    dealloc_frame(&mut memory, frame);
    assert_eq!(free_frames(&memory), 80);
}

#[test]
fn frames_of_no_region_are_ignored() {
    let mut memory = memory();
    dealloc_frames(&mut memory, range(0x9000, 1));
    assert_eq!(free_frames(&memory), 80);
}

#[test]
fn allocator_can_be_shared_between_cpus() {
    fn shareable<T: Send + Sync>(_: &T) {}
    let shared = SpinLock::new(memory());
    shareable(&shared);
    let mut guard = shared.lock(false);
    assert_eq!(alloc_frames(guard.deref_mut(), 2), Ok(range(0x10_0000, 2)));
    SpinLock::unlock(guard);
    let guard = shared.lock(false);
    assert_eq!(free_frames(guard.deref()), 78);
    SpinLock::unlock(guard);
}

#[test]
fn memory_in_use_is_never_handed_out() {
    let mut memory = memory();
    let held = alloc_frames(&mut memory, 3).unwrap();
    let mut out: Vec<FrameRange> = Vec::new();
    for round in 0..200usize {
        if round % 3 == 2 && !out.is_empty() {
            let frames = out.remove(round % out.len());
            dealloc_frames(&mut memory, frames);
        } else if let Ok(frames) = alloc_frames(&mut memory, 1 + round % 4) {
            for other in out.iter().chain([&held]) {
                let apart = frames.end_addr().as_u64() <= other.start.as_u64()
                    || other.end_addr().as_u64() <= frames.start.as_u64();
                assert!(apart);
            }
            out.push(frames);
        }
        let taken: usize = out.iter().map(|frames| frames.count).sum();
        // One frame is the allocator's own.
        assert_eq!(free_frames(&memory) + taken + held.count + 1, total_frames(&memory));
    }
}

#[test]
fn bits_end_up_in_the_slice_of_the_caller() {
    let mut data = [0xffu8, 0xff];
    {
        let mut region = MemoryRegion::new(0x4000, 9 * 4096, &mut data);
        region.clear_all();
        assert_eq!(region.allocate(2), Some(range(0x4000, 2)));
        region.reserve(range(0xc000, 1));
        region.dealloc(range(0x4000, 1));
    }
    assert_eq!(data, [0b0000_0010, 0b0000_0001]);
}

#[test]
fn shared_memory_answers_any_cpu() {
    let lock = SpinLock::new(memory());
    let (result, enable) = shared::alloc_frames(&lock, true, 2);
    assert!(enable);
    let first = result.unwrap();
    assert_eq!(first.frames.count, 2);
    assert_eq!(first.virt.0, first.frames.start.0 + 0xffff_8000_0000_0000);
    let (result, enable) = shared::alloc_frame(&lock, false);
    assert!(!enable);
    let (frame, virt) = result.unwrap();
    assert!(frame.addr().0 >= first.frames.end_addr().0 || frame.addr().0 < first.frames.start.0);
    assert_eq!(virt.0, frame.addr().0 + 0xffff_8000_0000_0000);
    assert_eq!(shared::alloc_frames(&lock, true, 0), (Err(FrameAllocError::OutOfMemory), true));
    let empty = SpinLock::new(PhysicalMemory::new());
    assert_eq!(
        shared::alloc_frames(&empty, false, 1),
        (Err(FrameAllocError::NotInitialized), false)
    );
}

#[test]
fn direct_map_must_reach_all_regions() {
    let mut data = [0u8; 2];
    let regions = [MemoryRegion::new(0x4000, 0x3000, &mut data)];
    assert!(is_reachable(&regions, 0xffff_8000_0000_0000));
    assert!(is_reachable(&regions, 0));
    assert!(is_reachable(&regions, 0x7fff_ffff_9000));
    // The last frame would lie past the lower half.
    assert!(!is_reachable(&regions, 0x7fff_ffff_a000));
    assert!(is_reachable(&regions, 0xffff_7fff_ffff_c000));
    // The first frame would lie below the upper half.
    assert!(!is_reachable(&regions, 0xffff_7fff_ffff_b000));
    assert!(is_reachable(&regions, 0xffff_ffff_ffff_8000));
    // The regions would end past the last address.
    assert!(!is_reachable(&regions, 0xffff_ffff_ffff_9000));
    assert!(!is_reachable(&regions, 0xffff_8000_0000_0008));
    let mut data = [0u8; 2];
    assert!(!is_reachable(&[MemoryRegion::new(0x4800, 0x3000, &mut data)], 0));
}

#[test]
fn frames_of_a_region_can_be_taken_back() {
    let mut memory = memory();
    let frames = alloc_frames(&mut memory, 3).unwrap();
    assert!(memory.frame_allocator.can_take_back(frames));
    assert!(memory.frame_allocator.can_take_back(range(0x10_0000, 64)));
    // The region has 64 frames.
    assert!(!memory.frame_allocator.can_take_back(range(0x10_0000, 65)));
    assert!(!memory.frame_allocator.can_take_back(range(0x10_1000, usize::MAX)));
    // No region contains the address, so the frames are ignored.
    assert!(memory.frame_allocator.can_take_back(range(0x90_0000, 65)));
    assert!(BitmapFrameAllocator::new().can_take_back(range(0x10_0000, 65)));
}

#[test]
fn mapped_frames_come_from_the_given_memory() {
    let mut memory = memory();
    let free = free_frames(&memory);
    let served = shared::alloc_mapped(&mut memory, 2).unwrap();
    assert_eq!(served.virt.0, served.frames.start.0 + memory.hhdm_offset);
    assert_eq!(free_frames(&memory), free - 2);
    assert_eq!(shared::alloc_mapped(&mut memory, 0), Err(FrameAllocError::OutOfMemory));
}
