use kernel::memory::addr::PhysAddr;
use kernel::memory::frame::{Frame, FrameAllocError};
use kernel::memory::vmm::{map_page, MapAction, MapEvent, ENTRY_FLAGS, PRESENT, WRITABLE};
use std::collections::HashMap;
use x86_64::structures::paging::PageTableFlags;


/// Page tables in a map, and the frames that are left for new ones.
struct Machine {
    entries: HashMap<(u64, usize), u64>,
    frames: Vec<u64>,
}

impl Machine {
    fn entry(&self, table: u64, index: usize) -> u64 {
        *self.entries.get(&(table, index)).unwrap_or(&0)
    }

    fn run(&mut self, root: u64, phys: u64, virt: u64) -> (bool, usize) {
        let (mut mapper, mut action) = map_page(PhysAddr(root), phys, virt);
        let mut steps = 0;
        loop {
            let event = match action {
                MapAction::ReadEntry { table, index } => {
                    let entry = self.entry(table.0, index);
                    MapEvent::EntryRead {
                        addr: PhysAddr(entry & 0x000f_ffff_ffff_f000),
                        present: entry & PRESENT != 0,
                    }
                }
                MapAction::AllocFrame => MapEvent::FrameAllocated(if self.frames.is_empty() {
                    Err(FrameAllocError::OutOfMemory)
                } else {
                    Ok(Frame(PhysAddr(self.frames.remove(0))))
                }),
                MapAction::WriteEntry { table, index, addr, flags } => {
                    self.entries.insert((table.0, index), addr.0 | flags);
                    MapEvent::EntryWritten
                }
                MapAction::Done => return (true, steps),
                MapAction::OutOfFrames => return (false, steps),
            };
            steps += 1;
            (mapper, action) = mapper.step(event);
        }
    }
}

const VIRT: u64 = 0xffff_8000_fee0_0000;
const PHYS: u64 = 0xfee0_0000;

#[test]
fn page_is_mapped_through_existing_tables() {
    let mut machine = Machine { entries: HashMap::new(), frames: vec![] };
    machine.entries.insert((0x1000, 256), 0x2000 | PRESENT);
    machine.entries.insert((0x2000, 3), 0x3000 | PRESENT);
    machine.entries.insert((0x3000, 503), 0x4000 | PRESENT);
    let before = machine.entries.clone();
    assert_eq!(machine.run(0x1000, PHYS, VIRT), (true, 4));
    assert_eq!(machine.entry(0x4000, 0), PHYS | PRESENT | WRITABLE);
    for (slot, entry) in &before {
        assert_eq!(machine.entries[slot], *entry);
    }
    assert_eq!(machine.entries.len(), before.len() + 1);
}

#[test]
fn missing_tables_get_new_frames() {
    let mut machine = Machine { entries: HashMap::new(), frames: vec![0x8000, 0x9000, 0xa000] };
    machine.entries.insert((0x1000, 256), 0x2000 | PRESENT);
    assert_eq!(machine.run(0x1000, PHYS, VIRT), (true, 8));
    assert_eq!(machine.entry(0x2000, 3), 0x8000 | PRESENT | WRITABLE);
    assert_eq!(machine.entry(0x8000, 503), 0x9000 | PRESENT | WRITABLE);
    assert_eq!(machine.entry(0x9000, 0), PHYS | PRESENT | WRITABLE);
    assert_eq!(machine.frames, vec![0xa000]);
}

#[test]
fn root_entry_is_taken_to_be_present() {
    let mut machine = Machine { entries: HashMap::new(), frames: vec![0x8000, 0x9000] };
    machine.entries.insert((0x1000, 256), 0x2000);
    assert_eq!(machine.run(0x1000, PHYS, VIRT), (true, 8));
    assert_eq!(machine.entry(0x1000, 256), 0x2000);
}

#[test]
fn mapping_fails_without_frames() {
    let mut machine = Machine { entries: HashMap::new(), frames: vec![0x8000] };
    machine.entries.insert((0x1000, 256), 0x2000 | PRESENT);
    assert_eq!(machine.run(0x1000, PHYS, VIRT), (false, 6));
    let mut machine = Machine { entries: HashMap::new(), frames: vec![] };
    assert_eq!(machine.run(0x1000, PHYS, VIRT), (false, 3));
}

#[test]
fn indices_are_nine_bits_each() {
    let virt = (1u64 << 39) | (2 << 30) | (511 << 21) | (77 << 12) | 0xabc;
    let (mapper, action) = map_page(PhysAddr(0x5000), 0x7000, virt);
    assert_eq!(action, MapAction::ReadEntry { table: PhysAddr(0x5000), index: 1 });
    let read = |table| MapEvent::EntryRead { addr: PhysAddr(table), present: true };
    let (mapper, action) = mapper.step(read(0x6000));
    assert_eq!(action, MapAction::ReadEntry { table: PhysAddr(0x6000), index: 2 });
    let (mapper, action) = mapper.step(read(0x8000));
    assert_eq!(action, MapAction::ReadEntry { table: PhysAddr(0x8000), index: 511 });
    let (mapper, action) = mapper.step(read(0x9000));
    assert_eq!(
        action,
        MapAction::WriteEntry {
            table: PhysAddr(0x9000),
            index: 77,
            addr: PhysAddr(0x7000),
            flags: PRESENT | WRITABLE,
        }
    );
    let (_, action) = mapper.step(MapEvent::EntryWritten);
    assert_eq!(action, MapAction::Done);
}

#[test]
fn flags_are_those_of_the_processor() {
    assert_eq!(PRESENT, PageTableFlags::PRESENT.bits());
    assert_eq!(WRITABLE, PageTableFlags::WRITABLE.bits());
    assert_eq!(ENTRY_FLAGS, PRESENT | WRITABLE);
}
