//! What mapping a page achieves.
//!
//! The laws run the mapper against page tables and a supply of frames.

use crate::memory::addr::PhysAddr;
use crate::memory::frame::{Frame, FrameAllocError};
use crate::memory::vmm::{
    is_present, is_writable, table_index, Level, MapAction, MapEvent, MapState, PageMapper,
    ENTRY_FLAGS, PRESENT, WRITABLE,
};
use vstd::prelude::*;

verus! {

/// What an entry of a page table says.
pub struct TableEntry {
    pub addr: PhysAddr,
    pub flags: u64,
}

/// The page tables of a machine, and the frames that are left for new ones.
#[verifier::ext_equal]
pub struct Machine {
    /// The entries of the table at an address.
    pub entries: spec_fn(PhysAddr, int) -> TableEntry,
    pub frames: Seq<Frame>,
}

impl Machine {
    /// The machine with an entry that points to `addr`, with the flags `flags`.
    pub open spec fn written(
        self,
        table: PhysAddr,
        index: int,
        addr: PhysAddr,
        flags: u64,
    ) -> Machine {
        Machine {
            entries: |t: PhysAddr, i: int|
                if t == table && i == index {
                    TableEntry { addr, flags }
                } else {
                    (self.entries)(t, i)
                },
            ..self
        }
    }

    /// What comes of `action`, and the machine after it.
    pub open spec fn performed(self, action: MapAction) -> (MapEvent, Machine) {
        match action {
            MapAction::ReadEntry { table, index } => (
                MapEvent::EntryRead {
                    addr: (self.entries)(table, index as int).addr,
                    present: is_present((self.entries)(table, index as int).flags),
                },
                self,
            ),
            MapAction::AllocFrame => if self.frames.len() > 0 {
                (
                    MapEvent::FrameAllocated(Ok(self.frames.first())),
                    Machine { frames: self.frames.drop_first(), ..self },
                )
            } else {
                (MapEvent::FrameAllocated(Err(FrameAllocError::OutOfMemory)), self)
            },
            MapAction::WriteEntry { table, index, addr, flags } => (
                MapEvent::EntryWritten,
                self.written(table, index as int, addr, flags),
            ),
            _ => (MapEvent::EntryWritten, self),
        }
    }

    /// The table that entry `index` of `table` points to, which is a new one where the entry is
    /// not present; and the machine with the new one in place.
    pub open spec fn linked(self, table: PhysAddr, index: int) -> (PhysAddr, Machine) {
        let entry = (self.entries)(table, index);
        if is_present(entry.flags) {
            (entry.addr, self)
        } else {
            let frame = self.frames.first();
            (
                frame.0,
                (Machine { frames: self.frames.drop_first(), ..self }).written(
                    table,
                    index,
                    frame.0,
                    ENTRY_FLAGS,
                ),
            )
        }
    }

    /// The table below the root on the way to `virt`.
    pub open spec fn pdpt(self, root: PhysAddr, virt: u64) -> PhysAddr {
        (self.entries)(root, table_index(virt, Level::Pml4)).addr
    }

    /// The machine after the page at `virt` was mapped to the frame at `phys`, and the entries
    /// that mapping it goes through, from the root down.
    pub open spec fn mapping(self, root: PhysAddr, phys: PhysAddr, virt: u64) -> (
        Machine,
        Seq<(PhysAddr, int)>,
    ) {
        let pdpt = self.pdpt(root, virt);
        let (pd, with_pd) = self.linked(pdpt, table_index(virt, Level::Pdpt));
        let (pt, with_pt) = with_pd.linked(pd, table_index(virt, Level::Pd));
        (
            with_pt.written(pt, table_index(virt, Level::Pt), phys, ENTRY_FLAGS),
            seq![
                (root, table_index(virt, Level::Pml4)),
                (pdpt, table_index(virt, Level::Pdpt)),
                (pd, table_index(virt, Level::Pd)),
                (pt, table_index(virt, Level::Pt)),
            ],
        )
    }

    /// The entry of the page at `virt`, found from the root down, where the tables below the
    /// root's are present.
    pub open spec fn page_entry(self, root: PhysAddr, virt: u64) -> Option<TableEntry> {
        let to_pd = (self.entries)(self.pdpt(root, virt), table_index(virt, Level::Pdpt));
        let to_pt = (self.entries)(to_pd.addr, table_index(virt, Level::Pd));
        if is_present(to_pd.flags) && is_present(to_pt.flags) {
            Some((self.entries)(to_pt.addr, table_index(virt, Level::Pt)))
        } else {
            None
        }
    }
}

/// The machine after the mapper, which asked for `action`, was run for at most `steps` actions.
pub open spec fn run(mapper: PageMapper, action: MapAction, machine: Machine, steps: nat) -> (
    MapAction,
    Machine,
)
    decreases steps,
{
    if steps == 0 || action is Done || action is OutOfFrames {
        (action, machine)
    } else {
        let (event, after) = machine.performed(action);
        let (next, next_action) = mapper.stepped(event);
        run(next, next_action, after, (steps - 1) as nat)
    }
}

/// How many of the two middle tables on the way to `virt` are missing.
pub open spec fn missing(machine: Machine, root: PhysAddr, virt: u64) -> int {
    let pdpt = machine.pdpt(root, virt);
    let (pd, with_pd) = machine.linked(pdpt, table_index(virt, Level::Pdpt));
    (if is_present((machine.entries)(pdpt, table_index(virt, Level::Pdpt)).flags) {
        0int
    } else {
        1
    }) + (if is_present((with_pd.entries)(pd, table_index(virt, Level::Pd)).flags) {
        0int
    } else {
        1
    })
}

/// The mapper always comes to an end, after eight actions at most. Where there are enough frames
/// for the missing tables, the page is then mapped; where there are not, it says so.
pub proof fn mapper_maps_the_page(
    mapper: PageMapper,
    action: MapAction,
    machine: Machine,
    root: PhysAddr,
    phys: PhysAddr,
    virt: u64,
)
    requires
        (mapper, action) == (PageMapper {
            phys,
            virt,
            table: root,
            state: MapState::Reading(Level::Pml4),
        }).reading(Level::Pml4, root),
    ensures
        machine.frames.len() >= missing(machine, root, virt) ==> run(mapper, action, machine, 8)
            == (MapAction::Done, machine.mapping(root, phys, virt).0),
        machine.frames.len() < missing(machine, root, virt) ==> run(mapper, action, machine, 8).0
            == MapAction::OutOfFrames,
{
    reveal_with_fuel(run, 9);
}

/// Once the page is mapped, the way from the root to `virt` ends at an entry that is present, is
/// writable and points to `phys`; unless the way leads through one entry twice.
pub proof fn mapped_page_is_found(machine: Machine, root: PhysAddr, phys: PhysAddr, virt: u64)
    requires
        machine.mapping(root, phys, virt).1.no_duplicates(),
    ensures
        machine.mapping(root, phys, virt).0.page_entry(root, virt) == Some(
            TableEntry { addr: phys, flags: ENTRY_FLAGS },
        ),
        is_present(ENTRY_FLAGS),
        is_writable(ENTRY_FLAGS),
{
    assert(3u64 & 1 != 0 && 3u64 & 2 != 0) by (bit_vector);
    let slots = machine.mapping(root, phys, virt).1;
    assert(slots[0] != slots[1] && slots[0] != slots[2] && slots[0] != slots[3]);
    assert(slots[1] != slots[2] && slots[1] != slots[3] && slots[2] != slots[3]);
}

/// Mapping a page changes no entry but those it goes through, and not the one of the root.
pub proof fn mapping_changes_nothing_else(
    machine: Machine,
    root: PhysAddr,
    phys: PhysAddr,
    virt: u64,
    table: PhysAddr,
    index: int,
)
    requires
        !machine.mapping(root, phys, virt).1.skip(1).contains((table, index)),
    ensures
        (machine.mapping(root, phys, virt).0.entries)(table, index) == (machine.entries)(
            table,
            index,
        ),
{
    let slots = machine.mapping(root, phys, virt).1;
    let below = slots.skip(1);
    assert(below[0] == slots[1] && below[1] == slots[2] && below[2] == slots[3]);
    assert(below.contains(below[0]) && below.contains(below[1]) && below.contains(below[2]));
}

/// The indices into the four tables and the offset in the page make up the lower 48 bits of the
/// address, so no two pages have all four indices in common.
pub proof fn indices_make_up_the_address(virt: u64)
    ensures
        table_index(virt, Level::Pml4) * 0x80_0000_0000 + table_index(virt, Level::Pdpt)
            * 0x4000_0000 + table_index(virt, Level::Pd) * 0x20_0000 + table_index(
            virt,
            Level::Pt,
        ) * 0x1000 + virt as int % 0x1000 == virt as int % 0x1_0000_0000_0000,
        0 <= table_index(virt, Level::Pml4) < 512,
        0 <= table_index(virt, Level::Pdpt) < 512,
        0 <= table_index(virt, Level::Pd) < 512,
        0 <= table_index(virt, Level::Pt) < 512,
{
    let page = virt as int / 0x1000;
    let table = page / 512;
    let directory = table / 512;
    let root = directory / 512;
    assert(virt as int / 0x20_0000 == table);
    assert(virt as int / 0x4000_0000 == directory);
    assert(virt as int / 0x80_0000_0000 == root);
    assert(virt as int / 0x1_0000_0000_0000 == root / 512);
}

/// Two pages that differ in the lower 48 bits of their addresses differ in one of the indices, so
/// they are mapped through different entries.
pub proof fn different_pages_have_different_entries(a: u64, b: u64)
    requires
        a as int % 0x1_0000_0000_0000 / 0x1000 != b as int % 0x1_0000_0000_0000 / 0x1000,
    ensures
        table_index(a, Level::Pml4) != table_index(b, Level::Pml4) || table_index(a, Level::Pdpt)
            != table_index(b, Level::Pdpt) || table_index(a, Level::Pd) != table_index(b, Level::Pd)
            || table_index(a, Level::Pt) != table_index(b, Level::Pt),
{
    indices_make_up_the_address(a);
    indices_make_up_the_address(b);
}

/// Once the mapper is done, the processor translates the page at `virt` to the frame at `phys`. It
/// takes nine bits of the address for the index into each table, starting with the root, and
/// follows the entries; each but the root's is present, and the last one is writable too. Where the
/// mapper goes through one entry twice, this need not hold.
pub proof fn mapped_page_translates(machine: Machine, root: PhysAddr, phys: PhysAddr, virt: u64)
    requires
        machine.mapping(root, phys, virt).1.no_duplicates(),
        machine.frames.len() >= 2,
    ensures
        ({
            let (mapper, action) = (PageMapper {
                phys,
                virt,
                table: root,
                state: MapState::Reading(Level::Pml4),
            }).reading(Level::Pml4, root);
            let (last_action, after) = run(mapper, action, machine, 8);
            let to_pdpt = (after.entries)(root, virt as int / 0x80_0000_0000 % 512);
            let to_pd = (after.entries)(to_pdpt.addr, virt as int / 0x4000_0000 % 512);
            let to_pt = (after.entries)(to_pd.addr, virt as int / 0x20_0000 % 512);
            let to_page = (after.entries)(to_pt.addr, virt as int / 0x1000 % 512);
            &&& last_action == MapAction::Done
            &&& to_pdpt == (machine.entries)(root, virt as int / 0x80_0000_0000 % 512)
            &&& to_pd.flags & 1 != 0
            &&& to_pt.flags & 1 != 0
            &&& to_page.addr == phys
            &&& to_page.flags == 3
        }),
{
    let (mapper, action) = (PageMapper {
        phys,
        virt,
        table: root,
        state: MapState::Reading(Level::Pml4),
    }).reading(Level::Pml4, root);
    mapper_maps_the_page(mapper, action, machine, root, phys, virt);
    mapped_page_is_found(machine, root, phys, virt);
    let slots = machine.mapping(root, phys, virt).1;
    assert(slots[0] != slots[1] && slots[0] != slots[2] && slots[0] != slots[3]);
    assert(slots[1] != slots[2] && slots[1] != slots[3] && slots[2] != slots[3]);
    assert(3u64 & 1 != 0) by (bit_vector);
}

/// Tables that are there are used as they are: where the entries on the way to the page are
/// present, the mapper takes no frame and changes no entry but that of the page.
pub proof fn present_tables_are_kept(
    machine: Machine,
    root: PhysAddr,
    phys: PhysAddr,
    virt: u64,
    table: PhysAddr,
    index: int,
)
    requires
        ({
            let pdpt = (machine.entries)(root, virt as int / 0x80_0000_0000 % 512).addr;
            let to_pd = (machine.entries)(pdpt, virt as int / 0x4000_0000 % 512);
            let to_pt = (machine.entries)(to_pd.addr, virt as int / 0x20_0000 % 512);
            &&& to_pd.flags & 1 != 0
            &&& to_pt.flags & 1 != 0
            &&& !(table == to_pt.addr && index == virt as int / 0x1000 % 512)
        }),
    ensures
        ({
            let (mapper, action) = (PageMapper {
                phys,
                virt,
                table: root,
                state: MapState::Reading(Level::Pml4),
            }).reading(Level::Pml4, root);
            let (last_action, after) = run(mapper, action, machine, 8);
            &&& last_action == MapAction::Done
            &&& after.frames == machine.frames
            &&& (after.entries)(table, index) == (machine.entries)(table, index)
        }),
{
    let (mapper, action) = (PageMapper {
        phys,
        virt,
        table: root,
        state: MapState::Reading(Level::Pml4),
    }).reading(Level::Pml4, root);
    mapper_maps_the_page(mapper, action, machine, root, phys, virt);
}

/// The mapper takes whatever comes of the action that it asked for: any entry that it had read,
/// present or not, any answer to its request for a frame, and the end of a write.
pub proof fn mapper_takes_what_comes_of_its_action(
    mapper: PageMapper,
    addr: PhysAddr,
    present: bool,
    answer: Result<Frame, FrameAllocError>,
)
    ensures
        mapper.state is Reading ==> mapper.expects(MapEvent::EntryRead { addr, present }),
        mapper.state is Allocating ==> mapper.expects(MapEvent::FrameAllocated(answer)),
        mapper.state is Linking ==> mapper.expects(MapEvent::EntryWritten),
        mapper.state is Writing ==> mapper.expects(MapEvent::EntryWritten),
        mapper.state == MapState::Reading(Level::Pml4) ==> mapper.wf(),
        mapper.state == MapState::Reading(Level::Pdpt) ==> mapper.wf(),
        mapper.state == MapState::Reading(Level::Pd) ==> mapper.wf(),
        mapper.state is Writing ==> mapper.wf(),
        PRESENT == 1,
        WRITABLE == 2,
{
}

} // verus!
