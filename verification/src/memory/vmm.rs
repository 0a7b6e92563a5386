//! Mapping a page.
//!
//! Page tables live at physical addresses, so reading and writing their entries is up to the
//! caller. `map_page` and `PageMapper::step` decide what to do next: each returns an action, and
//! `step` takes what came of it.

use crate::memory::addr::{is_phys, PhysAddr};
use crate::memory::frame::{is_frame_base, Frame, FrameAllocError};
use vstd::prelude::*;

verus! {

/// The levels of page tables, from the root down.
#[derive(Debug, Clone, Copy, PartialEq, Eq, Structural)]
pub enum Level {
    Pml4,
    Pdpt,
    Pd,
    Pt,
}

/// The index into the table of level `level` on the way to `virt`: nine bits of the address.
pub open spec fn table_index(virt: u64, level: Level) -> int {
    match level {
        Level::Pml4 => (virt as int / 0x80_0000_0000) % 512,
        Level::Pdpt => (virt as int / 0x4000_0000) % 512,
        Level::Pd => (virt as int / 0x20_0000) % 512,
        Level::Pt => (virt as int / 0x1000) % 512,
    }
}

/// The flag of an entry that points to something.
pub const PRESENT: u64 = 0x1;

/// The flag of an entry through which memory can be written.
pub const WRITABLE: u64 = 0x2;

/// The flags of every entry that mapping a page writes: present and writable, and nothing else.
pub const ENTRY_FLAGS: u64 = 0x3;

/// Whether an entry with the flags `flags` points to something.
pub open spec fn is_present(flags: u64) -> bool {
    flags & PRESENT != 0
}

/// Whether memory can be written through an entry with the flags `flags`.
pub open spec fn is_writable(flags: u64) -> bool {
    flags & WRITABLE != 0
}

/// What is to be done next.
#[derive(Debug, Clone, Copy, PartialEq, Eq, Structural)]
pub enum MapAction {
    /// Read the entry `index` of the table at `table`.
    ReadEntry { table: PhysAddr, index: usize },
    /// Allocate a frame for a table.
    AllocFrame,
    /// Let the entry `index` of the table at `table` point to `addr`, with the flags `flags`.
    WriteEntry { table: PhysAddr, index: usize, addr: PhysAddr, flags: u64 },
    /// The page is mapped.
    Done,
    /// There was no frame for a table: the page cannot be mapped.
    OutOfFrames,
}

/// What came of an action.
#[derive(Debug, Clone, Copy, PartialEq, Eq)]
pub enum MapEvent {
    /// The entry points to `addr`, and is present or not.
    EntryRead { addr: PhysAddr, present: bool },
    FrameAllocated(Result<Frame, FrameAllocError>),
    EntryWritten,
}

/// What the last action was for.
#[derive(Debug, Clone, Copy, PartialEq, Eq, Structural)]
pub enum MapState {
    /// The entry of the table of this level is being read.
    Reading(Level),
    /// A frame is being allocated for the table below the one of this level.
    Allocating(Level),
    /// The table at the address is being linked into the table of this level.
    Linking(Level, PhysAddr),
    /// The entry of the page itself is being written.
    Writing,
    /// Nothing is left to do.
    Finished,
}

/// A page on its way into the page tables.
#[derive(Debug, Clone, Copy, PartialEq, Eq, Structural)]
pub struct PageMapper {
    pub phys: PhysAddr,
    pub virt: u64,
    /// The table that the last action was about.
    pub table: PhysAddr,
    pub state: MapState,
}

impl PageMapper {
    /// A table may be missing at the two middle levels only.
    pub open spec fn wf(self) -> bool {
        match self.state {
            MapState::Reading(level) => level != Level::Pt,
            MapState::Allocating(level) => level == Level::Pdpt || level == Level::Pd,
            MapState::Linking(level, _) => level == Level::Pdpt || level == Level::Pd,
            _ => true,
        }
    }

    /// Whether `event` can come of the last action.
    pub open spec fn expects(self, event: MapEvent) -> bool {
        match self.state {
            MapState::Reading(_) => event is EntryRead,
            MapState::Allocating(_) => event is FrameAllocated,
            MapState::Linking(_, _) => event is EntryWritten,
            MapState::Writing => event is EntryWritten,
            MapState::Finished => false,
        }
    }

    /// The mapper and its action when the table at `table` is the one below level `level`.
    pub open spec fn descended(self, level: Level, table: PhysAddr) -> (PageMapper, MapAction) {
        match level {
            Level::Pml4 => self.reading(Level::Pdpt, table),
            Level::Pdpt => self.reading(Level::Pd, table),
            _ => (
                PageMapper { table, state: MapState::Writing, ..self },
                MapAction::WriteEntry {
                    table,
                    index: table_index(self.virt, Level::Pt) as usize,
                    addr: self.phys,
                    flags: ENTRY_FLAGS,
                },
            ),
        }
    }

    pub open spec fn reading(self, level: Level, table: PhysAddr) -> (PageMapper, MapAction) {
        (
            PageMapper { table, state: MapState::Reading(level), ..self },
            MapAction::ReadEntry { table, index: table_index(self.virt, level) as usize },
        )
    }

    pub open spec fn finished(self, action: MapAction) -> (PageMapper, MapAction) {
        (PageMapper { state: MapState::Finished, ..self }, action)
    }

    /// The mapper and its next action after `event`.
    pub open spec fn stepped(self, event: MapEvent) -> (PageMapper, MapAction) {
        match (self.state, event) {
            (
                MapState::Reading(level),
                MapEvent::EntryRead { addr, present },
            ) => if level == Level::Pml4 || present {
                self.descended(level, addr)
            } else {
                (
                    PageMapper { state: MapState::Allocating(level), ..self },
                    MapAction::AllocFrame,
                )
            },
            (MapState::Allocating(level), MapEvent::FrameAllocated(Ok(frame))) => (
                PageMapper { state: MapState::Linking(level, frame.0), ..self },
                MapAction::WriteEntry {
                    table: self.table,
                    index: table_index(self.virt, level) as usize,
                    addr: frame.0,
                    flags: ENTRY_FLAGS,
                },
            ),
            (MapState::Allocating(_), MapEvent::FrameAllocated(Err(_))) => self.finished(
                MapAction::OutOfFrames,
            ),
            (MapState::Linking(level, table), MapEvent::EntryWritten) => self.descended(
                level,
                table,
            ),
            (MapState::Writing, MapEvent::EntryWritten) => self.finished(MapAction::Done),
            _ => self.finished(MapAction::Done),
        }
    }

    fn index(&self, level: Level) -> (index: usize)
        ensures
            index == table_index(self.virt, level),
            index < 512,
    {
        let virt: u64 = self.virt;
        assert((virt >> 39) & 511 == (virt / 0x80_0000_0000) % 512) by (bit_vector);
        assert((virt >> 30) & 511 == (virt / 0x4000_0000) % 512) by (bit_vector);
        assert((virt >> 21) & 511 == (virt / 0x20_0000) % 512) by (bit_vector);
        assert((virt >> 12) & 511 == (virt / 0x1000) % 512) by (bit_vector);
        let index: u64 = match level {
            Level::Pml4 => (virt >> 39) & 0o777,
            Level::Pdpt => (virt >> 30) & 0o777,
            Level::Pd => (virt >> 21) & 0o777,
            Level::Pt => (virt >> 12) & 0o777,
        };
        index as usize
    }

    fn read(self, level: Level, table: PhysAddr) -> (r: (PageMapper, MapAction))
        ensures
            r == self.reading(level, table),
    {
        let index: usize = self.index(level);
        (
            PageMapper {
                phys: self.phys,
                virt: self.virt,
                table,
                state: MapState::Reading(level),
            },
            MapAction::ReadEntry { table, index },
        )
    }

    fn finish(self, action: MapAction) -> (r: (PageMapper, MapAction))
        ensures
            r == self.finished(action),
    {
        (
            PageMapper {
                phys: self.phys,
                virt: self.virt,
                table: self.table,
                state: MapState::Finished,
            },
            action,
        )
    }

    fn descend(self, level: Level, table: PhysAddr) -> (r: (PageMapper, MapAction))
        ensures
            r == self.descended(level, table),
    {
        match level {
            Level::Pml4 => self.read(Level::Pdpt, table),
            Level::Pdpt => self.read(Level::Pd, table),
            _ => {
                let index: usize = self.index(Level::Pt);
                (
                    PageMapper {
                        phys: self.phys,
                        virt: self.virt,
                        table,
                        state: MapState::Writing,
                    },
                    MapAction::WriteEntry { table, index, addr: self.phys, flags: ENTRY_FLAGS },
                )
            },
        }
    }

    /// Takes what came of the last action and says what to do next.
    ///
    /// The root table's entry is taken to be present. A table that is missing at the next two
    /// levels gets a new frame.
    pub fn step(self, event: MapEvent) -> (r: (PageMapper, MapAction))
        requires
            self.wf(),
            self.expects(event),
        ensures
            r == self.stepped(event),
            r.0.wf(),
    {
        match (self.state, event) {
            (MapState::Reading(level), MapEvent::EntryRead { addr, present }) => {
                if matches!(level, Level::Pml4) || present {
                    self.descend(level, addr)
                } else {
                    (
                        PageMapper {
                            phys: self.phys,
                            virt: self.virt,
                            table: self.table,
                            state: MapState::Allocating(level),
                        },
                        MapAction::AllocFrame,
                    )
                }
            },
            (MapState::Allocating(level), MapEvent::FrameAllocated(Ok(frame))) => {
                let index: usize = self.index(level);
                (
                    PageMapper {
                        phys: self.phys,
                        virt: self.virt,
                        table: self.table,
                        state: MapState::Linking(level, frame.addr()),
                    },
                    MapAction::WriteEntry {
                        table: self.table,
                        index,
                        addr: frame.addr(),
                        flags: ENTRY_FLAGS,
                    },
                )
            },
            (MapState::Allocating(_), MapEvent::FrameAllocated(Err(_))) => self.finish(
                MapAction::OutOfFrames,
            ),
            (MapState::Linking(level, table), MapEvent::EntryWritten) => self.descend(level, table),
            _ => self.finish(MapAction::Done),
        }
    }
}

/// Starts to map the page at `virt` to the frame at `phys`, in the page tables whose root is at
/// `root`.
pub fn map_page(root: PhysAddr, phys: u64, virt: u64) -> (r: (PageMapper, MapAction))
    requires
        is_phys(phys as int),
        is_frame_base(phys as int),
    ensures
        r == (PageMapper {
            phys: PhysAddr(phys),
            virt,
            table: root,
            state: MapState::Reading(Level::Pml4),
        }).reading(Level::Pml4, root),
        r.0.wf(),
{
    let mapper = PageMapper {
        phys: PhysAddr::new(phys),
        virt,
        table: root,
        state: MapState::Reading(Level::Pml4),
    };
    mapper.read(Level::Pml4, root)
}

} // verus!
