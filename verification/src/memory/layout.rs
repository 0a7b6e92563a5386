//! Where the allocator keeps its own data.
//!
//! The allocator needs one `MemoryRegion` for each usable entry of the memory map, and a bitmap
//! for each region. All of these are packed into the first usable entry that is long enough:
//!
//! ```text
//! MemoryRegion[] | bitmap data | bitmap data | ...
//! ```

use crate::memory::addr::{is_phys, PhysAddr, PHYS_ADDR_LIMIT};
use crate::memory::frame::{FrameRange, FRAME_SIZE};
use crate::memory::region::MemoryRegion;
use vstd::prelude::*;

verus! {

/// An entry of the boot loader's memory map.
#[derive(Debug, Clone, Copy, PartialEq, Eq, Structural)]
pub struct MemoryMapEntry {
    pub base: u64,
    pub length: u64,
    /// Whether the entry is usable memory, rather than reserved or reclaimable.
    pub usable: bool,
}

/// The bytes that a `MemoryRegion` takes.
pub open spec fn region_size() -> nat {
    vstd::layout::size_of::<MemoryRegion<'static>>()
}

impl MemoryMapEntry {
    /// How many whole frames the entry holds.
    pub open spec fn frames(self) -> int {
        self.length as int / FRAME_SIZE as int
    }

    /// How many bytes a bitmap of the entry's frames takes.
    pub open spec fn bitmap_bytes(self) -> int {
        (self.frames() + 7) / 8
    }

    /// One past the last address of the entry.
    pub open spec fn end(self) -> int {
        self.base + self.length
    }

    /// How many bytes a bitmap of the entry's frames takes.
    fn bitmap_len(&self) -> (bytes: u64)
        ensures
            bytes == self.bitmap_bytes(),
    {
        let frames: u64 = self.length / FRAME_SIZE as u64;
        assert(frames == self.length as int / 4096);
        (frames + 7) / 8
    }
}

/// The usable entries of `entries`, in order.
pub open spec fn usable(entries: Seq<MemoryMapEntry>) -> Seq<MemoryMapEntry>
    decreases entries.len(),
{
    if entries.len() == 0 {
        Seq::empty()
    } else if entries.last().usable {
        usable(entries.drop_last()).push(entries.last())
    } else {
        usable(entries.drop_last())
    }
}

/// How many bytes the bitmaps of `regions` take together.
pub open spec fn bitmap_total(regions: Seq<MemoryMapEntry>) -> nat
    decreases regions.len(),
{
    if regions.len() == 0 {
        0
    } else {
        bitmap_total(regions.drop_last()) + regions.last().bitmap_bytes() as nat
    }
}

/// How many bytes the allocator's data takes for `regions`.
pub open spec fn metadata_size(regions: Seq<MemoryMapEntry>) -> nat {
    bitmap_total(regions) + regions.len() * region_size()
}

/// How many frames the allocator's data takes for `regions`.
pub open spec fn metadata_frames(regions: Seq<MemoryMapEntry>) -> int {
    (metadata_size(regions) + FRAME_SIZE - 1) / FRAME_SIZE as int
}

/// Whether entry `k` is the first of `regions` that is long enough for `size` bytes.
pub open spec fn is_host(regions: Seq<MemoryMapEntry>, size: int, k: int) -> bool {
    &&& 0 <= k < regions.len()
    &&& regions[k].length >= size
    &&& forall|j: int| 0 <= j < k ==> (#[trigger] regions[j]).length < size
}

/// The first of `regions` that is long enough for `size` bytes, where there is one.
pub open spec fn host(regions: Seq<MemoryMapEntry>, size: int) -> Option<int> {
    if exists|k: int| is_host(regions, size, k) {
        Some(choose|k: int| is_host(regions, size, k))
    } else {
        None
    }
}

/// Why the allocator's data cannot be placed.
#[derive(Debug, Clone, Copy, PartialEq, Eq, Structural)]
pub enum LayoutError {
    /// A usable entry does not end at a physical address, or a size or an address of the data
    /// does not fit the machine's integers.
    Overflow,
    /// No usable entry is long enough.
    NoSpace,
    /// The bitmap of the hosting entry has no bit for the last frame of the data.
    HostTooShort,
}

/// Where the allocator's data lies. The addresses are virtual.
#[derive(Debug, Clone, Copy, PartialEq, Eq, Structural)]
pub struct MetadataLayout {
    /// How many usable entries there are.
    pub num_regions: usize,
    /// How many bytes the data takes.
    pub size: usize,
    /// How many frames the data takes.
    pub frames_needed: usize,
    /// Which of the usable entries hosts the data.
    pub host: usize,
    /// The physical address of that entry, which is where the data starts.
    pub host_base: u64,
    /// Where the array of regions starts.
    pub region_start: usize,
    /// Where the first bitmap starts.
    pub bitmap_start: usize,
}

/// Whether every usable entry ends at a physical address and its frame count fits a `usize`.
pub open spec fn entries_fit(regions: Seq<MemoryMapEntry>) -> bool {
    forall|k: int|
        0 <= k < regions.len() ==> is_phys((#[trigger] regions[k]).end()) && regions[k].frames()
            <= usize::MAX
}

/// Whether the sizes and addresses of the data for `regions` fit the machine's integers.
pub open spec fn fits(regions: Seq<MemoryMapEntry>, hhdm_offset: u64) -> bool {
    &&& entries_fit(regions)
    &&& metadata_size(regions) <= usize::MAX
    &&& host(regions, metadata_size(regions) as int) matches Some(k) ==> {
        &&& regions[k].base + hhdm_offset + metadata_size(regions) <= usize::MAX
        &&& regions[k].base + hhdm_offset <= u64::MAX
    }
}

/// Where the data for the memory map `entries` lies, or why it cannot be placed.
pub open spec fn layout(entries: Seq<MemoryMapEntry>, hhdm_offset: u64) -> Result<
    MetadataLayout,
    LayoutError,
> {
    let regions = usable(entries);
    let size = metadata_size(regions);
    if !fits(regions, hhdm_offset) {
        Err(LayoutError::Overflow)
    } else {
        match host(regions, size as int) {
            None => Err(LayoutError::NoSpace),
            Some(k) => if metadata_frames(regions) > regions[k].bitmap_bytes() * 8 {
                Err(LayoutError::HostTooShort)
            } else {
                Ok(
                    MetadataLayout {
                        num_regions: regions.len() as usize,
                        size: size as usize,
                        frames_needed: metadata_frames(regions) as usize,
                        host: k as usize,
                        host_base: regions[k].base,
                        region_start: (regions[k].base + hhdm_offset) as usize,
                        bitmap_start: (regions[k].base + hhdm_offset + regions.len()
                            * region_size()) as usize,
                    },
                )
            },
        }
    }
}

/// Where the data of one region lies. The addresses are virtual.
#[derive(Debug, Clone, Copy, PartialEq, Eq, Structural)]
pub struct Placement {
    /// The entry that the region manages.
    pub entry: MemoryMapEntry,
    /// Where its `MemoryRegion` goes.
    pub region_addr: usize,
    /// Where its bitmap starts.
    pub bitmap_addr: usize,
    /// How many bytes its bitmap takes.
    pub bitmap_bytes: usize,
}

impl MetadataLayout {
    /// Whether this is the layout for the memory map `entries`.
    pub open spec fn is_for(self, entries: Seq<MemoryMapEntry>) -> bool {
        &&& entries.len() <= usize::MAX
        &&& exists|hhdm_offset: u64| layout(entries, hhdm_offset) == Ok::<_, LayoutError>(self)
    }

    /// The frames that the data takes.
    pub open spec fn reserved(self) -> FrameRange {
        FrameRange { start: PhysAddr(self.host_base), count: self.frames_needed }
    }

    /// Where the region of usable entry `k` starts.
    pub open spec fn region_at(self, k: int) -> int {
        self.region_start + k * region_size()
    }

    /// Where the bitmap of usable entry `k` starts.
    pub open spec fn bitmap_at(self, regions: Seq<MemoryMapEntry>, k: int) -> int {
        self.bitmap_start + bitmap_total(regions.take(k))
    }

    /// Where the data for the memory map `entries` goes, with all physical memory mapped at
    /// `hhdm_offset`.
    pub fn plan(entries: &[MemoryMapEntry], hhdm_offset: u64) -> (r: Result<Self, LayoutError>)
        ensures
            r == layout(entries@, hhdm_offset),
    {
        let ghost regions = usable(entries@);
        let (num_regions, bitmaps): (usize, usize) = match Self::measure(entries) {
            Some(measured) => measured,
            None => return Err(LayoutError::Overflow),
        };
        let regions_bytes: usize = match num_regions.checked_mul(
            core::mem::size_of::<MemoryRegion<'static>>(),
        ) {
            Some(bytes) => bytes,
            None => return Err(LayoutError::Overflow),
        };
        let size: usize = match bitmaps.checked_add(regions_bytes) {
            Some(size) => size,
            None => return Err(LayoutError::Overflow),
        };
        let frames_needed: usize = size / FRAME_SIZE + (if size % FRAME_SIZE == 0 {
            0
        } else {
            1
        });
        let (index, host_entry): (usize, MemoryMapEntry) = match Self::find_host(entries, size) {
            Some(found) => found,
            None => return Err(LayoutError::NoSpace),
        };
        let virt: u64 = match host_entry.base.checked_add(hhdm_offset) {
            Some(virt) => virt,
            None => return Err(LayoutError::Overflow),
        };
        if virt > usize::MAX as u64 || (virt as usize).checked_add(size).is_none() {
            return Err(LayoutError::Overflow);
        }
        if frames_needed as u64 > host_entry.bitmap_len() * 8 {
            return Err(LayoutError::HostTooShort);
        }
        Ok(
            MetadataLayout {
                num_regions,
                size,
                frames_needed,
                host: index,
                host_base: host_entry.base,
                region_start: virt as usize,
                bitmap_start: virt as usize + regions_bytes,
            },
        )
    }

    /// Where the data of usable entry `k` of the memory map goes.
    pub fn placement(&self, entries: &[MemoryMapEntry], k: usize) -> (p: Placement)
        requires
            self.is_for(entries@),
            k < self.num_regions,
        ensures
            p.entry == usable(entries@)[k as int],
            p.region_addr == self.region_at(k as int),
            p.bitmap_addr == self.bitmap_at(usable(entries@), k as int),
            p.bitmap_bytes == p.entry.bitmap_bytes(),
    {
        let ghost regions = usable(entries@);
        let mut index: usize = 0;
        let mut region_addr: usize = self.region_start;
        let mut bitmap_addr: usize = self.bitmap_start;
        let mut i: usize = 0;
        proof {
            lemma_placements(*self, entries@);
            assert(regions.take(0) =~= Seq::empty());
            assert(usable(entries@.take(0)) =~= Seq::empty());
        }
        while i < entries.len()
            invariant
                i <= entries@.len(),
                self.is_for(entries@),
                regions == usable(entries@),
                index <= k < self.num_regions,
                self.num_regions == regions.len(),
                index == usable(entries@.take(i as int)).len(),
                region_addr == self.region_at(index as int),
                bitmap_addr == self.bitmap_at(regions, index as int),
            decreases entries@.len() - i,
        {
            proof {
                lemma_usable_step(entries@, i as int);
                lemma_usable_prefix(entries@, i as int + 1);
                lemma_placements(*self, entries@);
                lemma_placement_step(*self, entries@, index as int);
            }
            let entry: MemoryMapEntry = entries[i];
            if entry.usable {
                assert(usable(entries@.take(i as int + 1))[index as int] == entry);
                assert(regions[index as int] == entry);
                let bitmap_bytes: usize = entry.bitmap_len() as usize;
                if index == k {
                    return Placement { entry, region_addr, bitmap_addr, bitmap_bytes };
                }
                region_addr = region_addr + core::mem::size_of::<MemoryRegion<'static>>();
                bitmap_addr = bitmap_addr + bitmap_bytes;
                index = index + 1;
            }
            i = i + 1;
        }
        proof {
            assert(entries@.take(entries@.len() as int) =~= entries@);
            assert(false);
        }
        Placement {
            entry: MemoryMapEntry { base: 0, length: 0, usable: false },
            region_addr,
            bitmap_addr,
            bitmap_bytes: 0,
        }
    }

    /// Counts the usable entries and the bytes of their bitmaps.
    fn measure(entries: &[MemoryMapEntry]) -> (r: Option<(usize, usize)>)
        ensures
            match r {
                Some((num_regions, bitmaps)) => {
                    &&& entries_fit(usable(entries@))
                    &&& num_regions == usable(entries@).len()
                    &&& bitmaps == bitmap_total(usable(entries@))
                },
                None => !entries_fit(usable(entries@)) || bitmap_total(usable(entries@))
                    > usize::MAX,
            },
    {
        let mut num_regions: usize = 0;
        let mut bitmaps: usize = 0;
        let mut i: usize = 0;
        while i < entries.len()
            invariant
                i <= entries@.len(),
                num_regions <= i,
                num_regions == usable(entries@.take(i as int)).len(),
                bitmaps == bitmap_total(usable(entries@.take(i as int))),
                entries_fit(usable(entries@.take(i as int))),
            decreases entries@.len() - i,
        {
            proof {
                lemma_usable_step(entries@, i as int);
                lemma_usable_prefix(entries@, i as int + 1);
            }
            let entry: MemoryMapEntry = entries[i];
            if entry.usable {
                let ghost seen = usable(entries@.take(i as int));
                let ghost all = usable(entries@);
                assert(usable(entries@.take(i as int + 1))[seen.len() as int] == entry);
                assert(all[seen.len() as int] == entry);
                if entry.base >= PHYS_ADDR_LIMIT || entry.length >= PHYS_ADDR_LIMIT - entry.base {
                    assert(!is_phys(all[seen.len() as int].end()));
                    return None;
                }
                if entry.length / FRAME_SIZE as u64 > usize::MAX as u64 {
                    assert(all[seen.len() as int].frames() > usize::MAX);
                    return None;
                }
                let bytes: usize = entry.bitmap_len() as usize;
                assert(bitmap_total(usable(entries@.take(i as int + 1))) == bitmaps + bytes) by {
                    assert(seen.push(entry).drop_last() =~= seen);
                }
                proof {
                    lemma_bitmap_total_take(all, seen.len() as int + 1);
                }
                bitmaps = match bitmaps.checked_add(bytes) {
                    Some(total) => total,
                    None => return None,
                };
                num_regions = num_regions + 1;
            }
            i = i + 1;
        }
        assert(entries@.take(entries@.len() as int) =~= entries@);
        Some((num_regions, bitmaps))
    }

    /// Finds the first usable entry of at least `size` bytes, and its place among the usable
    /// entries.
    fn find_host(entries: &[MemoryMapEntry], size: usize) -> (r: Option<(usize, MemoryMapEntry)>)
        ensures
            match host(usable(entries@), size as int) {
                Some(k) => r == Some((k as usize, usable(entries@)[k])) && 0 <= k <= usize::MAX
                    && is_host(usable(entries@), size as int, k),
                None => r is None,
            },
    {
        let mut index: usize = 0;
        let mut i: usize = 0;
        while i < entries.len()
            invariant
                i <= entries@.len(),
                index <= i,
                index == usable(entries@.take(i as int)).len(),
                forall|j: int|
                    0 <= j < index ==> (#[trigger] usable(entries@.take(i as int))[j]).length
                        < size,
            decreases entries@.len() - i,
        {
            proof {
                lemma_usable_step(entries@, i as int);
                lemma_usable_prefix(entries@, i as int + 1);
            }
            let entry: MemoryMapEntry = entries[i];
            if entry.usable {
                if entry.length >= size as u64 {
                    proof {
                        let seen = usable(entries@.take(i as int));
                        let all = usable(entries@);
                        let seen_next = usable(entries@.take(i as int + 1));
                        assert(seen_next[seen.len() as int] == entry);
                        assert forall|j: int| 0 <= j < index implies (#[trigger] all[j]).length
                            < size by {
                            assert(all[j] == seen_next[j]);
                        }
                        assert(is_host(all, size as int, index as int));
                        lemma_host(all, size as int);
                    }
                    return Some((index, entry));
                }
                index = index + 1;
            }
            i = i + 1;
        }
        proof {
            assert(entries@.take(entries@.len() as int) =~= entries@);
            lemma_host(usable(entries@), size as int);
        }
        None
    }
}

/// One more entry of the map adds at most itself to the usable ones.
proof fn lemma_usable_step(entries: Seq<MemoryMapEntry>, i: int)
    requires
        0 <= i < entries.len(),
    ensures
        usable(entries.take(i + 1)) == (if entries[i].usable {
            usable(entries.take(i)).push(entries[i])
        } else {
            usable(entries.take(i))
        }),
{
    assert(entries.take(i + 1).drop_last() =~= entries.take(i));
}

/// The usable entries of a prefix of the map are a prefix of the usable entries.
proof fn lemma_usable_prefix(entries: Seq<MemoryMapEntry>, i: int)
    requires
        0 <= i <= entries.len(),
    ensures
        usable(entries.take(i)).len() <= usable(entries).len(),
        usable(entries.take(i)) == usable(entries).take(usable(entries.take(i)).len() as int),
    decreases entries.len() - i,
{
    if i == entries.len() {
        assert(entries.take(i) =~= entries);
        assert(usable(entries).take(usable(entries).len() as int) =~= usable(entries));
    } else {
        lemma_usable_prefix(entries, i + 1);
        lemma_usable_step(entries, i);
        let len = usable(entries.take(i)).len() as int;
        assert(usable(entries.take(i)) =~= usable(entries.take(i + 1)).take(len));
        assert(usable(entries).take(len) =~= usable(entries).take(
            usable(entries.take(i + 1)).len() as int,
        ).take(len));
    }
}

/// The bitmaps of a prefix of the regions take no more than those of all of them.
proof fn lemma_bitmap_total_take(regions: Seq<MemoryMapEntry>, k: int)
    requires
        0 <= k <= regions.len(),
    ensures
        bitmap_total(regions.take(k)) <= bitmap_total(regions),
    decreases regions.len() - k,
{
    if k == regions.len() {
        assert(regions.take(k) =~= regions);
    } else {
        lemma_bitmap_total_take(regions, k + 1);
        assert(regions.take(k + 1).drop_last() =~= regions.take(k));
    }
}

/// What `layout` promises: the host is a usable entry, the data fits into it from its base on,
/// and the bitmaps follow the regions and fill the data up to its end.
pub proof fn lemma_placements(plan: MetadataLayout, entries: Seq<MemoryMapEntry>)
    requires
        plan.is_for(entries),
    ensures
        plan.num_regions == usable(entries).len(),
        plan.host < plan.num_regions,
        plan.host_base == usable(entries)[plan.host as int].base,
        plan.size == metadata_size(usable(entries)),
        plan.size <= usable(entries)[plan.host as int].length,
        plan.frames_needed == metadata_frames(usable(entries)),
        plan.frames_needed <= usable(entries)[plan.host as int].bitmap_bytes() * 8,
        plan.bitmap_start == plan.region_at(plan.num_regions as int),
        plan.bitmap_start + bitmap_total(usable(entries)) == plan.region_start + plan.size,
        plan.region_start + plan.size <= usize::MAX,
        entries_fit(usable(entries)),
{
    let hhdm_offset = choose|hhdm_offset: u64|
        layout(entries, hhdm_offset) == Ok::<_, LayoutError>(plan);
    let regions = usable(entries);
    lemma_host(regions, metadata_size(regions) as int);
    lemma_usable_len(entries);
    assert(0 <= regions.len() * region_size() <= metadata_size(regions)) by (nonlinear_arith)
        requires
            metadata_size(regions) == bitmap_total(regions) + regions.len() * region_size(),
    ;
}

proof fn lemma_usable_len(entries: Seq<MemoryMapEntry>)
    ensures
        usable(entries).len() <= entries.len(),
    decreases entries.len(),
{
    if entries.len() > 0 {
        lemma_usable_len(entries.drop_last());
    }
}

/// From one region to the next, the addresses advance by the sizes, and stay within the data.
proof fn lemma_placement_step(plan: MetadataLayout, entries: Seq<MemoryMapEntry>, k: int)
    requires
        plan.is_for(entries),
        0 <= k < plan.num_regions,
    ensures
        plan.region_at(k + 1) == plan.region_at(k) + region_size(),
        plan.bitmap_at(usable(entries), k + 1) == plan.bitmap_at(usable(entries), k) + usable(
            entries,
        )[k].bitmap_bytes(),
        plan.region_at(k + 1) <= plan.bitmap_start,
        plan.bitmap_at(usable(entries), k + 1) <= plan.region_start + plan.size,
        region_size() <= usize::MAX,
{
    lemma_placements(plan, entries);
    let regions = usable(entries);
    assert(regions.take(k + 1).drop_last() =~= regions.take(k));
    lemma_bitmap_total_take(regions, k + 1);
    let n = plan.num_regions as int;
    let size = region_size() as int;
    assert((k + 1) * size == k * size + size && (k + 1) * size <= n * size) by (nonlinear_arith)
        requires
            0 <= k < n,
            size >= 0,
    ;
    assert(0 <= k * size) by (nonlinear_arith)
        requires
            0 <= k,
            size >= 0,
    ;
}

/// The regions and the bitmaps that `placement` assigns do not overlap: each region ends where
/// or before the next one starts, the bitmaps come after all regions, each bitmap ends where or
/// before the next one starts, and the last one ends where the data ends.
pub proof fn placements_are_disjoint(
    plan: MetadataLayout,
    entries: Seq<MemoryMapEntry>,
    i: int,
    j: int,
)
    requires
        plan.is_for(entries),
        0 <= i < j < plan.num_regions,
    ensures
        plan.region_at(i) + region_size() <= plan.region_at(j),
        plan.region_at(j) + region_size() <= plan.bitmap_at(usable(entries), 0),
        plan.bitmap_at(usable(entries), i) + usable(entries)[i].bitmap_bytes() <= plan.bitmap_at(
            usable(entries),
            j,
        ),
        plan.bitmap_at(usable(entries), j) + usable(entries)[j].bitmap_bytes() <= plan.region_start
            + plan.size,
{
    let regions = usable(entries);
    lemma_placements(plan, entries);
    lemma_placement_step(plan, entries, i);
    lemma_placement_step(plan, entries, j);
    assert(regions.take(0) =~= Seq::empty());
    assert(regions.take(j).take(i + 1) =~= regions.take(i + 1));
    lemma_bitmap_total_take(regions.take(j), i + 1);
    let size = region_size() as int;
    assert((i + 1) * size <= j * size) by (nonlinear_arith)
        requires
            i < j,
            size >= 0,
    ;
}

/// The data lies inside the hosting entry, which is usable memory, from its base on; and the
/// frames that are counted for it cover it.
pub proof fn metadata_lies_in_host(
    plan: MetadataLayout,
    entries: Seq<MemoryMapEntry>,
    hhdm_offset: u64,
)
    requires
        entries.len() <= usize::MAX,
        layout(entries, hhdm_offset) == Ok::<_, LayoutError>(plan),
    ensures
        plan.host < usable(entries).len(),
        usable(entries)[plan.host as int].usable,
        entries.contains(usable(entries)[plan.host as int]),
        plan.host_base == usable(entries)[plan.host as int].base,
        plan.host_base + plan.size <= usable(entries)[plan.host as int].end(),
        plan.region_start == plan.host_base + hhdm_offset,
        plan.size <= plan.frames_needed * FRAME_SIZE,
{
    lemma_placements(plan, entries);
    lemma_usable_are_usable(entries, plan.host as int);
}

proof fn lemma_usable_are_usable(entries: Seq<MemoryMapEntry>, k: int)
    requires
        0 <= k < usable(entries).len(),
    ensures
        usable(entries)[k].usable,
        entries.contains(usable(entries)[k]),
    decreases entries.len(),
{
    if entries.len() > 0 {
        let rest = entries.drop_last();
        if k < usable(rest).len() {
            lemma_usable_are_usable(rest, k);
            let i = choose|i: int| 0 <= i < rest.len() && rest[i] == usable(rest)[k];
            assert(entries[i] == usable(entries)[k]);
        } else {
            assert(entries[entries.len() - 1] == usable(entries)[k]);
        }
    }
}

/// `host` is the first entry that is long enough, and is absent only where none is.
pub proof fn lemma_host(regions: Seq<MemoryMapEntry>, size: int)
    ensures
        host(regions, size) matches Some(k) ==> is_host(regions, size, k),
        host(regions, size) is None ==> forall|k: int|
            0 <= k < regions.len() ==> (#[trigger] regions[k]).length < size,
        forall|k: int| is_host(regions, size, k) ==> host(regions, size) == Some(k),
{
    if host(regions, size) is None {
        assert forall|k: int| 0 <= k < regions.len() implies (#[trigger] regions[k]).length
            < size by {
            if regions[k].length >= size {
                lemma_least_host(regions, size, k);
            }
        }
    }
    assert forall|k: int| is_host(regions, size, k) implies host(regions, size) == Some(k) by {
        let chosen = choose|k: int| is_host(regions, size, k);
        assert(is_host(regions, size, chosen));
        assert(!(chosen < k)) by {
            if chosen < k {
                assert(regions[chosen].length < size);
            }
        }
        assert(!(k < chosen)) by {
            if k < chosen {
                assert(regions[k].length < size);
            }
        }
    }
}

proof fn lemma_least_host(regions: Seq<MemoryMapEntry>, size: int, k: int)
    requires
        0 <= k < regions.len(),
        regions[k].length >= size,
    ensures
        exists|h: int| is_host(regions, size, h),
    decreases k,
{
    if forall|j: int| 0 <= j < k ==> (#[trigger] regions[j]).length < size {
        assert(is_host(regions, size, k));
    } else {
        let j = choose|j: int| 0 <= j < k && (#[trigger] regions[j]).length >= size;
        lemma_least_host(regions, size, j);
    }
}

} // verus!
