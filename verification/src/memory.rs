//! The table tree in memory: the frames that hold page tables, the walk that
//! translates an address, and the mapper that installs one leaf.
//!
//! Levels are counted as the hardware counts them: level 2 is the root
//! table, whose leaves cover 1 GiB; level 1 covers 2 MiB; level 0, the
//! innermost, covers 4 KiB.

use crate::addr::{
    cleared_table, frame_in_range, is_canonical, lemma_rewrite_flags, page_aligned,
    pte_addr, pte_encode, pte_leaf, pte_valid, zero_table, PTEntry, PageTable, PageTableFlags,
    PhysAddr, VirtAddr,
};
use std::collections::HashMap;
use vstd::prelude::*;

verus! {

broadcast use vstd::std_specs::hash::group_hash_axioms;

/// The table that memory `m` holds in the frame at `frame`. A frame that was
/// never written reads as zeroes.
pub open spec fn table_at(m: Map<u64, Seq<u64>>, frame: u64) -> Seq<u64> {
    if m.contains_key(frame) {
        m[frame]
    } else {
        zero_table()
    }
}

/// The entry word at `index` of the table in the frame at `frame`.
pub open spec fn entry_at(m: Map<u64, Seq<u64>>, frame: u64, index: int) -> u64 {
    table_at(m, frame)[index]
}

/// Memory `m` after the entry at `index` of the table at `frame` became
/// `word`.
pub open spec fn with_entry(m: Map<u64, Seq<u64>>, frame: u64, index: int, word: u64) -> Map<
    u64,
    Seq<u64>,
> {
    m.insert(frame, table_at(m, frame).update(index, word))
}

/// Memory `m` after every slot of the table at `frame` was made unused.
pub open spec fn with_cleared(m: Map<u64, Seq<u64>>, frame: u64) -> Map<u64, Seq<u64>> {
    m.insert(frame, cleared_table(table_at(m, frame)))
}

/// Every table of `m` has 512 entries.
pub open spec fn tables_sized(m: Map<u64, Seq<u64>>) -> bool {
    forall|f: u64| m.contains_key(f) ==> (#[trigger] m[f]).len() == 512
}

/// The index that address `va` gives for the table at `level`.
pub open spec fn vpn(va: u64, level: int) -> int {
    if level >= 2 {
        ((va >> 30) & 0x1ff) as int
    } else if level == 1 {
        ((va >> 21) & 0x1ff) as int
    } else {
        ((va >> 12) & 0x1ff) as int
    }
}

/// The bits of `va` that a walk ending at `level` has not consumed: the low
/// 30 bits at level 2, the low 21 at level 1, the low 12 at level 0.
pub open spec fn low_bits(va: u64, level: int) -> u64 {
    if level >= 2 {
        va & 0x3fff_ffff
    } else if level == 1 {
        va & 0x1f_ffff
    } else {
        va & 0xfff
    }
}

/// The walk from the table at `table`, which stands at `level`: an entry
/// that is not valid ends it without a result, a leaf ends it with the
/// leaf's frame plus the unconsumed bits of `va`, any other entry leads to
/// the table one level further in. Below level 0 there is no table.
pub open spec fn walk(m: Map<u64, Seq<u64>>, table: u64, va: u64, level: int) -> Option<u64>
    decreases level,
{
    let e = entry_at(m, table, vpn(va, level));
    if !pte_valid(e) {
        None
    } else if pte_leaf(e) {
        Some((pte_addr(e) + low_bits(va, level)) as u64)
    } else if level <= 0 {
        None
    } else {
        walk(m, pte_addr(e), va, level - 1)
    }
}

/// The physical address that `va` translates to under the root table at
/// `root`, if a leaf covers it.
pub open spec fn translation(m: Map<u64, Seq<u64>>, root: u64, va: u64) -> Option<u64> {
    walk(m, root, va, 2)
}

/// The byte address of the frame with number `ppn`.
pub open spec fn frame_of(ppn: u64) -> u64 {
    ppn << 12
}

/// Every index that an address gives lies inside a table.
pub proof fn lemma_vpn_bound(va: u64, level: int)
    ensures
        0 <= vpn(va, level) < 512,
{
    assert((va >> 30) & 0x1ff < 512 && (va >> 21) & 0x1ff < 512 && (va >> 12) & 0x1ff < 512)
        by (bit_vector);
}

proof fn lemma_low_bits(v: u64, frame: u64)
    by (bit_vector)
    ensures
        ((((v >> 21) & 0x1ff) << 21) | (((v >> 12) & 0x1ff) << 12)) + (v & 0xfff) == v
            & 0x3fff_ffff,
        (((v >> 12) & 0x1ff) << 12) + (v & 0xfff) == v & 0x1f_ffff,
        v & 0x3fff_ffff < 0x4000_0000,
        v & 0x1f_ffff < 0x20_0000,
        v & 0xfff < 0x1000,
        page_aligned(frame << 12),
{
}

/// The frames that hold page tables, each found by its physical address.
/// Physical and virtual address of such a frame are the same, so the
/// address in an entry leads straight to the next table.
pub struct PhysMemory {
    tables: HashMap<u64, PageTable>,
}

impl View for PhysMemory {
    type V = Map<u64, Seq<u64>>;

    closed spec fn view(&self) -> Map<u64, Seq<u64>> {
        Map::new(|f: u64| self.tables@.contains_key(f), |f: u64| self.tables@[f]@)
    }
}

impl PhysMemory {
    /// Every table in memory has 512 entries.
    pub proof fn lemma_tables_sized(&self)
        ensures
            tables_sized(self@),
    {
        assert forall|f: u64| self@.contains_key(f) implies (#[trigger] self@[f]).len() == 512 by {
            self.tables@[f].lemma_len();
        }
    }

    /// Memory in which no frame was written yet.
    pub fn new() -> (r: PhysMemory)
        ensures
            r@ == Map::<u64, Seq<u64>>::empty(),
    {
        let r = PhysMemory { tables: HashMap::new() };
        assert(r@ =~= Map::<u64, Seq<u64>>::empty());
        r
    }

    /// The table in the frame at `frame`, if that frame was ever written.
    pub fn table(&self, frame: u64) -> (r: Option<&PageTable>)
        ensures
            r is Some <==> self@.contains_key(frame),
            r is Some ==> r->Some_0@ == self@[frame],
    {
        self.tables.get(&frame)
    }

    /// Puts `table` into the frame at `frame`, in place of what was there.
    pub fn install(&mut self, frame: u64, table: PageTable)
        requires
            page_aligned(frame),
        ensures
            final(self)@ == old(self)@.insert(frame, table@),
    {
        self.tables.insert(frame, table);
        assert(self@ =~= old(self)@.insert(frame, table@));
    }

    /// Reads the entry at `index` of the table in the frame at `frame`.
    pub fn read_entry(&self, frame: u64, index: u16) -> (r: PTEntry)
        requires
            page_aligned(frame),
            index < 512,
        ensures
            r@ == entry_at(self@, frame, index as int),
    {
        match self.tables.get(&frame) {
            Some(t) => *t.index(index),
            None => PTEntry::new(),
        }
    }

    /// Writes `entry` at `index` of the table in the frame at `frame`.
    pub fn write_entry(&mut self, frame: u64, index: u16, entry: PTEntry)
        requires
            page_aligned(frame),
            index < 512,
        ensures
            final(self)@ == with_entry(old(self)@, frame, index as int, entry@),
    {
        let mut t: PageTable = match self.tables.get(&frame) {
            Some(t) => *t,
            None => PageTable::new(),
        };
        *t.index_mut(index) = entry;
        self.tables.insert(frame, t);
        assert(self@ =~= with_entry(old(self)@, frame, index as int, entry@));
    }

    /// Makes every slot of the table in the frame at `frame` unused.
    pub fn zero_frame(&mut self, frame: u64)
        requires
            page_aligned(frame),
        ensures
            final(self)@ == with_cleared(old(self)@, frame),
    {
        let mut t: PageTable = match self.tables.get(&frame) {
            Some(t) => *t,
            None => PageTable::new(),
        };
        t.zero();
        self.tables.insert(frame, t);
        assert(self@ =~= with_cleared(old(self)@, frame));
    }
}

/// The root table of the address space in use: the table in the frame whose
/// number the paging register holds, if that frame was ever written.
pub fn active_level_3_table(mem: &PhysMemory, root_ppn: u64) -> (r: Option<&PageTable>)
    ensures
        r is Some <==> mem@.contains_key(frame_of(root_ppn)),
        r is Some ==> r->Some_0@ == mem@[frame_of(root_ppn)],
{
    mem.table(root_ppn << 12)
}

/// Translates `addr` under the root table whose frame number the paging
/// register holds.
pub fn translate_addr(mem: &PhysMemory, root_ppn: u64, addr: VirtAddr) -> (r: Option<PhysAddr>)
    ensures
        r == match translation(mem@, frame_of(root_ppn), addr@) {
            Some(p) => Some(PhysAddr(p)),
            None => None,
        },
{
    proof {
        lemma_low_bits(0, root_ppn);
    }
    translate_addr_inner(mem, root_ppn << 12, addr)
}

/// Translates `addr` under the root table in the frame at `root_frame`:
/// walks from level 2 inwards, and gives the address that the covering leaf
/// maps `addr` to, or `None` where no leaf covers it.
pub fn translate_addr_inner(mem: &PhysMemory, root_frame: u64, addr: VirtAddr) -> (r: Option<
    PhysAddr,
>)
    requires
        page_aligned(root_frame),
    ensures
        r == match translation(mem@, root_frame, addr@) {
            Some(p) => Some(PhysAddr(p)),
            None => None,
        },
{
    let ghost va = addr@;
    let mut frame: u64 = root_frame;
    let mut level: u8 = 2;
    loop
        invariant
            level <= 2,
            va == addr@,
            page_aligned(frame),
            walk(mem@, frame, va, level as int) == translation(mem@, root_frame, va),
        decreases level,
    {
        let index: u16 = if level == 2 {
            addr.vpn2()
        } else if level == 1 {
            addr.vpn1()
        } else {
            addr.vpn0()
        };
        let entry = mem.read_entry(frame, index);
        if !entry.is_valid() {
            return None;
        }
        let next: u64 = entry.addr().as_u64();
        if entry.is_leaf() {
            proof {
                lemma_low_bits(va, 0);
            }
            let upper: u64 = if level == 2 {
                ((addr.vpn1() as u64) << 21) | ((addr.vpn0() as u64) << 12)
            } else if level == 1 {
                (addr.vpn0() as u64) << 12
            } else {
                0
            };
            return Some(PhysAddr::new(next + (upper + addr.page_offset())));
        }
        if level == 0 {
            return None;
        }
        frame = next;
        level = level - 1;
    }
}

/// Every frame of `free` is page aligned and lies below 2^56.
pub open spec fn frames_usable(free: Seq<u64>) -> bool {
    forall|i: int| 0 <= i < free.len() ==> page_aligned(#[trigger] free[i]) && frame_in_range(free[i])
}

/// Hands out 4 KiB frames for page tables from a list of free frames, the
/// frame that was given last first. A new allocator has none to give, and
/// stays so until frames are given to it with `give_frame`; a frame that is
/// handed back with `dealloc_frame` is not taken up again. Its view is the
/// list of free frames.
pub struct FrameAllocator {
    free: Vec<u64>,
}

impl View for FrameAllocator {
    type V = Seq<u64>;

    closed spec fn view(&self) -> Seq<u64> {
        self.free@
    }
}

impl FrameAllocator {
    /// Every free frame is page aligned and lies below 2^56. The
    /// allocator's own functions keep it so.
    pub open spec fn wf(&self) -> bool {
        frames_usable(self@)
    }

    /// An allocator with no free frame.
    pub fn new() -> (r: FrameAllocator)
        ensures
            r@ == Seq::<u64>::empty(),
            r.wf(),
    {
        FrameAllocator { free: Vec::new() }
    }

    /// Takes the last frame off the free list, or gives `None` where the
    /// list is empty.
    pub fn alloc_frame(&mut self) -> (r: Option<PhysAddr>)
        requires
            old(self).wf(),
        ensures
            old(self)@.len() == 0 ==> r is None && final(self)@ == old(self)@,
            old(self)@.len() > 0 ==> r == Some(PhysAddr(old(self)@.last())) && final(self)@ == old(
                self,
            )@.drop_last(),
            r is Some ==> page_aligned(r->Some_0@) && frame_in_range(r->Some_0@),
            final(self).wf(),
    {
        match self.free.pop() {
            Some(f) => Some(PhysAddr::new(f)),
            None => None,
        }
    }

    /// Takes a frame back that was handed out. Nothing is done with it: the
    /// free list stays as it is, and the frame is not handed out again.
    pub fn dealloc_frame(&mut self, _frame: PhysAddr)
        ensures
            final(self)@ == old(self)@,
    {
    }

    /// Gives the allocator a frame to hand out: puts `frame` at the end of
    /// the free list. An address that is not page aligned, or not below
    /// 2^56, names no frame and is dropped.
    pub fn give_frame(&mut self, frame: PhysAddr)
        requires
            old(self).wf(),
        ensures
            final(self)@ == if page_aligned(frame@) && frame_in_range(frame@) {
                old(self)@.push(frame@)
            } else {
                old(self)@
            },
            final(self).wf(),
    {
        let f: u64 = frame.as_u64();
        if f & 0xfff == 0 && f < 0x100_0000_0000_0000 {
            self.free.push(f);
        }
    }
}

/// Why a mapping was not installed.
#[derive(Debug, Clone, Copy, PartialEq, Eq, Structural)]
pub enum MapToError {
    /// A table was missing on the way and the allocator had no frame for it.
    FrameAllocationFailed,
    /// An entry above the requested level is a leaf already: the page lies
    /// inside a larger page.
    ParentEntryHugePage,
    /// The entry at the requested level is valid already; the address is the
    /// one that it holds.
    PageAlreadyMapped(PhysAddr),
}

/// What a call of the mapper leaves behind: its result, the memory and the
/// free frames after it.
pub struct MapOutcome {
    pub result: Result<(), MapToError>,
    pub mem: Map<u64, Seq<u64>>,
    pub free: Seq<u64>,
}

/// The mapper, from the table at `table` that stands at `level`, towards the
/// level `target` at which the leaf is to stand.
///
/// At the target: a valid entry refuses the mapping with the address it
/// holds, otherwise the leaf is written. Above the target: a leaf refuses
/// the mapping; a valid entry that is no leaf leads inwards; where the entry
/// is not valid, the last free frame is taken, every slot of it is made
/// unused, the entry is pointed at it with Valid alone, and the way goes on
/// in the new table. With no free frame the mapping fails, and what was
/// built up to there stays.
pub open spec fn map_from(
    m: Map<u64, Seq<u64>>,
    free: Seq<u64>,
    table: u64,
    page: u64,
    frame: u64,
    flags: u64,
    target: int,
    level: int,
) -> MapOutcome
    decreases level,
{
    let index = vpn(page, level);
    let e = entry_at(m, table, index);
    if level <= target || level <= 0 {
        if pte_valid(e) {
            MapOutcome {
                result: Err(MapToError::PageAlreadyMapped(PhysAddr(pte_addr(e)))),
                mem: m,
                free,
            }
        } else {
            MapOutcome {
                result: Ok(()),
                mem: with_entry(m, table, index, pte_encode(frame, flags)),
                free,
            }
        }
    } else if pte_valid(e) {
        if pte_leaf(e) {
            MapOutcome { result: Err(MapToError::ParentEntryHugePage), mem: m, free }
        } else {
            map_from(m, free, pte_addr(e), page, frame, flags, target, level - 1)
        }
    } else if free.len() == 0 {
        MapOutcome { result: Err(MapToError::FrameAllocationFailed), mem: m, free }
    } else {
        let fresh = free.last();
        let grown = with_entry(with_cleared(m, fresh), table, index, pte_encode(fresh, 1));
        map_from(grown, free.drop_last(), fresh, page, frame, flags, target, level - 1)
    }
}

/// What the mapper does with a mapping of `page` at `level`, started at the
/// root table in the frame at `root`.
pub open spec fn map_page(
    m: Map<u64, Seq<u64>>,
    free: Seq<u64>,
    root: u64,
    page: u64,
    frame: u64,
    flags: u64,
    level: int,
) -> MapOutcome {
    map_from(m, free, root, page, frame, flags, level, 2)
}

/// Installs one leaf for `page` at `level` under the root table in the frame
/// at `pt_frame`: level 2 maps 1 GiB, level 1 maps 2 MiB, level 0 maps 4 KiB.
/// Tables that are missing on the way are taken from `frame_allocator`. No
/// entry that is valid is overwritten, and nothing is undone on failure.
pub fn map_to_with_pt(
    mem: &mut PhysMemory,
    pt_frame: u64,
    page: VirtAddr,
    frame: PhysAddr,
    flags: PageTableFlags,
    level: u8,
    frame_allocator: &mut FrameAllocator,
) -> (r: Result<(), MapToError>)
    requires
        page_aligned(pt_frame),
        page_aligned(frame@),
        level <= 2,
        old(frame_allocator).wf(),
    ensures
        final(frame_allocator).wf(),
        ({
            let done = map_page(
                old(mem)@,
                old(frame_allocator)@,
                pt_frame,
                page@,
                frame@,
                flags.spec_bits(),
                level as int,
            );
            r == done.result && final(mem)@ == done.mem && final(frame_allocator)@ == done.free
        }),
{
    let ghost whole = map_from(
        mem@,
        frame_allocator@,
        pt_frame,
        page@,
        frame@,
        flags.spec_bits(),
        level as int,
        2,
    );
    let mut table: u64 = pt_frame;
    let mut at: u8 = 2;
    loop
        invariant
            level <= at <= 2,
            page_aligned(table),
            page_aligned(frame@),
            frame_allocator.wf(),
            whole == map_from(
                old(mem)@,
                old(frame_allocator)@,
                pt_frame,
                page@,
                frame@,
                flags.spec_bits(),
                level as int,
                2,
            ),
            map_from(
                mem@,
                frame_allocator@,
                table,
                page@,
                frame@,
                flags.spec_bits(),
                level as int,
                at as int,
            ) == whole,
        decreases at,
    {
        let index: u16 = if at == 2 {
            page.vpn2()
        } else if at == 1 {
            page.vpn1()
        } else {
            page.vpn0()
        };
        let mut entry = mem.read_entry(table, index);
        if at == level {
            if entry.is_valid() {
                return Err(MapToError::PageAlreadyMapped(entry.addr()));
            }
            entry.set(frame, flags);
            mem.write_entry(table, index, entry);
            return Ok(());
        }
        if entry.is_valid() {
            if entry.is_leaf() {
                return Err(MapToError::ParentEntryHugePage);
            }
        } else {
            match frame_allocator.alloc_frame() {
                None => {
                    return Err(MapToError::FrameAllocationFailed);
                },
                Some(fresh) => {
                    mem.zero_frame(fresh.as_u64());
                    entry.set(fresh, PageTableFlags::valid());
                    mem.write_entry(table, index, entry);
                },
            }
        }
        table = entry.addr().as_u64();
        at = at - 1;
    }
}

/// Installs one leaf for `page` at `level` under the root table whose frame
/// number the paging register holds. See `map_to_with_pt`.
pub fn map_to(
    mem: &mut PhysMemory,
    root_ppn: u64,
    page: VirtAddr,
    frame: PhysAddr,
    flags: PageTableFlags,
    level: u8,
    frame_allocator: &mut FrameAllocator,
) -> (r: Result<(), MapToError>)
    requires
        page_aligned(frame@),
        level <= 2,
        old(frame_allocator).wf(),
    ensures
        final(frame_allocator).wf(),
        ({
            let done = map_page(
                old(mem)@,
                old(frame_allocator)@,
                frame_of(root_ppn),
                page@,
                frame@,
                flags.spec_bits(),
                level as int,
            );
            r == done.result && final(mem)@ == done.mem && final(frame_allocator)@ == done.free
        }),
{
    proof {
        lemma_low_bits(0, root_ppn);
    }
    map_to_with_pt(mem, root_ppn << 12, page, frame, flags, level, frame_allocator)
}

/// The paging mode that the paging register selects.
#[derive(Debug, Clone, Copy, PartialEq, Eq, Structural)]
pub enum PagingMode {
    /// No translation.
    Bare,
    /// Three levels, 39-bit virtual addresses.
    Sv39,
}

/// What is to be written into the paging register: the mode, the address
/// space identifier and the frame number of the root table.
#[derive(Debug, Clone, Copy, PartialEq, Eq, Structural)]
pub struct SatpSetting {
    pub mode: PagingMode,
    pub asid: u64,
    pub ppn: u64,
}

/// Where physical RAM starts.
pub const RAM_BASE: u64 = 0x8000_0000;

/// Where the device registers start.
pub const DEVICE_BASE: u64 = 0;

/// The memory that boot leaves behind: the root table at `root` with every
/// slot unused but two, a 1 GiB leaf that maps RAM onto itself with all of
/// Valid, Readable, Writable and Executable, and a 1 GiB leaf that maps the
/// device registers onto themselves with Valid, Readable and Writable.
pub open spec fn boot_tables(m: Map<u64, Seq<u64>>, root: u64) -> Map<u64, Seq<u64>> {
    let ram = with_entry(with_cleared(m, root), root, 2, pte_encode(RAM_BASE, 0xf));
    with_entry(ram, root, 0, pte_encode(DEVICE_BASE, 0x7))
}

proof fn lemma_boot_words(va: u64)
    by (bit_vector)
    ensures
        is_canonical(RAM_BASE),
        is_canonical(DEVICE_BASE),
        page_aligned(RAM_BASE),
        page_aligned(DEVICE_BASE),
        (RAM_BASE >> 30) & 0x1ff == 2,
        (DEVICE_BASE >> 30) & 0x1ff == 0,
        pte_leaf(pte_encode(RAM_BASE, 0xf)),
        pte_leaf(pte_encode(DEVICE_BASE, 0x7)),
        pte_valid(pte_encode(RAM_BASE, 0xf)),
        pte_valid(pte_encode(DEVICE_BASE, 0x7)),
        pte_addr(pte_encode(RAM_BASE, 0xf)) == RAM_BASE,
        pte_addr(pte_encode(DEVICE_BASE, 0x7)) == DEVICE_BASE,
        (va >> 30) & 0x1ff == 2 ==> RAM_BASE + (va & 0x3fff_ffff) == va & 0x7f_ffff_ffff,
        (va >> 30) & 0x1ff == 0 ==> DEVICE_BASE + (va & 0x3fff_ffff) == va & 0x7f_ffff_ffff,
        (va >> 30) & 0x1ff < 512,
{
}

/// Builds the address space that the kernel boots into, in the root table
/// in the frame at `root_frame`: the table is cleared, RAM and the device
/// registers are mapped onto themselves by one 1 GiB leaf each. The result
/// is what the caller has to write into the paging register, before it
/// flushes the translation cache; only then do the mappings count.
///
/// Under the new tables an address translates to its own low 39 bits where
/// its outermost index is 0 or 2, and to nothing elsewhere.
pub fn init(mem: &mut PhysMemory, root_frame: u64) -> (r: SatpSetting)
    requires
        page_aligned(root_frame),
    ensures
        final(mem)@ == boot_tables(old(mem)@, root_frame),
        r == (SatpSetting { mode: PagingMode::Sv39, asid: 0, ppn: root_frame >> 12 }),
        forall|va: u64|
            translation(final(mem)@, root_frame, va) == if vpn(va, 2) == 2 || vpn(va, 2) == 0 {
                Some(va & 0x7f_ffff_ffff)
            } else {
                None
            },
{
    proof {
        lemma_boot_words(0);
        mem.lemma_tables_sized();
    }
    let mut frame_allocator = FrameAllocator::new();
    mem.zero_frame(root_frame);
    let ghost cleared = mem@;
    assert forall|i: int| 0 <= i < 512 implies !pte_valid(#[trigger] entry_at(cleared, root_frame, i)) by {
        lemma_rewrite_flags(table_at(old(mem)@, root_frame)[i], 0);
    }
    let ram = map_to_with_pt(
        mem,
        root_frame,
        VirtAddr::new(RAM_BASE),
        PhysAddr::new(RAM_BASE),
        PageTableFlags::vrwx(),
        2,
        &mut frame_allocator,
    );
    assert(ram is Ok);
    assert(mem@ == with_entry(cleared, root_frame, 2, pte_encode(RAM_BASE, 0xf)));
    assert(!pte_valid(entry_at(cleared, root_frame, 0)));
    assert(entry_at(mem@, root_frame, 0) == entry_at(cleared, root_frame, 0));
    let devices = map_to_with_pt(
        mem,
        root_frame,
        VirtAddr::new(DEVICE_BASE),
        PhysAddr::new(DEVICE_BASE),
        PageTableFlags::vrw(),
        2,
        &mut frame_allocator,
    );
    assert(devices is Ok);
    assert forall|va: u64|
        translation(mem@, root_frame, va) == if vpn(va, 2) == 2 || vpn(va, 2) == 0 {
            Some(va & 0x7f_ffff_ffff)
        } else {
            None
        } by {
        lemma_boot_words(va);
        assert(!pte_valid(entry_at(cleared, root_frame, vpn(va, 2))));
    }
    SatpSetting { mode: PagingMode::Sv39, asid: 0, ppn: root_frame >> 12 }
}

} // verus!
