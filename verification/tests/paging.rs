use kernel_core::addr::{PTEntry, PageTable, PageTableFlags, PhysAddr, VirtAddr};
use kernel_core::memory::{
    active_level_3_table, init, map_to, map_to_with_pt, translate_addr, translate_addr_inner,
    FrameAllocator, MapToError, PagingMode, PhysMemory, SatpSetting,
};

const ROOT: u64 = 0x8040_0000;

fn booted() -> PhysMemory {
    let mut mem = PhysMemory::new();
    init(&mut mem, ROOT);
    mem
}

fn allocator_with(frames: &[u64]) -> FrameAllocator {
    let mut a = FrameAllocator::new();
    for f in frames {
        a.give_frame(PhysAddr::new(*f));
    }
    a
}

fn translate(mem: &PhysMemory, va: u64) -> Option<u64> {
    translate_addr_inner(mem, ROOT, VirtAddr::new_truncate(va)).map(|p| p.as_u64())
}

#[test]
fn init_gives_the_register_setting() {
    let mut mem = PhysMemory::new();
    let satp = init(&mut mem, ROOT);
    assert_eq!(
        satp,
        SatpSetting { mode: PagingMode::Sv39, asid: 0, ppn: ROOT >> 12 }
    );
    assert_eq!(satp.ppn, 0x80400);
}

#[test]
fn init_installs_two_leaves_in_the_root() {
    let mem = booted();
    let root = active_level_3_table(&mem, ROOT >> 12).unwrap();
    let valid: Vec<(usize, PTEntry)> = root
        .iter()
        .into_iter()
        .enumerate()
        .filter(|(_, e)| e.is_valid())
        .collect();
    assert_eq!(valid.len(), 2);
    assert_eq!(valid[0].0, 0);
    assert_eq!(valid[0].1.as_u64(), 0x7);
    assert_eq!(valid[1].0, 2);
    assert_eq!(valid[1].1.as_u64(), 0x2000_000f);
    assert!(valid[1].1.is_leaf());
}

#[test]
fn init_clears_what_the_root_frame_held() {
    let mut mem = PhysMemory::new();
    let mut stale = PageTable::new();
    stale.index_mut(5).set(PhysAddr::new(0x9000_0000), PageTableFlags::vrwx());
    mem.install(ROOT, stale);
    assert_eq!(translate(&mem, 5 << 30), Some(0x9000_0000));
    init(&mut mem, ROOT);
    assert_eq!(translate(&mem, 5 << 30), None);
    assert_eq!(translate(&mem, 0x8000_0000), Some(0x8000_0000));
}

#[test]
fn ram_translates_to_itself_after_boot() {
    let mem = booted();
    assert_eq!(translate(&mem, 0x8000_1234), Some(0x8000_1234));
    assert_eq!(translate(&mem, 0x8000_0000), Some(0x8000_0000));
    assert_eq!(translate(&mem, 0x8200_0000), Some(0x8200_0000));
    assert_eq!(translate(&mem, 0xbfff_ffff), Some(0xbfff_ffff));
    assert_eq!(
        translate_addr(&mem, ROOT >> 12, VirtAddr::new(0x8000_1234)),
        Some(PhysAddr::new(0x8000_1234))
    );
}

#[test]
fn device_registers_translate_to_themselves_after_boot() {
    let mem = booted();
    assert_eq!(translate(&mem, 0x0c00_0000), Some(0x0c00_0000));
    assert_eq!(translate(&mem, 0x1000_0000), Some(0x1000_0000));
    assert_eq!(translate(&mem, 0), Some(0));
}

#[test]
fn uncovered_address_is_unmapped() {
    let mem = booted();
    assert_eq!(translate(&mem, 0x4000_0000), None);
    assert_eq!(translate(&mem, 0xc000_0000), None);
    assert_eq!(translate(&mem, 0xffff_ffc0_0000_0000), None);
    let empty = PhysMemory::new();
    assert_eq!(translate(&empty, 0x8000_0000), None);
    assert_eq!(translate_addr(&empty, 0x1234, VirtAddr::new(0)), None);
}

#[test]
fn active_table_of_an_unwritten_frame_is_absent() {
    let mem = booted();
    assert!(active_level_3_table(&mem, ROOT >> 12).is_some());
    assert!(active_level_3_table(&mem, 0x12345).is_none());
}

#[test]
fn mapping_the_same_page_twice_reports_the_first_frame() {
    let mut mem = PhysMemory::new();
    let mut alloc = FrameAllocator::new();
    let page = VirtAddr::new(0x4000_0000);
    let first = map_to_with_pt(
        &mut mem,
        ROOT,
        page,
        PhysAddr::new(0x8000_0000),
        PageTableFlags::vrwx(),
        2,
        &mut alloc,
    );
    assert_eq!(first, Ok(()));
    let word = mem.read_entry(ROOT, 1);
    let second = map_to_with_pt(
        &mut mem,
        ROOT,
        page,
        PhysAddr::new(0xc000_0000),
        PageTableFlags::vrw(),
        2,
        &mut alloc,
    );
    assert_eq!(second, Err(MapToError::PageAlreadyMapped(PhysAddr::new(0x8000_0000))));
    assert_eq!(mem.read_entry(ROOT, 1), word);
    assert_eq!(translate(&mem, 0x4000_0abc), Some(0x8000_0abc));
}

#[test]
fn mapping_a_small_page_twice_reports_the_first_frame() {
    let mut mem = booted();
    let mut alloc = allocator_with(&[0x8050_0000, 0x8050_1000, 0x8050_2000]);
    let page = VirtAddr::new(0x4020_3000);
    assert_eq!(
        map_to(&mut mem, ROOT >> 12, page, PhysAddr::new(0x9000_5000), PageTableFlags::vrw(), 0, &mut alloc),
        Ok(())
    );
    assert_eq!(
        map_to(&mut mem, ROOT >> 12, page, PhysAddr::new(0x9000_6000), PageTableFlags::vrw(), 0, &mut alloc),
        Err(MapToError::PageAlreadyMapped(PhysAddr::new(0x9000_5000)))
    );
    assert_eq!(translate(&mem, 0x4020_3010), Some(0x9000_5010));
    assert_eq!(alloc.alloc_frame(), Some(PhysAddr::new(0x8050_0000)));
    assert_eq!(alloc.alloc_frame(), None);
}

#[test]
fn finer_page_under_a_huge_leaf_is_refused() {
    let mut mem = booted();
    let mut alloc = allocator_with(&[0x8050_0000, 0x8050_1000]);
    for level in [0u8, 1] {
        let r = map_to_with_pt(
            &mut mem,
            ROOT,
            VirtAddr::new(0x8020_0000),
            PhysAddr::new(0x9000_0000),
            PageTableFlags::vrw(),
            level,
            &mut alloc,
        );
        assert_eq!(r, Err(MapToError::ParentEntryHugePage));
    }
    assert_eq!(alloc.alloc_frame(), Some(PhysAddr::new(0x8050_1000)));
    assert_eq!(alloc.alloc_frame(), Some(PhysAddr::new(0x8050_0000)));
    assert_eq!(alloc.alloc_frame(), None);
    assert_eq!(translate(&mem, 0x8020_0000), Some(0x8020_0000));
}

#[test]
fn small_page_under_a_two_megabyte_leaf_is_refused() {
    let mut mem = booted();
    let mut alloc = allocator_with(&[0x8050_0000, 0x8050_1000]);
    assert_eq!(
        map_to_with_pt(&mut mem, ROOT, VirtAddr::new(0x4020_0000), PhysAddr::new(0x9020_0000), PageTableFlags::vrwx(), 1, &mut alloc),
        Ok(())
    );
    assert_eq!(
        map_to_with_pt(&mut mem, ROOT, VirtAddr::new(0x4020_1000), PhysAddr::new(0x9999_9000), PageTableFlags::vrw(), 0, &mut alloc),
        Err(MapToError::ParentEntryHugePage)
    );
    assert_eq!(translate(&mem, 0x4020_1008), Some(0x9020_1008));
    assert_eq!(translate(&mem, 0x403f_ffff), Some(0x903f_ffff));
    assert_eq!(translate(&mem, 0x4040_0000), None);
}

#[test]
fn missing_table_and_no_frame_fails_the_mapping() {
    let mut mem = booted();
    let mut alloc = FrameAllocator::new();
    let before = mem.read_entry(ROOT, 1);
    assert_eq!(
        map_to_with_pt(&mut mem, ROOT, VirtAddr::new(0x4000_0000), PhysAddr::new(0x9000_0000), PageTableFlags::vrw(), 0, &mut alloc),
        Err(MapToError::FrameAllocationFailed)
    );
    assert_eq!(mem.read_entry(ROOT, 1), before);
    assert_eq!(translate(&mem, 0x4000_0000), None);
}

#[test]
fn failure_half_way_keeps_the_table_that_was_built() {
    let mut mem = booted();
    let mut alloc = allocator_with(&[0x8050_0000]);
    assert_eq!(
        map_to_with_pt(&mut mem, ROOT, VirtAddr::new(0x4000_0000), PhysAddr::new(0x9000_0000), PageTableFlags::vrw(), 0, &mut alloc),
        Err(MapToError::FrameAllocationFailed)
    );
    let link = mem.read_entry(ROOT, 1);
    assert!(link.is_valid());
    assert!(!link.is_leaf());
    assert_eq!(link.addr().as_u64(), 0x8050_0000);
    assert_eq!(alloc.alloc_frame(), None);
    assert_eq!(translate(&mem, 0x4000_0000), None);
}

#[test]
fn small_page_grows_two_tables() {
    let mut mem = booted();
    let mut alloc = allocator_with(&[0x8050_0000, 0x8050_1000, 0x8050_2000]);
    let va = (1u64 << 30) | (3 << 21) | (5 << 12);
    assert_eq!(
        map_to_with_pt(&mut mem, ROOT, VirtAddr::new(va), PhysAddr::new(0x9abc_d000), PageTableFlags::vrw(), 0, &mut alloc),
        Ok(())
    );
    let l2 = mem.read_entry(ROOT, 1);
    assert_eq!(l2.as_u64(), (0x8050_2000 >> 2) | 1);
    let l1 = mem.read_entry(0x8050_2000, 3);
    assert_eq!(l1.as_u64(), (0x8050_1000 >> 2) | 1);
    let l0 = mem.read_entry(0x8050_1000, 5);
    assert_eq!(l0.as_u64(), (0x9abc_d000 >> 2) | 7);
    assert_eq!(translate(&mem, va | 0x123), Some(0x9abc_d123));
    assert_eq!(translate(&mem, va + 0x1000), None);
    assert_eq!(translate(&mem, 0x8000_1234), Some(0x8000_1234));
    // a neighbour in the same innermost table needs no further frame
    assert_eq!(
        map_to_with_pt(&mut mem, ROOT, VirtAddr::new(va + 0x1000), PhysAddr::new(0x9abc_f000), PageTableFlags::vrwx(), 0, &mut alloc),
        Ok(())
    );
    assert_eq!(translate(&mem, va + 0x1fff), Some(0x9abc_ffff));
    assert_eq!(alloc.alloc_frame(), Some(PhysAddr::new(0x8050_0000)));
}

#[test]
fn new_table_is_cleared_before_use() {
    let mut mem = booted();
    let mut stale = PageTable::new();
    stale.index_mut(9).set(PhysAddr::new(0x7000_0000), PageTableFlags::vrwx());
    mem.install(0x8050_0000, stale);
    let mut alloc = allocator_with(&[0x8050_0000]);
    assert_eq!(
        map_to_with_pt(&mut mem, ROOT, VirtAddr::new((1 << 30) | (4 << 21)), PhysAddr::new(0x9020_0000), PageTableFlags::vrw(), 1, &mut alloc),
        Ok(())
    );
    assert_eq!(translate(&mem, (1 << 30) | (4 << 21) | 0x10), Some(0x9020_0010));
    assert_eq!(translate(&mem, (1 << 30) | (9 << 21)), None);
    assert!(!mem.read_entry(0x8050_0000, 9).is_valid());
}

#[test]
fn two_megabyte_leaf_uses_the_low_21_bits() {
    let mut mem = PhysMemory::new();
    let mut alloc = allocator_with(&[0x8050_0000]);
    assert_eq!(
        map_to_with_pt(&mut mem, ROOT, VirtAddr::new(0x4020_0000), PhysAddr::new(0x8800_0000), PageTableFlags::vrwx(), 1, &mut alloc),
        Ok(())
    );
    assert_eq!(translate(&mem, 0x4020_0000 + 0x1f_ffff), Some(0x8800_0000 + 0x1f_ffff));
    assert_eq!(translate(&mem, 0x4020_0000 + 0x12_3456), Some(0x8812_3456));
}

#[test]
fn valid_entry_without_leaf_at_the_innermost_level_maps_nothing() {
    let mut mem = PhysMemory::new();
    let mut alloc = allocator_with(&[0x8050_0000, 0x8050_1000]);
    assert_eq!(
        map_to_with_pt(&mut mem, ROOT, VirtAddr::new(0x1000), PhysAddr::new(0x9000_0000), PageTableFlags::valid(), 0, &mut alloc),
        Ok(())
    );
    assert_eq!(translate(&mem, 0x1000), None);
}

#[test]
fn allocator_hands_out_the_last_frame_first() {
    let mut a = FrameAllocator::new();
    assert_eq!(a.alloc_frame(), None);
    a.give_frame(PhysAddr::new(0x1000));
    a.give_frame(PhysAddr::new(0x2000));
    assert_eq!(a.alloc_frame(), Some(PhysAddr::new(0x2000)));
    assert_eq!(a.alloc_frame(), Some(PhysAddr::new(0x1000)));
    assert_eq!(a.alloc_frame(), None);
}

#[test]
fn allocator_drops_what_is_no_frame() {
    let mut a = FrameAllocator::new();
    a.give_frame(PhysAddr::new(0x1001));
    a.give_frame(PhysAddr::new(0x0100_0000_0000_0000));
    assert_eq!(a.alloc_frame(), None);
    a.give_frame(PhysAddr::new(0x00ff_ffff_ffff_f000));
    assert_eq!(a.alloc_frame(), Some(PhysAddr::new(0x00ff_ffff_ffff_f000)));
}

#[test]
fn new_allocator_stays_exhausted() {
    let mut a = FrameAllocator::new();
    for _ in 0..3 {
        assert_eq!(a.alloc_frame(), None);
    }
    a.dealloc_frame(PhysAddr::new(0x1000));
    a.dealloc_frame(PhysAddr::new(0x2000));
    assert_eq!(a.alloc_frame(), None);
    assert_eq!(a.alloc_frame(), None);
}

#[test]
fn a_frame_handed_back_is_not_handed_out_again() {
    let mut a = FrameAllocator::new();
    a.give_frame(PhysAddr::new(0x3000));
    a.give_frame(PhysAddr::new(0x4000));
    let got = a.alloc_frame().unwrap();
    assert_eq!(got, PhysAddr::new(0x4000));
    a.dealloc_frame(got);
    assert_eq!(a.alloc_frame(), Some(PhysAddr::new(0x3000)));
    assert_eq!(a.alloc_frame(), None);
}

#[test]
fn memory_reads_unwritten_frames_as_zero() {
    let mut mem = PhysMemory::new();
    assert_eq!(mem.read_entry(0x5000, 17).as_u64(), 0);
    assert!(mem.table(0x5000).is_none());
    mem.write_entry(0x5000, 17, PTEntry::from_u64(0xabc));
    assert_eq!(mem.read_entry(0x5000, 17).as_u64(), 0xabc);
    assert_eq!(mem.read_entry(0x5000, 16).as_u64(), 0);
    assert_eq!(mem.table(0x5000).unwrap().index(17).as_u64(), 0xabc);
    mem.zero_frame(0x5000);
    assert_eq!(mem.read_entry(0x5000, 17).as_u64(), 0xabc & !0x3ff);
    mem.zero_frame(0x6000);
    assert!(mem.table(0x6000).is_some());
    assert_eq!(mem.read_entry(0x6000, 0).as_u64(), 0);
}

fn leaves(mem: &PhysMemory, frames: &[u64]) -> Vec<(u64, u16, u64)> {
    let mut out = Vec::new();
    for f in frames {
        if let Some(t) = mem.table(*f) {
            for (i, e) in t.valid_entries() {
                if e.is_leaf() {
                    out.push((*f, i, e.as_u64()));
                }
            }
        }
    }
    out
}

#[test]
fn a_mapping_adds_one_leaf_and_no_other() {
    let frames = [ROOT, 0x8050_0000, 0x8050_1000];
    let mut mem = booted();
    let mut alloc = allocator_with(&[0x8050_0000, 0x8050_1000]);
    let before = leaves(&mem, &frames);
    assert_eq!(before.len(), 2);
    let va = (3u64 << 30) | (7 << 21) | (9 << 12);
    assert_eq!(
        map_to_with_pt(&mut mem, ROOT, VirtAddr::new(va), PhysAddr::new(0x9000_0000), PageTableFlags::vrw(), 0, &mut alloc),
        Ok(())
    );
    let after = leaves(&mem, &frames);
    assert_eq!(after.len(), 3);
    for l in before.iter() {
        assert!(after.contains(l));
    }
    assert!(after.contains(&(0x8050_0000, 9, (0x9000_0000 >> 2) | 7)));
}

#[test]
fn a_mapping_leaves_other_pages_alone() {
    let mut mem = booted();
    let mut alloc = allocator_with(&[0x8050_0000, 0x8050_1000, 0x8050_2000, 0x8050_3000]);
    let first = (1u64 << 30) | (3 << 21) | (5 << 12);
    assert_eq!(
        map_to_with_pt(&mut mem, ROOT, VirtAddr::new(first), PhysAddr::new(0x9000_0000), PageTableFlags::vrw(), 0, &mut alloc),
        Ok(())
    );
    let probes = [
        0u64,
        0x0c00_0000,
        0x8000_1234,
        first,
        first | 0xfff,
        first + 0x1000,
        first - 0x1000,
        (1 << 30) | (4 << 21),
        (1 << 30) | (3 << 21) | (6 << 12),
        3 << 30,
        0xffff_ffc0_0000_0000,
    ];
    let before: Vec<Option<u64>> = probes.iter().map(|va| translate(&mem, *va)).collect();
    let second = (1u64 << 30) | (3 << 21) | (6 << 12);
    assert_eq!(
        map_to_with_pt(&mut mem, ROOT, VirtAddr::new(second), PhysAddr::new(0x9000_7000), PageTableFlags::vrwx(), 0, &mut alloc),
        Ok(())
    );
    for (va, was) in probes.iter().zip(before.iter()) {
        if va >> 12 == second >> 12 {
            assert_eq!(*was, None);
            assert_eq!(translate(&mem, *va), Some(0x9000_7000 | (va & 0xfff)));
        } else {
            assert_eq!(translate(&mem, *va), *was, "{va:#x}");
        }
    }
    // a failed mapping changes no translation either
    let mut empty = FrameAllocator::new();
    assert_eq!(
        map_to_with_pt(&mut mem, ROOT, VirtAddr::new(5 << 30), PhysAddr::new(0x9000_9000), PageTableFlags::vrw(), 0, &mut empty),
        Err(MapToError::FrameAllocationFailed)
    );
    assert_eq!(translate(&mem, first | 0x10), Some(0x9000_0010));
    assert_eq!(translate(&mem, 5 << 30), None);
}

#[test]
fn second_level_two_mapping_takes_another_slot() {
    let mut mem = booted();
    let mut alloc = FrameAllocator::new();
    assert_eq!(
        map_to_with_pt(&mut mem, ROOT, VirtAddr::new(0x4000_0000), PhysAddr::new(0x1_0000_0000), PageTableFlags::vrw(), 2, &mut alloc),
        Ok(())
    );
    assert_eq!(translate(&mem, 0x4000_0000 + 0x3fff_ffff), Some(0x1_3fff_ffff));
    assert_eq!(translate(&mem, 0x8000_0000), Some(0x8000_0000));
    assert_eq!(
        map_to_with_pt(&mut mem, ROOT, VirtAddr::new(0x8000_0000), PhysAddr::new(0), PageTableFlags::vrw(), 2, &mut alloc),
        Err(MapToError::PageAlreadyMapped(PhysAddr::new(0x8000_0000)))
    );
}
