use kernel_core::addr::{PTEntry, PageTable, PageTableFlags, PhysAddr, FRAME_MASK};

#[test]
fn flag_words() {
    assert_eq!(PageTableFlags::valid().bits(), 1);
    assert_eq!(PageTableFlags::readable().bits(), 2);
    assert_eq!(PageTableFlags::writable().bits(), 4);
    assert_eq!(PageTableFlags::executable().bits(), 8);
    assert_eq!(PageTableFlags::user_accessible().bits(), 16);
    assert_eq!(PageTableFlags::global().bits(), 32);
    assert_eq!(PageTableFlags::accessed().bits(), 64);
    assert_eq!(PageTableFlags::dirty().bits(), 128);
    assert_eq!(PageTableFlags::vrw().bits(), 7);
    assert_eq!(PageTableFlags::vrwx().bits(), 15);
    assert_eq!(PageTableFlags::empty().bits(), 0);
}

#[test]
fn flags_from_bits() {
    assert_eq!(PageTableFlags::from_bits(0xff).unwrap().bits(), 0xff);
    assert_eq!(PageTableFlags::from_bits(0x100), None);
    assert_eq!(PageTableFlags::from_bits_truncate(0x1234).bits(), 0x34);
    assert_eq!(
        PageTableFlags::valid().union(PageTableFlags::writable()).bits(),
        5
    );
    assert!(PageTableFlags::vrw().contains(PageTableFlags::readable()));
    assert!(!PageTableFlags::vrw().contains(PageTableFlags::executable()));
}

#[test]
fn valid_alone_is_no_leaf() {
    let f = PageTableFlags::valid();
    assert!(f.is_valid());
    assert!(!f.is_leaf());
    let mut e = PTEntry::new();
    e.set(PhysAddr::new(0x8020_0000), f);
    assert!(e.is_valid());
    assert!(!e.is_leaf());
}

#[test]
fn valid_and_readable_is_a_leaf() {
    let f = PageTableFlags::valid().union(PageTableFlags::readable());
    assert!(f.is_leaf());
    let mut e = PTEntry::new();
    e.set(PhysAddr::new(0x8020_0000), f);
    assert!(e.is_leaf());
    for one in [PageTableFlags::writable(), PageTableFlags::executable()] {
        assert!(PageTableFlags::valid().union(one).is_leaf());
        assert!(!one.is_leaf());
        assert!(!one.is_valid());
    }
    assert!(!PageTableFlags::valid().union(PageTableFlags::dirty()).is_leaf());
}

#[test]
fn fresh_entry_is_not_valid() {
    let e = PTEntry::new();
    assert_eq!(e.as_u64(), 0);
    assert!(!e.is_valid());
    assert!(!e.is_leaf());
    assert_eq!(e.addr().as_u64(), 0);
    assert_eq!(e.flags().bits(), 0);
}

#[test]
fn set_packs_frame_number_and_flags() {
    let mut e = PTEntry::new();
    e.set(PhysAddr::new(0x8000_0000), PageTableFlags::vrwx());
    assert_eq!(e.as_u64(), 0x2000_000f);
    e.set(PhysAddr::new(0x1000), PageTableFlags::valid());
    assert_eq!(e.as_u64(), 0x401);
}

#[test]
fn set_then_decode_gives_back_frame_and_flags() {
    let frames = [0u64, 0x1000, 0x8000_0000, 0x8020_3000, 0x00ff_ffff_ffff_f000];
    for p in frames {
        for bits in [0u64, 1, 3, 0xf, 0xa5, 0xff] {
            let f = PageTableFlags::from_bits(bits).unwrap();
            let mut e = PTEntry::from_u64(0xdead_beef_dead_beef);
            e.set(PhysAddr::new(p), f);
            assert_eq!(e.addr().as_u64(), p);
            assert_eq!(e.flags(), f);
        }
    }
}

#[test]
fn decode_reads_bits_10_to_53() {
    let e = PTEntry::from_u64(u64::MAX);
    assert_eq!(e.addr().as_u64(), 0x00ff_ffff_ffff_f000);
    assert_eq!(e.flags().bits(), 0xff);
    let low = PTEntry::from_u64(0x3ff);
    assert_eq!(low.addr().as_u64(), 0);
    let one = PTEntry::from_u64(1 << 10);
    assert_eq!(one.addr().as_u64(), 0x1000);
}

#[test]
fn set_flags_keeps_the_frame() {
    let mut e = PTEntry::new();
    e.set(PhysAddr::new(0x8020_3000), PageTableFlags::vrwx());
    e.set_flags(PageTableFlags::valid().union(PageTableFlags::readable()));
    assert_eq!(e.addr().as_u64(), 0x8020_3000);
    assert_eq!(e.flags().bits(), 3);
    assert_eq!(e.as_u64(), (0x8020_3000 >> 2) | 3);
}

#[test]
fn set_flags_clears_what_is_neither_frame_nor_flag() {
    let mut e = PTEntry::from_u64(u64::MAX);
    e.set_flags(PageTableFlags::valid());
    assert_eq!(e.as_u64(), FRAME_MASK | 1);
}

#[test]
fn set_unused_keeps_stale_frame_bits() {
    let mut e = PTEntry::new();
    e.set(PhysAddr::new(0x8020_3000), PageTableFlags::vrwx());
    e.set_unused();
    assert!(!e.is_valid());
    assert_eq!(e.addr().as_u64(), 0x8020_3000);
    assert_eq!(e.as_u64(), 0x8020_3000 >> 2);
}

#[test]
fn new_table_is_all_zero() {
    let t = PageTable::new();
    let all = t.iter();
    assert_eq!(all.len(), 512);
    assert!(all.iter().all(|e| e.as_u64() == 0));
    assert_eq!(t.index(0).as_u64(), 0);
    assert_eq!(t.index(511).as_u64(), 0);
}

#[test]
fn index_mut_changes_one_slot() {
    let mut t = PageTable::new();
    t.index_mut(7).set(PhysAddr::new(0x5000), PageTableFlags::vrw());
    *t.index_mut(511) = PTEntry::from_u64(0x1234);
    assert_eq!(t.index(7).as_u64(), (0x5000 >> 2) | 7);
    assert_eq!(t.index(511).as_u64(), 0x1234);
    assert_eq!(t.index(6).as_u64(), 0);
    let valid: Vec<PTEntry> = t.iter().into_iter().filter(|e| e.is_valid()).collect();
    assert_eq!(valid.len(), 1);
    assert_eq!(valid[0].addr().as_u64(), 0x5000);
}

#[test]
fn zero_makes_every_slot_unused() {
    let mut t = PageTable::new();
    t.index_mut(3).set(PhysAddr::new(0x9000), PageTableFlags::vrwx());
    t.index_mut(4).set(PhysAddr::new(0xa000), PageTableFlags::valid());
    t.zero();
    assert!(t.iter().iter().all(|e| !e.is_valid()));
    assert_eq!(t.index(3).as_u64(), 0x9000 >> 2);
    assert_eq!(t.index(4).addr().as_u64(), 0xa000);
    assert_eq!(t.index(5).as_u64(), 0);
}

#[test]
fn valid_entries_come_with_their_indices_in_order() {
    let mut t = PageTable::new();
    assert!(t.valid_entries().is_empty());
    t.index_mut(511).set(PhysAddr::new(0xc000), PageTableFlags::valid());
    t.index_mut(0).set(PhysAddr::new(0xa000), PageTableFlags::vrw());
    t.index_mut(17).set(PhysAddr::new(0xb000), PageTableFlags::vrwx());
    t.index_mut(18).set(PhysAddr::new(0xd000), PageTableFlags::readable());
    let v = t.valid_entries();
    let indices: Vec<u16> = v.iter().map(|(i, _)| *i).collect();
    assert_eq!(indices, vec![0, 17, 511]);
    assert_eq!(v[0].1.addr().as_u64(), 0xa000);
    assert_eq!(v[1].1.as_u64(), (0xb000 >> 2) | 0xf);
    assert_eq!(v[2].1, *t.index(511));
}

#[test]
fn iter_mut_reaches_every_slot() {
    let mut t = PageTable::new();
    for (i, e) in t.iter_mut().iter_mut().enumerate() {
        e.set(PhysAddr::new((i as u64) << 12), PageTableFlags::vrw());
    }
    assert_eq!(t.valid_entries().len(), 512);
    assert_eq!(t.index(300).addr().as_u64(), 300 << 12);
}
