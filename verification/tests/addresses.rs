use kernel_core::addr::{PhysAddr, VirtAddr, VirtAddrNotValid};

#[test]
fn ram_base_decomposes() {
    let a = VirtAddr::try_new(0x8000_0000).unwrap();
    assert_eq!(a.vpn2(), 2);
    assert_eq!(a.vpn1(), 0);
    assert_eq!(a.vpn0(), 0);
    assert_eq!(a.page_offset(), 0);
    assert_eq!(a.as_u64(), 0x8000_0000);
}

#[test]
fn every_field_is_cut_at_its_own_bits() {
    let a = VirtAddr::new((5 << 30) | (7 << 21) | (9 << 12) | 0x234);
    assert_eq!(a.vpn2(), 5);
    assert_eq!(a.vpn1(), 7);
    assert_eq!(a.vpn0(), 9);
    assert_eq!(a.page_offset(), 0x234);
}

#[test]
fn fields_at_their_maximum() {
    let a = VirtAddr::new(0x0000_003f_ffff_ffff);
    assert_eq!(a.vpn2(), 0xff);
    assert_eq!(a.vpn1(), 0x1ff);
    assert_eq!(a.vpn0(), 0x1ff);
    assert_eq!(a.page_offset(), 0xfff);
    let top = VirtAddr::new(0xffff_ffff_ffff_ffff);
    assert_eq!(top.vpn2(), 0x1ff);
    assert_eq!(top.page_offset(), 0xfff);
}

#[test]
fn try_new_keeps_a_canonical_address() {
    for v in [0u64, 0x1234, 0x8000_0000, 0x0000_003f_ffff_ffff, 0xffff_ffc0_0000_0000, u64::MAX] {
        assert_eq!(VirtAddr::try_new(v).unwrap().as_u64(), v);
    }
}

#[test]
fn try_new_rejects_what_is_not_sign_extended() {
    assert_eq!(
        VirtAddr::try_new(0x0000_0040_0000_0000),
        Err(VirtAddrNotValid(0x0000_0040_0000_0000))
    );
    assert_eq!(
        VirtAddr::try_new(0x0000_0080_0000_0000),
        Err(VirtAddrNotValid(0x0000_0080_0000_0000))
    );
    assert_eq!(
        VirtAddr::try_new(0xffff_ff80_0000_0000),
        Err(VirtAddrNotValid(0xffff_ff80_0000_0000))
    );
    assert_eq!(
        VirtAddr::try_new(0x8000_0000_0000_0000),
        Err(VirtAddrNotValid(0x8000_0000_0000_0000))
    );
    assert!(VirtAddr::try_new(0x0001_ffc0_0000_0000).is_err());
}

#[test]
fn new_truncate_copies_bit_38_upwards() {
    assert_eq!(VirtAddr::new_truncate(0x40_0000_0000).as_u64(), 0xffff_ffc0_0000_0000);
    assert_eq!(VirtAddr::new_truncate(0xffff_ff80_0000_1000).as_u64(), 0x1000);
    assert_eq!(VirtAddr::new_truncate(0x1234_5678_9abc_def0).as_u64(), 0xffff_fff8_9abc_def0);
    assert_eq!(VirtAddr::new_truncate(0x8000_0000).as_u64(), 0x8000_0000);
    assert_eq!(VirtAddr::new_truncate(u64::MAX).as_u64(), u64::MAX);
}

#[test]
fn new_truncate_result_is_accepted_by_try_new() {
    for v in [0x40_0000_0000u64, 0xdead_beef_dead_beef, 0x1234_5678_9abc_def0, 1 << 63] {
        let t = VirtAddr::new_truncate(v).as_u64();
        assert_eq!(VirtAddr::try_new(t).unwrap().as_u64(), t);
        assert_eq!(t & 0x7f_ffff_ffff, v & 0x7f_ffff_ffff);
    }
}

#[test]
fn new_unsafe_wraps_as_given() {
    assert_eq!(VirtAddr::new_unsafe(0xffff_ffc0_0000_1000).as_u64(), 0xffff_ffc0_0000_1000);
}

#[test]
fn addresses_compare_by_value() {
    assert!(VirtAddr::new(0x1000) < VirtAddr::new(0x2000));
    assert_eq!(VirtAddr::new(0x1000), VirtAddr::new_truncate(0x1000));
}

#[test]
fn phys_addr_wraps_any_word() {
    assert_eq!(PhysAddr::new(0).as_u64(), 0);
    assert_eq!(PhysAddr::new(u64::MAX).as_u64(), u64::MAX);
    assert_eq!(PhysAddr::new(0x8000_1234), PhysAddr(0x8000_1234));
}
