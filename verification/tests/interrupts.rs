use kernel_core::plic::{QemuSource, PRIORITY_BASE};

#[test]
fn claim_register_names_the_source() {
    assert_eq!(QemuSource::from_u32(0), None);
    assert_eq!(QemuSource::from_u32(1), Some(QemuSource::Virtio1));
    assert_eq!(QemuSource::from_u32(2), Some(QemuSource::Virtio2));
    assert_eq!(QemuSource::from_u32(3), Some(QemuSource::Virtio3));
    assert_eq!(QemuSource::from_u32(4), Some(QemuSource::Virtio4));
    assert_eq!(QemuSource::from_u32(5), Some(QemuSource::Virtio5));
    assert_eq!(QemuSource::from_u32(6), Some(QemuSource::Virtio6));
    assert_eq!(QemuSource::from_u32(7), Some(QemuSource::Virtio7));
    assert_eq!(QemuSource::from_u32(8), Some(QemuSource::Virtio8));
    assert_eq!(QemuSource::from_u32(9), Some(QemuSource::Unknown));
    assert_eq!(QemuSource::from_u32(10), Some(QemuSource::Uart0));
    assert_eq!(QemuSource::from_u32(11), Some(QemuSource::Unknown));
    assert_eq!(QemuSource::from_u32(54), Some(QemuSource::Unknown));
    assert_eq!(QemuSource::from_u32(u32::MAX), Some(QemuSource::Unknown));
}

#[test]
fn known_sources_keep_their_number() {
    for n in [1u32, 2, 3, 4, 5, 6, 7, 8, 10] {
        assert_eq!(QemuSource::from_u32(n).unwrap().id(), n);
    }
    assert_eq!(QemuSource::Unknown.id(), 54);
}

#[test]
fn registers_of_a_source() {
    assert_eq!(QemuSource::Uart0.enable_bit(), 1 << 10);
    assert_eq!(QemuSource::Virtio8.enable_bit(), 0x100);
    assert_eq!(QemuSource::Virtio1.enable_bit(), 2);
    assert_eq!(QemuSource::Uart0.priority_register(), 0x0c00_0028);
    assert_eq!(QemuSource::Virtio8.priority_register(), PRIORITY_BASE + 32);
    assert_eq!(QemuSource::Unknown.priority_register(), 0x0c00_00d8);
}
