//! The interrupt sources of the platform's interrupt controller, and where
//! the controller keeps what belongs to each.

use vstd::prelude::*;

verus! {

/// Where the priority registers start, one word for each source.
pub const PRIORITY_BASE: u32 = 0x0c00_0000;

/// An interrupt source of the machine.
#[derive(Debug, Clone, Copy, PartialEq, Eq, Structural)]
pub enum QemuSource {
    Virtio1,
    Virtio2,
    Virtio3,
    Virtio4,
    Virtio5,
    Virtio6,
    Virtio7,
    Virtio8,
    Uart0,
    Unknown,
}

impl QemuSource {
    /// The number by which the controller knows the source.
    pub open spec fn spec_id(self) -> u32 {
        match self {
            QemuSource::Virtio1 => 1,
            QemuSource::Virtio2 => 2,
            QemuSource::Virtio3 => 3,
            QemuSource::Virtio4 => 4,
            QemuSource::Virtio5 => 5,
            QemuSource::Virtio6 => 6,
            QemuSource::Virtio7 => 7,
            QemuSource::Virtio8 => 8,
            QemuSource::Uart0 => 10,
            QemuSource::Unknown => 54,
        }
    }

    /// The number by which the controller knows the source.
    #[verifier::when_used_as_spec(spec_id)]
    pub fn id(self) -> (r: u32)
        ensures
            r == self.spec_id(),
    {
        match self {
            QemuSource::Virtio1 => 1,
            QemuSource::Virtio2 => 2,
            QemuSource::Virtio3 => 3,
            QemuSource::Virtio4 => 4,
            QemuSource::Virtio5 => 5,
            QemuSource::Virtio6 => 6,
            QemuSource::Virtio7 => 7,
            QemuSource::Virtio8 => 8,
            QemuSource::Uart0 => 10,
            QemuSource::Unknown => 54,
        }
    }

    /// The source that the controller's claim register names. Zero means
    /// that no interrupt is pending; a number that belongs to no known
    /// source gives `Unknown`.
    pub fn from_u32(value: u32) -> (r: Option<QemuSource>)
        ensures
            r is None <==> value == 0,
            1 <= value <= 8 || value == 10 ==> r is Some && r->Some_0.spec_id() == value,
            value == 9 || value > 10 ==> r == Some(QemuSource::Unknown),
    {
        Some(
            match value {
                0 => {
                    return None;
                },
                1 => QemuSource::Virtio1,
                2 => QemuSource::Virtio2,
                3 => QemuSource::Virtio3,
                4 => QemuSource::Virtio4,
                5 => QemuSource::Virtio5,
                6 => QemuSource::Virtio6,
                7 => QemuSource::Virtio7,
                8 => QemuSource::Virtio8,
                10 => QemuSource::Uart0,
                _ => QemuSource::Unknown,
            },
        )
    }

    /// The bit that stands for the source in the enable register. `Unknown`
    /// has none: its number lies beyond the register's 32 bits.
    pub fn enable_bit(self) -> (r: u32)
        requires
            self != QemuSource::Unknown,
        ensures
            r == 1u32 << self.spec_id(),
    {
        1u32 << self.id()
    }

    /// The address of the source's priority register.
    pub fn priority_register(self) -> (r: u32)
        ensures
            r == PRIORITY_BASE + self.spec_id() * 4,
    {
        PRIORITY_BASE + self.id() * 4
    }
}

} // verus!
