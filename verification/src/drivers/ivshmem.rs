//! The plain inter-VM shared memory PCI device: its identity and where its shared memory
//! is.
use vstd::prelude::*;

use crate::bus::pci::{DriverError, PciBar, PciMatcher};

verus! {

/// The vendor of the shared memory device (Red Hat).
pub const IVSHMEM_VENDOR: u16 = 0x1AF4;
/// The device id of the shared memory device.
pub const IVSHMEM_DEVICE: u16 = 0x1110;
/// The BAR that maps the shared memory (BAR 0 holds the registers, BAR 1 the MSI-X table).
pub const SHM_BAR: u8 = 2;

/// The driver of the shared memory device.
pub struct IvShMemDriver;

impl IvShMemDriver {
    /// The driver's name.
    pub fn name(&self) -> (r: &'static str)
        ensures
            r == "ivshmem-plain",
    {
        "ivshmem-plain"
    }

    /// The devices the driver takes: the shared memory device.
    pub fn ids(&self) -> (r: [PciMatcher; 1])
        ensures
            r@ == seq![PciMatcher::Id { vendor: IVSHMEM_VENDOR, device: IVSHMEM_DEVICE }],
    {
        let r = [PciMatcher::Id { vendor: IVSHMEM_VENDOR, device: IVSHMEM_DEVICE }];
        proof {
            assert(r@ =~= seq![PciMatcher::Id { vendor: IVSHMEM_VENDOR, device: IVSHMEM_DEVICE }]);
        }
        r
    }

    /// The physical address and size of the shared memory, from the decoded shared memory
    /// BAR: `BarNotFound` when it is unused, `InvalidConfiguration` when it maps I/O ports.
    pub fn shm_region(bar: Option<PciBar>) -> (r: Result<(u64, usize), DriverError>)
        ensures
            match bar {
                None => r == Err::<(u64, usize), DriverError>(DriverError::BarNotFound),
                Some(PciBar::Mmio32 { address, size, .. }) => r == Ok::<(u64, usize), DriverError>((address as u64, size)),
                Some(PciBar::Mmio64 { address, size, .. }) => r == Ok::<(u64, usize), DriverError>((address, size)),
                Some(_) => r == Err::<(u64, usize), DriverError>(DriverError::InvalidConfiguration),
            },
    {
        match bar {
            None => Err(DriverError::BarNotFound),
            Some(PciBar::Mmio32 { address, size, .. }) => Ok((address as u64, size)),
            Some(PciBar::Mmio64 { address, size, .. }) => Ok((address, size)),
            Some(_) => Err(DriverError::InvalidConfiguration),
        }
    }
}

} // verus!
