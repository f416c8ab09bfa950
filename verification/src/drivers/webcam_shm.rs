//! The webcam device, whose frames are in the shared memory of the ivshmem device.
use vstd::prelude::*;

use crate::io::Error;
use crate::memory::paging::PhysicalAddress;

verus! {

/// The webcam device.
#[derive(Debug)]
pub struct WebcamDevice;

impl WebcamDevice {
    /// The physical address of byte `offset` of the shared memory `shm` (its address and
    /// size): `NoSuchDevice` before the shared memory is known, `InvalidValue` past its end.
    pub fn mmap(shm: Option<(u64, usize)>, offset: usize) -> (r: Result<PhysicalAddress, Error>)
        requires
            match shm {
                Some((addr, size)) => offset < size ==> addr + offset <= u64::MAX,
                None => true,
            },
        ensures
            match shm {
                None => r == Err::<PhysicalAddress, Error>(Error::NoSuchDevice),
                Some((addr, size)) => if offset >= size {
                    r == Err::<PhysicalAddress, Error>(Error::InvalidValue)
                } else {
                    r == Ok::<PhysicalAddress, Error>(PhysicalAddress((addr + offset) as u64))
                },
            },
    {
        match shm {
            None => Err(Error::NoSuchDevice),
            Some((phys_addr, size)) => {
                if offset >= size {
                    return Err(Error::InvalidValue);
                }
                Ok(PhysicalAddress(phys_addr + offset as u64))
            },
        }
    }
}

} // verus!
