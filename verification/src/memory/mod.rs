//! Physical frames, the frame allocator and virtual-memory bookkeeping.
use vstd::prelude::*;

pub mod bitmap;
pub mod paging;
pub mod vmm;
pub mod vmspace;


verus! {

/// Size in bytes of a physical frame and of a virtual page.
pub const PAGE_SIZE: usize = 4096;

/// A physical frame, given by its index (its start address divided by `PAGE_SIZE`).
#[derive(Debug, Clone, Copy, PartialEq, Eq, Structural)]
pub struct Frame(pub usize);

impl Frame {
    /// Physical address of the first byte of the frame.
    pub fn start_address(&self) -> (r: usize)
        requires
            self.0 * PAGE_SIZE <= usize::MAX,
        ensures
            r == self.0 * PAGE_SIZE,
    {
        self.0 * PAGE_SIZE
    }

    /// Physical address one past the last byte of the frame.
    pub fn end_address(&self) -> (r: usize)
        requires
            (self.0 + 1) * PAGE_SIZE <= usize::MAX,
        ensures
            r == (self.0 + 1) * PAGE_SIZE,
    {
        (self.0 + 1) * PAGE_SIZE
    }

    /// The frame that holds the physical address `addr`.
    pub fn from_addr(addr: usize) -> (r: Frame)
        ensures
            r.0 == addr / PAGE_SIZE,
    {
        Frame(addr / PAGE_SIZE)
    }
}

/// A source of physical frames.
pub trait FrameAllocator {
    /// The allocator can hand out a frame in its present state.
    spec fn can_allocate(&self) -> bool;

    /// `frame` may be given back to the allocator in its present state.
    spec fn can_deallocate(&self, frame: Frame) -> bool;

    fn allocate_frame(&mut self) -> Option<Frame>
        requires
            old(self).can_allocate(),
    ;

    fn deallocate_frame(&mut self, frame: Frame)
        requires
            old(self).can_deallocate(frame),
    ;
}

} // verus!
