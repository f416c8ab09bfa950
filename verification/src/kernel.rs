//! Fixed addresses of the user address space.
use vstd::prelude::*;

verus! {

/// The entry point of user tasks (and the load base of position-independent ones).
pub const USER_ENTRY: u64 = 0x400000;
/// One past the highest address of the user stack.
pub const USER_STACK_TOP: u64 = 0x0000_7FFF_FFFF_F000;
/// The largest size of the user stack (8 MiB).
pub const MAX_USER_STACK_SIZE: u64 = 8 * 1024 * 1024;
/// The lowest address of the user stack.
pub const USER_STACK_BOTTOM: u64 = 0x0000_7FFF_7FFF_F000;

} // verus!
