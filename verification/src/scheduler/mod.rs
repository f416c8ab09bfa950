//! Tasks, their priorities and the scheduler's decisions.
use vstd::prelude::*;

pub mod task;
pub mod sched;

verus! {
} // verus!
