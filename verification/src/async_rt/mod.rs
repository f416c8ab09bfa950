//! The timers of the kernel's asynchronous tasks.
pub mod timer;
