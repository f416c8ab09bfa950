//! Device drivers: the keyboard's event queue and line editing, terminal colours, and the
//! shared-memory PCI device with the webcam built on it.
pub mod ivshmem;
pub mod keyboard;
pub mod terminal;
pub mod webcam_shm;
