//! The verified core of the MagicalOS kernel: frame and virtual-memory bookkeeping,
//! page-table entry encoding, scheduling decisions, the ramfs tar reader, ELF loading
//! and the decoding of hardware registers.
use vstd::prelude::*;

pub mod utils;
pub mod kernel;
pub mod scheduler;
pub mod io;
pub mod fd;
pub mod memory;
pub mod fs;
pub mod bus;
pub mod gdt;
pub mod elf;
pub mod auxvec;
pub mod arch;
pub mod drivers;
pub mod graphics;
pub mod serial;
pub mod async_rt;

