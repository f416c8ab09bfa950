//! Buses: PCI configuration space.
pub mod pci;
