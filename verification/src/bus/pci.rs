//! PCI configuration space: device identification, BAR decoding and driver matching.
//!
//! The configuration registers are reached through port I/O, which the caller performs;
//! this module decodes what was read and computes what is to be written.
use vstd::prelude::*;

verus! {

/// The I/O port that selects a configuration register.
pub const CONFIG_ADDRESS: u16 = 0xCF8;
/// The I/O port through which the selected configuration register is read and written.
pub const CONFIG_DATA: u16 = 0xCFC;

/// The value written to `CONFIG_ADDRESS` to select the register at `offset` of a function.
pub open spec fn config_address_spec(bus: u8, slot: u8, func: u8, offset: u8) -> u32 {
    0x8000_0000u32 | ((bus as u32) << 16u32) | ((slot as u32) << 11u32) | ((func as u32) << 8u32) | (
    offset as u32 & 0xFCu32)
}

/// The address that selects the configuration register at `offset` (its low two bits
/// dropped) of function `func` of device `slot` on `bus`.
pub fn config_address(bus: u8, slot: u8, func: u8, offset: u8) -> (r: u32)
    ensures
        r == config_address_spec(bus, slot, func, offset),
{
    0x8000_0000u32 | ((bus as u32) << 16u32) | ((slot as u32) << 11u32) | ((func as u32) << 8u32) | (
    offset as u32 & 0xFCu32)
}

/// Why a driver could not take a device.
#[derive(Debug, Clone, Copy, PartialEq, Eq, Structural)]
pub enum DriverError {
    NoMemory,
    BarMappingFailed,
    BarNotFound,
    DeviceNotSupported,
    InvalidConfiguration,
    HardwareFault,
}

/// The message that describes an error.
pub open spec fn driver_error_text(e: DriverError) -> &'static str {
    match e {
        DriverError::NoMemory => "Out of memory during driver init",
        DriverError::BarMappingFailed => "Failed to map PCI BARs",
        DriverError::BarNotFound => "BarNotFound",
        DriverError::DeviceNotSupported => "DeviceNotSupported",
        DriverError::InvalidConfiguration => "InvalidConfiguration",
        DriverError::HardwareFault => "HardwareFault",
    }
}

impl DriverError {
    /// The message that describes this error.
    pub fn description(&self) -> (r: &'static str)
        ensures
            r == driver_error_text(*self),
    {
        match self {
            DriverError::NoMemory => "Out of memory during driver init",
            DriverError::BarMappingFailed => "Failed to map PCI BARs",
            DriverError::BarNotFound => "BarNotFound",
            DriverError::DeviceNotSupported => "DeviceNotSupported",
            DriverError::InvalidConfiguration => "InvalidConfiguration",
            DriverError::HardwareFault => "HardwareFault",
        }
    }
}

/// The class of a PCI function.
#[derive(Debug, Clone, Copy, PartialEq, Eq, Structural)]
pub enum PciClass {
    Unclassified,
    MassStorageController,
    NetworkController,
    DisplayController,
    MultimediaController,
    MemoryController,
    Bridge,
    SimpleCommunicationController,
    BaseSystemPeripheral,
    InputDeviceController,
    DockingStation,
    Processor,
    SerialBusController,
    WirelessController,
    IntelligentController,
    SatelliteCommunicationController,
    EncryptionController,
    SignalProcessingController,
    ProcessingAccelerator,
    NonEssentialInstrumentation,
    Coprocessor,
    UnassignedClass,
}

/// The class code of each class.
pub open spec fn class_code(c: PciClass) -> u8 {
    match c {
        PciClass::Unclassified => 0x00,
        PciClass::MassStorageController => 0x01,
        PciClass::NetworkController => 0x02,
        PciClass::DisplayController => 0x03,
        PciClass::MultimediaController => 0x04,
        PciClass::MemoryController => 0x05,
        PciClass::Bridge => 0x06,
        PciClass::SimpleCommunicationController => 0x07,
        PciClass::BaseSystemPeripheral => 0x08,
        PciClass::InputDeviceController => 0x09,
        PciClass::DockingStation => 0x0A,
        PciClass::Processor => 0x0B,
        PciClass::SerialBusController => 0x0C,
        PciClass::WirelessController => 0x0D,
        PciClass::IntelligentController => 0x0E,
        PciClass::SatelliteCommunicationController => 0x0F,
        PciClass::EncryptionController => 0x10,
        PciClass::SignalProcessingController => 0x11,
        PciClass::ProcessingAccelerator => 0x12,
        PciClass::NonEssentialInstrumentation => 0x13,
        PciClass::Coprocessor => 0x40,
        PciClass::UnassignedClass => 0xFF,
    }
}

/// The class whose code is `value`, if there is one.
pub open spec fn class_of_code(value: u8) -> Option<PciClass> {
    match value {
        0x00 => Some(PciClass::Unclassified),
        0x01 => Some(PciClass::MassStorageController),
        0x02 => Some(PciClass::NetworkController),
        0x03 => Some(PciClass::DisplayController),
        0x04 => Some(PciClass::MultimediaController),
        0x05 => Some(PciClass::MemoryController),
        0x06 => Some(PciClass::Bridge),
        0x07 => Some(PciClass::SimpleCommunicationController),
        0x08 => Some(PciClass::BaseSystemPeripheral),
        0x09 => Some(PciClass::InputDeviceController),
        0x0A => Some(PciClass::DockingStation),
        0x0B => Some(PciClass::Processor),
        0x0C => Some(PciClass::SerialBusController),
        0x0D => Some(PciClass::WirelessController),
        0x0E => Some(PciClass::IntelligentController),
        0x0F => Some(PciClass::SatelliteCommunicationController),
        0x10 => Some(PciClass::EncryptionController),
        0x11 => Some(PciClass::SignalProcessingController),
        0x12 => Some(PciClass::ProcessingAccelerator),
        0x13 => Some(PciClass::NonEssentialInstrumentation),
        0x40 => Some(PciClass::Coprocessor),
        0xFF => Some(PciClass::UnassignedClass),
        _ => None,
    }
}

/// Decoding a class code gives back the class: `from_u8(c.code()) == Some(c)`, and a code
/// that decodes to a class is that class's code.
pub proof fn lemma_class_code_roundtrip(c: PciClass, value: u8)
    ensures
        class_of_code(class_code(c)) == Some(c),
        class_of_code(value) == Some(c) ==> class_code(c) == value,
{
}

impl PciClass {
    /// The class with code `value`, if there is one.
    pub fn from_u8(value: u8) -> (r: Option<PciClass>)
        ensures
            r == class_of_code(value),
    {
        match value {
            0x00 => Some(PciClass::Unclassified),
            0x01 => Some(PciClass::MassStorageController),
            0x02 => Some(PciClass::NetworkController),
            0x03 => Some(PciClass::DisplayController),
            0x04 => Some(PciClass::MultimediaController),
            0x05 => Some(PciClass::MemoryController),
            0x06 => Some(PciClass::Bridge),
            0x07 => Some(PciClass::SimpleCommunicationController),
            0x08 => Some(PciClass::BaseSystemPeripheral),
            0x09 => Some(PciClass::InputDeviceController),
            0x0A => Some(PciClass::DockingStation),
            0x0B => Some(PciClass::Processor),
            0x0C => Some(PciClass::SerialBusController),
            0x0D => Some(PciClass::WirelessController),
            0x0E => Some(PciClass::IntelligentController),
            0x0F => Some(PciClass::SatelliteCommunicationController),
            0x10 => Some(PciClass::EncryptionController),
            0x11 => Some(PciClass::SignalProcessingController),
            0x12 => Some(PciClass::ProcessingAccelerator),
            0x13 => Some(PciClass::NonEssentialInstrumentation),
            0x40 => Some(PciClass::Coprocessor),
            0xFF => Some(PciClass::UnassignedClass),
            _ => None,
        }
    }

    /// The class code of this class.
    pub fn code(&self) -> (r: u8)
        ensures
            r == class_code(*self),
    {
        match self {
            PciClass::Unclassified => 0x00,
            PciClass::MassStorageController => 0x01,
            PciClass::NetworkController => 0x02,
            PciClass::DisplayController => 0x03,
            PciClass::MultimediaController => 0x04,
            PciClass::MemoryController => 0x05,
            PciClass::Bridge => 0x06,
            PciClass::SimpleCommunicationController => 0x07,
            PciClass::BaseSystemPeripheral => 0x08,
            PciClass::InputDeviceController => 0x09,
            PciClass::DockingStation => 0x0A,
            PciClass::Processor => 0x0B,
            PciClass::SerialBusController => 0x0C,
            PciClass::WirelessController => 0x0D,
            PciClass::IntelligentController => 0x0E,
            PciClass::SatelliteCommunicationController => 0x0F,
            PciClass::EncryptionController => 0x10,
            PciClass::SignalProcessingController => 0x11,
            PciClass::ProcessingAccelerator => 0x12,
            PciClass::NonEssentialInstrumentation => 0x13,
            PciClass::Coprocessor => 0x40,
            PciClass::UnassignedClass => 0xFF,
        }
    }

    /// The name of subclass `subclass` of this class.
    pub fn get_subclass_name(&self, subclass: u8) -> (r: &'static str)
        ensures
            r == subclass_name(*self, subclass),
    {
        let class = *self;
        match class {
            PciClass::Unclassified => match subclass {
                0x00 => "Non-VGA-Compatible Device",
                0x01 => "VGA-Compatible Device",
                _ => "Unknown Subclass",
            },
            PciClass::MassStorageController => match subclass {
                0x00 => "SCSI Controller",
                0x01 => "IDE Controller",
                0x02 => "Floppy Disk Controller",
                0x03 => "IPI Bus Controller",
                0x04 => "RAID Controller",
                0x05 => "ATA Controller",
                0x06 => "Serial ATA Controller",
                0x07 => "Serial Attached SCSI Controller",
                0x08 => "Non-Volatile Memory Controller",
                0x80 => "Other Mass Storage Controller",
                _ => "Unknown Subclass",
            },
            PciClass::NetworkController => match subclass {
                0x00 => "Ethernet Controller",
                0x01 => "Token Ring Controller",
                0x02 => "FDDI Controller",
                0x03 => "ATM Controller",
                0x04 => "ISDN Controller",
                0x05 => "WorldFip Controller",
                0x06 => "PICMG 2.14 Multi Computing",
                0x07 => "Infiniband Controller",
                0x80 => "Other Network Controller",
                _ => "Unknown Subclass",
            },
            PciClass::DisplayController => match subclass {
                0x00 => "VGA-Compatible Controller",
                0x01 => "XGA Controller",
                0x02 => "3D Controller",
                0x80 => "Other Display Controller",
                _ => "Unknown Subclass",
            },
            PciClass::MultimediaController => match subclass {
                0x00 => "Multimedia Video Controller",
                0x01 => "Multimedia Audio Controller",
                0x02 => "Computer Telephony Device",
                0x03 => "Audio Device",
                0x80 => "Other Multimedia Controller",
                _ => "Unknown Subclass",
            },
            PciClass::MemoryController => match subclass {
                0x00 => "RAM Controller",
                0x01 => "Flash Controller",
                0x80 => "Other Memory Controller",
                _ => "Unknown Subclass",
            },
            PciClass::Bridge => match subclass {
                0x00 => "Host Bridge",
                0x01 => "ISA Bridge",
                0x02 => "EISA Bridge",
                0x03 => "MCA Bridge",
                0x04 => "PCI-to-PCI Bridge",
                0x05 => "PCMCIA Bridge",
                0x06 => "NuBus Bridge",
                0x07 => "CardBus Bridge",
                0x08 => "RACEway Bridge",
                0x09 => "Semi-transparent PCI-to-PCI Bridge",
                0x0A => "InfiniBand-to-PCI Host Bridge",
                0x80 => "Other Bridge Device",
                _ => "Unknown Subclass",
            },
            PciClass::SimpleCommunicationController => match subclass {
                0x00 => "Serial Controller",
                0x01 => "Parallel Controller",
                0x02 => "Multiport Serial Controller",
                0x03 => "Modem",
                0x04 => "IEEE 488.1/2 (GPIB) Controller",
                0x05 => "Smart Card Controller",
                0x80 => "Other Simple Communication Controller",
                _ => "Unknown Subclass",
            },
            PciClass::BaseSystemPeripheral => match subclass {
                0x00 => "PIC",
                0x01 => "DMA Controller",
                0x02 => "Timer",
                0x03 => "RTC Controller",
                0x04 => "PCI Hot-Plug Controller",
                0x05 => "SD Host Controller",
                0x06 => "IOMMU",
                0x80 => "Other Base System Peripheral",
                _ => "Unknown Subclass",
            },
            PciClass::InputDeviceController => match subclass {
                0x00 => "Keyboard Controller",
                0x01 => "Digitizer Pen",
                0x02 => "Mouse Controller",
                0x03 => "Scanner Controller",
                0x04 => "Gameport Controller",
                0x80 => "Other Input Device Controller",
                _ => "Unknown Subclass",
            },
            PciClass::DockingStation => match subclass {
                0x00 => "Generic Docking Station",
                0x80 => "Other Docking Station",
                _ => "Unknown Subclass",
            },
            PciClass::Processor => match subclass {
                0x00 => "386",
                0x01 => "486",
                0x02 => "Pentium",
                0x03 => "Alpha",
                0x04 => "PowerPC",
                0x05 => "MIPS",
                0x06 => "Co-Processor",
                0x80 => "Other Processor",
                _ => "Unknown Subclass",
            },
            PciClass::SerialBusController => match subclass {
                0x00 => "FireWire (IEEE 1394) Controller",
                0x01 => "ACCESS Bus",
                0x02 => "SSA",
                0x03 => "USB Controller",
                0x04 => "Fibre Channel",
                0x05 => "SMBus",
                0x06 => "InfiniBand",
                0x07 => "IPMI Interface",
                0x08 => "SERCOS Interface (IEC 61491)",
                0x09 => "CANbus",
                0x80 => "Other Serial Bus Controller",
                _ => "Unknown Subclass",
            },
            PciClass::WirelessController => match subclass {
                0x00 => "iRDA Compatible Controller",
                0x01 => "Consumer IR Controller",
                0x10 => "RF Controller",
                0x11 => "Bluetooth Controller",
                0x12 => "Broadband Controller",
                0x20 => "Ethernet Controller (802.11a/b/g)",
                0x21 => "Ethernet Controller (802.16)",
                0x80 => "Other Wireless Controller",
                _ => "Unknown Subclass",
            },
            PciClass::IntelligentController => match subclass {
                0x00 => "I20 Architecture",
                _ => "Unknown Subclass",
            },
            PciClass::SatelliteCommunicationController => match subclass {
                0x01 => "Satellite TV Controller",
                0x02 => "Satellite Audio Controller",
                0x03 => "Satellite Voice Controller",
                0x04 => "Satellite Data Controller",
                _ => "Unknown Subclass",
            },
            PciClass::EncryptionController => match subclass {
                0x00 => "Network and Computing Encrytion/Decryption",
                0x10 => "Entertainment Encryption/Decryption",
                0x80 => "Other Encryption Controller",
                _ => "Unknown Subclass",
            },
            PciClass::SignalProcessingController => match subclass {
                0x00 => "DPIO Modules",
                0x01 => "Performance Counters",
                0x10 => "Communications Synchronizer",
                0x20 => "Signal Processing Management",
                0x80 => "Other Signal Processing Controller",
                _ => "Unknown Subclass",
            },
            _ => "Unknown Subclass",
        }
    }
}

/// The name of subclass `subclass` of `class`; "Unknown Subclass" where the class has no such
/// subclass or names none.
pub open spec fn subclass_name(class: PciClass, subclass: u8) -> &'static str {
    match class {
        PciClass::Unclassified => match subclass {
            0x00 => "Non-VGA-Compatible Device",
            0x01 => "VGA-Compatible Device",
            _ => "Unknown Subclass",
        },
        PciClass::MassStorageController => match subclass {
            0x00 => "SCSI Controller",
            0x01 => "IDE Controller",
            0x02 => "Floppy Disk Controller",
            0x03 => "IPI Bus Controller",
            0x04 => "RAID Controller",
            0x05 => "ATA Controller",
            0x06 => "Serial ATA Controller",
            0x07 => "Serial Attached SCSI Controller",
            0x08 => "Non-Volatile Memory Controller",
            0x80 => "Other Mass Storage Controller",
            _ => "Unknown Subclass",
        },
        PciClass::NetworkController => match subclass {
            0x00 => "Ethernet Controller",
            0x01 => "Token Ring Controller",
            0x02 => "FDDI Controller",
            0x03 => "ATM Controller",
            0x04 => "ISDN Controller",
            0x05 => "WorldFip Controller",
            0x06 => "PICMG 2.14 Multi Computing",
            0x07 => "Infiniband Controller",
            0x80 => "Other Network Controller",
            _ => "Unknown Subclass",
        },
        PciClass::DisplayController => match subclass {
            0x00 => "VGA-Compatible Controller",
            0x01 => "XGA Controller",
            0x02 => "3D Controller",
            0x80 => "Other Display Controller",
            _ => "Unknown Subclass",
        },
        PciClass::MultimediaController => match subclass {
            0x00 => "Multimedia Video Controller",
            0x01 => "Multimedia Audio Controller",
            0x02 => "Computer Telephony Device",
            0x03 => "Audio Device",
            0x80 => "Other Multimedia Controller",
            _ => "Unknown Subclass",
        },
        PciClass::MemoryController => match subclass {
            0x00 => "RAM Controller",
            0x01 => "Flash Controller",
            0x80 => "Other Memory Controller",
            _ => "Unknown Subclass",
        },
        PciClass::Bridge => match subclass {
            0x00 => "Host Bridge",
            0x01 => "ISA Bridge",
            0x02 => "EISA Bridge",
            0x03 => "MCA Bridge",
            0x04 => "PCI-to-PCI Bridge",
            0x05 => "PCMCIA Bridge",
            0x06 => "NuBus Bridge",
            0x07 => "CardBus Bridge",
            0x08 => "RACEway Bridge",
            0x09 => "Semi-transparent PCI-to-PCI Bridge",
            0x0A => "InfiniBand-to-PCI Host Bridge",
            0x80 => "Other Bridge Device",
            _ => "Unknown Subclass",
        },
        PciClass::SimpleCommunicationController => match subclass {
            0x00 => "Serial Controller",
            0x01 => "Parallel Controller",
            0x02 => "Multiport Serial Controller",
            0x03 => "Modem",
            0x04 => "IEEE 488.1/2 (GPIB) Controller",
            0x05 => "Smart Card Controller",
            0x80 => "Other Simple Communication Controller",
            _ => "Unknown Subclass",
        },
        PciClass::BaseSystemPeripheral => match subclass {
            0x00 => "PIC",
            0x01 => "DMA Controller",
            0x02 => "Timer",
            0x03 => "RTC Controller",
            0x04 => "PCI Hot-Plug Controller",
            0x05 => "SD Host Controller",
            0x06 => "IOMMU",
            0x80 => "Other Base System Peripheral",
            _ => "Unknown Subclass",
        },
        PciClass::InputDeviceController => match subclass {
            0x00 => "Keyboard Controller",
            0x01 => "Digitizer Pen",
            0x02 => "Mouse Controller",
            0x03 => "Scanner Controller",
            0x04 => "Gameport Controller",
            0x80 => "Other Input Device Controller",
            _ => "Unknown Subclass",
        },
        PciClass::DockingStation => match subclass {
            0x00 => "Generic Docking Station",
            0x80 => "Other Docking Station",
            _ => "Unknown Subclass",
        },
        PciClass::Processor => match subclass {
            0x00 => "386",
            0x01 => "486",
            0x02 => "Pentium",
            0x03 => "Alpha",
            0x04 => "PowerPC",
            0x05 => "MIPS",
            0x06 => "Co-Processor",
            0x80 => "Other Processor",
            _ => "Unknown Subclass",
        },
        PciClass::SerialBusController => match subclass {
            0x00 => "FireWire (IEEE 1394) Controller",
            0x01 => "ACCESS Bus",
            0x02 => "SSA",
            0x03 => "USB Controller",
            0x04 => "Fibre Channel",
            0x05 => "SMBus",
            0x06 => "InfiniBand",
            0x07 => "IPMI Interface",
            0x08 => "SERCOS Interface (IEC 61491)",
            0x09 => "CANbus",
            0x80 => "Other Serial Bus Controller",
            _ => "Unknown Subclass",
        },
        PciClass::WirelessController => match subclass {
            0x00 => "iRDA Compatible Controller",
            0x01 => "Consumer IR Controller",
            0x10 => "RF Controller",
            0x11 => "Bluetooth Controller",
            0x12 => "Broadband Controller",
            0x20 => "Ethernet Controller (802.11a/b/g)",
            0x21 => "Ethernet Controller (802.16)",
            0x80 => "Other Wireless Controller",
            _ => "Unknown Subclass",
        },
        PciClass::IntelligentController => match subclass {
            0x00 => "I20 Architecture",
            _ => "Unknown Subclass",
        },
        PciClass::SatelliteCommunicationController => match subclass {
            0x01 => "Satellite TV Controller",
            0x02 => "Satellite Audio Controller",
            0x03 => "Satellite Voice Controller",
            0x04 => "Satellite Data Controller",
            _ => "Unknown Subclass",
        },
        PciClass::EncryptionController => match subclass {
            0x00 => "Network and Computing Encrytion/Decryption",
            0x10 => "Entertainment Encryption/Decryption",
            0x80 => "Other Encryption Controller",
            _ => "Unknown Subclass",
        },
        PciClass::SignalProcessingController => match subclass {
            0x00 => "DPIO Modules",
            0x01 => "Performance Counters",
            0x10 => "Communications Synchronizer",
            0x20 => "Signal Processing Management",
            0x80 => "Other Signal Processing Controller",
            _ => "Unknown Subclass",
        },
        _ => "Unknown Subclass",
    }
}

/// One function on the PCI bus, as its configuration header describes it.
#[derive(Debug)]
pub struct PciDevice {
    pub bus: u8,
    pub slot: u8,
    pub func: u8,
    pub vendor_id: u16,
    pub device_id: u16,
    pub class: u8,
    pub subclass: u8,
    pub prog_if: u8,
    pub is_multi_function: bool,
    pub header_type: u8,
}

/// The vendor id that a slot answers with when no function is present.
pub const NO_VENDOR: u16 = 0xFFFF;

proof fn lemma_register_fields(reg0: u32, reg8: u32, reg_c: u32)
    by (bit_vector)
    ensures
        (reg0 & 0xFFFFu32) as u16 == reg0 % 0x1_0000,
        (reg0 >> 16u32) as u16 == reg0 / 0x1_0000,
        (reg8 >> 24u32) as u8 == reg8 / 0x100_0000,
        (reg8 >> 16u32) as u8 == (reg8 / 0x1_0000) % 0x100,
        (reg8 >> 8u32) as u8 == (reg8 / 0x100) % 0x100,
        (((reg_c >> 16u32) & 0xFFu32) as u8) & 0x7Fu8 == (reg_c / 0x1_0000) % 0x80,
        ((((reg_c >> 16u32) & 0xFFu32) as u8) & 0x80u8 != 0) == ((reg_c / 0x80_0000) % 2 == 1),
{
}

proof fn lemma_or_zero(x: u32)
    by (bit_vector)
    ensures
        x | 0u32 == x,
{
}

impl PciDevice {
    /// The function at `bus`/`slot`/`func`, decoded from its configuration registers at
    /// offsets 0x00 (`reg0`), 0x08 (`reg8`) and 0x0C (`reg_c`); `None` when no function
    /// answers there (vendor id 0xFFFF).
    pub fn from_registers(bus: u8, slot: u8, func: u8, reg0: u32, reg8: u32, reg_c: u32) -> (r:
        Option<PciDevice>)
        ensures
            r is None <==> reg0 % 0x1_0000 == NO_VENDOR,
            r matches Some(d) ==> {
                &&& d.bus == bus && d.slot == slot && d.func == func
                &&& d.vendor_id == reg0 % 0x1_0000
                &&& d.device_id == reg0 / 0x1_0000
                &&& d.class == reg8 / 0x100_0000
                &&& d.subclass == (reg8 / 0x1_0000) % 0x100
                &&& d.prog_if == (reg8 / 0x100) % 0x100
                &&& d.header_type == (reg_c / 0x1_0000) % 0x80
                &&& d.is_multi_function == ((reg_c / 0x80_0000) % 2 == 1)
            },
    {
        proof {
            lemma_register_fields(reg0, reg8, reg_c);
        }
        let vendor_id = (reg0 & 0xFFFF) as u16;
        if vendor_id == NO_VENDOR {
            return None;
        }
        let raw_header_type = ((reg_c >> 16u32) & 0xFF) as u8;
        Some(PciDevice {
            bus,
            slot,
            func,
            header_type: raw_header_type & 0x7F,
            is_multi_function: (raw_header_type & 0x80) != 0,
            vendor_id,
            device_id: (reg0 >> 16u32) as u16,
            class: (reg8 >> 24u32) as u8,
            subclass: (reg8 >> 16u32) as u8,
            prog_if: (reg8 >> 8u32) as u8,
        })
    }

    /// The address that selects this function's configuration register at `offset`.
    pub fn config_address(&self, offset: u8) -> (r: u32)
        ensures
            r == config_address_spec(self.bus, self.slot, self.func, offset),
    {
        config_address(self.bus, self.slot, self.func, offset)
    }

    /// The command register `command` with memory space (`mmio`, bit 1), bus mastering
    /// (`dma`, bit 2) and I/O space (`io`, bit 0) switched on where asked; other bits kept.
    pub fn enable_capabilities(command: u32, mmio: bool, dma: bool, io: bool) -> (r: u32)
        ensures
            r == command | (if mmio { 2u32 } else { 0u32 }) | (if dma { 4u32 } else { 0u32 }) | (
            if io { 1u32 } else { 0u32 }),
    {
        let mut command = command;
        let ghost orig = command;
        if mmio {
            command = command | 2;
        }
        if dma {
            command = command | 4;
        }
        if io {
            command = command | 1;
        }
        proof {
            lemma_or_zero(orig);
            lemma_or_zero(orig | 2);
            lemma_or_zero(orig | 4);
            lemma_or_zero(orig | 2 | 4);
            lemma_or_zero(orig | 1);
            lemma_or_zero(orig | 2 | 1);
            lemma_or_zero(orig | 4 | 1);
        }
        command
    }

    /// The command register `command` with I/O space, memory space and bus mastering (bits
    /// 0 to 2) switched off, as it is while a BAR is sized.
    pub fn decoding_disabled(command: u32) -> (r: u32)
        ensures
            r == command & !7u32,
    {
        command & !7u32
    }

    /// The configuration offset of BAR `bar_index`, for a function with this header type:
    /// a general device (type 0) has six BARs, a PCI-to-PCI bridge (type 1) two, other types
    /// none.
    pub fn bar_offset(&self, bar_index: u8) -> (r: Option<u8>)
        ensures
            r is Some <==> (self.header_type == 0 && bar_index < 6) || (self.header_type == 1
                && bar_index < 2),
            r matches Some(o) ==> o == 0x10 + bar_index * 4,
    {
        if self.header_type == 0 {
            if bar_index >= 6 {
                return None;
            }
        } else if self.header_type == 1 {
            if bar_index >= 2 {
                return None;
            }
        } else {
            return None;
        }
        Some(0x10 + bar_index * 4)
    }
}

/// What a base address register maps.
#[allow(inconsistent_fields)]
#[derive(Debug, Clone, Copy)]
pub enum PciBar {
    /// No mapping.
    Unused,
    Mmio32 { address: u32, size: usize, prefetchable: bool },
    Mmio64 { address: u64, size: usize, prefetchable: bool },
    Io { port: u16, size: usize },
}

/// A BAR maps I/O ports (bit 0 set).
pub open spec fn bar_is_io(bar_val: u32) -> bool {
    bar_val % 2 == 1
}

/// A memory BAR is 64 bits wide (type field, bits 1-2, is 2).
pub open spec fn bar_is_64bit(bar_val: u32) -> bool {
    (bar_val / 2) % 4 == 2
}

/// The size that a size mask of a BAR gives, in a ring of `modulus` values: the two's
/// complement of the mask.
pub open spec fn mask_size(mask: int, modulus: int) -> int {
    modulus - mask
}

proof fn lemma_bar_bits(bar_val: u32, size_mask: u32)
    by (bit_vector)
    ensures
        ((bar_val & 1u32) != 0) == bar_is_io(bar_val),
        ((bar_val & 6u32) == 4u32) == bar_is_64bit(bar_val),
        ((bar_val & 8u32) != 0) == ((bar_val / 8) % 2 == 1),
        bar_val & 0xFFFF_FFFCu32 == bar_val - bar_val % 4,
        bar_val & 0xFFFF_FFF0u32 == bar_val - bar_val % 16,
        size_mask & 0xFFFF_FFFCu32 == size_mask - size_mask % 4,
        size_mask & 0xFFFF_FFF0u32 == size_mask - size_mask % 16,
        (bar_val & 0xFFFF_FFFCu32) as u16 == (bar_val & 0xFFFF_FFFCu32) % 0x1_0000,
{
}

/// The BAR that a non-zero register value `bar_val` and its size mask describe; `high` holds
/// the following register's value and size mask for a 64-bit memory BAR.
pub open spec fn decoded_bar(bar_val: u32, size_mask: u32, high: Option<(u32, u32)>) -> PciBar {
    let prefetchable = (bar_val / 8) % 2 == 1;
    if bar_is_io(bar_val) {
        PciBar::Io {
            port: ((bar_val - bar_val % 4) % 0x1_0000) as u16,
            size: mask_size(size_mask - size_mask % 4, usize::MAX + 1) as usize,
        }
    } else {
        match high {
            Some((hv, hm)) => PciBar::Mmio64 {
                address: (hv * 0x1_0000_0000 + bar_val - bar_val % 16) as u64,
                size: mask_size(hm * 0x1_0000_0000 + size_mask - size_mask % 16, 0x1_0000_0000_0000_0000)
                    as usize,
                prefetchable,
            },
            None => PciBar::Mmio32 {
                address: (bar_val - bar_val % 16) as u32,
                size: mask_size(size_mask - size_mask % 16, 0x1_0000_0000) as usize,
                prefetchable,
            },
        }
    }
}

impl PciBar {
    /// The second register must be read as well: BAR `bar_index` holding `bar_val` is a
    /// 64-bit memory BAR that has a following register.
    pub fn needs_high_half(bar_index: u8, bar_val: u32) -> (r: bool)
        ensures
            r == (bar_val != 0 && !bar_is_io(bar_val) && bar_is_64bit(bar_val) && bar_index < 5),
    {
        proof {
            lemma_bar_bits(bar_val, 0);
        }
        bar_val != 0 && (bar_val & 0x1) == 0 && (bar_val & 0x6) == 0x4 && bar_index < 5
    }

    /// The BAR that register `bar_index` describes, from its value `bar_val` and the value
    /// `size_mask` read back after all ones were written to it; for a 64-bit memory BAR with
    /// a following register (see `needs_high_half`), `high` holds that register's value and
    /// size mask. `None` for an unused BAR (value 0).
    pub fn decode(bar_index: u8, bar_val: u32, size_mask: u32, high: Option<(u32, u32)>) -> (r:
        Option<PciBar>)
        requires
            bar_val != 0 && bar_is_io(bar_val) ==> size_mask - size_mask % 4 != 0,
            bar_val != 0 && !bar_is_io(bar_val) && !(bar_is_64bit(bar_val) && bar_index < 5)
                ==> size_mask - size_mask % 16 != 0,
            high is Some <==> (bar_val != 0 && !bar_is_io(bar_val) && bar_is_64bit(bar_val)
                && bar_index < 5),
            high matches Some((hv, hm)) ==> hm * 0x1_0000_0000 + size_mask - size_mask % 16 != 0,
        ensures
            r == (if bar_val == 0 {
                None
            } else {
                Some(decoded_bar(bar_val, size_mask, high))
            }),
    {
        if bar_val == 0 {
            return None;
        }
        proof {
            lemma_bar_bits(bar_val, size_mask);
        }
        let is_io = (bar_val & 0x1) != 0;
        if is_io {
            let m = (size_mask & 0xFFFF_FFFC) as usize;
            let port = (bar_val & 0xFFFF_FFFC) as u16;
            return Some(PciBar::Io { port, size: usize::MAX - m + 1 });
        }
        let prefetchable = (bar_val & 0x8) != 0;
        match high {
            Some((bar_val_hi, size_mask_hi)) => {
                let lo = (bar_val & 0xFFFF_FFF0) as u64;
                let lo_mask = (size_mask & 0xFFFF_FFF0) as u64;
                let address = ((bar_val_hi as u64) << 32u64) | lo;
                let full_mask = ((size_mask_hi as u64) << 32u64) | lo_mask;
                proof {
                    lemma_join_halves(bar_val_hi as u64, lo);
                    lemma_join_halves(size_mask_hi as u64, lo_mask);
                }
                let size = u64::MAX - full_mask + 1;
                Some(PciBar::Mmio64 { address, size: size as usize, prefetchable })
            },
            None => {
                let address = bar_val & 0xFFFF_FFF0;
                let m = size_mask & 0xFFFF_FFF0;
                let size = u32::MAX - m + 1;
                Some(PciBar::Mmio32 { address, size: size as usize, prefetchable })
            },
        }
    }
}

proof fn lemma_join_halves(hi: u64, lo: u64)
    by (bit_vector)
    requires
        hi < 0x1_0000_0000,
        lo < 0x1_0000_0000,
    ensures
        (hi << 32u64) | lo == hi * 0x1_0000_0000 + lo,
{
}

/// A pattern that selects the functions a driver takes.
#[derive(Copy, Clone, Debug, PartialEq, Eq, Structural)]
pub enum PciMatcher {
    /// One device of one vendor.
    Id { vendor: u16, device: u16 },
    /// Every function of one class, subclass and programming interface.
    Class { class: u8, subclass: u8, prog_if: u8 },
}

/// `m` selects `dev`.
pub open spec fn matches_device(m: PciMatcher, dev: &PciDevice) -> bool {
    match m {
        PciMatcher::Id { vendor, device } => dev.vendor_id == vendor && dev.device_id == device,
        PciMatcher::Class { class, subclass, prog_if } => dev.class == class && dev.subclass
            == subclass && dev.prog_if == prog_if,
    }
}

impl PciMatcher {
    /// This pattern selects `dev`.
    pub fn match_pci(&self, dev: &PciDevice) -> (r: bool)
        ensures
            r == matches_device(*self, dev),
    {
        match self {
            PciMatcher::Id { vendor, device } => dev.vendor_id == *vendor && dev.device_id
                == *device,
            PciMatcher::Class { class, subclass, prog_if } => dev.class == *class && dev.subclass
                == *subclass && dev.prog_if == *prog_if,
        }
    }
}

/// A driver for PCI functions.
pub trait PciDriver: Send {
    /// A human-readable name for the driver.
    fn name(&self) -> &'static str;

    /// The patterns of the functions that this driver takes.
    fn ids(&self) -> &[PciMatcher];

    /// Takes over `device`, which one of `ids` selects: maps its BARs and initialises it.
    fn probe(&self, device: &PciDevice) -> Result<(), DriverError>;
}

/// Some function answers at the location whose register at offset 0 reads `reg0`.
pub fn function_present(reg0: u32) -> (r: bool)
    ensures
        r == (reg0 % 0x1_0000 != NO_VENDOR),
{
    proof {
        assert((reg0 & 0xFFFFu32) as u16 == reg0 % 0x1_0000) by (bit_vector);
    }
    (reg0 & 0xFFFF) as u16 != NO_VENDOR
}

/// The location that the scan of the buses reads after function `func` of slot `slot` of
/// bus `bus`, where `multi` says that a function answered there and has siblings: the
/// other functions (1 to 7) of a slot whose function 0 has siblings, else function 0 of
/// the next slot, of the next bus after slot 31; none after bus 255.
pub open spec fn scan_next(bus: u8, slot: u8, func: u8, multi: bool) -> Option<(u8, u8, u8)> {
    if func == 0 && multi {
        Some((bus, slot, 1u8))
    } else if 0 < func < 7 {
        Some((bus, slot, (func + 1) as u8))
    } else if slot < 31 {
        Some((bus, (slot + 1) as u8, 0u8))
    } else if bus < 255 {
        Some(((bus + 1) as u8, 0u8, 0u8))
    } else {
        None
    }
}

/// The position of a location in the scan order.
pub open spec fn scan_rank(bus: u8, slot: u8, func: u8) -> int {
    bus * 256 + slot * 8 + func
}

/// The scan of the PCI buses: the location whose registers are read next, until it is
/// over.
pub struct PciScan {
    pub bus: u8,
    pub slot: u8,
    pub func: u8,
    pub done: bool,
}

impl PciScan {
    /// The location is one of a slot and function number that exist.
    pub open spec fn wf(&self) -> bool {
        self.slot < 32 && self.func < 8
    }

    /// A scan that starts at function 0 of slot 0 of bus 0.
    pub fn new() -> (r: PciScan)
        ensures
            r.wf(),
            r.bus == 0 && r.slot == 0 && r.func == 0,
            !r.done,
    {
        PciScan { bus: 0, slot: 0, func: 0, done: false }
    }

    /// The bus, slot and function to read next; `None` once the scan is over.
    pub fn location(&self) -> (r: Option<(u8, u8, u8)>)
        ensures
            r == (if self.done { None } else { Some((self.bus, self.slot, self.func)) }),
    {
        if self.done {
            None
        } else {
            Some((self.bus, self.slot, self.func))
        }
    }

    /// Moves on from the current location, where `found` is what was found there (see
    /// `scan_next`); the scan is over after the last location.
    pub fn advance(&mut self, found: &Option<PciDevice>)
        requires
            old(self).wf(),
        ensures
            final(self).wf(),
            old(self).done ==> *final(self) == *old(self),
            !old(self).done ==> match scan_next(old(self).bus, old(self).slot, old(self).func, match found {
                Some(d) => d.is_multi_function,
                None => false,
            }) {
                Some((b, s, f)) => !final(self).done && final(self).bus == b && final(self).slot == s && final(self).func == f
                    && scan_rank(b, s, f) > scan_rank(old(self).bus, old(self).slot, old(self).func),
                None => final(self).done,
            },
    {
        if self.done {
            return;
        }
        let multi = match found {
            Some(d) => d.is_multi_function,
            None => false,
        };
        if self.func == 0 && multi {
            self.func = 1;
        } else if 0 < self.func && self.func < 7 {
            self.func = self.func + 1;
        } else if self.slot < 31 {
            self.slot = self.slot + 1;
            self.func = 0;
        } else if self.bus < 255 {
            self.bus = self.bus + 1;
            self.slot = 0;
            self.func = 0;
        } else {
            self.done = true;
        }
    }
}

/// The positions in the device list of `dev` (at position `i`) once for each pattern of
/// `ms` that selects it.
pub open spec fn device_plan(i: int, dev: PciDevice, ms: Seq<PciMatcher>) -> Seq<usize>
    decreases ms.len(),
{
    if ms.len() == 0 {
        Seq::empty()
    } else {
        device_plan(i, dev, ms.drop_last()) + if matches_device(ms.last(), &dev) {
            seq![i as usize]
        } else {
            Seq::empty()
        }
    }
}

/// The devices of `devs` that a driver with the patterns `ms` is offered, by position, in
/// order: each device once for each pattern that selects it.
pub open spec fn probe_plan(devs: Seq<PciDevice>, ms: Seq<PciMatcher>) -> Seq<usize>
    decreases devs.len(),
{
    if devs.len() == 0 {
        Seq::empty()
    } else {
        probe_plan(devs.drop_last(), ms) + device_plan(devs.len() - 1, devs.last(), ms)
    }
}

/// The positions in `devices` of the devices that a driver with the patterns `matchers` is
/// offered, in the order it is offered them (see `probe_plan`).
pub fn probe_targets(devices: &[PciDevice], matchers: &[PciMatcher]) -> (r: Vec<usize>)
    ensures
        r@ == probe_plan(devices@, matchers@),
        forall|m: int| 0 <= m < r@.len() ==> #[trigger] r@[m] < devices@.len(),
{
    let mut out: Vec<usize> = Vec::new();
    let mut i: usize = 0;
    proof {
        assert(devices@.take(0) =~= Seq::<PciDevice>::empty());
    }
    while i < devices.len()
        invariant
            i <= devices@.len(),
            out@ == probe_plan(devices@.take(i as int), matchers@),
            forall|m: int| 0 <= m < out@.len() ==> #[trigger] out@[m] < i,
        decreases devices@.len() - i,
    {
        let dev = &devices[i];
        let ghost before = out@;
        let mut j: usize = 0;
        proof {
            assert(matchers@.take(0) =~= Seq::<PciMatcher>::empty());
            assert(before + device_plan(i as int, *dev, matchers@.take(0)) =~= before);
        }
        while j < matchers.len()
            invariant
                j <= matchers@.len(),
                i < devices@.len(),
                *dev == devices@[i as int],
                out@ == before + device_plan(i as int, *dev, matchers@.take(j as int)),
                forall|m: int| 0 <= m < out@.len() ==> #[trigger] out@[m] <= i,
            decreases matchers@.len() - j,
        {
            proof {
                assert(matchers@.take(j + 1).drop_last() =~= matchers@.take(j as int));
            }
            if matchers[j].match_pci(dev) {
                out.push(i);
            }
            proof {
                assert(out@ =~= before + device_plan(i as int, *dev, matchers@.take(j + 1)));
            }
            j = j + 1;
        }
        proof {
            assert(matchers@.take(matchers@.len() as int) =~= matchers@);
            assert(devices@.take(i + 1).drop_last() =~= devices@.take(i as int));
            assert(devices@.take(i + 1).last() == devices@[i as int]);
        }
        i = i + 1;
    }
    proof {
        assert(devices@.take(devices@.len() as int) =~= devices@);
    }
    out
}

/// The drivers that have been registered; they stay alive here to serve their devices.
pub struct PciDriverManager {
    pub drivers: Vec<Box<dyn PciDriver>>,
}

impl PciDriverManager {
    /// A manager with no drivers.
    pub fn new() -> (r: PciDriverManager)
        ensures
            r.drivers@.len() == 0,
    {
        PciDriverManager { drivers: Vec::new() }
    }

    /// Registers `driver` after offering it the devices of `devices` that its patterns
    /// select, in the order `probe_targets` gives (each device once per selecting pattern);
    /// a failed probe is passed over.
    pub fn add_and_probe(&mut self, devices: &[PciDevice], driver: Box<dyn PciDriver>)
        ensures
            final(self).drivers@ == old(self).drivers@.push(driver),
    {
        let targets = probe_targets(devices, driver.ids());
        let mut k: usize = 0;
        while k < targets.len()
            invariant
                forall|m: int| 0 <= m < targets@.len() ==> #[trigger] targets@[m] < devices@.len(),
            decreases targets.len() - k,
        {
            let _ = driver.probe(&devices[targets[k]]);
            k = k + 1;
        }
        self.drivers.push(driver);
    }
}

impl Default for PciDriverManager {
    /// A manager with no drivers.
    fn default() -> (r: PciDriverManager)
        ensures
            r.drivers@.len() == 0,
    {
        PciDriverManager::new()
    }
}

} // verus!
