//! ELF64 images: the file and program headers, read from little-endian bytes, and the
//! loading of an image into a task's address space.
use vstd::prelude::*;

pub mod loader;

verus! {

/// The first four bytes of every ELF file.
pub const ELF_OBJECT_MAGIC: [u8; 4] = [0x7F, 0x45, 0x4C, 0x46];

/// The size of the file header in bytes.
pub const ELF64_HEADER_SIZE: usize = 64;
/// The size of a program header in bytes.
pub const ELF64_PROGRAM_HEADER_SIZE: usize = 56;

/// The little-endian 16-bit number at `o`.
pub open spec fn le_u16(d: Seq<u8>, o: int) -> int {
    d[o] + d[o + 1] * 0x100
}

/// The little-endian 32-bit number at `o`.
pub open spec fn le_u32(d: Seq<u8>, o: int) -> int {
    le_u16(d, o) + le_u16(d, o + 2) * 0x1_0000
}

/// The little-endian 64-bit number at `o`.
pub open spec fn le_u64(d: Seq<u8>, o: int) -> int {
    le_u32(d, o) + le_u32(d, o + 4) * 0x1_0000_0000
}

/// The little-endian 16-bit number at `off` of `data`.
pub fn read_u16_le(data: &[u8], off: usize) -> (r: u16)
    requires
        off + 2 <= data.len(),
    ensures
        r == le_u16(data@, off as int),
{
    data[off] as u16 + data[off + 1] as u16 * 0x100
}

/// The little-endian 32-bit number at `off` of `data`.
pub fn read_u32_le(data: &[u8], off: usize) -> (r: u32)
    requires
        off + 4 <= data.len(),
    ensures
        r == le_u32(data@, off as int),
{
    let lo = read_u16_le(data, off);
    let hi = read_u16_le(data, off + 2);
    lo as u32 + hi as u32 * 0x1_0000
}

/// The little-endian 64-bit number at `off` of `data`.
pub fn read_u64_le(data: &[u8], off: usize) -> (r: u64)
    requires
        off + 8 <= data.len(),
    ensures
        r == le_u64(data@, off as int),
{
    let lo = read_u32_le(data, off);
    let hi = read_u32_le(data, off + 4);
    lo as u64 + hi as u64 * 0x1_0000_0000
}

/// The type of an object file.
#[derive(Debug, Clone, Copy, PartialEq, Eq, Structural)]
pub enum ObjectFileType {
    /// No file type.
    NoType,
    /// Relocatable file.
    Relocatable,
    /// Absolute executable.
    Executable,
    /// Position independent.
    Dynamic,
    /// Core file.
    Core,
    /// Processor-specific.
    LOPROC,
    /// Processor-specific.
    HIPROC,
}

/// The file type whose code is `v`.
pub open spec fn object_file_type_of(v: int) -> Option<ObjectFileType> {
    if v == 0 {
        Some(ObjectFileType::NoType)
    } else if v == 1 {
        Some(ObjectFileType::Relocatable)
    } else if v == 2 {
        Some(ObjectFileType::Executable)
    } else if v == 3 {
        Some(ObjectFileType::Dynamic)
    } else if v == 4 {
        Some(ObjectFileType::Core)
    } else if v == 0xFF00 {
        Some(ObjectFileType::LOPROC)
    } else if v == 0xFFFF {
        Some(ObjectFileType::HIPROC)
    } else {
        None
    }
}

impl ObjectFileType {
    /// The file type whose code is `v`, if there is one.
    pub fn from_u16(v: u16) -> (r: Option<ObjectFileType>)
        ensures
            r == object_file_type_of(v as int),
    {
        match v {
            0 => Some(ObjectFileType::NoType),
            1 => Some(ObjectFileType::Relocatable),
            2 => Some(ObjectFileType::Executable),
            3 => Some(ObjectFileType::Dynamic),
            4 => Some(ObjectFileType::Core),
            0xFF00 => Some(ObjectFileType::LOPROC),
            0xFFFF => Some(ObjectFileType::HIPROC),
            _ => None,
        }
    }
}

/// How multi-byte values are laid out.
#[derive(Debug, Clone, Copy, PartialEq, Eq, Structural)]
pub enum ElfDataEncoding {
    /// Invalid encoding.
    Invalid,
    /// Two's complement, least significant byte first.
    TwosLSB,
    /// Two's complement, most significant byte first.
    TwosMsb,
}

/// The data encoding whose code is `v`.
pub open spec fn data_encoding_of(v: int) -> Option<ElfDataEncoding> {
    if v == 0 {
        Some(ElfDataEncoding::Invalid)
    } else if v == 1 {
        Some(ElfDataEncoding::TwosLSB)
    } else if v == 2 {
        Some(ElfDataEncoding::TwosMsb)
    } else {
        None
    }
}

/// The word size of the file.
#[derive(Debug, Clone, Copy, PartialEq, Eq, Structural)]
pub enum ElfClass {
    /// Invalid class.
    Invalid,
    Class32,
    Class64,
}

/// The class whose code is `v`.
pub open spec fn elf_class_of(v: int) -> Option<ElfClass> {
    if v == 0 {
        Some(ElfClass::Invalid)
    } else if v == 1 {
        Some(ElfClass::Class32)
    } else if v == 2 {
        Some(ElfClass::Class64)
    } else {
        None
    }
}

/// The identification bytes at the start of the file.
#[derive(Debug, Clone, Copy)]
pub struct Identification {
    pub magic: [u8; 4],
    pub elf_class: ElfClass,
    pub data_encoding: ElfDataEncoding,
    /// The version of the format; currently 1.
    pub version: u8,
    pub padding: [u8; 9],
}

/// The kind of a program header.
#[derive(Debug, Clone, Copy, PartialEq, Eq, Structural)]
pub enum Elf64ProgramHeaderType {
    Null,
    /// Loadable segment.
    Load,
    /// Dynamic linking information.
    Dynamic,
    /// Path name of the program interpreter.
    Interpreter,
    /// Auxiliary information.
    Note,
    /// Reserved.
    Shlib,
    /// The program header table itself.
    ProgramHeaderTable,
    /// Processor-specific.
    LOPROC,
    /// Processor-specific.
    HIPROC,
}

/// The program header type whose code is `v`.
pub open spec fn program_header_type_of(v: int) -> Option<Elf64ProgramHeaderType> {
    if v == 0 {
        Some(Elf64ProgramHeaderType::Null)
    } else if v == 1 {
        Some(Elf64ProgramHeaderType::Load)
    } else if v == 2 {
        Some(Elf64ProgramHeaderType::Dynamic)
    } else if v == 3 {
        Some(Elf64ProgramHeaderType::Interpreter)
    } else if v == 4 {
        Some(Elf64ProgramHeaderType::Note)
    } else if v == 5 {
        Some(Elf64ProgramHeaderType::Shlib)
    } else if v == 6 {
        Some(Elf64ProgramHeaderType::ProgramHeaderTable)
    } else if v == 0x7000_0000 {
        Some(Elf64ProgramHeaderType::LOPROC)
    } else if v == 0x7FFF_FFFF {
        Some(Elf64ProgramHeaderType::HIPROC)
    } else {
        None
    }
}

impl Elf64ProgramHeaderType {
    /// The program header type whose code is `v`, if there is one.
    pub fn from_u32(v: u32) -> (r: Option<Elf64ProgramHeaderType>)
        ensures
            r == program_header_type_of(v as int),
    {
        match v {
            0 => Some(Elf64ProgramHeaderType::Null),
            1 => Some(Elf64ProgramHeaderType::Load),
            2 => Some(Elf64ProgramHeaderType::Dynamic),
            3 => Some(Elf64ProgramHeaderType::Interpreter),
            4 => Some(Elf64ProgramHeaderType::Note),
            5 => Some(Elf64ProgramHeaderType::Shlib),
            6 => Some(Elf64ProgramHeaderType::ProgramHeaderTable),
            0x7000_0000 => Some(Elf64ProgramHeaderType::LOPROC),
            0x7FFF_FFFF => Some(Elf64ProgramHeaderType::HIPROC),
            _ => None,
        }
    }
}

/// The permission bits of a segment.
#[derive(Debug, Clone, Copy, PartialEq, Eq, Structural)]
pub enum Elf64ProgramHeaderFlag {
    Execute,
    Write,
    Read,
}

impl Elf64ProgramHeaderFlag {
    /// The bit of this permission in a program header's flags.
    pub fn bit(&self) -> (r: u32)
        ensures
            r == match *self {
                Elf64ProgramHeaderFlag::Execute => 1u32,
                Elf64ProgramHeaderFlag::Write => 2u32,
                Elf64ProgramHeaderFlag::Read => 4u32,
            },
    {
        match self {
            Elf64ProgramHeaderFlag::Execute => 1,
            Elf64ProgramHeaderFlag::Write => 2,
            Elf64ProgramHeaderFlag::Read => 4,
        }
    }
}

/// A program header: one segment of the image.
#[derive(Debug, Clone, Copy)]
pub struct Elf64ProgramHeader {
    pub type_: Elf64ProgramHeaderType,
    pub flags: u32,
    /// The offset in the file of the first byte of the segment.
    pub offset: u64,
    /// The virtual address of the first byte of the segment.
    pub virual_address: u64,
    pub physical_address: u64,
    /// The number of bytes of the segment in the file; may be zero.
    pub file_size: u64,
    /// The number of bytes of the segment in memory; may be zero.
    pub mem_size: u64,
    pub alignment: u64,
}

/// The program header at `o` describes a loadable segment.
pub open spec fn is_load_header(d: Seq<u8>, o: int) -> bool {
    le_u32(d, o) == 1
}

impl Elf64ProgramHeader {
    /// The program header stored at `off` of `data`; `None` when its type is not one that
    /// this loader knows.
    pub fn parse(data: &[u8], off: usize) -> (r: Option<Elf64ProgramHeader>)
        requires
            off + ELF64_PROGRAM_HEADER_SIZE <= data.len(),
        ensures
            r is Some <==> program_header_type_of(le_u32(data@, off as int)) is Some,
            r matches Some(h) ==> {
                &&& Some(h.type_) == program_header_type_of(le_u32(data@, off as int))
                &&& h.flags == le_u32(data@, off + 4)
                &&& h.offset == le_u64(data@, off + 8)
                &&& h.virual_address == le_u64(data@, off + 16)
                &&& h.physical_address == le_u64(data@, off + 24)
                &&& h.file_size == le_u64(data@, off + 32)
                &&& h.mem_size == le_u64(data@, off + 40)
                &&& h.alignment == le_u64(data@, off + 48)
            },
    {
        match Elf64ProgramHeaderType::from_u32(read_u32_le(data, off)) {
            Some(type_) => Some(Elf64ProgramHeader {
                type_,
                flags: read_u32_le(data, off + 4),
                offset: read_u64_le(data, off + 8),
                virual_address: read_u64_le(data, off + 16),
                physical_address: read_u64_le(data, off + 24),
                file_size: read_u64_le(data, off + 32),
                mem_size: read_u64_le(data, off + 40),
                alignment: read_u64_le(data, off + 48),
            }),
            None => None,
        }
    }
}

/// The file header.
#[derive(Debug, Clone, Copy)]
pub struct Elf64Header {
    pub ident: Identification,
    pub type_: ObjectFileType,
    pub machine: u16,
    /// Must be 1.
    pub version: u32,
    /// The virtual address where the program starts; zero when it has none.
    pub entry: u64,
    pub program_header_table_offset: u64,
    pub section_header_table_offset: u64,
    /// Processor-specific flags.
    pub flags: u32,
    pub elf_header_size: u16,
    /// The size of each program header.
    pub program_header_table_entry_size: u16,
    pub program_header_table_num_entires: u16,
    /// The size of each section header.
    pub section_header_size: u16,
    /// The number of section headers.
    pub section_header_table_entires: u16,
    /// The index of the section header of the section name string table.
    pub section_header_string_table_index: u16,
}

/// `data` holds a file header whose class, encoding and type are defined values.
pub open spec fn header_valid(d: Seq<u8>) -> bool {
    &&& d.len() >= ELF64_HEADER_SIZE
    &&& elf_class_of(d[4] as int) is Some
    &&& data_encoding_of(d[5] as int) is Some
    &&& object_file_type_of(le_u16(d, 16)) is Some
}

/// The file starts with the ELF magic bytes.
pub open spec fn has_elf_magic(d: Seq<u8>) -> bool {
    &&& d.len() >= 4
    &&& d[0] == 0x7F && d[1] == 0x45 && d[2] == 0x4C && d[3] == 0x46
}

impl Elf64Header {
    /// The header at the start of `data`; `None` when `data` is shorter than a header or the
    /// class, data encoding or file type is not a defined value.
    pub fn parse(data: &[u8]) -> (r: Option<Elf64Header>)
        ensures
            r is Some <==> header_valid(data@),
            r matches Some(h) ==> {
                let d = data@;
                &&& h.ident.magic@ == d.subrange(0, 4)
                &&& Some(h.ident.elf_class) == elf_class_of(d[4] as int)
                &&& Some(h.ident.data_encoding) == data_encoding_of(d[5] as int)
                &&& h.ident.version == d[6]
                &&& h.ident.padding@ == d.subrange(7, 16)
                &&& Some(h.type_) == object_file_type_of(le_u16(d, 16))
                &&& h.machine == le_u16(d, 18)
                &&& h.version == le_u32(d, 20)
                &&& h.entry == le_u64(d, 24)
                &&& h.program_header_table_offset == le_u64(d, 32)
                &&& h.section_header_table_offset == le_u64(d, 40)
                &&& h.flags == le_u32(d, 48)
                &&& h.elf_header_size == le_u16(d, 52)
                &&& h.program_header_table_entry_size == le_u16(d, 54)
                &&& h.program_header_table_num_entires == le_u16(d, 56)
                &&& h.section_header_size == le_u16(d, 58)
                &&& h.section_header_table_entires == le_u16(d, 60)
                &&& h.section_header_string_table_index == le_u16(d, 62)
            },
    {
        if data.len() < ELF64_HEADER_SIZE {
            return None;
        }
        let elf_class = match data[4] {
            0 => ElfClass::Invalid,
            1 => ElfClass::Class32,
            2 => ElfClass::Class64,
            _ => {
                return None;
            },
        };
        let data_encoding = match data[5] {
            0 => ElfDataEncoding::Invalid,
            1 => ElfDataEncoding::TwosLSB,
            2 => ElfDataEncoding::TwosMsb,
            _ => {
                return None;
            },
        };
        let type_ = match ObjectFileType::from_u16(read_u16_le(data, 16)) {
            Some(t) => t,
            None => {
                return None;
            },
        };
        let magic = [data[0], data[1], data[2], data[3]];
        let padding = [data[7], data[8], data[9], data[10], data[11], data[12], data[13], data[14], data[15]];
        proof {
            assert(magic@ =~= data@.subrange(0, 4));
            assert(padding@ =~= data@.subrange(7, 16));
        }
        Some(Elf64Header {
            ident: Identification { magic, elf_class, data_encoding, version: data[6], padding },
            type_,
            machine: read_u16_le(data, 18),
            version: read_u32_le(data, 20),
            entry: read_u64_le(data, 24),
            program_header_table_offset: read_u64_le(data, 32),
            section_header_table_offset: read_u64_le(data, 40),
            flags: read_u32_le(data, 48),
            elf_header_size: read_u16_le(data, 52),
            program_header_table_entry_size: read_u16_le(data, 54),
            program_header_table_num_entires: read_u16_le(data, 56),
            section_header_size: read_u16_le(data, 58),
            section_header_table_entires: read_u16_le(data, 60),
            section_header_string_table_index: read_u16_le(data, 62),
        })
    }
}

} // verus!
