use std::sync::Arc;

use magicalos::auxvec::{AT_BASE, AT_ENTRY, AT_NULL, AT_PAGESZ, AT_PHDR, AT_PHENT, AT_PHNUM, AT_RANDOM};
use magicalos::elf::loader::{check_elf, load_elf, LoadInfo, StackBuilder};
use magicalos::elf::{
    read_u16_le, read_u32_le, read_u64_le, Elf64Header, Elf64ProgramHeader, Elf64ProgramHeaderFlag,
    Elf64ProgramHeaderType, ElfClass, ElfDataEncoding, ObjectFileType,
};
use magicalos::kernel::{USER_STACK_BOTTOM, USER_STACK_TOP};
use magicalos::memory::paging::PhysicalAddress;
use magicalos::memory::vmspace::MappingType;
use magicalos::memory::PAGE_SIZE;
use magicalos::scheduler::sched::Scheduler;
use magicalos::scheduler::task::{Task, TaskId, TaskPriority, TaskStatus};

fn put(d: &mut [u8], off: usize, bytes: &[u8]) {
    d[off..off + bytes.len()].copy_from_slice(bytes);
}

/// A small executable with one loadable segment at 0x400000.
fn image(file_type: u16) -> Vec<u8> {
    let mut d = vec![0u8; 0x100];
    put(&mut d, 0, &[0x7F, b'E', b'L', b'F', 2, 1, 1]);
    put(&mut d, 16, &file_type.to_le_bytes());
    put(&mut d, 18, &0x3Eu16.to_le_bytes());
    put(&mut d, 20, &1u32.to_le_bytes());
    put(&mut d, 24, &0x400010u64.to_le_bytes());
    put(&mut d, 32, &64u64.to_le_bytes());
    put(&mut d, 52, &64u16.to_le_bytes());
    put(&mut d, 54, &56u16.to_le_bytes());
    put(&mut d, 56, &1u16.to_le_bytes());
    // program header
    put(&mut d, 64, &1u32.to_le_bytes());
    put(&mut d, 68, &5u32.to_le_bytes());
    put(&mut d, 72, &0u64.to_le_bytes());
    put(&mut d, 80, &0x400000u64.to_le_bytes());
    put(&mut d, 88, &0x400000u64.to_le_bytes());
    put(&mut d, 96, &0x100u64.to_le_bytes());
    put(&mut d, 104, &0x2000u64.to_le_bytes());
    put(&mut d, 112, &0x1000u64.to_le_bytes());
    d
}

#[test]
fn little_endian_reads() {
    let d = [1u8, 2, 3, 4, 5, 6, 7, 8];
    assert_eq!(read_u16_le(&d, 0), 0x0201);
    assert_eq!(read_u32_le(&d, 1), 0x05040302);
    assert_eq!(read_u64_le(&d, 0), 0x0807060504030201);
}

#[test]
fn code_tables() {
    assert_eq!(ObjectFileType::from_u16(3), Some(ObjectFileType::Dynamic));
    assert_eq!(ObjectFileType::from_u16(0xFF00), Some(ObjectFileType::LOPROC));
    assert_eq!(ObjectFileType::from_u16(9), None);
    assert_eq!(Elf64ProgramHeaderType::from_u32(1), Some(Elf64ProgramHeaderType::Load));
    assert_eq!(Elf64ProgramHeaderType::from_u32(0x7FFF_FFFF), Some(Elf64ProgramHeaderType::HIPROC));
    assert_eq!(Elf64ProgramHeaderType::from_u32(7), None);
    assert_eq!(Elf64ProgramHeaderFlag::Execute.bit(), 1);
    assert_eq!(Elf64ProgramHeaderFlag::Write.bit(), 2);
    assert_eq!(Elf64ProgramHeaderFlag::Read.bit(), 4);
}

#[test]
fn header_parse() {
    let d = image(2);
    let h = Elf64Header::parse(&d).unwrap();
    assert_eq!(h.ident.magic, [0x7F, b'E', b'L', b'F']);
    assert_eq!(h.ident.elf_class, ElfClass::Class64);
    assert_eq!(h.ident.data_encoding, ElfDataEncoding::TwosLSB);
    assert_eq!(h.type_, ObjectFileType::Executable);
    assert_eq!(h.machine, 0x3E);
    assert_eq!(h.entry, 0x400010);
    assert_eq!(h.program_header_table_offset, 64);
    assert_eq!(h.program_header_table_entry_size, 56);
    assert_eq!(h.program_header_table_num_entires, 1);

    let ph = Elf64ProgramHeader::parse(&d, 64).unwrap();
    assert_eq!(ph.type_, Elf64ProgramHeaderType::Load);
    assert_eq!(ph.flags, 5);
    assert_eq!(ph.virual_address, 0x400000);
    assert_eq!(ph.file_size, 0x100);
    assert_eq!(ph.mem_size, 0x2000);

    assert!(Elf64Header::parse(&d[..40]).is_none());
    let mut bad = d.clone();
    bad[4] = 7;
    assert!(Elf64Header::parse(&bad).is_none());
    let mut bad_type = d.clone();
    put(&mut bad_type, 64, &9u32.to_le_bytes());
    assert!(Elf64ProgramHeader::parse(&bad_type, 64).is_none());
}

fn task() -> Task<u32> {
    Task::new(TaskId(1), TaskStatus::Ready, TaskPriority(1), PhysicalAddress(0), 0, 1, 2)
}

#[test]
fn load_executable_adds_stack_and_segment_areas() {
    let mut t = task();
    let elf = Arc::new(image(2));
    let info = load_elf(&mut t, &elf);
    assert_eq!(info.entry, 0x400010);
    assert_eq!(info.base_address, 0);
    assert_eq!(info.ph_off, 64);
    assert_eq!(info.ph_num, 1);
    assert_eq!(info.ph_ent, 56);

    let (start, vma) = t.vmspace.find(0x401fff).unwrap();
    assert_eq!(start, 0x400000);
    assert_eq!(vma.end, 0x402000);
    // user accessible, read-only, executable
    assert_eq!(vma.flags.bits(), 4);
    match &vma.ty {
        MappingType::Elf { data, file_offset, file_size } => {
            assert!(Arc::ptr_eq(data, &elf));
            assert_eq!(*file_offset, 0);
            assert_eq!(*file_size, 0x100);
        }
        MappingType::Anonymous => panic!("segment area is anonymous"),
    }
    let (sstart, stack) = t.vmspace.find(USER_STACK_TOP as usize - 1).unwrap();
    assert_eq!(sstart, USER_STACK_BOTTOM as usize);
    assert_eq!(stack.end, USER_STACK_TOP as usize);
    assert!(matches!(stack.ty, MappingType::Anonymous));
    assert!(t.vmspace.find(0x402000).is_none());
}

#[test]
fn load_position_independent_image_at_user_entry() {
    let mut t = task();
    let elf = Arc::new(image(3));
    let info = load_elf(&mut t, &elf);
    assert_eq!(info.base_address, 0x400000);
    assert_eq!(info.entry, 0x800010);
    let (start, _) = t.vmspace.find(0x800000).unwrap();
    assert_eq!(start, 0x800000);
}

fn qword(page: &[u8], off: usize) -> u64 {
    u64::from_le_bytes(page[off..off + 8].try_into().unwrap())
}

#[test]
fn stack_builder_pushes_downwards() {
    let top = 0x7000_0000_0000usize;
    let mut sb = StackBuilder::new(top);
    assert_eq!(sb.stack_page_addr, top - PAGE_SIZE);
    assert_eq!(sb.push_bytes(b"abc"), top - 3);
    assert_eq!(sb.push_qword(0x1122_3344_5566_7788), top - 11);
    let base = sb.stack_page_addr;
    assert_eq!(&sb.page[top - 3 - base..], b"abc");
    assert_eq!(qword(&sb.page, top - 11 - base), 0x1122_3344_5566_7788);
    sb.push_auxkv(6, 4096);
    assert_eq!(sb.rsp, top - 27);
    assert_eq!(qword(&sb.page, top - 27 - base), 6);
    assert_eq!(qword(&sb.page, top - 19 - base), 4096);
}

#[test]
fn initial_stack_layout() {
    let top = 0x7000_0000_0000usize;
    let mut sb = StackBuilder::new(top);
    let info = LoadInfo { entry: 0x400010, base_address: 0, ph_off: 64, ph_num: 1, ph_ent: 56 };
    sb.create_auxv(&info, &[b"init".to_vec()], &[]);
    assert_eq!(sb.rsp, top - 192);
    assert_eq!(sb.rsp % 16, 0);
    let p = &sb.page;
    let at = |addr: usize| addr - (top - PAGE_SIZE);
    let expected: [u64; 21] = [
        1,
        (top - 21) as u64,
        0,
        0,
        AT_PHDR,
        64,
        AT_PHENT,
        56,
        AT_PHNUM,
        1,
        AT_PAGESZ,
        4096,
        AT_BASE,
        0,
        AT_ENTRY,
        0x400010,
        AT_RANDOM,
        (top - 16) as u64,
        AT_NULL,
        0,
        0,
    ];
    for (k, v) in expected.iter().enumerate() {
        assert_eq!(qword(p, at(top - 192 + 8 * k)), *v, "qword {k}");
    }
    assert_eq!(&p[at(top - 21)..at(top - 16)], b"init\0");
    assert_eq!(
        &p[at(top - 16)..],
        &[0x00, 0x11, 0x22, 0x33, 0x44, 0x55, 0x66, 0x77, 0x88, 0x99, 0xAA, 0xBB, 0xCC, 0xDD, 0xEE, 0xFF]
    );
}

#[test]
fn initial_stack_with_environment() {
    let top = 0x7000_0000_0000usize;
    let mut sb = StackBuilder::new(top);
    let info = LoadInfo { entry: 1, base_address: 0, ph_off: 0, ph_num: 0, ph_ent: 0 };
    sb.create_auxv(&info, &[b"a".to_vec(), b"bc".to_vec()], &[b"X=1".to_vec()]);
    let p = &sb.page;
    let at = |addr: usize| addr - (top - PAGE_SIZE);
    // strings: entropy at top-16, "X=1" at top-19, "a\0" at top-21, "bc\0" at top-24
    assert_eq!(&p[at(top - 19)..at(top - 16)], b"X=1");
    assert_eq!(&p[at(top - 21)..at(top - 19)], b"a\0");
    assert_eq!(&p[at(top - 24)..at(top - 21)], b"bc\0");
    let rsp = sb.rsp;
    assert_eq!(rsp % 16, 0);
    assert_eq!(qword(p, at(rsp)), 2);
    assert_eq!(qword(p, at(rsp + 8)), (top - 24) as u64);
    assert_eq!(qword(p, at(rsp + 16)), (top - 21) as u64);
    assert_eq!(qword(p, at(rsp + 24)), 0);
    assert_eq!(qword(p, at(rsp + 32)), (top - 19) as u64);
    assert_eq!(qword(p, at(rsp + 40)), 0);
    assert_eq!(qword(p, at(rsp + 48)), AT_PHDR);
}

#[test]
fn images_are_checked_before_loading() {
    let mut t = task();
    let elf = Arc::new(image(2));
    assert!(check_elf(&t.vmspace, &elf));
    load_elf(&mut t, &elf);
    // loading it again would overlap the areas already there
    assert!(!check_elf(&t.vmspace, &elf));
    let mut bad = image(2);
    bad[1] = b'X';
    assert!(!check_elf(&task().vmspace, &Arc::new(bad)));
    let mut outside = image(2);
    put(&mut outside, 56, &9u16.to_le_bytes());
    // nine program headers do not fit in the image
    assert!(!check_elf(&task().vmspace, &Arc::new(outside)));
}

#[test]
fn program_is_loaded_into_the_running_task() {
    let mut s: Scheduler<u32> = Scheduler::new(PhysicalAddress(0));
    s.spawn(TaskPriority(1), PhysicalAddress(0), 0, 1, 2).unwrap();
    s.schedule();
    let elf = Arc::new(image(2));
    let info = s.load_program(&elf).unwrap();
    assert_eq!(info.entry, 0x400010);
    assert_eq!(info.ph_num, 1);
    // the areas are there now: a second load would overlap them
    assert!(s.load_program(&elf).is_none());
    assert!(s.load_program(&Arc::new(vec![0u8; 10])).is_none());
}

#[test]
fn initial_stack_must_fit_its_page() {
    let top = 0x7000_0000_0000usize;
    let sb = StackBuilder::new(top);
    assert!(sb.fits_auxv(&[b"init".to_vec()], &[]));
    assert!(!sb.fits_auxv(&[vec![b'a'; 4000]], &[]));
    assert!(sb.fits_auxv(&[vec![b'a'; 3000]], &[]));
    let many: Vec<Vec<u8>> = (0..600).map(|_| Vec::new()).collect();
    assert!(!sb.fits_auxv(&many, &[]));
}
