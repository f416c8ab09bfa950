//! Loading an ELF image into a task's address space.
use vstd::prelude::*;
use std::sync::Arc;

use crate::elf::{
    header_valid, has_elf_magic, is_load_header, le_u16, le_u32, le_u64, read_u32_le, read_u64_le, Elf64Header,
    Elf64ProgramHeader, Elf64ProgramHeaderType, ObjectFileType, ELF64_PROGRAM_HEADER_SIZE,
};
use crate::kernel::{USER_ENTRY, USER_STACK_BOTTOM, USER_STACK_TOP};
use crate::memory::PAGE_SIZE;
use crate::memory::paging::PageTableEntryFlags;
use crate::memory::vmspace::{areas_ordered, overlaps, MappingType, Vma, VmSpace};
use crate::scheduler::task::Task;
use crate::utils::{align_down, align_down_spec, align_up, align_up_spec};
use crate::auxvec::{AT_BASE, AT_ENTRY, AT_NULL, AT_PAGESZ, AT_PHDR, AT_PHENT, AT_PHNUM, AT_RANDOM};
use vstd::multiset::Multiset;

verus! {

broadcast use vstd::seq_lib::group_to_multiset_ensures, vstd::multiset::group_multiset_axioms;

/// Where a loaded image was put: its entry point, the address it was loaded at, and where
/// its program headers are.
#[derive(Debug, Clone, Copy)]
pub struct LoadInfo {
    pub entry: usize,
    pub base_address: usize,
    pub ph_off: usize,
    pub ph_num: usize,
    pub ph_ent: usize,
}

/// The raw bits of `USER_ACCESSIBLE | WRITABLE | NO_EXECUTE`.
pub const USER_DATA_FLAG_BITS: u64 = 0x8000_0000_0000_0006;

/// The page flags of a segment with ELF permission bits `p_flags`: user accessible, writable
/// if the segment is, and not executable unless it is.
pub open spec fn segment_flag_bits(p_flags: int) -> u64 {
    (PageTableEntryFlags::USER_ACCESSIBLE + (if (p_flags / 2) % 2 == 1 {
        PageTableEntryFlags::WRITABLE
    } else {
        0
    }) + (if p_flags % 2 == 0 {
        PageTableEntryFlags::NO_EXECUTE
    } else {
        0
    })) as u64
}

/// The area of the user stack.
pub open spec fn stack_area() -> (usize, Vma) {
    (
        USER_STACK_BOTTOM as usize,
        Vma {
            end: USER_STACK_TOP as usize,
            flags: PageTableEntryFlags::with_spec_bits(USER_DATA_FLAG_BITS),
            ty: MappingType::Anonymous,
        },
    )
}

/// The address at which an image is loaded: position-independent ones at `USER_ENTRY`,
/// others where they say.
pub open spec fn elf_base(d: Seq<u8>) -> int {
    if le_u16(d, 16) == 3 {
        USER_ENTRY as usize as int
    } else {
        0
    }
}

/// The offset of program header `i`.
pub open spec fn ph_offset(d: Seq<u8>, i: int) -> int {
    (le_u64(d, 32) as usize) + i * le_u16(d, 54)
}

/// The number of program headers.
pub open spec fn ph_count(d: Seq<u8>) -> int {
    le_u16(d, 56)
}

/// The area that maps a loadable segment with virtual address `vaddr`, `mem_size` bytes in
/// memory, `file_size` bytes in the file at `offset` and permission bits `p_flags`, in an
/// image loaded at `base`: whole pages from the one holding its first byte to the one
/// holding its last, backed by the file from the start of the first page on.
pub open spec fn area_of(
    elf: Arc<Vec<u8>>,
    base: int,
    vaddr: u64,
    mem_size: u64,
    offset: u64,
    file_size: u64,
    p_flags: u32,
) -> (usize, Vma) {
    let va = base + (vaddr as usize);
    let misalign = va % PAGE_SIZE as int;
    (
        (va - misalign) as usize,
        Vma {
            end: align_up_spec(va + (mem_size as usize), PAGE_SIZE as int) as usize,
            flags: PageTableEntryFlags::with_spec_bits(segment_flag_bits(p_flags as int)),
            ty: MappingType::Elf {
                data: elf,
                file_offset: ((offset as usize) - misalign) as usize,
                file_size: ((file_size as usize) + misalign) as usize,
            },
        },
    )
}

/// The arithmetic of such a segment stays within `usize` and its area is not empty.
pub open spec fn area_ok(base: int, vaddr: u64, mem_size: u64, offset: u64, file_size: u64) -> bool {
    let va = base + (vaddr as usize);
    let misalign = va % PAGE_SIZE as int;
    &&& va + (mem_size as usize) + PAGE_SIZE - 1 <= usize::MAX
    &&& (offset as usize) >= misalign
    &&& (file_size as usize) + misalign <= usize::MAX
    &&& va - misalign < align_up_spec(va + (mem_size as usize), PAGE_SIZE as int)
}

/// The area of the loadable segment of the program header at `o`.
pub open spec fn segment_area(d: Seq<u8>, elf: Arc<Vec<u8>>, base: int, o: int) -> (usize, Vma) {
    area_of(elf, base, le_u64(d, o + 16) as u64, le_u64(d, o + 40) as u64, le_u64(d, o + 8) as u64,
        le_u64(d, o + 32) as u64, le_u32(d, o + 4) as u32)
}

/// The arithmetic of the segment of the program header at `o` stays within `usize` and its
/// area is not empty.
pub open spec fn segment_ok(d: Seq<u8>, base: int, o: int) -> bool {
    area_ok(base, le_u64(d, o + 16) as u64, le_u64(d, o + 40) as u64, le_u64(d, o + 8) as u64,
        le_u64(d, o + 32) as u64)
}

/// The areas of the loadable segments among the first `n` program headers, in order.
pub open spec fn load_areas(d: Seq<u8>, elf: Arc<Vec<u8>>, base: int, n: nat) -> Seq<(usize, Vma)>
    decreases n,
{
    if n == 0 {
        Seq::empty()
    } else {
        let prev = load_areas(d, elf, base, (n - 1) as nat);
        let o = ph_offset(d, n - 1);
        if is_load_header(d, o) {
            prev.push(segment_area(d, elf, base, o))
        } else {
            prev
        }
    }
}

/// Every area that loading the image adds: the user stack, then the loadable segments.
pub open spec fn elf_areas(d: Seq<u8>, elf: Arc<Vec<u8>>) -> Seq<(usize, Vma)> {
    seq![stack_area()] + load_areas(d, elf, elf_base(d), ph_count(d) as nat)
}

/// No two areas of `s` share an address.
pub open spec fn areas_disjoint(s: Seq<(usize, Vma)>) -> bool {
    forall|i: int, j: int|
        0 <= i < j < s.len() ==> (#[trigger] s[i]).1.end <= (#[trigger] s[j]).0 || s[j].1.end <= s[i].0
}

/// The image `d` can be loaded into the areas `vm`: it has a valid header, its program
/// headers lie within it, the arithmetic of its entry point and segments stays within
/// `usize`, and the areas it adds are not empty and share no address with each other or
/// with `vm`.
pub open spec fn elf_loadable(vm: Seq<(usize, Vma)>, d: Seq<u8>, elf: Arc<Vec<u8>>) -> bool {
    let base = elf_base(d);
    let areas = elf_areas(d, elf);
    &&& header_valid(d)
    &&& has_elf_magic(d)
    &&& base + (le_u64(d, 24) as usize) <= usize::MAX
    &&& forall|i: int| 0 <= i < ph_count(d) ==> #[trigger] ph_offset(d, i) + ELF64_PROGRAM_HEADER_SIZE <= d.len()
    &&& forall|i: int|
        0 <= i < ph_count(d) && is_load_header(d, #[trigger] ph_offset(d, i)) ==> segment_ok(d, base, ph_offset(d, i))
    &&& areas_ordered(vm)
    &&& forall|j: int| 0 <= j < areas.len() ==> (#[trigger] areas[j]).0 < areas[j].1.end && !overlaps(vm, areas[j].0 as int, areas[j].1.end as int)
    &&& areas_disjoint(areas)
}

/// Another handle to the same image (`Arc::clone`).
#[verifier::external_body]
fn share_image(elf: &Arc<Vec<u8>>) -> (r: Arc<Vec<u8>>)
    ensures
        r == *elf,
{
    Arc::clone(elf)
}

proof fn lemma_flag_bits(f: u32, bits: u64)
    by (bit_vector)
    requires
        bits == 4 || bits == 6 || bits == 0x8000_0000_0000_0004 || bits == 0x8000_0000_0000_0006,
    ensures
        (f & 2u32 != 0) == ((f / 2) % 2 == 1),
        (f & 1u32 == 0) == (f % 2 == 0),
        bits & 0x8000_0000_0000_01FFu64 == bits,
{
}

/// The page permissions of a loadable segment's area follow the segment's ELF permission
/// bits: the area is user accessible; writable exactly when `p_flags` has `PF_W` (bit 1);
/// not executable (`NO_EXECUTE`, bit 63) exactly when `p_flags` lacks `PF_X` (bit 0); and it
/// holds no other flag. A read-write data segment (`p_flags = 6`) thus gets the bits
/// `0x8000_0000_0000_0006`, and a read-execute text segment (`p_flags = 5`) the bits `0x4`.
pub proof fn lemma_segment_permissions(
    elf: Arc<Vec<u8>>,
    base: int,
    vaddr: u64,
    mem_size: u64,
    offset: u64,
    file_size: u64,
    p_flags: u32,
)
    ensures
        ({
            let bits = area_of(elf, base, vaddr, mem_size, offset, file_size, p_flags).1.flags.spec_bits();
            &&& (bits & 0x8000_0000_0000_0000u64 != 0) == (p_flags & 1u32 == 0)
            &&& (bits & 2u64 != 0) == (p_flags & 2u32 != 0)
            &&& bits & 4u64 != 0
            &&& bits & !0x8000_0000_0000_0006u64 == 0
        }),
{
    let sb = segment_flag_bits(p_flags as int);
    PageTableEntryFlags::lemma_with_spec_bits(PageTableEntryFlags::with_spec_bits(sb), sb);
    assert(sb == 4u64 || sb == 6u64 || sb == 0x8000_0000_0000_0004u64 || sb == 0x8000_0000_0000_0006u64);
    lemma_flag_bits(p_flags, sb);
    if sb == 4u64 {
        assert(p_flags % 2 == 1 && (p_flags / 2) % 2 != 1);
        assert(sb & 0x8000_0000_0000_0000u64 == 0 && sb & 2u64 == 0 && sb & 4u64 != 0 && sb & !0x8000_0000_0000_0006u64 == 0) by (bit_vector)
            requires sb == 4u64;
    } else if sb == 6u64 {
        assert(p_flags % 2 == 1 && (p_flags / 2) % 2 == 1);
        assert(sb & 0x8000_0000_0000_0000u64 == 0 && sb & 2u64 != 0 && sb & 4u64 != 0 && sb & !0x8000_0000_0000_0006u64 == 0) by (bit_vector)
            requires sb == 6u64;
    } else if sb == 0x8000_0000_0000_0004u64 {
        assert(p_flags % 2 == 0 && (p_flags / 2) % 2 != 1);
        assert(sb & 0x8000_0000_0000_0000u64 != 0 && sb & 2u64 == 0 && sb & 4u64 != 0 && sb & !0x8000_0000_0000_0006u64 == 0) by (bit_vector)
            requires sb == 0x8000_0000_0000_0004u64;
    } else {
        assert(p_flags % 2 == 0 && (p_flags / 2) % 2 == 1);
        assert(sb & 0x8000_0000_0000_0000u64 != 0 && sb & 2u64 != 0 && sb & 4u64 != 0 && sb & !0x8000_0000_0000_0006u64 == 0) by (bit_vector)
            requires sb == 0x8000_0000_0000_0006u64;
    }
}

/// Adds to `task` the area that maps the loadable segment `phdr` of the image `elf_arc`
/// loaded at `base_address`.
pub fn map_segment<H>(base_address: usize, elf_arc: &Arc<Vec<u8>>, task: &mut Task<H>, phdr: Elf64ProgramHeader)
    requires
        area_ok(base_address as int, phdr.virual_address, phdr.mem_size, phdr.offset, phdr.file_size),
        areas_ordered(old(task).vmspace@),
        ({
            let a = area_of(*elf_arc, base_address as int, phdr.virual_address, phdr.mem_size,
                phdr.offset, phdr.file_size, phdr.flags);
            !overlaps(old(task).vmspace@, a.0 as int, a.1.end as int)
        }),
    ensures
        final(task).vmspace@.to_multiset() == old(task).vmspace@.to_multiset().insert(
            area_of(*elf_arc, base_address as int, phdr.virual_address, phdr.mem_size,
                phdr.offset, phdr.file_size, phdr.flags),
        ),
        areas_ordered(final(task).vmspace@),
        final(task).id == old(task).id,
        final(task).priority == old(task).priority,
        final(task).status == old(task).status,
        final(task).last_stack_ptr == old(task).last_stack_ptr,
        final(task).stack == old(task).stack,
        final(task).root_page_table == old(task).root_page_table,
        final(task).fd_map == old(task).fd_map,
{
    let ghost a = area_of(*elf_arc, base_address as int, phdr.virual_address, phdr.mem_size,
        phdr.offset, phdr.file_size, phdr.flags);
    let vaddr = base_address + phdr.virual_address as usize;
    let mem_size = phdr.mem_size as usize;
    let file_size = phdr.file_size as usize;
    let file_offset = phdr.offset as usize;
    let misalign = vaddr % PAGE_SIZE;
    let start_page = vaddr - misalign;
    let end_page = align_up(vaddr + mem_size, PAGE_SIZE);
    let aligned_file_offset = file_offset - misalign;
    let aligned_file_size = file_size + misalign;
    let mut bits: u64 = PageTableEntryFlags::USER_ACCESSIBLE;
    if phdr.flags & crate::elf::Elf64ProgramHeaderFlag::Write.bit() != 0 {
        bits = bits + PageTableEntryFlags::WRITABLE;
    }
    if phdr.flags & crate::elf::Elf64ProgramHeaderFlag::Execute.bit() == 0 {
        bits = bits + PageTableEntryFlags::NO_EXECUTE;
    }
    proof {
        lemma_flag_bits(phdr.flags, bits);
    }
    let flags = PageTableEntryFlags::from_bits_truncate(bits);
    proof {
        PageTableEntryFlags::lemma_with_spec_bits(flags, segment_flag_bits(phdr.flags as int));
    }
    let data = share_image(elf_arc);
    let ghost before = task.vmspace@;
    let res = task.vmspace.insert(
        start_page,
        end_page,
        flags,
        MappingType::Elf { data, file_offset: aligned_file_offset, file_size: aligned_file_size },
    );
    proof {
        assert(res is Ok);
        let pos = choose|pos: int| 0 <= pos <= before.len() && task.vmspace@ == before.insert(pos, (start_page, Vma { end: end_page, flags, ty: MappingType::Elf { data, file_offset: aligned_file_offset, file_size: aligned_file_size } }));
        assert((start_page, Vma { end: end_page, flags, ty: MappingType::Elf { data, file_offset: aligned_file_offset, file_size: aligned_file_size } }) == a);
    }
}

proof fn lemma_load_areas_prefix(d: Seq<u8>, elf: Arc<Vec<u8>>, base: int, i: nat, n: nat)
    requires
        i <= n,
    ensures
        load_areas(d, elf, base, i).len() <= load_areas(d, elf, base, n).len(),
        load_areas(d, elf, base, n).subrange(0, load_areas(d, elf, base, i).len() as int)
            == load_areas(d, elf, base, i),
        i < n && is_load_header(d, ph_offset(d, i as int)) ==> load_areas(d, elf, base, i).len()
            < load_areas(d, elf, base, n).len() && load_areas(d, elf, base, n)[load_areas(d, elf, base, i).len() as int]
            == segment_area(d, elf, base, ph_offset(d, i as int)),
    decreases n,
{
    if i < n {
        lemma_load_areas_prefix(d, elf, base, i, (n - 1) as nat);
        let li = load_areas(d, elf, base, i);
        let lp = load_areas(d, elf, base, (n - 1) as nat);
        let ln = load_areas(d, elf, base, n);
        if is_load_header(d, ph_offset(d, n - 1)) {
            assert(ln.subrange(0, lp.len() as int) =~= lp);
            assert(ln.subrange(0, li.len() as int) =~= lp.subrange(0, li.len() as int));
        }
        if i == n - 1 && is_load_header(d, ph_offset(d, i as int)) {
            assert(ln[li.len() as int] == segment_area(d, elf, base, ph_offset(d, i as int)));
        } else if is_load_header(d, ph_offset(d, i as int)) {
            if is_load_header(d, ph_offset(d, n - 1)) {
                assert(ln[li.len() as int] == lp[li.len() as int]);
            }
        }
    } else {
        assert(load_areas(d, elf, base, n).subrange(0, load_areas(d, elf, base, n).len() as int)
            =~= load_areas(d, elf, base, n));
    }
}

proof fn lemma_no_overlap(cur: Seq<(usize, Vma)>, old_vm: Seq<(usize, Vma)>, all: Seq<(usize, Vma)>, k: int)
    requires
        0 <= k < all.len(),
        cur.to_multiset() == old_vm.to_multiset().add(all.subrange(0, k).to_multiset()),
        !overlaps(old_vm, all[k].0 as int, all[k].1.end as int),
        areas_disjoint(all),
    ensures
        !overlaps(cur, all[k].0 as int, all[k].1.end as int),
{
    let a = all[k];
    let prefix = all.subrange(0, k);
    assert forall|m: int| 0 <= m < cur.len() implies !((#[trigger] cur[m]).0 < a.1.end && a.0 < cur[m].1.end) by {
        let x = cur[m];
        assert(cur.contains(x));
        assert(cur.to_multiset().count(x) > 0);
        if old_vm.to_multiset().count(x) > 0 {
            assert(old_vm.contains(x));
            let mm = choose|mm: int| 0 <= mm < old_vm.len() && old_vm[mm] == x;
            assert(!(old_vm[mm].0 < a.1.end && a.0 < old_vm[mm].1.end));
        } else {
            assert(prefix.to_multiset().count(x) > 0);
            assert(prefix.contains(x));
            let j = choose|j: int| 0 <= j < prefix.len() && prefix[j] == x;
            assert(all[j] == x);
            assert(all[j].1.end <= all[k].0 || all[k].1.end <= all[j].0);
        }
    }
}

/// Where an image is put: its entry point and base address, and where its program headers
/// are.
pub open spec fn load_info(d: Seq<u8>) -> LoadInfo {
    LoadInfo {
        entry: (elf_base(d) + (le_u64(d, 24) as usize)) as usize,
        base_address: elf_base(d) as usize,
        ph_off: le_u64(d, 32) as usize,
        ph_num: ph_count(d) as usize,
        ph_ent: le_u16(d, 54) as usize,
    }
}

/// Loads the image `elf_data` into `task`: adds the user stack area and an area for each
/// loadable segment, and says where the entry point and program headers are.
/// Position-independent images are loaded at `USER_ENTRY`, others where their segments say.
pub fn load_elf<H>(task: &mut Task<H>, elf_data: &Arc<Vec<u8>>) -> (r: LoadInfo)
    requires
        elf_loadable(old(task).vmspace@, (**elf_data)@, *elf_data),
    ensures
        r == load_info((**elf_data)@),
        final(task).vmspace@.to_multiset() == old(task).vmspace@.to_multiset().add(
            elf_areas((**elf_data)@, *elf_data).to_multiset(),
        ),
        areas_ordered(final(task).vmspace@),
        final(task).id == old(task).id,
        final(task).priority == old(task).priority,
        final(task).status == old(task).status,
        final(task).last_stack_ptr == old(task).last_stack_ptr,
        final(task).stack == old(task).stack,
        final(task).root_page_table == old(task).root_page_table,
        final(task).fd_map == old(task).fd_map,
{
    let ghost d = (**elf_data)@;
    let ghost elf = *elf_data;
    let ghost old_vm = task.vmspace@;
    let ghost all = elf_areas(d, elf);
    let data: &[u8] = elf_data.as_slice();
    let header = match Elf64Header::parse(data) {
        Some(h) => h,
        None => {
            return LoadInfo { entry: 0, base_address: 0, ph_off: 0, ph_num: 0, ph_ent: 0 };
        },
    };
    proof {
        lemma_flag_bits(0, USER_DATA_FLAG_BITS);
    }
    let stack_flags = PageTableEntryFlags::from_bits_truncate(USER_DATA_FLAG_BITS);
    proof {
        PageTableEntryFlags::lemma_with_spec_bits(stack_flags, USER_DATA_FLAG_BITS);
        assert(all[0] == stack_area());
    }
    let res = task.vmspace.insert(USER_STACK_BOTTOM as usize, USER_STACK_TOP as usize, stack_flags, MappingType::Anonymous);
    proof {
        assert(res is Ok);
        let pos = choose|pos: int| 0 <= pos <= old_vm.len() && task.vmspace@ == old_vm.insert(pos, stack_area());
        assert(all.subrange(0, 1) =~= seq![stack_area()]);
        assert(seq![stack_area()] + load_areas(d, elf, elf_base(d), 0) =~= seq![stack_area()]);
        assert(seq![stack_area()].to_multiset() =~= Multiset::empty().insert(stack_area()));
        assert(task.vmspace@.to_multiset() =~= old_vm.to_multiset().add(seq![stack_area()].to_multiset()));
    }
    let base_address: usize = if header.type_ == ObjectFileType::Dynamic {
        USER_ENTRY as usize
    } else {
        0
    };
    let entry = base_address + header.entry as usize;
    let ph_off = header.program_header_table_offset as usize;
    let ph_num = header.program_header_table_num_entires as usize;
    let ph_ent = header.program_header_table_entry_size as usize;
    let mut i: usize = 0;
    while i < ph_num
        invariant
            d == (**elf_data)@,
            elf == *elf_data,
            data@ == d,
            elf_loadable(old_vm, d, elf),
            all == elf_areas(d, elf),
            base_address == elf_base(d),
            ph_off == le_u64(d, 32) as usize,
            ph_num == ph_count(d),
            ph_ent == le_u16(d, 54),
            i <= ph_num,
            task.vmspace@.to_multiset() == old_vm.to_multiset().add(
                (seq![stack_area()] + load_areas(d, elf, base_address as int, i as nat)).to_multiset(),
            ),
            areas_ordered(task.vmspace@),
            task.id == old(task).id,
            task.priority == old(task).priority,
            task.status == old(task).status,
            task.last_stack_ptr == old(task).last_stack_ptr,
            task.stack == old(task).stack,
            task.root_page_table == old(task).root_page_table,
            task.fd_map == old(task).fd_map,
        decreases ph_num - i,
    {
        let ghost o = ph_offset(d, i as int);
        assert(o + ELF64_PROGRAM_HEADER_SIZE <= d.len());
        assert(d.len() == data.len());
        assert(ph_off + i * ph_ent == o);
        let offset = ph_off + i * ph_ent;
        let ghost li = load_areas(d, elf, base_address as int, i as nat);
        let ghost li1 = load_areas(d, elf, base_address as int, (i + 1) as nat);
        proof {
            lemma_load_areas_prefix(d, elf, base_address as int, i as nat, ph_num as nat);
            lemma_load_areas_prefix(d, elf, base_address as int, (i + 1) as nat, ph_num as nat);
        }
        match Elf64ProgramHeader::parse(data, offset) {
            Some(phdr) => {
                if phdr.type_ == Elf64ProgramHeaderType::Load {
                    proof {
                        assert(is_load_header(d, o));
                        let ln = load_areas(d, elf, base_address as int, ph_num as nat);
                        let k: int = 1 + li.len() as int;
                        assert(all[k] == ln[li.len() as int]);
                        assert(all.subrange(0, k) =~= seq![stack_area()] + li) by {
                            assert(ln.subrange(0, li.len() as int) == li);
                        }
                        lemma_no_overlap(task.vmspace@, old_vm, all, k);
                        assert(segment_ok(d, base_address as int, o));
                    }
                    let ghost before = task.vmspace@;
                    map_segment(base_address, elf_data, task, phdr);
                    proof {
                        let a = segment_area(d, elf, base_address as int, o);
                        assert(li1 == li.push(a));
                        assert(seq![stack_area()] + li1 =~= (seq![stack_area()] + li).push(a));
                        assert(task.vmspace@.to_multiset() =~= old_vm.to_multiset().add(
                            (seq![stack_area()] + li1).to_multiset()));
                    }
                } else {
                    proof {
                        assert(!is_load_header(d, o));
                        assert(li1 == li);
                    }
                }
            },
            None => {
                proof {
                    assert(!is_load_header(d, o));
                    assert(li1 == li);
                }
            },
        }
        i = i + 1;
    }
    LoadInfo { entry, base_address, ph_off, ph_num, ph_ent }
}

/// The first and one past the last address of an area.
pub open spec fn area_bounds(a: (usize, Vma)) -> (usize, usize) {
    (a.0, a.1.end)
}

/// Whether the image `elf_data` can be loaded into a task whose areas are `vm` (see
/// `elf_loadable`).
pub fn check_elf(vm: &VmSpace, elf_data: &Arc<Vec<u8>>) -> (r: bool)
    ensures
        r == elf_loadable(vm@, (**elf_data)@, *elf_data),
{
    let ghost d = (**elf_data)@;
    let ghost elf = *elf_data;
    let data: &[u8] = elf_data.as_slice();
    let header = match Elf64Header::parse(data) {
        Some(h) => h,
        None => {
            return false;
        },
    };
    if !(data[0] == 0x7F && data[1] == 0x45 && data[2] == 0x4C && data[3] == 0x46) {
        return false;
    }
    let base: usize = if header.type_ == ObjectFileType::Dynamic {
        USER_ENTRY as usize
    } else {
        0
    };
    assert(base == elf_base(d));
    let entry = header.entry as usize;
    if entry > usize::MAX - base {
        return false;
    }
    let ph_off = header.program_header_table_offset as usize;
    let ph_num = header.program_header_table_num_entires as usize;
    let ph_ent = header.program_header_table_entry_size as usize;
    // the program headers lie within the image
    let mut i: usize = 0;
    while i < ph_num
        invariant
            data@ == d,
            d == (**elf_data)@,
            elf == *elf_data,
            i <= ph_num,
            ph_num == ph_count(d),
            ph_num <= 0xFFFF,
            ph_ent <= 0xFFFF,
            ph_off == le_u64(d, 32) as usize,
            ph_ent == le_u16(d, 54),
            forall|j: int| 0 <= j < i ==> #[trigger] ph_offset(d, j) + ELF64_PROGRAM_HEADER_SIZE <= d.len(),
        decreases ph_num - i,
    {
        proof {
            assert(i * ph_ent <= 0xFFFF * 0xFFFF) by (nonlinear_arith)
                requires
                    i <= 0xFFFF,
                    ph_ent <= 0xFFFF,
            ;
        }
        let off: u128 = ph_off as u128 + i as u128 * ph_ent as u128;
        assert(off == ph_offset(d, i as int));
        if off + ELF64_PROGRAM_HEADER_SIZE as u128 > data.len() as u128 {
            assert(ph_offset(d, i as int) + ELF64_PROGRAM_HEADER_SIZE > d.len());
            return false;
        }
        i = i + 1;
    }
    // the loadable segments, and the bounds of every area the image adds
    let mut bounds: Vec<(usize, usize)> = Vec::new();
    bounds.push((USER_STACK_BOTTOM as usize, USER_STACK_TOP as usize));
    proof {
        assert(seq![stack_area()] + load_areas(d, elf, base as int, 0) =~= seq![stack_area()]);
    }
    let mut i: usize = 0;
    while i < ph_num
        invariant
            data@ == d,
            d == (**elf_data)@,
            elf == *elf_data,
            i <= ph_num,
            base == elf_base(d),
            ph_num == ph_count(d),
            ph_num <= 0xFFFF,
            ph_ent <= 0xFFFF,
            ph_off == le_u64(d, 32) as usize,
            ph_ent == le_u16(d, 54),
            forall|j: int| 0 <= j < ph_num ==> #[trigger] ph_offset(d, j) + ELF64_PROGRAM_HEADER_SIZE <= d.len(),
            forall|j: int|
                0 <= j < i && is_load_header(d, #[trigger] ph_offset(d, j)) ==> segment_ok(d, base as int, ph_offset(d, j)),
            bounds@.len() == (seq![stack_area()] + load_areas(d, elf, base as int, i as nat)).len(),
            forall|j: int| 0 <= j < bounds@.len() ==> #[trigger] bounds@[j] == area_bounds(
                (seq![stack_area()] + load_areas(d, elf, base as int, i as nat))[j],
            ),
        decreases ph_num - i,
    {
        let ghost o = ph_offset(d, i as int);
        proof {
            assert(i * ph_ent <= 0xFFFF * 0xFFFF) by (nonlinear_arith)
                requires
                    i <= 0xFFFF,
                    ph_ent <= 0xFFFF,
            ;
            assert(o + ELF64_PROGRAM_HEADER_SIZE <= d.len());
            assert(d.len() == data.len());
            assert(o == ph_off + i * ph_ent);
        }
        let offset = ph_off + i * ph_ent;
        let ghost before = seq![stack_area()] + load_areas(d, elf, base as int, i as nat);
        let ghost after = seq![stack_area()] + load_areas(d, elf, base as int, (i + 1) as nat);
        if read_u32_le(data, offset) == 1 {
            let vaddr = read_u64_le(data, offset + 16) as usize;
            let file_offset = read_u64_le(data, offset + 8) as usize;
            let file_size = read_u64_le(data, offset + 32) as usize;
            let mem_size = read_u64_le(data, offset + 40) as usize;
            let fits = vaddr <= usize::MAX - base && mem_size <= usize::MAX - (base + vaddr) && usize::MAX
                - (base + vaddr) - mem_size >= PAGE_SIZE - 1 && file_offset >= (base + vaddr) % PAGE_SIZE
                && file_size <= usize::MAX - (base + vaddr) % PAGE_SIZE;
            if !fits {
                proof {
                    assert(is_load_header(d, ph_offset(d, i as int)));
                    assert(!segment_ok(d, base as int, ph_offset(d, i as int)));
                }
                return false;
            }
            let va = base + vaddr;
            let misalign = va % PAGE_SIZE;
            let start = va - misalign;
            let end = align_up(va + mem_size, PAGE_SIZE);
            if start >= end {
                proof {
                    assert(is_load_header(d, ph_offset(d, i as int)));
                    assert(!segment_ok(d, base as int, ph_offset(d, i as int)));
                }
                return false;
            }
            proof {
                assert(is_load_header(d, o));
                assert(segment_ok(d, base as int, o));
                assert(after =~= before.push(segment_area(d, elf, base as int, o)));
            }
            bounds.push((start, end));
        } else {
            proof {
                assert(!is_load_header(d, o));
                assert(after =~= before);
            }
        }
        i = i + 1;
    }
    let ghost all = elf_areas(d, elf);
    assert(all == seq![stack_area()] + load_areas(d, elf, base as int, ph_num as nat));
    if !vm.is_ordered() {
        return false;
    }
    // every area is not empty and shares no address with the task's areas
    let mut j: usize = 0;
    while j < bounds.len()
        invariant
            j <= bounds@.len(),
            d == (**elf_data)@,
            elf == *elf_data,
            all == elf_areas(d, elf),
            bounds@.len() == all.len(),
            forall|k: int| 0 <= k < bounds@.len() ==> #[trigger] bounds@[k] == area_bounds(all[k]),
            forall|k: int| 0 <= k < j ==> (#[trigger] all[k]).0 < all[k].1.end && !overlaps(vm@, all[k].0 as int, all[k].1.end as int),
        decreases bounds@.len() - j,
    {
        let (lo, hi) = bounds[j];
        assert(area_bounds(all[j as int]) == (lo, hi));
        if lo >= hi || vm.overlaps_range(lo, hi) {
            proof {
                assert(elf_areas(d, elf)[j as int] == all[j as int]);
            }
            return false;
        }
        j = j + 1;
    }
    // no two areas share an address
    let mut a: usize = 0;
    while a < bounds.len()
        invariant
            a <= bounds@.len(),
            d == (**elf_data)@,
            elf == *elf_data,
            all == elf_areas(d, elf),
            bounds@.len() == all.len(),
            forall|k: int| 0 <= k < bounds@.len() ==> #[trigger] bounds@[k] == area_bounds(all[k]),
            forall|x: int, y: int| 0 <= x < y < all.len() && x < a ==> (#[trigger] all[x]).1.end <= (#[trigger] all[y]).0 || all[y].1.end <= all[x].0,
        decreases bounds@.len() - a,
    {
        let mut b: usize = a + 1;
        while b < bounds.len()
            invariant
                a < b <= bounds@.len(),
                d == (**elf_data)@,
                elf == *elf_data,
                all == elf_areas(d, elf),
                bounds@.len() == all.len(),
                forall|k: int| 0 <= k < bounds@.len() ==> #[trigger] bounds@[k] == area_bounds(all[k]),
                forall|x: int, y: int| 0 <= x < y < all.len() && x < a ==> (#[trigger] all[x]).1.end <= (#[trigger] all[y]).0 || all[y].1.end <= all[x].0,
                forall|y: int| a < y < b ==> all[a as int].1.end <= (#[trigger] all[y]).0 || all[y].1.end <= all[a as int].0,
            decreases bounds@.len() - b,
        {
            let (lo1, hi1) = bounds[a];
            let (lo2, hi2) = bounds[b];
            assert(area_bounds(all[a as int]) == (lo1, hi1));
            assert(area_bounds(all[b as int]) == (lo2, hi2));
            if !(hi1 <= lo2 || hi2 <= lo1) {
                proof {
                    assert(elf_areas(d, elf)[a as int] == all[a as int]);
                    assert(elf_areas(d, elf)[b as int] == all[b as int]);
                    assert(!areas_disjoint(elf_areas(d, elf)));
                }
                return false;
            }
            b = b + 1;
        }
        a = a + 1;
    }
    true
}

/// The little-endian bytes of `v`.
pub open spec fn le_bytes(v: u64) -> Seq<u8> {
    seq![
        (v % 0x100) as u8,
        ((v / 0x100) % 0x100) as u8,
        ((v / 0x1_0000) % 0x100) as u8,
        ((v / 0x100_0000) % 0x100) as u8,
        ((v / 0x1_0000_0000) % 0x100) as u8,
        ((v / 0x100_0000_0000) % 0x100) as u8,
        ((v / 0x1_0000_0000_0000) % 0x100) as u8,
        ((v / 0x100_0000_0000_0000) % 0x100) as u8,
    ]
}

/// The bytes that pushing `items` one after the other leaves on a downward-growing stack,
/// from the lowest address up: the last item pushed comes first.
pub open spec fn stacked(items: Seq<Seq<u8>>) -> Seq<u8>
    decreases items.len(),
{
    if items.len() == 0 {
        Seq::empty()
    } else {
        items.last() + stacked(items.drop_last())
    }
}

/// The total length of the first `k` items.
pub open spec fn pushed_len(items: Seq<Seq<u8>>, k: int) -> int
    decreases k,
{
    if k <= 0 {
        0
    } else {
        pushed_len(items, k - 1) + items[k - 1].len()
    }
}

/// The bytes placed on the stack for `AT_RANDOM`.
pub open spec fn auxv_entropy() -> Seq<u8> {
    seq![0x00u8, 0x11, 0x22, 0x33, 0x44, 0x55, 0x66, 0x77, 0x88, 0x99, 0xAA, 0xBB, 0xCC, 0xDD, 0xEE, 0xFF]
}

/// The byte strings pushed for a new program, in push order: the `AT_RANDOM` bytes, the
/// environment strings (without terminator) and the argument strings (with one).
pub open spec fn auxv_strings(args: Seq<Seq<u8>>, envs: Seq<Seq<u8>>) -> Seq<Seq<u8>> {
    seq![auxv_entropy()] + envs + args.map_values(|a: Seq<u8>| a.push(0u8))
}

/// The user address of string `k` of `items` when they are pushed from `rsp0` down.
pub open spec fn string_ptr(rsp0: int, items: Seq<Seq<u8>>, k: int) -> int {
    rsp0 - pushed_len(items, k + 1)
}

/// The 64-bit words pushed after the strings, in push order: the auxiliary vector (each
/// value before its key, `AT_NULL` first), the end of the environment pointers, the
/// environment pointers, the end of the argument pointers, the argument pointers and the
/// argument count.
pub open spec fn auxv_qwords(info: LoadInfo, rsp0: int, args: Seq<Seq<u8>>, envs: Seq<Seq<u8>>) -> Seq<u64> {
    let items = auxv_strings(args, envs);
    let n = envs.len();
    let m = args.len();
    seq![
        0u64, AT_NULL,
        string_ptr(rsp0, items, 0) as u64, AT_RANDOM,
        info.entry as u64, AT_ENTRY,
        info.base_address as u64, AT_BASE,
        PAGE_SIZE as u64, AT_PAGESZ,
        info.ph_num as u64, AT_PHNUM,
        info.ph_ent as u64, AT_PHENT,
        (info.ph_off + info.base_address) as u64, AT_PHDR,
        0u64,
    ] + Seq::new(n, |i: int| string_ptr(rsp0, items, 1 + i) as u64) + seq![0u64] + Seq::new(
        m,
        |i: int| string_ptr(rsp0, items, 1 + n + i) as u64,
    ) + seq![m as u64]
}

/// Each word as its eight bytes.
pub open spec fn qword_items(q: Seq<u64>) -> Seq<Seq<u8>> {
    q.map_values(|v: u64| le_bytes(v))
}

/// The stack pointer once the strings are pushed from `rsp0`.
pub open spec fn strings_end(rsp0: int, args: Seq<Seq<u8>>, envs: Seq<Seq<u8>>) -> int {
    rsp0 - pushed_len(auxv_strings(args, envs), 1 + envs.len() + args.len() as int)
}

/// The gap left below the strings so that the final stack pointer is 16-byte aligned.
pub open spec fn auxv_padding(rsp0: int, args: Seq<Seq<u8>>, envs: Seq<Seq<u8>>) -> int {
    let unaligned = strings_end(rsp0, args, envs) - (1 + args.len() + envs.len() + 16) * 8;
    unaligned - align_down_spec(unaligned, 16)
}

/// The stack pointer handed to the new program.
pub open spec fn auxv_final_rsp(rsp0: int, args: Seq<Seq<u8>>, envs: Seq<Seq<u8>>) -> int {
    strings_end(rsp0, args, envs) - auxv_padding(rsp0, args, envs) - 8 * (19 + args.len() + envs.len())
}

/// The contents of each byte string of `v`.
pub open spec fn byte_strings(v: Seq<Vec<u8>>) -> Seq<Seq<u8>> {
    v.map_values(|a: Vec<u8>| a@)
}

proof fn lemma_stacked_take(items: Seq<Seq<u8>>, k: int)
    requires
        0 <= k < items.len(),
    ensures
        stacked(items.take(k + 1)) == items[k] + stacked(items.take(k)),
{
    assert(items.take(k + 1).drop_last() =~= items.take(k));
}

proof fn lemma_pushed_len_mono(items: Seq<Seq<u8>>, k: int, j: int)
    requires
        0 <= k <= j,
    ensures
        pushed_len(items, k) <= pushed_len(items, j),
    decreases j - k,
{
    if k < j {
        lemma_pushed_len_mono(items, k, j - 1);
    }
}

proof fn lemma_push_top(p0: Seq<u8>, page: Seq<u8>, new_page: Seq<u8>, off: int, bytes: Seq<u8>)
    requires
        0 <= bytes.len() <= off <= page.len(),
        page.len() == p0.len(),
        page.subrange(0, off) == p0.subrange(0, off),
        new_page == page.subrange(0, off - bytes.len()) + bytes + page.subrange(off, page.len() as int),
    ensures
        new_page.len() == page.len(),
        new_page.subrange(0, off - bytes.len()) == p0.subrange(0, off - bytes.len()),
        new_page.subrange(off - bytes.len(), page.len() as int) == bytes + page.subrange(off, page.len() as int),
{
    let o2 = off - bytes.len();
    assert(page.subrange(0, o2) =~= page.subrange(0, off).subrange(0, o2));
    assert(p0.subrange(0, o2) =~= p0.subrange(0, off).subrange(0, o2));
    assert(new_page.subrange(0, o2) =~= page.subrange(0, o2));
    assert(new_page.subrange(o2, page.len() as int) =~= bytes + page.subrange(off, page.len() as int));
}

proof fn lemma_gap_top(p0: Seq<u8>, page: Seq<u8>, off: int, gap: int)
    requires
        0 <= gap <= off <= page.len(),
        page.len() == p0.len(),
        page.subrange(0, off) == p0.subrange(0, off),
    ensures
        page.subrange(0, off - gap) == p0.subrange(0, off - gap),
        page.subrange(off - gap, page.len() as int) == p0.subrange(off - gap, off) + page.subrange(off, page.len() as int),
{
    assert(page.subrange(0, off - gap) =~= page.subrange(0, off).subrange(0, off - gap));
    assert(p0.subrange(0, off - gap) =~= p0.subrange(0, off).subrange(0, off - gap));
    assert(page.subrange(off - gap, off) =~= page.subrange(0, off).subrange(off - gap, off));
    assert(p0.subrange(off - gap, off) =~= p0.subrange(0, off).subrange(off - gap, off));
    assert(page.subrange(off - gap, page.len() as int) =~= page.subrange(off - gap, off) + page.subrange(off, page.len() as int));
}


proof fn lemma_auxv_qwords(info: LoadInfo, rsp0: int, a: Seq<Seq<u8>>, e: Seq<Seq<u8>>)
    ensures
        ({
            let q = auxv_qwords(info, rsp0, a, e);
            let qi = qword_items(q);
            let items = auxv_strings(a, e);
            let n = e.len() as int;
            let m = a.len() as int;
            &&& q.len() == 19 + n + m
            &&& qi.len() == q.len()
            &&& forall|k: int| 0 <= k < q.len() ==> #[trigger] qi[k] == le_bytes(q[k])
            &&& q[0] == 0 && q[1] == AT_NULL
            &&& q[2] == string_ptr(rsp0, items, 0) as u64 && q[3] == AT_RANDOM
            &&& q[4] == info.entry as u64 && q[5] == AT_ENTRY
            &&& q[6] == info.base_address as u64 && q[7] == AT_BASE
            &&& q[8] == PAGE_SIZE as u64 && q[9] == AT_PAGESZ
            &&& q[10] == info.ph_num as u64 && q[11] == AT_PHNUM
            &&& q[12] == info.ph_ent as u64 && q[13] == AT_PHENT
            &&& q[14] == (info.ph_off + info.base_address) as u64 && q[15] == AT_PHDR
            &&& q[16] == 0
            &&& forall|k: int| 0 <= k < n ==> #[trigger] q[17 + k] == string_ptr(rsp0, items, 1 + k) as u64
            &&& q[17 + n] == 0
            &&& forall|k: int| 0 <= k < m ==> #[trigger] q[18 + n + k] == string_ptr(rsp0, items, 1 + n + k) as u64
            &&& q[18 + n + m] == m as u64
        }),
{
    let q = auxv_qwords(info, rsp0, a, e);
    let items = auxv_strings(a, e);
    let n = e.len() as int;
    let m = a.len() as int;
    let head = seq![
        0u64, AT_NULL,
        string_ptr(rsp0, items, 0) as u64, AT_RANDOM,
        info.entry as u64, AT_ENTRY,
        info.base_address as u64, AT_BASE,
        PAGE_SIZE as u64, AT_PAGESZ,
        info.ph_num as u64, AT_PHNUM,
        info.ph_ent as u64, AT_PHENT,
        (info.ph_off + info.base_address) as u64, AT_PHDR,
        0u64,
    ];
    let ev = Seq::new(e.len(), |i: int| string_ptr(rsp0, items, 1 + i) as u64);
    let av = Seq::new(a.len(), |i: int| string_ptr(rsp0, items, 1 + n + i) as u64);
    assert(q == head + ev + seq![0u64] + av + seq![m as u64]);
    assert forall|k: int| 0 <= k < n implies #[trigger] q[17 + k] == string_ptr(rsp0, items, 1 + k) as u64 by {
        assert(q[17 + k] == ev[k]);
    }
    assert forall|k: int| 0 <= k < m implies #[trigger] q[18 + n + k] == string_ptr(rsp0, items, 1 + n + k) as u64 by {
        assert(q[18 + n + k] == av[k]);
    }
}

/// Builds the initial stack of a user program in the page just below the top of its stack.
pub struct StackBuilder {
    /// The user address of the lowest byte pushed so far.
    pub rsp: usize,
    /// The contents of the stack page.
    pub page: Vec<u8>,
    /// The user address of the stack page.
    pub stack_page_addr: usize,
}

proof fn lemma_pushed_len_grows(items: Seq<Seq<u8>>, j: int, k: int)
    requires
        0 <= j <= k,
    ensures
        pushed_len(items, j) <= pushed_len(items, k),
    decreases k - j,
{
    if j < k {
        lemma_pushed_len_grows(items, j, k - 1);
    }
}

impl StackBuilder {
    /// The stack pointer lies within the page, which is whole and addressable.
    pub open spec fn wf(&self) -> bool {
        &&& self.page@.len() == PAGE_SIZE
        &&& self.stack_page_addr <= self.rsp <= self.stack_page_addr + PAGE_SIZE
        &&& self.stack_page_addr + PAGE_SIZE <= usize::MAX
    }

    /// The offset of the stack pointer in the page.
    pub open spec fn offset(&self) -> int {
        self.rsp - self.stack_page_addr
    }

    /// An empty stack whose top is `usr_stack_top`, in a zeroed page just below it.
    pub fn new(usr_stack_top: usize) -> (r: StackBuilder)
        requires
            usr_stack_top >= PAGE_SIZE,
        ensures
            r.wf(),
            r.rsp == usr_stack_top,
            r.stack_page_addr == usr_stack_top - PAGE_SIZE,
            r.page@ == Seq::new(PAGE_SIZE as nat, |i: int| 0u8),
    {
        let mut page: Vec<u8> = Vec::new();
        while page.len() < PAGE_SIZE
            invariant
                page.len() <= PAGE_SIZE,
                forall|i: int| 0 <= i < page.len() ==> page@[i] == 0u8,
            decreases PAGE_SIZE - page.len(),
        {
            page.push(0);
        }
        proof {
            assert(page@ =~= Seq::new(PAGE_SIZE as nat, |i: int| 0u8));
        }
        StackBuilder { rsp: usr_stack_top, page, stack_page_addr: usr_stack_top - PAGE_SIZE }
    }

    /// Pushes `bytes` and returns the user address where they start.
    pub fn push_bytes(&mut self, bytes: &[u8]) -> (r: usize)
        requires
            old(self).wf(),
            old(self).rsp - bytes@.len() >= old(self).stack_page_addr,
        ensures
            final(self).wf(),
            final(self).stack_page_addr == old(self).stack_page_addr,
            final(self).rsp == old(self).rsp - bytes@.len(),
            r == final(self).rsp,
            final(self).page@ == old(self).page@.subrange(0, final(self).offset()) + bytes@
                + old(self).page@.subrange(old(self).offset(), PAGE_SIZE as int),
    {
        let ghost p0 = self.page@;
        self.rsp = self.rsp - bytes.len();
        let offset = self.rsp - self.stack_page_addr;
        let mut k: usize = 0;
        while k < bytes.len()
            invariant
                k <= bytes@.len(),
                offset + bytes@.len() <= PAGE_SIZE,
                self.rsp == old(self).rsp - bytes@.len(),
                self.stack_page_addr == old(self).stack_page_addr,
                offset == self.rsp - self.stack_page_addr,
                self.stack_page_addr + PAGE_SIZE <= usize::MAX,
                p0.len() == PAGE_SIZE,
                self.page@.len() == PAGE_SIZE,
                forall|i: int| 0 <= i < offset ==> self.page@[i] == p0[i],
                forall|i: int| 0 <= i < k ==> self.page@[offset + i] == bytes@[i],
                forall|i: int| offset + k <= i < PAGE_SIZE ==> self.page@[i] == p0[i],
            decreases bytes@.len() - k,
        {
            self.page.set(offset + k, bytes[k]);
            k = k + 1;
        }
        proof {
            assert(self.page@ =~= p0.subrange(0, offset as int) + bytes@ + p0.subrange(
                offset + bytes@.len(),
                PAGE_SIZE as int,
            ));
        }
        self.rsp
    }

    /// Pushes the eight little-endian bytes of `v` and returns the user address where they
    /// start.
    pub fn push_qword(&mut self, v: u64) -> (r: usize)
        requires
            old(self).wf(),
            old(self).rsp - 8 >= old(self).stack_page_addr,
        ensures
            final(self).wf(),
            final(self).stack_page_addr == old(self).stack_page_addr,
            final(self).rsp == old(self).rsp - 8,
            r == final(self).rsp,
            final(self).page@ == old(self).page@.subrange(0, final(self).offset()) + le_bytes(v)
                + old(self).page@.subrange(old(self).offset(), PAGE_SIZE as int),
    {
        let b = vec![
            (v % 0x100) as u8,
            ((v / 0x100) % 0x100) as u8,
            ((v / 0x1_0000) % 0x100) as u8,
            ((v / 0x100_0000) % 0x100) as u8,
            ((v / 0x1_0000_0000) % 0x100) as u8,
            ((v / 0x100_0000_0000) % 0x100) as u8,
            ((v / 0x1_0000_0000_0000) % 0x100) as u8,
            ((v / 0x100_0000_0000_0000) % 0x100) as u8,
        ];
        proof {
            assert(b@ =~= le_bytes(v));
        }
        self.push_bytes(b.as_slice())
    }

    /// Pushes an auxiliary-vector entry: the value, then the key below it.
    pub fn push_auxkv(&mut self, k: u64, v: u64)
        requires
            old(self).wf(),
            old(self).rsp - 16 >= old(self).stack_page_addr,
        ensures
            final(self).wf(),
            final(self).stack_page_addr == old(self).stack_page_addr,
            final(self).rsp == old(self).rsp - 16,
            final(self).page@ == old(self).page@.subrange(0, final(self).offset()) + (le_bytes(k)
                + le_bytes(v)) + old(self).page@.subrange(old(self).offset(), PAGE_SIZE as int),
    {
        let ghost p0 = self.page@;
        self.push_qword(v);
        self.push_qword(k);
        proof {
            let o = self.offset();
            assert(self.page@ =~= p0.subrange(0, o) + (le_bytes(k) + le_bytes(v)) + p0.subrange(
                o + 16,
                PAGE_SIZE as int,
            ));
        }
    }

    /// What `create_auxv` pushes for the arguments `args` and the environment `envs` fits in
    /// the page below the stack pointer.
    pub fn fits_auxv(&self, args: &[Vec<u8>], envs: &[Vec<u8>]) -> (r: bool)
        ensures
            r == (auxv_final_rsp(self.rsp as int, byte_strings(args@), byte_strings(envs@)) >= self.stack_page_addr),
    {
        let ghost a = byte_strings(args@);
        let ghost e = byte_strings(envs@);
        let ghost items = auxv_strings(a, e);
        let n = envs.len();
        let m = args.len();
        let count = 1 + n as u128 + m as u128;
        // the bytes of the strings
        let mut total: u128 = 0;
        let mut k: u128 = 0;
        while k < count
            invariant
                count == 1 + n + m,
                n == e.len(),
                m == a.len(),
                items == auxv_strings(a, e),
                a == byte_strings(args@),
                e == byte_strings(envs@),
                k <= count,
                total == pushed_len(items, k as int),
                total <= usize::MAX,
            decreases count - k,
        {
            let len: u128 = if k == 0 {
                16
            } else if k <= n as u128 {
                envs[(k - 1) as usize].len() as u128
            } else {
                args[(k - 1 - n as u128) as usize].len() as u128 + 1
            };
            proof {
                assert(items.len() == count);
                if k == 0 {
                    assert(items[0] == auxv_entropy());
                } else if k <= n {
                    assert(items[k as int] == e[k - 1]);
                } else {
                    assert(items[k as int] == a[k - 1 - n].push(0u8));
                }
                assert(len == items[k as int].len());
            }
            if total + len > usize::MAX as u128 {
                proof {
                    lemma_pushed_len_grows(items, k + 1, count as int);
                }
                return false;
            }
            total = total + len;
            k = k + 1;
        }
        assert(strings_end(self.rsp as int, a, e) == self.rsp - total);
        if total > self.rsp as u128 {
            return false;
        }
        let strings_end = self.rsp as u128 - total;
        let words: u128 = 8 * (17 + n as u128 + m as u128);
        if words > strings_end {
            return false;
        }
        let unaligned = strings_end - words;
        let padding = unaligned % 16;
        let below = padding + 8 * (19 + n as u128 + m as u128);
        if below > strings_end {
            return false;
        }
        strings_end - below >= self.stack_page_addr as u128
    }

    /// Pushes what a new program finds on its stack, from the top down: the `AT_RANDOM`
    /// bytes, the environment strings, the argument strings (each with a terminating zero),
    /// a gap that makes the final stack pointer 16-byte aligned, the auxiliary vector, the
    /// environment pointers, the argument pointers (each list ended by a zero word, pushed
    /// first) and the argument count.
    pub fn create_auxv(&mut self, info: &LoadInfo, args: &[Vec<u8>], envs: &[Vec<u8>])
        requires
            old(self).wf(),
            info.ph_off + info.base_address <= usize::MAX,
            auxv_final_rsp(old(self).rsp as int, byte_strings(args@), byte_strings(envs@))
                >= old(self).stack_page_addr,
        ensures
            final(self).wf(),
            final(self).stack_page_addr == old(self).stack_page_addr,
            final(self).rsp == auxv_final_rsp(old(self).rsp as int, byte_strings(args@), byte_strings(envs@)),
            ({
                let a = byte_strings(args@);
                let e = byte_strings(envs@);
                let rsp0 = old(self).rsp as int;
                let gap_hi = strings_end(rsp0, a, e) - old(self).stack_page_addr;
                final(self).page@ == old(self).page@.subrange(0, final(self).offset()) + stacked(
                    qword_items(auxv_qwords(*info, rsp0, a, e)),
                ) + old(self).page@.subrange(gap_hi - auxv_padding(rsp0, a, e), gap_hi) + stacked(
                    auxv_strings(a, e),
                ) + old(self).page@.subrange(old(self).offset(), PAGE_SIZE as int)
            }),
    {
        let ghost a = byte_strings(args@);
        let ghost e = byte_strings(envs@);
        let ghost items = auxv_strings(a, e);
        let ghost p0 = self.page@;
        let ghost rsp0 = self.rsp as int;
        let ghost off0 = self.offset();
        let ghost tail0 = p0.subrange(off0, PAGE_SIZE as int);
        let (at_random_ptr, envp_ptrs, argv_ptrs) = self.push_strings(args, envs);
        let ghost s_end = self.rsp as int;
        let unaligned = self.rsp - (1 + args.len() + envs.len() + 16) * 8;
        let aligned = align_down(unaligned, 16);
        let padding = unaligned - aligned;
        let ghost pg = self.page@;
        let ghost o = self.offset();
        self.rsp = self.rsp - padding;
        proof {
            lemma_gap_top(p0, pg, o, padding as int);
            assert(pg.subrange(o, PAGE_SIZE as int) == stacked(items) + tail0);
        }
        let ghost rest = p0.subrange(o - padding, o) + stacked(items) + tail0;
        proof {
            assert(self.page@.subrange(self.offset(), PAGE_SIZE as int) =~= rest);
        }
        self.push_vectors(info, at_random_ptr, &envp_ptrs, &argv_ptrs, Ghost(p0), Ghost(rest), Ghost(rsp0), Ghost(a), Ghost(e));
        proof {
            assert(self.page@ =~= self.page@.subrange(0, self.offset()) + self.page@.subrange(self.offset(), PAGE_SIZE as int));
        }
    }

    /// Pushes the `AT_RANDOM` bytes, the environment strings and the argument strings with
    /// their terminating zeros; returns where the `AT_RANDOM` bytes, each environment string
    /// and each argument string start.
    fn push_strings(&mut self, args: &[Vec<u8>], envs: &[Vec<u8>]) -> (r: (usize, Vec<usize>, Vec<usize>))
        requires
            old(self).wf(),
            auxv_final_rsp(old(self).rsp as int, byte_strings(args@), byte_strings(envs@))
                >= old(self).stack_page_addr,
        ensures
            ({
                let a = byte_strings(args@);
                let e = byte_strings(envs@);
                let items = auxv_strings(a, e);
                let rsp0 = old(self).rsp as int;
                &&& final(self).wf()
                &&& final(self).stack_page_addr == old(self).stack_page_addr
                &&& final(self).rsp == strings_end(rsp0, a, e)
                &&& final(self).page@.subrange(0, final(self).offset()) == old(self).page@.subrange(0, final(self).offset())
                &&& final(self).page@.subrange(final(self).offset(), PAGE_SIZE as int) == stacked(items)
                    + old(self).page@.subrange(old(self).offset(), PAGE_SIZE as int)
                &&& r.0 == string_ptr(rsp0, items, 0)
                &&& r.1@.len() == e.len()
                &&& forall|j: int| 0 <= j < e.len() ==> r.1@[j] == string_ptr(rsp0, items, 1 + j)
                &&& r.2@.len() == a.len()
                &&& forall|j: int| 0 <= j < a.len() ==> r.2@[j] == string_ptr(rsp0, items, 1 + e.len() + j)
            }),
    {
        let ghost a = byte_strings(args@);
        let ghost e = byte_strings(envs@);
        let ghost items = auxv_strings(a, e);
        let ghost p0 = self.page@;
        let ghost rsp0 = self.rsp as int;
        let ghost spa = self.stack_page_addr;
        let ghost off0 = self.offset();
        let ghost tail0 = p0.subrange(off0, PAGE_SIZE as int);
        let ghost n: int = envs@.len() as int;
        let ghost m: int = args@.len() as int;
        let ghost total: int = 1 + n + m;
        proof {
            assert(items.len() == total);
            assert(stacked(items.take(0)) =~= Seq::<u8>::empty());
            assert(self.page@.subrange(off0, PAGE_SIZE as int) =~= stacked(items.take(0)) + tail0);
            lemma_pushed_len_mono(items, 1, total);
            assert(pushed_len(items, 0) == 0);
            assert(pushed_len(items, 1) == 16);
        }
        let entropy: Vec<u8> = vec![
            0x00u8, 0x11, 0x22, 0x33, 0x44, 0x55, 0x66, 0x77, 0x88, 0x99, 0xAA, 0xBB, 0xCC, 0xDD, 0xEE, 0xFF,
        ];
        proof {
            assert(entropy@ =~= auxv_entropy());
            assert(items[0] == auxv_entropy());
        }
        let ghost pg = self.page@;
        let ghost o = self.offset();
        let at_random_ptr = self.push_bytes(entropy.as_slice());
        proof {
            lemma_push_top(p0, pg, self.page@, o, entropy@);
            lemma_stacked_take(items, 0);
        }
        let mut envp_ptrs: Vec<usize> = Vec::new();
        let mut i: usize = 0;
        while i < envs.len()
            invariant
                self.wf(),
                self.stack_page_addr == spa,
                p0.len() == PAGE_SIZE,
                a == byte_strings(args@),
                e == byte_strings(envs@),
                items == auxv_strings(a, e),
                n == envs@.len(),
                m == args@.len(),
                total == 1 + n + m,
                items.len() == total,
                i <= n,
                auxv_final_rsp(rsp0, a, e) >= spa,
                self.rsp == rsp0 - pushed_len(items, 1 + i),
                self.page@.subrange(0, self.offset()) == p0.subrange(0, self.offset()),
                self.page@.subrange(self.offset(), PAGE_SIZE as int) == stacked(items.take(1 + i)) + tail0,
                at_random_ptr == string_ptr(rsp0, items, 0),
                envp_ptrs@.len() == i,
                forall|j: int| 0 <= j < i ==> envp_ptrs@[j] == string_ptr(rsp0, items, 1 + j),
            decreases n - i,
        {
            proof {
                lemma_pushed_len_mono(items, 2 + i, total);
                assert(items[1 + i] == envs@[i as int]@);
            }
            let ghost pg = self.page@;
            let ghost o = self.offset();
            let p = self.push_bytes(envs[i].as_slice());
            proof {
                lemma_push_top(p0, pg, self.page@, o, envs@[i as int]@);
                lemma_stacked_take(items, 1 + i);
                assert(self.page@.subrange(self.offset(), PAGE_SIZE as int) =~= stacked(items.take(2 + i)) + tail0);
            }
            envp_ptrs.push(p);
            i = i + 1;
        }
        let mut argv_ptrs: Vec<usize> = Vec::new();
        let nul: Vec<u8> = vec![0u8];
        let mut i: usize = 0;
        while i < args.len()
            invariant
                self.wf(),
                self.stack_page_addr == spa,
                p0.len() == PAGE_SIZE,
                a == byte_strings(args@),
                e == byte_strings(envs@),
                items == auxv_strings(a, e),
                n == envs@.len(),
                m == args@.len(),
                total == 1 + n + m,
                items.len() == total,
                i <= m,
                nul@ == seq![0u8],
                auxv_final_rsp(rsp0, a, e) >= spa,
                self.rsp == rsp0 - pushed_len(items, 1 + n + i),
                self.page@.subrange(0, self.offset()) == p0.subrange(0, self.offset()),
                self.page@.subrange(self.offset(), PAGE_SIZE as int) == stacked(items.take(1 + n + i)) + tail0,
                at_random_ptr == string_ptr(rsp0, items, 0),
                envp_ptrs@.len() == n,
                forall|j: int| 0 <= j < n ==> envp_ptrs@[j] == string_ptr(rsp0, items, 1 + j),
                argv_ptrs@.len() == i,
                forall|j: int| 0 <= j < i ==> argv_ptrs@[j] == string_ptr(rsp0, items, 1 + n + j),
            decreases m - i,
        {
            proof {
                lemma_pushed_len_mono(items, 2 + n + i, total);
                assert(items[1 + n + i] == args@[i as int]@.push(0u8));
            }
            let ghost pg = self.page@;
            let ghost o = self.offset();
            self.push_bytes(nul.as_slice());
            proof {
                lemma_push_top(p0, pg, self.page@, o, nul@);
            }
            let ghost pg2 = self.page@;
            let ghost o2 = self.offset();
            let p = self.push_bytes(args[i].as_slice());
            proof {
                lemma_push_top(p0, pg2, self.page@, o2, args@[i as int]@);
                lemma_stacked_take(items, 1 + n + i);
                assert(args@[i as int]@ + (nul@ + stacked(items.take(1 + n + i)) + tail0) =~= stacked(items.take(2 + n + i)) + tail0);
            }
            argv_ptrs.push(p);
            i = i + 1;
        }
        proof {
            assert(items.take(total) =~= items);
        }
        (at_random_ptr, envp_ptrs, argv_ptrs)
    }

    /// Pushes the auxiliary vector, the zero-ended environment and argument pointer lists and
    /// the argument count, the words of `auxv_qwords`, below the gap under the strings.
    fn push_vectors(&mut self, info: &LoadInfo, at_random_ptr: usize, envp_ptrs: &Vec<usize>, argv_ptrs: &Vec<usize>, Ghost(p0): Ghost<Seq<u8>>, Ghost(rest): Ghost<Seq<u8>>, Ghost(rsp0): Ghost<int>, Ghost(a): Ghost<Seq<Seq<u8>>>, Ghost(e): Ghost<Seq<Seq<u8>>>)
        requires
            old(self).wf(),
            p0.len() == PAGE_SIZE,
            info.ph_off + info.base_address <= usize::MAX,
            old(self).rsp == auxv_final_rsp(rsp0, a, e) + 8 * (19 + e.len() + a.len()),
            auxv_final_rsp(rsp0, a, e) >= old(self).stack_page_addr,
            old(self).page@.subrange(0, old(self).offset()) == p0.subrange(0, old(self).offset()),
            old(self).page@.subrange(old(self).offset(), PAGE_SIZE as int) == rest,
            at_random_ptr == string_ptr(rsp0, auxv_strings(a, e), 0),
            envp_ptrs@.len() == e.len(),
            forall|j: int| 0 <= j < e.len() ==> envp_ptrs@[j] == string_ptr(rsp0, auxv_strings(a, e), 1 + j),
            argv_ptrs@.len() == a.len(),
            forall|j: int| 0 <= j < a.len() ==> argv_ptrs@[j] == string_ptr(rsp0, auxv_strings(a, e), 1 + e.len() + j),
        ensures
            final(self).wf(),
            final(self).stack_page_addr == old(self).stack_page_addr,
            final(self).rsp == auxv_final_rsp(rsp0, a, e),
            final(self).page@.subrange(0, final(self).offset()) == p0.subrange(0, final(self).offset()),
            final(self).page@.subrange(final(self).offset(), PAGE_SIZE as int) == stacked(
                qword_items(auxv_qwords(*info, rsp0, a, e)),
            ) + rest,
    {
        let ghost q = auxv_qwords(*info, rsp0, a, e);
        let ghost qi = qword_items(q);
        let ghost n: int = e.len() as int;
        let ghost m: int = a.len() as int;
        let ghost spa = self.stack_page_addr;
        proof {
            lemma_auxv_qwords(*info, rsp0, a, e);
            assert(stacked(qi.take(0)) =~= Seq::<u8>::empty());
            assert(self.page@.subrange(self.offset(), PAGE_SIZE as int) =~= stacked(qi.take(0)) + rest);
        }
        let ghost mut t: int = 0;
        self.push_aux_tracked(AT_NULL, 0, Ghost(p0), Ghost(qi), Ghost(rest), Ghost(t));
        proof { t = t + 2; }
        self.push_aux_tracked(AT_RANDOM, at_random_ptr as u64, Ghost(p0), Ghost(qi), Ghost(rest), Ghost(t));
        proof { t = t + 2; }
        self.push_aux_tracked(AT_ENTRY, info.entry as u64, Ghost(p0), Ghost(qi), Ghost(rest), Ghost(t));
        proof { t = t + 2; }
        self.push_aux_tracked(AT_BASE, info.base_address as u64, Ghost(p0), Ghost(qi), Ghost(rest), Ghost(t));
        proof { t = t + 2; }
        self.push_aux_tracked(AT_PAGESZ, PAGE_SIZE as u64, Ghost(p0), Ghost(qi), Ghost(rest), Ghost(t));
        proof { t = t + 2; }
        self.push_aux_tracked(AT_PHNUM, info.ph_num as u64, Ghost(p0), Ghost(qi), Ghost(rest), Ghost(t));
        proof { t = t + 2; }
        self.push_aux_tracked(AT_PHENT, info.ph_ent as u64, Ghost(p0), Ghost(qi), Ghost(rest), Ghost(t));
        proof { t = t + 2; }
        self.push_aux_tracked(AT_PHDR, (info.ph_off + info.base_address) as u64, Ghost(p0), Ghost(qi), Ghost(rest), Ghost(t));
        proof { t = t + 2; }
        self.push_tracked(0, Ghost(p0), Ghost(qi), Ghost(rest), Ghost(t));
        proof { t = t + 1; }
        let mut j: usize = 0;
        while j < envp_ptrs.len()
            invariant
                self.wf(),
                self.stack_page_addr == spa,
                p0.len() == PAGE_SIZE,
                qi == qword_items(q),
                qi.len() == 19 + n + m,
                n == e.len(),
                m == a.len(),
                forall|k: int| 0 <= k < n ==> qi[17 + k] == le_bytes(envp_ptrs@[k] as u64),
                envp_ptrs@.len() == n,
                j <= n,
                t == 17 + j,
                self.rsp == auxv_final_rsp(rsp0, a, e) + 8 * (19 + n + m - t),
                auxv_final_rsp(rsp0, a, e) >= spa,
                self.page@.subrange(0, self.offset()) == p0.subrange(0, self.offset()),
                self.page@.subrange(self.offset(), PAGE_SIZE as int) == stacked(qi.take(t)) + rest,
            decreases n - j,
        {
            self.push_tracked(envp_ptrs[j] as u64, Ghost(p0), Ghost(qi), Ghost(rest), Ghost(t));
            proof { t = t + 1; }
            j = j + 1;
        }
        self.push_tracked(0, Ghost(p0), Ghost(qi), Ghost(rest), Ghost(t));
        proof { t = t + 1; }
        let mut j: usize = 0;
        while j < argv_ptrs.len()
            invariant
                self.wf(),
                self.stack_page_addr == spa,
                p0.len() == PAGE_SIZE,
                qi == qword_items(q),
                qi.len() == 19 + n + m,
                n == e.len(),
                m == a.len(),
                forall|k: int| 0 <= k < m ==> qi[18 + n + k] == le_bytes(argv_ptrs@[k] as u64),
                argv_ptrs@.len() == m,
                j <= m,
                t == 18 + n + j,
                self.rsp == auxv_final_rsp(rsp0, a, e) + 8 * (19 + n + m - t),
                auxv_final_rsp(rsp0, a, e) >= spa,
                self.page@.subrange(0, self.offset()) == p0.subrange(0, self.offset()),
                self.page@.subrange(self.offset(), PAGE_SIZE as int) == stacked(qi.take(t)) + rest,
            decreases m - j,
        {
            self.push_tracked(argv_ptrs[j] as u64, Ghost(p0), Ghost(qi), Ghost(rest), Ghost(t));
            proof { t = t + 1; }
            j = j + 1;
        }
        self.push_tracked(argv_ptrs.len() as u64, Ghost(p0), Ghost(qi), Ghost(rest), Ghost(t));
        proof {
            t = t + 1;
            assert(qi.take(t) =~= qi);
        }
    }

    /// Pushes word `t` of `qi`, keeping the page's layout: untouched below the stack
    /// pointer, the words pushed so far and then `rest` above it.
    fn push_tracked(&mut self, v: u64, Ghost(p0): Ghost<Seq<u8>>, Ghost(qi): Ghost<Seq<Seq<u8>>>, Ghost(rest): Ghost<Seq<u8>>, Ghost(t): Ghost<int>)
        requires
            old(self).wf(),
            p0.len() == PAGE_SIZE,
            0 <= t < qi.len(),
            qi[t] == le_bytes(v),
            old(self).rsp - 8 >= old(self).stack_page_addr,
            old(self).page@.subrange(0, old(self).offset()) == p0.subrange(0, old(self).offset()),
            old(self).page@.subrange(old(self).offset(), PAGE_SIZE as int) == stacked(qi.take(t)) + rest,
        ensures
            final(self).wf(),
            final(self).stack_page_addr == old(self).stack_page_addr,
            final(self).rsp == old(self).rsp - 8,
            final(self).page@.subrange(0, final(self).offset()) == p0.subrange(0, final(self).offset()),
            final(self).page@.subrange(final(self).offset(), PAGE_SIZE as int) == stacked(qi.take(t + 1)) + rest,
    {
        let ghost pg = self.page@;
        let ghost o = self.offset();
        self.push_qword(v);
        proof {
            lemma_push_top(p0, pg, self.page@, o, le_bytes(v));
            lemma_stacked_take(qi, t);
        }
    }

    /// Pushes the entry `k`, `v` of the auxiliary vector as words `t` (the value) and
    /// `t + 1` (the key) of `qi`, keeping the page's layout.
    fn push_aux_tracked(&mut self, k: u64, v: u64, Ghost(p0): Ghost<Seq<u8>>, Ghost(qi): Ghost<Seq<Seq<u8>>>, Ghost(rest): Ghost<Seq<u8>>, Ghost(t): Ghost<int>)
        requires
            old(self).wf(),
            p0.len() == PAGE_SIZE,
            0 <= t && t + 1 < qi.len(),
            qi[t] == le_bytes(v),
            qi[t + 1] == le_bytes(k),
            old(self).rsp - 16 >= old(self).stack_page_addr,
            old(self).page@.subrange(0, old(self).offset()) == p0.subrange(0, old(self).offset()),
            old(self).page@.subrange(old(self).offset(), PAGE_SIZE as int) == stacked(qi.take(t)) + rest,
        ensures
            final(self).wf(),
            final(self).stack_page_addr == old(self).stack_page_addr,
            final(self).rsp == old(self).rsp - 16,
            final(self).page@.subrange(0, final(self).offset()) == p0.subrange(0, final(self).offset()),
            final(self).page@.subrange(final(self).offset(), PAGE_SIZE as int) == stacked(qi.take(t + 2)) + rest,
    {
        let ghost pg = self.page@;
        let ghost o = self.offset();
        self.push_auxkv(k, v);
        proof {
            lemma_push_top(p0, pg, self.page@, o, le_bytes(k) + le_bytes(v));
            lemma_stacked_take(qi, t);
            lemma_stacked_take(qi, t + 1);
            assert(le_bytes(k) + le_bytes(v) + (stacked(qi.take(t)) + rest) =~= stacked(qi.take(t + 2)) + rest);
        }
    }
}

} // verus!
