use magicalos::memory::bitmap::{check_memmap, BitmapFrameAllocator, MemmapEntry, MEMMAP_USABLE};
use magicalos::memory::paging::{
    PageTableEntry, PageTableEntryFlags, PhysicalAddress, Table, VirtualAddress, L1, L4,
};
use magicalos::memory::vmm::{init_vmm, Vmm, VmmEntry, KERNEL_VMM_ADDR_START, KERNEL_VMM_SIZE};
use magicalos::memory::{Frame, FrameAllocator, PAGE_SIZE};
use magicalos::utils::{align_down, align_up, Layout};

fn flags(bits: u64) -> PageTableEntryFlags {
    PageTableEntryFlags::from_bits_truncate(bits)
}

#[test]
fn page_table_entry_set_and_decode_roundtrip() {
    let mut entry = PageTableEntry::new();
    let frame = Frame(0x1234);
    let f = flags(
        PageTableEntryFlags::PRESENT
            | PageTableEntryFlags::WRITABLE
            | PageTableEntryFlags::USER_ACCESSIBLE,
    );

    entry.set(frame, f);

    assert_eq!(entry.get_physical_address().0 as usize, frame.start_address());
    assert!(entry.flags().contains(flags(PageTableEntryFlags::PRESENT)));
    assert!(entry.flags().contains(flags(PageTableEntryFlags::WRITABLE)));
    assert!(entry.flags().contains(flags(PageTableEntryFlags::USER_ACCESSIBLE)));
}

#[test]
fn page_table_entry_presence_controls_pointed_frame() {
    let mut entry = PageTableEntry::new();
    let frame = Frame(7);

    entry.set(frame, flags(PageTableEntryFlags::WRITABLE));
    assert_eq!(entry.get_pointed_frame(), None);

    entry.set_flags(flags(PageTableEntryFlags::PRESENT));
    assert_eq!(entry.get_pointed_frame(), Some(frame));
}

#[test]
fn page_table_entry_flag_mutation_works() {
    let mut entry = PageTableEntry::new();
    let frame = Frame(11);

    entry.set(frame, flags(PageTableEntryFlags::PRESENT));
    entry.set_flags(flags(PageTableEntryFlags::WRITABLE));
    assert!(entry.flags().contains(flags(PageTableEntryFlags::WRITABLE)));

    entry.clear_flags(flags(PageTableEntryFlags::WRITABLE));
    assert!(!entry.flags().contains(flags(PageTableEntryFlags::WRITABLE)));
}

#[test]
fn virtual_address_indices_match_4k_layout() {
    let addr = VirtualAddress(0xffff_8123_4567_8000);

    assert_eq!(addr.p4_idx(), 0x102);
    assert_eq!(addr.p3_idx(), 0x08d);
    assert_eq!(addr.p2_idx(), 0x02b);
    assert_eq!(addr.p1_idx(), 0x078);
}

#[test]
fn physical_to_virtual_applies_hhdm_offset() {
    let phys = PhysicalAddress(0x0012_3400);
    let virt = phys.to_virtual(0xffff_8000_0000_0000);
    assert_eq!(virt.0, 0xffff_8000_0012_3400);
}

fn test_vmm() -> Vmm {
    let mut vmm = Vmm::new();
    vmm.entries.push(VmmEntry { start: 0x1000_0000, end: 0x1001_0000 });
    vmm
}

#[test]
fn allocate_returns_aligned_address() {
    let mut vmm = test_vmm();
    let layout = Layout::from_size_align(0x1234, 0x1000).unwrap();

    let addr = vmm.allocate(layout).expect("allocate failed");
    assert_eq!(addr.0 as usize % 0x1000, 0);
}

#[test]
fn deallocate_reinserts_region() {
    let mut vmm = test_vmm();
    let layout = Layout::from_size_align(0x1000, 0x1000).unwrap();

    let addr = vmm.allocate(layout).expect("allocate failed");
    vmm.deallocate(addr.0 as usize, layout.size());

    let first = vmm.entries.first().expect("missing region");
    assert_eq!(first.start, 0x1000_0000);
    assert_eq!(first.end, 0x1001_0000);
}

#[test]
fn vmm_allocate_from_empty_fails() {
    let mut vmm = Vmm::new();
    let layout = Layout::from_size_align(0x1000, 0x1000).unwrap();
    assert!(vmm.allocate(layout).is_err());
}

#[test]
fn vmm_allocations_do_not_overlap() {
    let mut vmm = test_vmm();
    let layout = Layout::from_size_align(0x1000, 0x1000).unwrap();
    let a = vmm.allocate(layout).unwrap().0 as usize;
    let b = vmm.allocate(layout).unwrap().0 as usize;
    assert!(a + 0x1000 <= b || b + 0x1000 <= a);
    assert!(a >= 0x1000_0000 && a + 0x1000 <= 0x1001_0000);
    assert!(b >= 0x1000_0000 && b + 0x1000 <= 0x1001_0000);
}

#[test]
fn vmm_init_adds_kernel_window() {
    let mut vmm = Vmm::new();
    init_vmm(&mut vmm);
    assert_eq!(vmm.entries.len(), 1);
    assert_eq!(vmm.entries[0].start as u64, KERNEL_VMM_ADDR_START);
    assert_eq!(vmm.entries[0].end as u64, KERNEL_VMM_ADDR_START + KERNEL_VMM_SIZE);
}

#[test]
fn layout_rejects_non_power_of_two_alignment() {
    assert!(Layout::from_size_align(16, 3).is_none());
    assert!(Layout::from_size_align(16, 0).is_none());
    let l = Layout::from_size_align(16, 8).unwrap();
    assert_eq!(l.size(), 16);
    assert_eq!(l.align(), 8);
}

#[test]
fn align_helpers_round_to_page() {
    assert_eq!(align_up(0x1001, 0x1000), 0x2000);
    assert_eq!(align_up(0x1000, 0x1000), 0x1000);
    assert_eq!(align_down(0x1fff, 0x1000), 0x1000);
    assert_eq!(align_down(0x2000, 0x1000), 0x2000);
}

#[test]
fn frame_addresses() {
    let f = Frame::from_addr(0x5123);
    assert_eq!(f, Frame(5));
    assert_eq!(f.start_address(), 5 * PAGE_SIZE);
    assert_eq!(f.end_address(), 6 * PAGE_SIZE);
}

#[test]
fn flags_union_insert_remove() {
    let mut f = PageTableEntryFlags::empty();
    assert_eq!(f.bits(), 0);
    f.insert(flags(PageTableEntryFlags::WRITABLE));
    let g = f.union(flags(PageTableEntryFlags::NO_EXECUTE));
    assert_eq!(g.bits(), PageTableEntryFlags::WRITABLE | PageTableEntryFlags::NO_EXECUTE);
    f.remove(flags(PageTableEntryFlags::WRITABLE));
    assert_eq!(f.bits(), 0);
    assert_eq!(flags(u64::MAX).bits(), 0x8000_0000_0000_01FF);
}

#[test]
fn page_table_entry_unused_and_huge() {
    let mut e = PageTableEntry::new();
    assert!(e.is_unused());
    e.set(Frame(3), flags(PageTableEntryFlags::PRESENT | PageTableEntryFlags::HUGE_PAGE));
    assert!(!e.is_unused());
    assert!(e.is_present());
    assert!(e.is_huge());
    assert_eq!(e.get_physical_address(), PhysicalAddress(0x3000));
    e.set_unused();
    assert!(e.is_unused());
}

#[test]
fn table_next_table_address() {
    let mut t: Table<L4> = Table::new();
    let mut e = PageTableEntry::new();
    e.set(Frame(2), flags(PageTableEntryFlags::PRESENT));
    t.set(5, e);
    assert_eq!(t.get(5), e);
    assert_eq!(t.next_table_addr(0x10000, 5), Some((0x10000 << 9) | (5 << 12)));
    assert_eq!(t.next_table_addr(0x10000, 6), None);
    let mut h = PageTableEntry::new();
    h.set(Frame(4), flags(PageTableEntryFlags::PRESENT | PageTableEntryFlags::HUGE_PAGE));
    t.set(7, h);
    assert_eq!(t.next_table_addr(0x10000, 7), None);
    t.zero();
    assert!(t.get(5).is_unused());
    let leaf: Table<L1> = Table::new();
    assert!(leaf.get(0).is_unused());
}

fn memmap() -> Vec<MemmapEntry> {
    vec![
        MemmapEntry { base: 0, length: 0x10000, type_: MEMMAP_USABLE },
        MemmapEntry { base: 0x10000, length: 0x10000, type_: 1 },
    ]
}

#[test]
fn bitmap_allocator_marks_reserved_and_bitmap_frames_used() {
    let a = BitmapFrameAllocator::new(&memmap());
    assert_eq!(a.total_frames(), 32);
    // the bitmap itself sits in frame 0
    assert!(a.is_frame_used(0));
    for f in 1..16 {
        assert!(a.is_frame_free(f));
    }
    for f in 16..32 {
        assert!(a.is_frame_used(f));
    }
}

#[test]
fn bitmap_allocator_allocates_first_free_and_frees_again() {
    let mut a = BitmapFrameAllocator::new(&memmap());
    let f1 = a.allocate_frame().unwrap();
    assert_eq!(f1, Frame(1));
    assert!(a.is_frame_used(1));
    let f2 = a.allocate_frame().unwrap();
    assert_eq!(f2, Frame(2));
    a.deallocate_frame(f1);
    assert!(a.is_frame_free(1));
    let f3 = a.allocate_frame().unwrap();
    assert_eq!(f3, Frame(1));
}

#[test]
fn bitmap_allocator_runs_out() {
    let mut a = BitmapFrameAllocator::new(&memmap());
    for _ in 1..16 {
        assert!(a.allocate_frame().is_some());
    }
    assert_eq!(a.allocate_frame(), None);
}

#[test]
fn bitmap_range_marking() {
    let mut a = BitmapFrameAllocator::new(&memmap());
    a.mark_frames_used(2..5);
    assert!(a.is_frame_used(2) && a.is_frame_used(4));
    assert!(a.is_frame_free(5));
    a.mark_frames_free(2..4);
    assert!(a.is_frame_free(2) && a.is_frame_free(3));
    assert!(a.is_frame_used(4));
    a.mark_frame_used(9);
    assert!(a.is_frame_used(9));
    a.mark_frame_free(9);
    assert!(a.is_frame_free(9));
}

#[test]
fn memory_maps_are_checked_before_use() {
    assert!(check_memmap(&memmap()));
    assert!(!check_memmap(&[]));
    assert!(!check_memmap(&[MemmapEntry { base: u64::MAX, length: 2, type_: MEMMAP_USABLE }]));
    // no area can hold the bitmap of 65536 frames
    assert!(!check_memmap(&[MemmapEntry { base: 0x1000_0000, length: 16, type_: MEMMAP_USABLE }]));
}

#[test]
fn vmm_region_list_after_allocate_and_deallocate() {
    let mut vmm = test_vmm();
    let layout = Layout::from_size_align(0x1234, 0x1000).unwrap();
    assert_eq!(vmm.allocate(layout).unwrap().0, 0x1000_0000);
    assert_eq!(vmm.entries, vec![VmmEntry { start: 0x1000_1234, end: 0x1001_0000 }]);

    // an aligned allocation out of an unaligned region leaves the part before it
    let page = Layout::from_size_align(0x1000, 0x1000).unwrap();
    assert_eq!(vmm.allocate(page).unwrap().0, 0x1000_2000);
    assert_eq!(
        vmm.entries,
        vec![VmmEntry { start: 0x1000_1234, end: 0x1000_2000 }, VmmEntry { start: 0x1000_3000, end: 0x1001_0000 }]
    );

    // giving the page back closes the gap between both neighbours
    vmm.deallocate(0x1000_2000, 0x1000);
    assert_eq!(vmm.entries, vec![VmmEntry { start: 0x1000_1234, end: 0x1001_0000 }]);

    // a range apart from every region becomes a region of its own, in order
    vmm.deallocate(0x0800_0000, 0x1000);
    vmm.deallocate(0x2000_0000, 0x1000);
    assert_eq!(
        vmm.entries,
        vec![
            VmmEntry { start: 0x0800_0000, end: 0x0800_1000 },
            VmmEntry { start: 0x1000_1234, end: 0x1001_0000 },
            VmmEntry { start: 0x2000_0000, end: 0x2000_1000 },
        ]
    );
}
