use magicalos::arch::{fpu_control, fsgsbase_cr4, CpuFeatures};
use magicalos::arch::hpet::Hpet;
use magicalos::arch::interrupts::{page_fault_action, selector_error_fields, FaultAction, STACK_PAGE_FLAGS};
use magicalos::bus::pci::{
    config_address, function_present, probe_targets, DriverError, PciBar, PciClass, PciDevice, PciMatcher, PciScan,
};
use magicalos::drivers::ivshmem::{IvShMemDriver, IVSHMEM_DEVICE, IVSHMEM_VENDOR};
use magicalos::drivers::terminal::{Color, Reset};
use magicalos::drivers::webcam_shm::WebcamDevice;
use magicalos::gdt::{gdt_table, GdtEntry, GdtR, KERNEL_CODE_WORD, RING3_CODE_WORD};
use magicalos::graphics::framebuffer::{FrameBufferInfo, WindowConsole};
use magicalos::io::apic::{apic_base_enabling, calibrate_lapic_timer, get_id, lvt_timer_value, DivideConfig, LVT_TIMER_PERIODIC};
use magicalos::io::Error;
use magicalos::kernel::USER_STACK_TOP;
use magicalos::memory::paging::{PageTableEntryFlags, PhysicalAddress};
use magicalos::memory::vmspace::{Error as VmError, MappingType, VmSpace, FREE_REGION_START};
use magicalos::serial::{serial_bytes, SerialPort, COM1};
use magicalos::utils::Layout;

#[test]
fn pci_config_address_layout() {
    assert_eq!(config_address(1, 2, 3, 0x13), 0x8001_1310);
    assert_eq!(config_address(0, 0, 0, 0), 0x8000_0000);
}

#[test]
fn pci_device_from_registers() {
    assert!(PciDevice::from_registers(0, 1, 0, 0xFFFF_FFFF, 0, 0).is_none());
    let d = PciDevice::from_registers(0, 3, 1, 0x1110_1AF4, 0x0500_0001, 0x0080_0000).unwrap();
    assert_eq!(d.vendor_id, 0x1AF4);
    assert_eq!(d.device_id, 0x1110);
    assert_eq!(d.class, 0x05);
    assert_eq!(d.subclass, 0x00);
    assert_eq!(d.prog_if, 0x00);
    assert_eq!(d.header_type, 0);
    assert!(d.is_multi_function);
    assert_eq!(d.config_address(0x18), config_address(0, 3, 1, 0x18));
    assert_eq!(d.bar_offset(2), Some(0x18));
    assert_eq!(d.bar_offset(6), None);
    assert!(PciMatcher::Id { vendor: IVSHMEM_VENDOR, device: IVSHMEM_DEVICE }.match_pci(&d));
    assert!(!PciMatcher::Class { class: 1, subclass: 0, prog_if: 0 }.match_pci(&d));
    assert!(PciMatcher::Class { class: 5, subclass: 0, prog_if: 0 }.match_pci(&d));
}

#[test]
fn pci_bridge_has_two_bars() {
    let d = PciDevice::from_registers(0, 1, 0, 0x0001_8086, 0x0604_0000, 0x0001_0000).unwrap();
    assert_eq!(d.header_type, 1);
    assert!(!d.is_multi_function);
    assert_eq!(d.bar_offset(1), Some(0x14));
    assert_eq!(d.bar_offset(2), None);
}

#[test]
fn pci_command_bits() {
    assert_eq!(PciDevice::enable_capabilities(0x100, true, true, false), 0x106);
    assert_eq!(PciDevice::enable_capabilities(0, false, false, true), 1);
    assert_eq!(PciDevice::enable_capabilities(7, false, false, false), 7);
}

#[test]
fn pci_bar_decoding() {
    assert!(PciBar::decode(0, 0, 0, None).is_none());
    match PciBar::decode(0, 0xFEB0_0008, 0xFFFF_F008, None) {
        Some(PciBar::Mmio32 { address, size, prefetchable }) => {
            assert_eq!(address, 0xFEB0_0000);
            assert_eq!(size, 0x1000);
            assert!(prefetchable);
        }
        other => panic!("unexpected {:?}", other),
    }
    match PciBar::decode(1, 0xC001, 0xFFFF_FFE1, None) {
        Some(PciBar::Io { port, size }) => {
            assert_eq!(port, 0xC000);
            assert_eq!(size, usize::MAX - 0xFFFF_FFE0 + 1);
        }
        other => panic!("unexpected {:?}", other),
    }
    assert!(PciBar::needs_high_half(2, 0x0000_000C));
    assert!(!PciBar::needs_high_half(5, 0x0000_000C));
    assert!(!PciBar::needs_high_half(2, 0x0000_0008));
    match PciBar::decode(2, 0x0000_000C, 0xFFF0_000C, Some((0x1, 0xFFFF_FFFF))) {
        Some(PciBar::Mmio64 { address, size, prefetchable }) => {
            assert_eq!(address, 0x1_0000_0000);
            assert_eq!(size, 0x10_0000);
            assert!(prefetchable);
        }
        other => panic!("unexpected {:?}", other),
    }
}

#[test]
fn pci_class_tables() {
    assert_eq!(PciClass::from_u8(0x01), Some(PciClass::MassStorageController));
    assert_eq!(PciClass::from_u8(0x40), Some(PciClass::Coprocessor));
    assert_eq!(PciClass::from_u8(0x14), None);
    assert_eq!(PciClass::Bridge.code(), 0x06);
    assert_eq!(PciClass::MassStorageController.get_subclass_name(0x01), "IDE Controller");
    assert_eq!(PciClass::MassStorageController.get_subclass_name(0x55), "Unknown Subclass");
    assert_eq!(PciClass::NetworkController.get_subclass_name(0x00), "Ethernet Controller");
    for code in 0u8..=255 {
        if let Some(c) = PciClass::from_u8(code) {
            assert_eq!(c.code(), code);
        }
    }
    assert_eq!(DriverError::NoMemory.description(), "Out of memory during driver init");
    assert_eq!(DriverError::BarNotFound.description(), "BarNotFound");
}

#[test]
fn ivshmem_region() {
    let drv = IvShMemDriver;
    assert_eq!(drv.name(), "ivshmem-plain");
    assert_eq!(drv.ids(), [PciMatcher::Id { vendor: 0x1AF4, device: 0x1110 }]);
    assert_eq!(IvShMemDriver::shm_region(None), Err(DriverError::BarNotFound));
    assert_eq!(
        IvShMemDriver::shm_region(Some(PciBar::Mmio64 { address: 0x8000_0000, size: 0x40_0000, prefetchable: true })),
        Ok((0x8000_0000, 0x40_0000))
    );
    assert_eq!(
        IvShMemDriver::shm_region(Some(PciBar::Io { port: 0xC000, size: 0x100 })),
        Err(DriverError::InvalidConfiguration)
    );
}

#[test]
fn webcam_mmap_offsets() {
    assert_eq!(WebcamDevice::mmap(None, 0), Err(Error::NoSuchDevice));
    assert_eq!(WebcamDevice::mmap(Some((0x8000_0000, 0x1000)), 0x10), Ok(PhysicalAddress(0x8000_0010)));
    assert_eq!(WebcamDevice::mmap(Some((0x8000_0000, 0x1000)), 0x1000), Err(Error::InvalidValue));
}

#[test]
fn gdt_words() {
    assert_eq!(GdtEntry::kernel_code_seg().bits(), KERNEL_CODE_WORD);
    assert_eq!(KERNEL_CODE_WORD, 0x00A0_9A00_0000_0000);
    assert_eq!(GdtEntry::kernel_data_seg().bits(), 0x0000_9200_0000_0000);
    assert_eq!(GdtEntry::ring3_data_seg().bits(), 0x009F_F200_0000_FFFF);
    assert_eq!(GdtEntry::ring3_code_seg().bits(), RING3_CODE_WORD);
    let c = GdtEntry::ring3_code_seg();
    assert_eq!(c.dpl(), 3);
    assert!(c.present() && c.is_code() && c.long_mode() && c.is_code_data_segment());
    assert_eq!(c.limit_low(), 0xFFFF);
    assert_eq!(c.limit_high(), 0xF);
    assert!(!GdtEntry::kernel_data_seg().is_code());
}

#[test]
fn gdt_setters_chain() {
    let mut e = GdtEntry::new();
    e.set_limit_low(0x1234).set_base_low(0xABCDEF).set_dpl(2).set_present().set_base_high(0x56);
    assert_eq!(e.limit_low(), 0x1234);
    assert_eq!(e.base_low(), 0xABCDEF);
    assert_eq!(e.dpl(), 2);
    assert!(e.present());
    assert_eq!(e.base_high(), 0x56);
    assert!(!e.gran());
    e.set_gran().set_big().set_available().set_accessed().set_read_write().set_conforming_expand_down();
    assert!(e.gran() && e.big() && e.available() && e.accessed() && e.read_write() && e.conforming_expand_down());
    e.set_system_segment_type(0x9).set_limit_high(0x3);
    assert_eq!(e.system_segment_type(), 0x9);
    assert_eq!(e.limit_high(), 0x3);
}

#[test]
fn gdt_tss_and_table() {
    let (lo, hi) = GdtEntry::tss_seg(0x1234_5678_9ABC_DEF0, 0x67);
    assert_eq!(lo.bits(), 0x9A00_89BC_DEF0_0067);
    assert_eq!(hi.bits(), 0x1234_5678);
    let t = gdt_table(lo, hi);
    assert_eq!(t[0].bits(), 0);
    assert_eq!(t[1].bits(), KERNEL_CODE_WORD);
    assert_eq!(t[5].bits(), lo.bits());
    assert_eq!(t[6].bits(), hi.bits());
    let r = GdtR::new(0xFFFF_8000_0000_1000);
    assert_eq!(r.size, 7 * 8 - 1);
    assert_eq!(r.base, 0xFFFF_8000_0000_1000);
    assert_eq!(GdtEntry::default().bits(), 0);
}

#[test]
fn hpet_arithmetic() {
    let h = Hpet::new(0xFED0_0000, 0x0098_9680_8086_A201);
    assert_eq!(h.time_period, 0x0098_9680);
    assert_eq!(h.register_address(0xF0), 0xFED0_00F0);
    assert_eq!(Hpet::enabled_config(0x2), 0x3);
    // 10_000_000 fs per tick: 1 ms is 100_000 ticks
    assert_eq!(h.busy_wait_ticks(1_000_000), 100_000);
    assert!(!Hpet::busy_wait_done(10, 20, 11));
    assert!(Hpet::busy_wait_done(10, 21, 11));
    assert_eq!(h.uptime_nanos(100), 1000);
}

#[test]
fn apic_values() {
    assert_eq!(get_id(0x0300_0000), 3);
    assert_eq!(lvt_timer_value(LVT_TIMER_PERIODIC, 0x20), 0x2_0020);
    assert_eq!(apic_base_enabling(0xFEE0_0000), Some(0xFEE0_0800));
    assert_eq!(apic_base_enabling(0xFEE0_0800), None);
    assert_eq!(calibrate_lapic_timer(1_000_000, 900_000), 10_000_000);
    assert_eq!(DivideConfig::DivideBy16.bits(), 0b011);
    assert_eq!(DivideConfig::DivideBy1.bits(), 0b111);
    let asc = DivideConfig::ascending();
    assert_eq!(asc[0], (1, DivideConfig::DivideBy1));
    assert_eq!(asc[7], (128, DivideConfig::DivideBy128));
}

#[test]
fn serial_port_setup_and_text() {
    let p = SerialPort::new(COM1);
    let w = p.init();
    assert_eq!(w.len(), 7);
    assert_eq!(w[0], (0x3F9, 0x00));
    assert_eq!(w[1], (0x3FB, 0x80));
    assert_eq!(w[6], (0x3FC, 0x0B));
    assert_eq!(p.line_status_port(), 0x3FD);
    assert!(p.send(0x20));
    assert!(!p.send(0x1F));
    assert_eq!(serial_bytes(b"a\nb\n"), b"a\r\nb\r\n");
    assert_eq!(serial_bytes(b""), b"");
}

#[test]
fn terminal_escape_sequences() {
    assert_eq!(Reset.to_bytes(), b"\x1b[0m");
    assert_eq!(Color::Red.fg().to_bytes(), b"\x1b[31m");
    assert_eq!(Color::Default.bg().to_bytes(), b"\x1b[49m");
    assert_eq!(Color::White.fg().code(), 37);
    assert_eq!(Color::Black.bg().code(), 40);
}

fn fb() -> FrameBufferInfo {
    FrameBufferInfo { width: 32, height: 16, bits_per_pixel: 32, pitch: 128, r_shift: 16, g_shift: 8, b_shift: 0 }
}

#[test]
fn framebuffer_pixels_and_console_cursor() {
    let info = fb();
    assert_eq!(info.compose_color(0x12, 0x34, 0x56), 0x123456);
    assert_eq!(info.pixel_offset(3, 2), Some(2 * 128 + 12));
    assert_eq!(info.pixel_offset(32, 0), None);
    assert_eq!(info.pixel_offset(0, 16), None);
    let mut con = WindowConsole::new(info, 8, 16);
    assert_eq!(con.foreground, 0xFFFFFF);
    con.change_colors(0xFF0000, 0x0000FF);
    assert_eq!((con.foreground, con.background), (0xFF0000, 0x0000FF));
    assert_eq!(con.write_char('a'), (0, 0));
    assert_eq!(con.write_char('b'), (8, 0));
    assert_eq!(con.write_char('c'), (16, 0));
    assert_eq!(con.write_char('d'), (24, 0));
    // the cursor wrapped to the next row
    assert_eq!((con.x, con.y), (0, 16));
    assert_eq!(con.write_char('e'), (0, 16));
}

fn flags(bits: u64) -> PageTableEntryFlags {
    PageTableEntryFlags::from_bits_truncate(bits)
}

fn space() -> VmSpace {
    let mut s = VmSpace::new();
    s.insert(0x1000_0000, 0x1000_2000, flags(PageTableEntryFlags::WRITABLE), MappingType::Anonymous).unwrap();
    s.insert(0x2000_0000, 0x2000_1000, flags(0), MappingType::Anonymous).unwrap();
    s
}

#[test]
fn vmspace_insert_find_and_free_regions() {
    let mut s = space();
    assert_eq!(
        s.insert(0x1000_1000, 0x1000_3000, flags(0), MappingType::Anonymous),
        Err(VmError::Overlap)
    );
    let (start, vma) = s.find(0x1000_1fff).unwrap();
    assert_eq!(start, 0x1000_0000);
    assert_eq!(vma.end, 0x1000_2000);
    assert!(s.find(0x1000_2000).is_none());
    let l = Layout::from_size_align(0x1000, 0x1000).unwrap();
    assert_eq!(s.find_free_region(l), Some(FREE_REGION_START));
    s.insert(FREE_REGION_START, FREE_REGION_START + 0x1000, flags(0), MappingType::Anonymous).unwrap();
    assert_eq!(s.find_free_region(l), Some(FREE_REGION_START + 0x1000));
    assert!(VmSpace::new().find(0).is_none());
}

#[test]
fn page_faults_are_classified() {
    let s = space();
    assert_eq!(
        page_fault_action(&s, 0x1000_0800, 2, 0),
        FaultAction::MapAnonymous { addr: 0x1000_0800, start: 0x1000_0000, end: 0x1000_2000, flag_bits: 6 }
    );
    assert_eq!(page_fault_action(&s, 0x2000_0010, 2, 0), FaultAction::SegmentationFault);
    assert_eq!(
        page_fault_action(&s, 0x2000_0010, 0, 0),
        FaultAction::MapAnonymous { addr: 0x2000_0010, start: 0x2000_0000, end: 0x2000_1000, flag_bits: 4 }
    );
    assert_eq!(page_fault_action(&s, 0x3000_0000, 0, 0), FaultAction::Fatal);
    let top = USER_STACK_TOP as usize;
    let addr = top - 0x1800;
    assert_eq!(
        page_fault_action(&s, addr, 6, (addr + 64) as u64),
        FaultAction::GrowStack { page: top - 0x2000, flag_bits: STACK_PAGE_FLAGS }
    );
    assert_eq!(STACK_PAGE_FLAGS, 0x8000_0000_0000_0006);
    // below the red zone: not a stack access
    assert_eq!(page_fault_action(&s, addr, 6, (top - 0x1000) as u64), FaultAction::Fatal);
}

#[test]
fn selector_error_code_fields() {
    assert_eq!(selector_error_fields(0b1_0110_011), (true, 1, 0x16));
    assert_eq!(selector_error_fields(0), (false, 0, 0));
}

#[test]
fn pixels_are_written_in_framebuffer_memory() {
    let con = WindowConsole::new(fb(), 8, 16);
    let mut mem = vec![0u8; 128 * 16];
    con.write_pixel(&mut mem, 1, 2, 0x12, 0x34, 0x56);
    let off = 2 * 128 + 4;
    assert_eq!(&mem[off..off + 4], &[0x56, 0x34, 0x12, 0x00]);
    assert_eq!(mem.iter().filter(|b| **b != 0).count(), 3);
    // outside the screen nothing changes
    con.write_pixel(&mut mem, 32, 0, 0xFF, 0xFF, 0xFF);
    assert_eq!(mem.iter().filter(|b| **b != 0).count(), 3);

    let info24 = FrameBufferInfo { width: 4, height: 2, bits_per_pixel: 24, pitch: 12, r_shift: 16, g_shift: 8, b_shift: 0 };
    let con24 = WindowConsole::new(info24, 8, 16);
    let mut mem24 = vec![0xEEu8; 24];
    con24.write_pixel(&mut mem24, 1, 1, 1, 2, 3);
    assert_eq!(&mem24[15..18], &[3, 2, 1]);
    assert_eq!(mem24[18], 0xEE);
}

#[test]
fn wallpaper_is_copied_little_endian() {
    let info = FrameBufferInfo { width: 2, height: 1, bits_per_pixel: 32, pitch: 8, r_shift: 16, g_shift: 8, b_shift: 0 };
    let con = WindowConsole::new(info, 8, 16);
    let mut mem = vec![0xAAu8; 10];
    con.draw_wallpaper(&mut mem, &[0x0102_0304, 0xA0B0_C0D0, 0xFFFF_FFFF]);
    assert_eq!(mem, vec![4, 3, 2, 1, 0xD0, 0xC0, 0xB0, 0xA0, 0xAA, 0xAA]);
}

#[test]
fn pci_scan_order() {
    assert!(!function_present(0xFFFF_FFFF));
    assert!(function_present(0x1110_1AF4));
    let mut scan = PciScan::new();
    assert_eq!(scan.location(), Some((0, 0, 0)));
    // nothing at 0:0.0: on to the next slot
    scan.advance(&None);
    assert_eq!(scan.location(), Some((0, 1, 0)));
    // a single-function device: next slot
    let single = PciDevice::from_registers(0, 1, 0, 0x1234_8086, 0, 0);
    scan.advance(&single);
    assert_eq!(scan.location(), Some((0, 2, 0)));
    // a multi-function device: its other functions follow
    let multi = PciDevice::from_registers(0, 2, 0, 0x1234_8086, 0, 0x0080_0000);
    scan.advance(&multi);
    assert_eq!(scan.location(), Some((0, 2, 1)));
    for f in 2..=7 {
        scan.advance(&None);
        assert_eq!(scan.location(), Some((0, 2, f)));
    }
    scan.advance(&None);
    assert_eq!(scan.location(), Some((0, 3, 0)));
    // with nothing found, every slot of every bus is visited once and the scan ends
    let mut empty = PciScan::new();
    let mut n = 0;
    while empty.location().is_some() {
        n += 1;
        empty.advance(&None);
    }
    assert_eq!(n, 256 * 32);
    assert!(empty.done);
}

#[test]
fn pci_probe_targets_follow_patterns() {
    let devs = vec![
        PciDevice::from_registers(0, 1, 0, 0x1110_1AF4, 0x0500_0000, 0).unwrap(),
        PciDevice::from_registers(0, 2, 0, 0x1234_8086, 0x0200_0000, 0).unwrap(),
        PciDevice::from_registers(0, 3, 0, 0x1110_1AF4, 0x0500_0000, 0).unwrap(),
    ];
    let ms = [
        PciMatcher::Id { vendor: 0x1AF4, device: 0x1110 },
        PciMatcher::Class { class: 5, subclass: 0, prog_if: 0 },
    ];
    assert_eq!(probe_targets(&devs, &ms), vec![0, 0, 2, 2]);
    assert_eq!(probe_targets(&devs, &ms[..1]), vec![0, 2]);
    assert_eq!(probe_targets(&devs, &[]), Vec::<usize>::new());
    assert_eq!(PciDevice::decoding_disabled(0x0507), 0x0500);
}

#[test]
fn processor_control_register_values() {
    let all = CpuFeatures { fsgsbase: true, sse: true };
    let none = CpuFeatures { fsgsbase: false, sse: false };
    assert_eq!(fsgsbase_cr4(all, 0x20), Some(0x1_0020));
    assert_eq!(fsgsbase_cr4(none, 0x20), None);
    assert_eq!(fpu_control(all, 0x8000_0015, 0x20), Some((0x8000_0033, 0x620)));
    assert_eq!(fpu_control(none, 0x8000_0015, 0x20), None);
}
