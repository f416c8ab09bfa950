//! What the exception handlers decide from the saved state of the interrupted code.
use vstd::prelude::*;

use crate::kernel::{USER_STACK_BOTTOM, USER_STACK_TOP};
use crate::memory::PAGE_SIZE;
use crate::memory::paging::PageTableEntryFlags;
use crate::memory::vmspace::{areas_ordered, MappingType, Vma, VmSpace};
use crate::utils::{align_down, align_down_spec};

verus! {

/// The state that the processor saves for an exception.
#[derive(Debug, Clone, Copy)]
pub struct ExceptionStackFrame {
    pub rip: usize,
    pub cs: usize,
    pub rflags: usize,
    pub rsp: usize,
    pub ss: usize,
}

/// The state that the processor saves for an exception that pushes an error code.
#[derive(Debug, Clone, Copy)]
pub struct ExceptionStackFrameWithError {
    pub error_code: usize,
    pub rip: usize,
    pub cs: usize,
    pub rflags: usize,
    pub rsp: usize,
    pub ss: usize,
}

/// The page was present (the fault is a protection violation).
pub const PROTECTION_VIOLATION: u64 = 1;
/// The fault was caused by a write.
pub const CAUSED_BY_WRITE: u64 = 2;
/// The fault happened in user mode.
pub const USER_MODE: u64 = 4;
/// A reserved bit of a page-table entry was set.
pub const MALFORMED_TABLE: u64 = 8;
/// The fault was caused by an instruction fetch.
pub const INSTRUCTION_FETCH: u64 = 16;
/// Every page-fault error code bit that the kernel knows.
pub const KNOWN_FAULT_BITS: u64 = 0x1F;

/// The bytes below the user stack pointer that a program may use without moving it.
pub const RED_ZONE: u64 = 128;

/// What the page-fault handler does.
#[derive(Debug, Clone, Copy, PartialEq, Eq, Structural)]
pub enum FaultAction {
    /// Map a zeroed page at `page` to grow the user stack, with the flags `flag_bits`.
    GrowStack { page: usize, flag_bits: u64 },
    /// Map a zeroed page at `addr` for the anonymous area `start..end`, with the area's
    /// flags and user access.
    MapAnonymous { addr: usize, start: usize, end: usize, flag_bits: u64 },
    /// A write to a read-only area: the task is ended.
    SegmentationFault,
    /// The area is backed by an ELF image, which faults do not fill in.
    Unsupported,
    /// No area holds the address: the fault is fatal.
    Fatal,
}

/// The flags of a page that grows the user stack: writable, reachable from user mode and
/// not executable.
pub const STACK_PAGE_FLAGS: u64 = PageTableEntryFlags::WRITABLE | PageTableEntryFlags::USER_ACCESSIBLE
    | PageTableEntryFlags::NO_EXECUTE;

/// The area of `s` that holds `addr`, if any.
pub open spec fn area_containing(s: Seq<(usize, Vma)>, addr: int) -> Option<(usize, Vma)> {
    if exists|i: int| 0 <= i < s.len() && (#[trigger] s[i]).0 <= addr < s[i].1.end {
        Some(s[choose|i: int| 0 <= i < s.len() && (#[trigger] s[i]).0 <= addr < s[i].1.end])
    } else {
        None
    }
}

/// The address lies in the user stack and not below the red zone under the stack pointer.
pub open spec fn is_stack_growth(addr: int, user_rsp: int) -> bool {
    &&& USER_STACK_BOTTOM <= addr < USER_STACK_TOP
    &&& addr >= (if user_rsp >= RED_ZONE { user_rsp - RED_ZONE } else { 0 })
}

/// What a page fault at `addr`, with error code `error_code`, while the user stack pointer
/// was `user_rsp`, calls for in the task whose areas are `s`.
pub open spec fn fault_action(s: Seq<(usize, Vma)>, addr: int, error_code: u64, user_rsp: int) -> FaultAction {
    if is_stack_growth(addr, user_rsp) {
        FaultAction::GrowStack { page: align_down_spec(addr, PAGE_SIZE as int) as usize, flag_bits: STACK_PAGE_FLAGS }
    } else {
        match area_containing(s, addr) {
            None => FaultAction::Fatal,
            Some((start, vma)) => if error_code & CAUSED_BY_WRITE != 0 && vma.flags.spec_bits() & PageTableEntryFlags::WRITABLE
                != PageTableEntryFlags::WRITABLE {
                FaultAction::SegmentationFault
            } else {
                match vma.ty {
                    MappingType::Anonymous => FaultAction::MapAnonymous {
                        addr: addr as usize,
                        start,
                        end: vma.end,
                        flag_bits: vma.flags.spec_bits() | PageTableEntryFlags::USER_ACCESSIBLE,
                    },
                    MappingType::Elf { .. } => FaultAction::Unsupported,
                }
            },
        }
    }
}

proof fn lemma_area_unique(s: Seq<(usize, Vma)>, addr: int, i: int)
    requires
        areas_ordered(s),
        0 <= i < s.len(),
        s[i].0 <= addr < s[i].1.end,
    ensures
        area_containing(s, addr) == Some(s[i]),
{
    let j = choose|j: int| 0 <= j < s.len() && (#[trigger] s[j]).0 <= addr < s[j].1.end;
    if j < i {
        assert(s[j].1.end <= s[i].0);
    } else if i < j {
        assert(s[i].1.end <= s[j].0);
    }
}

/// Decides what a page fault at `addr` (the faulting address), with `error_code`, while the
/// user stack pointer was `user_rsp`, calls for in a task with the areas `vmspace`: growing
/// the user stack when the address is in it and not below the red zone; else filling in the
/// anonymous area that holds it, unless the fault is a write to a read-only area.
pub fn page_fault_action(vmspace: &VmSpace, addr: usize, error_code: u64, user_rsp: u64) -> (r: FaultAction)
    requires
        areas_ordered(vmspace@),
        error_code & !KNOWN_FAULT_BITS == 0,
    ensures
        r == fault_action(vmspace@, addr as int, error_code, user_rsp as int),
{
    let in_stack = USER_STACK_BOTTOM <= addr as u64 && (addr as u64) < USER_STACK_TOP;
    let valid_growth = addr as u64 >= user_rsp.saturating_sub(RED_ZONE);
    if in_stack && valid_growth {
        return FaultAction::GrowStack { page: align_down(addr, PAGE_SIZE), flag_bits: STACK_PAGE_FLAGS };
    }
    match vmspace.find(addr) {
        None => FaultAction::Fatal,
        Some((start, vma)) => {
            proof {
                let i = choose|i: int| 0 <= i < vmspace@.len() && (#[trigger] vmspace@[i]).0 == start && vmspace@[i].1 == *vma && start <= addr < vma.end;
                lemma_area_unique(vmspace@, addr as int, i);
            }
            if error_code & CAUSED_BY_WRITE != 0 && vma.flags.bits() & PageTableEntryFlags::WRITABLE != PageTableEntryFlags::WRITABLE {
                return FaultAction::SegmentationFault;
            }
            match &vma.ty {
                MappingType::Anonymous => FaultAction::MapAnonymous {
                    addr,
                    start,
                    end: vma.end,
                    flag_bits: vma.flags.bits() | PageTableEntryFlags::USER_ACCESSIBLE,
                },
                MappingType::Elf { .. } => FaultAction::Unsupported,
            }
        },
    }
}

/// The fields of a selector error code: whether the exception came from outside the
/// processor, the descriptor table (0 GDT, 1 IDT, 2 LDT, 3 IDT) and the selector index.
pub fn selector_error_fields(error_code: u64) -> (r: (bool, u64, u64))
    ensures
        r.0 == (error_code % 2 == 1),
        r.1 == (error_code / 2) % 4,
        r.2 == (error_code / 8) % 0x2000,
{
    proof {
        lemma_selector_bits(error_code);
    }
    (error_code & 1 != 0, (error_code >> 1u64) & 0b11, (error_code >> 3u64) & 0x1FFF)
}

proof fn lemma_selector_bits(e: u64)
    by (bit_vector)
    ensures
        (e & 1 != 0) == (e % 2 == 1),
        (e >> 1u64) & 0b11 == (e / 2) % 4,
        (e >> 3u64) & 0x1FFF == (e / 8) % 0x2000,
{
}

} // verus!
