//! x86-64 four-level paging: addresses, page-table entries and tables.
use vstd::prelude::*;
use core::marker::PhantomData;

use crate::memory::{Frame, PAGE_SIZE};

verus! {

/// Bits 12..=51 of an entry: the physical address of the frame or next table.
pub const PHYSICAL_ADDRESS_MASK: u64 = 0xFFFFFFFFFF000;

/// The number of entries in every table.
pub const ENTRIES_PER_TABLE: usize = 512;

/// A physical address.
#[derive(Debug, Clone, Copy, PartialEq, Eq, Structural)]
pub struct PhysicalAddress(pub u64);

/// A virtual address.
#[derive(Debug, Clone, Copy, PartialEq, Eq, Structural)]
pub struct VirtualAddress(pub u64);

/// `(x >> shift) & 0o777`: the nine-bit table index that starts at bit `shift`.
pub open spec fn table_index(x: u64, shift: u64) -> int {
    ((x >> shift) & 0x1FF) as int
}

impl VirtualAddress {
    /// Index into the level-4 table (bits 39..=47).
    pub fn p4_idx(&self) -> (r: usize)
        ensures
            r == table_index(self.0, 39),
            r < 512,
    {
        let x = self.0;
        assert((x >> 39u64) & 0x1FF < 512) by (bit_vector);
        ((x >> 39u64) & 0x1FF) as usize
    }

    /// Index into the level-3 table (bits 30..=38).
    pub fn p3_idx(&self) -> (r: usize)
        ensures
            r == table_index(self.0, 30),
            r < 512,
    {
        let x = self.0;
        assert((x >> 30u64) & 0x1FF < 512) by (bit_vector);
        ((x >> 30u64) & 0x1FF) as usize
    }

    /// Index into the level-2 table (bits 21..=29).
    pub fn p2_idx(&self) -> (r: usize)
        ensures
            r == table_index(self.0, 21),
            r < 512,
    {
        let x = self.0;
        assert((x >> 21u64) & 0x1FF < 512) by (bit_vector);
        ((x >> 21u64) & 0x1FF) as usize
    }

    /// Index into the level-1 table (bits 12..=20).
    pub fn p1_idx(&self) -> (r: usize)
        ensures
            r == table_index(self.0, 12),
            r < 512,
    {
        let x = self.0;
        assert((x >> 12u64) & 0x1FF < 512) by (bit_vector);
        ((x >> 12u64) & 0x1FF) as usize
    }
}

impl PhysicalAddress {
    /// The address at which the higher-half direct map shows this physical address.
    pub fn to_virtual(&self, hhdm_offset: u64) -> (r: VirtualAddress)
        requires
            self.0 + hhdm_offset <= u64::MAX,
        ensures
            r.0 == self.0 + hhdm_offset,
    {
        VirtualAddress(self.0 + hhdm_offset)
    }
}

/// The flag bits of a page-table entry.
#[derive(Debug, Clone, Copy, PartialEq, Eq, Structural)]
pub struct PageTableEntryFlags {
    bits: u64,
}

/// Every defined flag bit (0..=8 and 63).
pub const ALL_FLAG_BITS: u64 = 0x8000_0000_0000_01FF;

impl PageTableEntryFlags {
    pub const PRESENT: u64 = 1;
    pub const WRITABLE: u64 = 2;
    pub const USER_ACCESSIBLE: u64 = 4;
    pub const WRITE_THROUGH: u64 = 8;
    pub const CACHE_DISABLE: u64 = 16;
    pub const ACCESSED: u64 = 32;
    pub const DIRTY: u64 = 64;
    pub const HUGE_PAGE: u64 = 128;
    pub const GLOBAL: u64 = 256;
    pub const NO_EXECUTE: u64 = 0x8000_0000_0000_0000;

    /// Only defined flag bits are set.
    pub open spec fn wf(&self) -> bool {
        self.spec_bits() & !ALL_FLAG_BITS == 0
    }

    /// The raw bits of the flags.
    pub closed spec fn spec_bits(&self) -> u64 {
        self.bits
    }

    /// The flags whose raw bits are `bits`.
    pub closed spec fn with_spec_bits(bits: u64) -> Self {
        PageTableEntryFlags { bits }
    }

    /// Flags are determined by their raw bits.
    pub proof fn lemma_with_spec_bits(f: Self, bits: u64)
        ensures
            Self::with_spec_bits(bits).spec_bits() == bits,
            f.spec_bits() == bits ==> f == Self::with_spec_bits(bits),
    {
    }

    /// Keeps the defined flag bits of `bits` and drops the others.
    pub fn from_bits_truncate(bits: u64) -> (r: Self)
        ensures
            r.spec_bits() == bits & ALL_FLAG_BITS,
            r.wf(),
    {
        assert((bits & 0x8000_0000_0000_01FFu64) & !0x8000_0000_0000_01FFu64 == 0) by (bit_vector);
        PageTableEntryFlags { bits: bits & ALL_FLAG_BITS }
    }

    /// No flag set.
    pub fn empty() -> (r: Self)
        ensures
            r.spec_bits() == 0,
            r.wf(),
    {
        assert(0u64 & !0x8000_0000_0000_01FFu64 == 0) by (bit_vector);
        PageTableEntryFlags { bits: 0 }
    }

    /// The raw bits of the flags.
    pub fn bits(&self) -> (r: u64)
        ensures
            r == self.spec_bits(),
    {
        self.bits
    }

    /// Every flag of `other` is set in `self`.
    pub fn contains(&self, other: Self) -> (r: bool)
        ensures
            r == (self.spec_bits() & other.spec_bits() == other.spec_bits()),
    {
        self.bits & other.bits == other.bits
    }

    /// The flags of `self` and of `other` together.
    pub fn union(self, other: Self) -> (r: Self)
        requires
            self.wf(),
            other.wf(),
        ensures
            r.spec_bits() == self.spec_bits() | other.spec_bits(),
            r.wf(),
    {
        let (a, b) = (self.bits, other.bits);
        assert(a & !0x8000_0000_0000_01FFu64 == 0 && b & !0x8000_0000_0000_01FFu64 == 0 ==> (a | b) & !0x8000_0000_0000_01FFu64 == 0) by (bit_vector);
        PageTableEntryFlags { bits: a | b }
    }

    /// Sets the flags of `other`.
    pub fn insert(&mut self, other: Self)
        requires
            old(self).wf(),
            other.wf(),
        ensures
            final(self).spec_bits() == old(self).spec_bits() | other.spec_bits(),
            final(self).wf(),
    {
        *self = self.union(other);
    }

    /// Clears the flags of `other`.
    pub fn remove(&mut self, other: Self)
        requires
            old(self).wf(),
        ensures
            final(self).spec_bits() == old(self).spec_bits() & !other.spec_bits(),
            final(self).wf(),
    {
        let (a, b) = (self.bits, other.bits);
        assert(a & !0x8000_0000_0000_01FFu64 == 0 ==> (a & !b) & !0x8000_0000_0000_01FFu64 == 0) by (bit_vector);
        self.bits = a & !b;
    }
}

/// One entry of a page table: a frame address in bits 12..=51 and flags in the rest.
#[derive(Debug, Clone, Copy, PartialEq, Eq, Structural)]
pub struct PageTableEntry(pub u64);

impl PageTableEntry {
    /// An unused entry.
    pub fn new() -> (r: Self)
        ensures
            r.0 == 0,
    {
        PageTableEntry(0)
    }

    /// Points the entry at `frame` with `flags`.
    pub fn set(&mut self, frame: Frame, flags: PageTableEntryFlags)
        requires
            frame.0 * PAGE_SIZE <= usize::MAX,
            (frame.0 * PAGE_SIZE) as u64 & !PHYSICAL_ADDRESS_MASK == 0,
        ensures
            final(self).0 == (frame.0 * PAGE_SIZE) as u64 | flags.spec_bits(),
    {
        let addr = frame.start_address();
        self.0 = addr as u64 | flags.bits();
    }

    /// The defined flag bits of the entry.
    pub fn flags(&self) -> (r: PageTableEntryFlags)
        ensures
            r.spec_bits() == self.0 & ALL_FLAG_BITS,
            r.wf(),
    {
        PageTableEntryFlags::from_bits_truncate(self.0)
    }

    /// Clears the entry.
    pub fn set_unused(&mut self)
        ensures
            final(self).0 == 0,
    {
        self.0 = 0;
    }

    /// The entry is all zero.
    pub fn is_unused(&self) -> (r: bool)
        ensures
            r == (self.0 == 0),
    {
        self.0 == 0
    }

    /// Sets the bits of `flags` in the entry.
    pub fn set_flags(&mut self, flags: PageTableEntryFlags)
        ensures
            final(self).0 == old(self).0 | flags.spec_bits(),
    {
        self.0 = self.0 | flags.bits();
    }

    /// Clears the bits of `flags` in the entry.
    pub fn clear_flags(&mut self, flags: PageTableEntryFlags)
        ensures
            final(self).0 == old(self).0 & !flags.spec_bits(),
    {
        self.0 = self.0 & !flags.bits();
    }

    /// The present bit is set.
    pub fn is_present(&self) -> (r: bool)
        ensures
            r == (self.0 & PageTableEntryFlags::PRESENT != 0),
    {
        (self.0 & PageTableEntryFlags::PRESENT) != 0
    }

    /// The huge-page bit is set.
    pub fn is_huge(&self) -> (r: bool)
        ensures
            r == (self.0 & PageTableEntryFlags::HUGE_PAGE != 0),
    {
        (self.0 & PageTableEntryFlags::HUGE_PAGE) != 0
    }

    /// The physical address held in bits 12..=51.
    pub fn get_physical_address(&self) -> (r: PhysicalAddress)
        ensures
            r.0 == self.0 & PHYSICAL_ADDRESS_MASK,
    {
        PhysicalAddress(self.0 & PHYSICAL_ADDRESS_MASK)
    }

    /// The frame that the entry points to, when the present bit is set.
    pub fn get_pointed_frame(&self) -> (r: Option<Frame>)
        ensures
            r == (if self.0 & PageTableEntryFlags::PRESENT != 0 {
                Some(Frame(((self.0 & PHYSICAL_ADDRESS_MASK) as usize) / PAGE_SIZE))
            } else {
                None
            }),
    {
        let flags = self.flags();
        let x = self.0;
        assert((x & 0x8000_0000_0000_01FFu64) & 1u64 == 1u64 <==> x & 1u64 != 0) by (bit_vector);
        let present = PageTableEntryFlags::from_bits_truncate(PageTableEntryFlags::PRESENT);
        assert(1u64 & 0x8000_0000_0000_01FFu64 == 1u64) by (bit_vector);
        if flags.contains(present) {
            Some(Frame::from_addr(self.get_physical_address().0 as usize))
        } else {
            None
        }
    }
}

proof fn lemma_entry_bits(a: u64, f: u64, g: u64)
    by (bit_vector)
    requires
        a & !0xFFFFFFFFFF000u64 == 0,
        f & !0x8000_0000_0000_01FFu64 == 0,
        g & !0x8000_0000_0000_01FFu64 == 0,
    ensures
        (a | f) & 0xFFFFFFFFFF000u64 == a,
        (a | f) & 0x8000_0000_0000_01FFu64 == f,
        ((a | f) & 1u64 != 0) == (f & 1u64 != 0),
        (((a | f) | g) & 0x8000_0000_0000_01FFu64) & g == g,
        (((a | f) & !g) & 0x8000_0000_0000_01FFu64) & g == 0,
        ((a | f) | g) & 0xFFFFFFFFFF000u64 == a,
        ((a | f) & !g) & 0xFFFFFFFFFF000u64 == a,
{
}

/// An entry set to `frame` with `flags` gives back the frame's address and exactly those
/// flags, and points to `frame` exactly when `flags` holds the present bit. Setting flags
/// `g` afterwards makes the entry's flags contain them, clearing them makes it hold none of
/// them, and neither changes the address.
pub proof fn lemma_entry_roundtrip(frame: Frame, flags: PageTableEntryFlags, g: PageTableEntryFlags)
    requires
        frame.0 * PAGE_SIZE <= usize::MAX,
        (frame.0 * PAGE_SIZE) as u64 & !PHYSICAL_ADDRESS_MASK == 0,
        flags.wf(),
        g.wf(),
    ensures
        ({
            let e = (frame.0 * PAGE_SIZE) as u64 | flags.spec_bits();
            &&& e & PHYSICAL_ADDRESS_MASK == frame.0 * PAGE_SIZE
            &&& e & ALL_FLAG_BITS == flags.spec_bits()
            &&& (e & PageTableEntryFlags::PRESENT != 0) == (flags.spec_bits() & PageTableEntryFlags::PRESENT != 0)
            &&& ((e & PHYSICAL_ADDRESS_MASK) as usize) / PAGE_SIZE == frame.0
            &&& ((e | g.spec_bits()) & ALL_FLAG_BITS) & g.spec_bits() == g.spec_bits()
            &&& ((e & !g.spec_bits()) & ALL_FLAG_BITS) & g.spec_bits() == 0
            &&& (e | g.spec_bits()) & PHYSICAL_ADDRESS_MASK == frame.0 * PAGE_SIZE
            &&& (e & !g.spec_bits()) & PHYSICAL_ADDRESS_MASK == frame.0 * PAGE_SIZE
        }),
{
    let a = (frame.0 * PAGE_SIZE) as u64;
    assert(a == frame.0 * PAGE_SIZE);
    lemma_entry_bits(a, flags.spec_bits(), g.spec_bits());
    assert((frame.0 * PAGE_SIZE) / (PAGE_SIZE as int) == frame.0) by (nonlinear_arith);
}

impl Default for PageTableEntry {
    fn default() -> (r: Self)
        ensures
            r.0 == 0,
    {
        Self::new()
    }
}

/// Level 4 of the paging hierarchy.
pub struct L4;

/// Level 3 of the paging hierarchy.
pub struct L3;

/// Level 2 of the paging hierarchy.
pub struct L2;

/// Level 1 of the paging hierarchy.
pub struct L1;

/// A level of the paging hierarchy.
pub trait TableLevel {}

/// A level whose entries point to tables of the next level.
pub trait HierarchicalLevel: TableLevel {
    type NextLevel: TableLevel;
}

impl TableLevel for L4 {}

impl TableLevel for L3 {}

impl TableLevel for L2 {}

impl TableLevel for L1 {}

impl HierarchicalLevel for L4 {
    type NextLevel = L3;
}

impl HierarchicalLevel for L3 {
    type NextLevel = L2;
}

impl HierarchicalLevel for L2 {
    type NextLevel = L1;
}

/// A page table of level `L`.
pub struct Table<L> {
    entries: [PageTableEntry; 512],
    _phantom: PhantomData<L>,
}

impl<L> View for Table<L> {
    type V = Seq<PageTableEntry>;

    closed spec fn view(&self) -> Seq<PageTableEntry> {
        self.entries@
    }
}

impl<L> Table<L> {
    /// A table whose entries are all unused.
    pub fn new() -> (r: Self)
        ensures
            r@.len() == 512,
            forall|i: int| 0 <= i < 512 ==> (#[trigger] r@[i]).0 == 0,
    {
        Table { entries: [PageTableEntry(0); 512], _phantom: PhantomData }
    }

    /// The entry at `index`.
    pub fn get(&self, index: usize) -> (r: PageTableEntry)
        requires
            index < 512,
        ensures
            r == self@[index as int],
    {
        self.entries[index]
    }

    /// Replaces the entry at `index`.
    pub fn set(&mut self, index: usize, entry: PageTableEntry)
        requires
            index < 512,
        ensures
            final(self)@ == old(self)@.update(index as int, entry),
    {
        self.entries[index] = entry;
    }

    /// Under the recursive mapping, the address of the table that entry `index` of this
    /// table (mapped at `table_addr`) points to, when the entry is present and does not map
    /// a huge page.
    pub fn next_table_addr(&self, table_addr: usize, index: usize) -> (r: Option<usize>)
        requires
            index < 512,
        ensures
            r == (if self@[index as int].0 & PageTableEntryFlags::PRESENT != 0 && self@[index as int].0
                & PageTableEntryFlags::HUGE_PAGE == 0 {
                Some((table_addr << 9usize) | (index << 12usize))
            } else {
                None
            }),
    {
        let entry = self.entries[index];
        if entry.is_present() && !entry.is_huge() {
            Some((table_addr << 9usize) | (index << 12usize))
        } else {
            None
        }
    }

    /// Clears every entry.
    pub fn zero(&mut self)
        ensures
            final(self)@.len() == 512,
            forall|i: int| 0 <= i < 512 ==> (#[trigger] final(self)@[i]).0 == 0,
    {
        let mut i: usize = 0;
        while i < ENTRIES_PER_TABLE
            invariant
                i <= 512,
                self@.len() == 512,
                forall|j: int| 0 <= j < i ==> (#[trigger] self@[j]).0 == 0,
            decreases 512 - i,
        {
            self.entries[i] = PageTableEntry(0);
            i = i + 1;
        }
    }
}

/// Clearing flags that were just set leaves an entry whose flags were clear as it was.
pub proof fn lemma_set_then_clear_flags(entry: u64, flags: u64)
    requires
        entry & flags == 0,
    ensures
        (entry | flags) & !flags == entry,
{
    assert((entry | flags) & !flags == entry) by (bit_vector)
        requires entry & flags == 0;
}

} // verus!
