//! Segment descriptors of the global descriptor table.
use vstd::prelude::*;
use vstd::arithmetic::power2::{pow2, lemma2_to64};
use vstd::bits::{lemma_u64_shl_is_mul, lemma_u64_pow2_no_overflow};

verus! {

/// The `len` bits of `v` that start at bit `lo`, as a number.
pub open spec fn bits_of(v: u64, lo: u64, len: u64) -> u64 {
    (v >> lo) & (((1u64 << len) - 1) as u64)
}

/// `v` with its `len` bits from bit `lo` on replaced by `x`.
pub open spec fn with_bits(v: u64, lo: u64, len: u64, x: u64) -> u64 {
    (v & !((((1u64 << len) - 1) as u64) << lo)) | (x << lo)
}

/// A range of bits inside a 64-bit word, and a value that fits in it.
pub open spec fn fits(lo: u64, len: u64, x: u64) -> bool {
    &&& 0 < len < 64
    &&& lo + len <= 64
    &&& x < pow2(len as nat)
}

/// Writing a field and reading it back gives the value written; the fields that do not
/// overlap the written one keep their values.
pub proof fn lemma_bits_roundtrip(v: u64, lo: u64, len: u64, x: u64, lo2: u64, len2: u64)
    requires
        fits(lo, len, x),
        0 < len2 < 64,
        lo2 + len2 <= 64,
    ensures
        bits_of(with_bits(v, lo, len, x), lo, len) == x,
        lo2 + len2 <= lo || lo + len <= lo2 ==> bits_of(with_bits(v, lo, len, x), lo2, len2)
            == bits_of(v, lo2, len2),
{
    lemma_shift_bound(len, x);
    lemma_bits_roundtrip_bv(v, lo, len, x, lo2, len2);
}

proof fn lemma_shift_bound(len: u64, x: u64)
    requires
        len < 64,
        x < pow2(len as nat),
    ensures
        x < (1u64 << len),
{
    lemma_u64_pow2_no_overflow(len as nat);
    lemma_u64_shl_is_mul(1u64, len);
}

proof fn lemma_bits_roundtrip_bv(v: u64, lo: u64, len: u64, x: u64, lo2: u64, len2: u64)
    by (bit_vector)
    requires
        0 < len < 64,
        lo + len <= 64,
        x < (1u64 << len),
        0 < len2 < 64,
        lo2 + len2 <= 64,
    ensures
        bits_of(with_bits(v, lo, len, x), lo, len) == x,
        lo2 + len2 <= lo || lo + len <= lo2 ==> bits_of(with_bits(v, lo, len, x), lo2, len2)
            == bits_of(v, lo2, len2),
{
}

proof fn lemma_mask_positive(len: u64)
    by (bit_vector)
    requires
        len < 64,
    ensures
        (1u64 << len) >= 1,
{
}

/// The `len` bits of `v` from bit `lo` on.
fn get_bits(v: u64, lo: u64, len: u64) -> (r: u64)
    requires
        0 < len < 64,
        lo + len <= 64,
    ensures
        r == bits_of(v, lo, len),
{
    proof {
        lemma_mask_positive(len);
    }
    (v >> lo) & ((1u64 << len) - 1)
}

/// `v` with its `len` bits from bit `lo` on replaced by `x`, which must fit in them.
fn set_bits(v: u64, lo: u64, len: u64, x: u64) -> (r: u64)
    requires
        fits(lo, len, x),
    ensures
        r == with_bits(v, lo, len, x),
{
    proof {
        lemma_mask_positive(len);
        lemma_shift_bound(len, x);
    }
    (v & !(((1u64 << len) - 1) << lo)) | (x << lo)
}

/// The number of descriptors in the table: null, kernel code and data, user data and code,
/// and the two words of the TSS descriptor.
pub const GDT_SIZE: usize = 7;

/// The kernel code segment descriptor.
pub const KERNEL_CODE_WORD: u64 = 0x00A0_9A00_0000_0000;
/// The kernel data segment descriptor.
pub const KERNEL_DATA_WORD: u64 = 0x0000_9200_0000_0000;
/// The user data segment descriptor.
pub const RING3_DATA_WORD: u64 = 0x009F_F200_0000_FFFF;
/// The user code segment descriptor.
pub const RING3_CODE_WORD: u64 = 0x00BF_FA00_0000_FFFF;

/// The low word of a 64-bit available TSS descriptor for a TSS at `ptr` with limit `limit`:
/// limit bits 0-15 at bits 0-15, base bits 0-23 at bits 16-39, type 0x9 at bits 40-43, the
/// present bit 47, limit bits 16-19 at bits 48-51 and base bits 24-31 at bits 56-63.
pub open spec fn tss_low_word(ptr: int, limit: int) -> int {
    limit % 0x1_0000 + (ptr % 0x100_0000) * 0x1_0000 + 0x9 * 0x100_0000_0000 + 0x8000_0000_0000
        + ((limit / 0x1_0000) % 0x10) * 0x1_0000_0000_0000 + ((ptr / 0x100_0000) % 0x100)
        * 0x100_0000_0000_0000
}

proof fn lemma_segment_words()
    by (bit_vector)
    ensures
        with_bits(with_bits(with_bits(with_bits(with_bits(with_bits(with_bits(0, 47, 1, 1), 45, 2, 0), 44, 1, 1), 43, 1, 1), 55, 1, 1), 41, 1, 1), 53, 1, 1) == KERNEL_CODE_WORD,
        with_bits(with_bits(with_bits(with_bits(0, 47, 1, 1), 45, 2, 0), 44, 1, 1), 41, 1, 1) == KERNEL_DATA_WORD,
        with_bits(with_bits(with_bits(with_bits(with_bits(with_bits(with_bits(with_bits(0, 47, 1, 1), 0, 16, 0xFFFF), 48, 4, 0xF), 41, 1, 1), 44, 1, 1), 45, 2, 3), 52, 1, 1), 55, 1, 1) == RING3_DATA_WORD,
        with_bits(with_bits(RING3_DATA_WORD, 53, 1, 1), 43, 1, 1) == RING3_CODE_WORD,
{
}

proof fn lemma_tss_words(ptr: u64, limit: u64)
    by (bit_vector)
    requires
        limit < 0x1_0000_0000,
    ensures
        with_bits(with_bits(with_bits(with_bits(with_bits(with_bits(0, 0, 16, (limit as u16) as u64), 48, 4, (bits_of(limit, 16, 4) as u8) as u64), 16, 24, (bits_of(ptr, 0, 24) as u32) as u64), 56, 8, (bits_of(ptr, 24, 8) as u8) as u64), 47, 1, 1), 40, 4, 9) == tss_low_word(ptr as int, limit as int),
        with_bits(0, 0, 32, bits_of(ptr, 32, 32)) == ptr / 0x1_0000_0000,
{
}

/// The value of a bit field of a descriptor is below 2 to the power of its width.
proof fn lemma_bits_bound(v: u64, lo: u64, len: u64)
    requires
        0 < len < 64,
    ensures
        bits_of(v, lo, len) < pow2(len as nat),
{
    lemma_bits_below_mask(v, lo, len);
    lemma_u64_pow2_no_overflow(len as nat);
    lemma_u64_shl_is_mul(1u64, len);
}

proof fn lemma_bits_below_mask(v: u64, lo: u64, len: u64)
    by (bit_vector)
    requires
        0 < len < 64,
    ensures
        bits_of(v, lo, len) < (1u64 << len),
{
}

/// A 64-bit segment descriptor.
#[derive(Debug, Clone, Copy)]
pub struct GdtEntry(pub u64);

impl GdtEntry {
    /// The null descriptor.
    pub fn new() -> (r: GdtEntry)
        ensures
            r.0 == 0,
    {
        GdtEntry(0)
    }

    /// The low 16 bits of the segment limit (bits 0-15).
    pub fn limit_low(&self) -> (r: u16)
        ensures
            r as u64 == bits_of(self.0, 0, 16),
    {
        proof {
            lemma_bits_bound(self.0, 0, 16);
            lemma2_to64();
        }
        get_bits(self.0, 0, 16) as u16
    }

    /// The low 24 bits of the base address (bits 16-39).
    pub fn base_low(&self) -> (r: u32)
        ensures
            r as u64 == bits_of(self.0, 16, 24),
    {
        proof {
            lemma_bits_bound(self.0, 16, 24);
            lemma2_to64();
        }
        get_bits(self.0, 16, 24) as u32
    }

    /// The type of a system segment (bits 40-43): 0x1 16-bit TSS (available), 0x2 LDT, 0x3 16-bit TSS (busy), 0x9 64-bit TSS (available), 0xB 64-bit TSS (busy).
    pub fn system_segment_type(&self) -> (r: u8)
        ensures
            r as u64 == bits_of(self.0, 40, 4),
    {
        proof {
            lemma_bits_bound(self.0, 40, 4);
            lemma2_to64();
        }
        get_bits(self.0, 40, 4) as u8
    }

    /// The segment is accessed (bit 40).
    pub fn accessed(&self) -> (r: bool)
        ensures
            r == (bits_of(self.0, 40, 1) == 1),
    {
        get_bits(self.0, 40, 1) == 1
    }

    /// The segment is readable (code) or writable (data) (bit 41).
    pub fn read_write(&self) -> (r: bool)
        ensures
            r == (bits_of(self.0, 41, 1) == 1),
    {
        get_bits(self.0, 41, 1) == 1
    }

    /// The segment is conforming (code) or expand-down (data) (bit 42).
    pub fn conforming_expand_down(&self) -> (r: bool)
        ensures
            r == (bits_of(self.0, 42, 1) == 1),
    {
        get_bits(self.0, 42, 1) == 1
    }

    /// The segment is executable (bit 43).
    pub fn is_code(&self) -> (r: bool)
        ensures
            r == (bits_of(self.0, 43, 1) == 1),
    {
        get_bits(self.0, 43, 1) == 1
    }

    /// The segment is a code or data segment, not a system segment (bit 44).
    pub fn is_code_data_segment(&self) -> (r: bool)
        ensures
            r == (bits_of(self.0, 44, 1) == 1),
    {
        get_bits(self.0, 44, 1) == 1
    }

    /// The descriptor privilege level (bits 45-46).
    pub fn dpl(&self) -> (r: u8)
        ensures
            r as u64 == bits_of(self.0, 45, 2),
    {
        proof {
            lemma_bits_bound(self.0, 45, 2);
            lemma2_to64();
        }
        get_bits(self.0, 45, 2) as u8
    }

    /// The segment is present (bit 47).
    pub fn present(&self) -> (r: bool)
        ensures
            r == (bits_of(self.0, 47, 1) == 1),
    {
        get_bits(self.0, 47, 1) == 1
    }

    /// The high 4 bits of the segment limit (bits 48-51).
    pub fn limit_high(&self) -> (r: u8)
        ensures
            r as u64 == bits_of(self.0, 48, 4),
    {
        proof {
            lemma_bits_bound(self.0, 48, 4);
            lemma2_to64();
        }
        get_bits(self.0, 48, 4) as u8
    }

    /// The segment is available for system use (bit 52).
    pub fn available(&self) -> (r: bool)
        ensures
            r == (bits_of(self.0, 52, 1) == 1),
    {
        get_bits(self.0, 52, 1) == 1
    }

    /// The segment is a 64-bit code segment (bit 53).
    pub fn long_mode(&self) -> (r: bool)
        ensures
            r == (bits_of(self.0, 53, 1) == 1),
    {
        get_bits(self.0, 53, 1) == 1
    }

    /// The segment is a 32-bit segment (bit 54).
    pub fn big(&self) -> (r: bool)
        ensures
            r == (bits_of(self.0, 54, 1) == 1),
    {
        get_bits(self.0, 54, 1) == 1
    }

    /// The segment is limited in 4 KiB units (bit 55).
    pub fn gran(&self) -> (r: bool)
        ensures
            r == (bits_of(self.0, 55, 1) == 1),
    {
        get_bits(self.0, 55, 1) == 1
    }

    /// The high 8 bits of the base address (bits 56-63).
    pub fn base_high(&self) -> (r: u8)
        ensures
            r as u64 == bits_of(self.0, 56, 8),
    {
        proof {
            lemma_bits_bound(self.0, 56, 8);
            lemma2_to64();
        }
        get_bits(self.0, 56, 8) as u8
    }

    /// Sets the low 16 bits of the segment limit (bits 0-15) to `val`.
    pub fn set_limit_low(&mut self, val: u16) -> (r: &mut GdtEntry)
        ensures
            r.0 == with_bits(old(self).0, 0, 16, val as u64),
            *final(self) == *final(r),
    {
        proof {
            lemma2_to64();
        }
        self.0 = set_bits(self.0, 0, 16, val as u64);
        self
    }

    /// Sets the low 24 bits of the base address (bits 16-39) to `val`.
    pub fn set_base_low(&mut self, val: u32) -> (r: &mut GdtEntry)
        requires
            val < pow2(24),
        ensures
            r.0 == with_bits(old(self).0, 16, 24, val as u64),
            *final(self) == *final(r),
    {
        proof {
            lemma2_to64();
        }
        self.0 = set_bits(self.0, 16, 24, val as u64);
        self
    }

    /// Sets the type of a system segment (bits 40-43): 0x1 16-bit TSS (available), 0x2 LDT, 0x3 16-bit TSS (busy), 0x9 64-bit TSS (available), 0xB 64-bit TSS (busy) to `val`.
    pub fn set_system_segment_type(&mut self, val: u8) -> (r: &mut GdtEntry)
        requires
            val < pow2(4),
        ensures
            r.0 == with_bits(old(self).0, 40, 4, val as u64),
            *final(self) == *final(r),
    {
        proof {
            lemma2_to64();
        }
        self.0 = set_bits(self.0, 40, 4, val as u64);
        self
    }

    /// Marks the segment accessed (sets bit 40).
    pub fn set_accessed(&mut self) -> (r: &mut GdtEntry)
        ensures
            r.0 == with_bits(old(self).0, 40, 1, 1),
            *final(self) == *final(r),
    {
        proof {
            lemma2_to64();
        }
        self.0 = set_bits(self.0, 40, 1, 1);
        self
    }

    /// Marks the segment readable (code) or writable (data) (sets bit 41).
    pub fn set_read_write(&mut self) -> (r: &mut GdtEntry)
        ensures
            r.0 == with_bits(old(self).0, 41, 1, 1),
            *final(self) == *final(r),
    {
        proof {
            lemma2_to64();
        }
        self.0 = set_bits(self.0, 41, 1, 1);
        self
    }

    /// Marks the segment conforming (code) or expand-down (data) (sets bit 42).
    pub fn set_conforming_expand_down(&mut self) -> (r: &mut GdtEntry)
        ensures
            r.0 == with_bits(old(self).0, 42, 1, 1),
            *final(self) == *final(r),
    {
        proof {
            lemma2_to64();
        }
        self.0 = set_bits(self.0, 42, 1, 1);
        self
    }

    /// Marks the segment executable (sets bit 43).
    pub fn set_code(&mut self) -> (r: &mut GdtEntry)
        ensures
            r.0 == with_bits(old(self).0, 43, 1, 1),
            *final(self) == *final(r),
    {
        proof {
            lemma2_to64();
        }
        self.0 = set_bits(self.0, 43, 1, 1);
        self
    }

    /// Marks the segment a code or data segment, not a system segment (sets bit 44).
    pub fn set_code_data_segment(&mut self) -> (r: &mut GdtEntry)
        ensures
            r.0 == with_bits(old(self).0, 44, 1, 1),
            *final(self) == *final(r),
    {
        proof {
            lemma2_to64();
        }
        self.0 = set_bits(self.0, 44, 1, 1);
        self
    }

    /// Sets the descriptor privilege level (bits 45-46) to `val`.
    pub fn set_dpl(&mut self, val: u8) -> (r: &mut GdtEntry)
        requires
            val < pow2(2),
        ensures
            r.0 == with_bits(old(self).0, 45, 2, val as u64),
            *final(self) == *final(r),
    {
        proof {
            lemma2_to64();
        }
        self.0 = set_bits(self.0, 45, 2, val as u64);
        self
    }

    /// Marks the segment present (sets bit 47).
    pub fn set_present(&mut self) -> (r: &mut GdtEntry)
        ensures
            r.0 == with_bits(old(self).0, 47, 1, 1),
            *final(self) == *final(r),
    {
        proof {
            lemma2_to64();
        }
        self.0 = set_bits(self.0, 47, 1, 1);
        self
    }

    /// Sets the high 4 bits of the segment limit (bits 48-51) to `val`.
    pub fn set_limit_high(&mut self, val: u8) -> (r: &mut GdtEntry)
        requires
            val < pow2(4),
        ensures
            r.0 == with_bits(old(self).0, 48, 4, val as u64),
            *final(self) == *final(r),
    {
        proof {
            lemma2_to64();
        }
        self.0 = set_bits(self.0, 48, 4, val as u64);
        self
    }

    /// Marks the segment available for system use (sets bit 52).
    pub fn set_available(&mut self) -> (r: &mut GdtEntry)
        ensures
            r.0 == with_bits(old(self).0, 52, 1, 1),
            *final(self) == *final(r),
    {
        proof {
            lemma2_to64();
        }
        self.0 = set_bits(self.0, 52, 1, 1);
        self
    }

    /// Marks the segment a 64-bit code segment (sets bit 53).
    pub fn set_long_mode(&mut self) -> (r: &mut GdtEntry)
        ensures
            r.0 == with_bits(old(self).0, 53, 1, 1),
            *final(self) == *final(r),
    {
        proof {
            lemma2_to64();
        }
        self.0 = set_bits(self.0, 53, 1, 1);
        self
    }

    /// Marks the segment a 32-bit segment (sets bit 54).
    pub fn set_big(&mut self) -> (r: &mut GdtEntry)
        ensures
            r.0 == with_bits(old(self).0, 54, 1, 1),
            *final(self) == *final(r),
    {
        proof {
            lemma2_to64();
        }
        self.0 = set_bits(self.0, 54, 1, 1);
        self
    }

    /// Marks the segment limited in 4 KiB units (sets bit 55).
    pub fn set_gran(&mut self) -> (r: &mut GdtEntry)
        ensures
            r.0 == with_bits(old(self).0, 55, 1, 1),
            *final(self) == *final(r),
    {
        proof {
            lemma2_to64();
        }
        self.0 = set_bits(self.0, 55, 1, 1);
        self
    }

    /// Sets the high 8 bits of the base address (bits 56-63) to `val`.
    pub fn set_base_high(&mut self, val: u8) -> (r: &mut GdtEntry)
        ensures
            r.0 == with_bits(old(self).0, 56, 8, val as u64),
            *final(self) == *final(r),
    {
        proof {
            lemma2_to64();
        }
        self.0 = set_bits(self.0, 56, 8, val as u64);
        self
    }

    /// The descriptor as a raw 64-bit word.
    pub fn bits(&self) -> (r: u64)
        ensures
            r == self.0,
    {
        self.0
    }

    /// The 64-bit kernel code segment: present, ring 0, executable, readable, 4 KiB
    /// granularity.
    pub fn kernel_code_seg() -> (r: GdtEntry)
        ensures
            r.0 == KERNEL_CODE_WORD,
    {
        proof {
            lemma_segment_words();
            lemma2_to64();
        }
        *GdtEntry::new().set_present().set_dpl(0).set_code_data_segment().set_code().set_gran().set_read_write().set_long_mode()
    }

    /// The kernel data segment: present, ring 0, writable.
    pub fn kernel_data_seg() -> (r: GdtEntry)
        ensures
            r.0 == KERNEL_DATA_WORD,
    {
        proof {
            lemma_segment_words();
            lemma2_to64();
        }
        *GdtEntry::new().set_present().set_dpl(0).set_code_data_segment().set_read_write()
    }

    /// The user data segment: present, ring 3, writable, limit 0xFFFFF in 4 KiB units.
    pub fn ring3_data_seg() -> (r: GdtEntry)
        ensures
            r.0 == RING3_DATA_WORD,
    {
        proof {
            lemma_segment_words();
            lemma2_to64();
        }
        *GdtEntry::new().set_present().set_limit_low(0xFFFF).set_limit_high(0xF).set_read_write().set_code_data_segment().set_dpl(3).set_available().set_gran()
    }

    /// The 64-bit user code segment: the user data segment, executable and long mode.
    pub fn ring3_code_seg() -> (r: GdtEntry)
        ensures
            r.0 == RING3_CODE_WORD,
    {
        proof {
            lemma_segment_words();
        }
        *GdtEntry::ring3_data_seg().set_long_mode().set_code()
    }

    /// The two descriptor words of a 64-bit available TSS at address `ptr` whose last byte
    /// is at offset `limit`.
    pub fn tss_seg(ptr: u64, limit: u32) -> (r: (GdtEntry, GdtEntry))
        ensures
            r.0.0 == tss_low_word(ptr as int, limit as int),
            r.1.0 == ptr / 0x1_0000_0000,
    {
        proof {
            lemma2_to64();
            lemma_bits_bound(limit as u64, 16, 4);
            lemma_bits_bound(ptr, 0, 24);
            lemma_bits_bound(ptr, 24, 8);
            lemma_bits_bound(ptr, 32, 32);
            lemma_tss_words(ptr, limit as u64);
        }
        let limit_high = get_bits(limit as u64, 16, 4) as u8;
        let base_low = get_bits(ptr, 0, 24) as u32;
        let base_high = get_bits(ptr, 24, 8) as u8;
        let low = *GdtEntry::new().set_limit_low(limit as u16).set_limit_high(limit_high).set_base_low(base_low).set_base_high(base_high).set_present().set_system_segment_type(0x9);
        let mut high = GdtEntry::new();
        high.0 = set_bits(high.0, 0, 32, get_bits(ptr, 32, 32));
        (low, high)
    }
}


impl Default for GdtEntry {
    /// The null descriptor.
    fn default() -> (r: GdtEntry)
        ensures
            r.0 == 0,
    {
        GdtEntry::new()
    }
}

/// The descriptors of the table, in selector order: null (0x00), kernel code (0x08), kernel
/// data (0x10), user data (0x18), user code (0x20) and the TSS (0x28, two words).
pub fn gdt_table(tss_low: GdtEntry, tss_high: GdtEntry) -> (r: [GdtEntry; GDT_SIZE])
    ensures
        r@.len() == GDT_SIZE,
        r@[0].0 == 0,
        r@[1].0 == KERNEL_CODE_WORD,
        r@[2].0 == KERNEL_DATA_WORD,
        r@[3].0 == RING3_DATA_WORD,
        r@[4].0 == RING3_CODE_WORD,
        r@[5] == tss_low,
        r@[6] == tss_high,
{
    [
        GdtEntry::new(),
        GdtEntry::kernel_code_seg(),
        GdtEntry::kernel_data_seg(),
        GdtEntry::ring3_data_seg(),
        GdtEntry::ring3_code_seg(),
        tss_low,
        tss_high,
    ]
}

/// The operand of `lgdt`: the size of the table in bytes, minus one, and its address.
#[derive(Debug)]
pub struct GdtR {
    pub size: u16,
    pub base: u64,
}

impl GdtR {
    /// The operand that loads a table of `GDT_SIZE` descriptors at `base`.
    pub fn new(base: u64) -> (r: GdtR)
        ensures
            r.size == GDT_SIZE * 8 - 1,
            r.base == base,
    {
        GdtR { size: (GDT_SIZE * 8 - 1) as u16, base }
    }
}

} // verus!
