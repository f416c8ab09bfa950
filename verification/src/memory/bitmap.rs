//! A physical frame allocator that keeps one bit per frame.
use vstd::prelude::*;
use vstd::std_specs::bits::axiom_u8_trailing_ones;
use core::ops::Range;

use crate::memory::{Frame, FrameAllocator, PAGE_SIZE};

verus! {

/// Byte value of eight used frames.
pub const USED: u8 = 0xFF;
/// Byte value of eight free frames.
pub const FREE: u8 = 0;

/// Memory-map type of RAM that the kernel may use freely.
pub const MEMMAP_USABLE: u64 = 0;

/// One area of the boot memory map.
#[derive(Debug, Clone, Copy)]
pub struct MemmapEntry {
    pub base: u64,
    pub length: u64,
    pub type_: u64,
}

/// Bit `i` (0 = least significant) of `b` is set.
pub open spec fn bit_set(b: u8, i: int) -> bool {
    (b >> (i as u8)) & 1u8 == 1u8
}

/// Frame `f` is marked used in `bitmap` (bit `f % 8` of byte `f / 8`).
pub open spec fn frame_used_in(bitmap: Seq<u8>, f: int) -> bool {
    bit_set(bitmap[f / 8], f % 8)
}

/// Per-frame view of a bitmap: entry `f` is `true` when frame `f` is used.
pub open spec fn used_frames(bitmap: Seq<u8>) -> Seq<bool> {
    Seq::new(bitmap.len() * 8, |f: int| frame_used_in(bitmap, f))
}

/// `s` with every index in `start..end` set to `v`.
pub open spec fn fill_range(s: Seq<bool>, start: int, end: int, v: bool) -> Seq<bool> {
    Seq::new(s.len(), |f: int| if start <= f < end { v } else { s[f] })
}

/// The first frame at or after `from` that is free in `used`, if any.
pub open spec fn first_free_from(used: Seq<bool>, from: int, f: int) -> bool {
    &&& from <= f < used.len()
    &&& !used[f]
    &&& forall|g: int| from <= g < f ==> #[trigger] used[g]
}

/// Every frame of `used` at or after `from` is used.
pub open spec fn all_used_from(used: Seq<bool>, from: int) -> bool {
    forall|g: int| from <= g < used.len() ==> #[trigger] used[g]
}


/// `x / d`, rounded up.
pub open spec fn div_ceil(x: int, d: int) -> int {
    x / d + if x % d == 0 { 0int } else { 1int }
}

/// The highest end address (`base + length`) over `entries`; zero when there are none.
pub open spec fn highest_address(entries: Seq<MemmapEntry>) -> int
    decreases entries.len(),
{
    if entries.len() == 0 {
        0
    } else {
        let rest = highest_address(entries.drop_last());
        let e = entries.last();
        if e.base + e.length > rest {
            e.base + e.length
        } else {
            rest
        }
    }
}

/// The number of bytes of the bitmap built for `entries`.
pub open spec fn bitmap_bytes(entries: Seq<MemmapEntry>) -> int {
    highest_address(entries) / (PAGE_SIZE as int) / 8
}

/// The first frame that a memory area touches.
pub open spec fn first_frame(e: MemmapEntry) -> int {
    (e.base as int) / (PAGE_SIZE as int)
}

/// One past the last frame that a memory area touches.
pub open spec fn end_frame(e: MemmapEntry) -> int {
    div_ceil(e.base + e.length, PAGE_SIZE as int)
}

/// Frame `f` lies in a usable area of `entries`.
pub open spec fn usable_covers(entries: Seq<MemmapEntry>, f: int) -> bool {
    exists|i: int|
        0 <= i < entries.len() && (#[trigger] entries[i]).type_ == MEMMAP_USABLE && first_frame(
            entries[i],
        ) <= f < end_frame(entries[i])
}

/// The number of frames over all usable areas of `entries`, counted with repetition.
pub open spec fn usable_frame_sum(entries: Seq<MemmapEntry>) -> int
    decreases entries.len(),
{
    if entries.len() == 0 {
        0
    } else {
        let e = entries.last();
        usable_frame_sum(entries.drop_last()) + if e.type_ == MEMMAP_USABLE {
            end_frame(e) - first_frame(e)
        } else {
            0
        }
    }
}

/// `i` is the first area long enough to hold the bitmap of `entries`.
pub open spec fn is_bitmap_area(entries: Seq<MemmapEntry>, i: int) -> bool {
    &&& 0 <= i < entries.len()
    &&& entries[i].length >= bitmap_bytes(entries)
    &&& forall|j: int| 0 <= j < i ==> (#[trigger] entries[j]).length < bitmap_bytes(entries)
}

/// The frames that the bitmap itself occupies when it is placed at the start of area `e`.
pub open spec fn bitmap_first_frame(entries: Seq<MemmapEntry>, e: MemmapEntry) -> int {
    (e.base as int) / (PAGE_SIZE as int)
}

/// One past the last frame that the bitmap itself occupies when placed at area `e`.
pub open spec fn bitmap_end_frame(entries: Seq<MemmapEntry>, e: MemmapEntry) -> int {
    div_ceil(e.base + bitmap_bytes(entries), PAGE_SIZE as int)
}

/// The memory map can be turned into a bitmap allocator without running out of bounds:
/// it is not empty, no area wraps around, some area can hold the bitmap, and every usable
/// area (as well as the bitmap itself) lies within the frames that the bitmap covers.
pub open spec fn memmap_fits(entries: Seq<MemmapEntry>) -> bool {
    &&& entries.len() > 0
    &&& forall|i: int| 0 <= i < entries.len() ==> (#[trigger] entries[i]).base + entries[i].length <= u64::MAX
    &&& highest_address(entries) <= usize::MAX
    &&& exists|i: int| is_bitmap_area(entries, i)
    &&& forall|i: int|
        0 <= i < entries.len() && (#[trigger] entries[i]).type_ == MEMMAP_USABLE ==> (end_frame(entries[i])
            <= bitmap_bytes(entries) * 8 || first_frame(entries[i]) == end_frame(entries[i]))
    &&& usable_frame_sum(entries) <= usize::MAX
    &&& forall|i: int|
        is_bitmap_area(entries, i) ==> {
            &&& entries[i].base + bitmap_bytes(entries) <= usize::MAX
            &&& (bitmap_end_frame(entries, entries[i]) <= bitmap_bytes(entries) * 8 || bitmap_first_frame(entries, entries[i]) == bitmap_end_frame(entries, entries[i]))
        }
}

proof fn lemma_highest_step(entries: Seq<MemmapEntry>, i: int)
    requires
        0 <= i < entries.len(),
    ensures
        entries.take(i + 1).drop_last() == entries.take(i),
        entries.take(i + 1).last() == entries[i],
{
    assert(entries.take(i + 1).drop_last() =~= entries.take(i));
}

proof fn lemma_highest_bounds(entries: Seq<MemmapEntry>)
    ensures
        forall|i: int| 0 <= i < entries.len() ==> #[trigger] entries[i].base + entries[i].length <= highest_address(entries),
        highest_address(entries) >= 0,
    decreases entries.len(),
{
    if entries.len() > 0 {
        lemma_highest_bounds(entries.drop_last());
        assert forall|i: int| 0 <= i < entries.len() implies #[trigger] entries[i].base + entries[i].length <= highest_address(entries) by {
            if i < entries.len() - 1 {
                assert(entries.drop_last()[i] == entries[i]);
            }
        }
    }
}

proof fn lemma_usable_sum_prefix(entries: Seq<MemmapEntry>, n: int)
    requires
        0 <= n <= entries.len(),
    ensures
        0 <= usable_frame_sum(entries.take(n)) <= usable_frame_sum(entries),
    decreases entries.len() - n,
{
    lemma_usable_sum_nonneg(entries);
    lemma_usable_sum_nonneg(entries.take(n));
    if n < entries.len() {
        lemma_usable_sum_prefix(entries, n + 1);
        lemma_highest_step(entries, n);
        let e = entries[n];
        assert(end_frame(e) >= first_frame(e)) by {
            lemma_frames_of(e.base + e.length);
        }
    } else {
        assert(entries.take(n) =~= entries);
    }
}

proof fn lemma_usable_sum_nonneg(entries: Seq<MemmapEntry>)
    ensures
        usable_frame_sum(entries) >= 0,
    decreases entries.len(),
{
    if entries.len() > 0 {
        lemma_usable_sum_nonneg(entries.drop_last());
        let e = entries.last();
        lemma_frames_of(e.base + e.length);
    }
}

proof fn lemma_frames_of(x: int)
    requires
        x >= 0,
    ensures
        x / (PAGE_SIZE as int) <= div_ceil(x, PAGE_SIZE as int),
{
}

proof fn lemma_bits(b: u8, i: u8, j: u8)
    requires
        i < 8,
        j < 8,
    ensures
        ((b | (1u8 << i)) >> j) & 1u8 == (if i == j { 1u8 } else { (b >> j) & 1u8 }),
        ((b & !(1u8 << i)) >> j) & 1u8 == (if i == j { 0u8 } else { (b >> j) & 1u8 }),
        ((b & (1u8 << i)) == 0u8) == ((b >> i) & 1u8 == 0u8),
        (b >> j) & 1u8 == 0u8 || (b >> j) & 1u8 == 1u8,
{
    assert(((b | (1u8 << i)) >> j) & 1u8 == (if i == j { 1u8 } else { (b >> j) & 1u8 }))
        by (bit_vector)
        requires i < 8, j < 8;
    assert(((b & !(1u8 << i)) >> j) & 1u8 == (if i == j { 0u8 } else { (b >> j) & 1u8 }))
        by (bit_vector)
        requires i < 8, j < 8;
    assert(((b & (1u8 << i)) == 0u8) == ((b >> i) & 1u8 == 0u8)) by (bit_vector)
        requires i < 8;
    assert((b >> j) & 1u8 == 0u8 || (b >> j) & 1u8 == 1u8) by (bit_vector);
}

proof fn lemma_index_split(f: usize)
    ensures
        f >> 3 == f / 8,
        f & 7 == f % 8,
{
    assert(f >> 3 == f / 8) by (bit_vector);
    assert(f & 7 == f % 8) by (bit_vector);
}

proof fn lemma_full_byte(b: u8)
    ensures
        b == 0xFFu8 ==> forall|j: int| 0 <= j < 8 ==> #[trigger] bit_set(b, j),
        b == 0u8 ==> forall|j: int| 0 <= j < 8 ==> !#[trigger] bit_set(b, j),
{
    assert(forall|j: u8| j < 8 ==> (0xFFu8 >> j) & 1u8 == 1u8) by (bit_vector);
    assert(forall|j: u8| j < 8 ==> (0u8 >> j) & 1u8 == 0u8) by (bit_vector);
    assert forall|j: int| 0 <= j < 8 && b == 0xFFu8 implies #[trigger] bit_set(b, j) by {
        assert((0xFFu8 >> (j as u8)) & 1u8 == 1u8);
    }
    assert forall|j: int| 0 <= j < 8 && b == 0u8 implies !#[trigger] bit_set(b, j) by {
        assert((0u8 >> (j as u8)) & 1u8 == 0u8);
    }
}

/// The first area with room for `bytes` bytes is the only such area.
proof fn lemma_bitmap_area_unique(es: Seq<MemmapEntry>, k: int, w: int)
    requires
        is_bitmap_area(es, k),
        is_bitmap_area(es, w),
    ensures
        w == k,
{
    if w < k {
        assert(es[w].length < bitmap_bytes(es));
    } else if w > k {
        assert(es[k].length < bitmap_bytes(es));
    }
}

/// Whether the memory map `entries` can be turned into a bitmap allocator (see
/// `memmap_fits`).
pub fn check_memmap(entries: &[MemmapEntry]) -> (r: bool)
    ensures
        r == memmap_fits(entries@),
{
    let ghost es = entries@;
    if entries.len() == 0 {
        return false;
    }
    // no area wraps around
    let mut i: usize = 0;
    while i < entries.len()
        invariant
            i <= entries.len(),
            es == entries@,
            forall|j: int| 0 <= j < i ==> (#[trigger] es[j]).base + es[j].length <= u64::MAX,
        decreases entries.len() - i,
    {
        if entries[i].length > u64::MAX - entries[i].base {
            return false;
        }
        i = i + 1;
    }
    // the highest address
    let mut highest: u64 = 0;
    let mut i: usize = 0;
    while i < entries.len()
        invariant
            i <= entries.len(),
            es == entries@,
            forall|j: int| 0 <= j < es.len() ==> (#[trigger] es[j]).base + es[j].length <= u64::MAX,
            highest == highest_address(es.take(i as int)),
        decreases entries.len() - i,
    {
        proof {
            lemma_highest_step(es, i as int);
        }
        let end = entries[i].base + entries[i].length;
        if end > highest {
            highest = end;
        }
        i = i + 1;
    }
    proof {
        assert(es.take(es.len() as int) =~= es);
    }
    if highest as u128 > usize::MAX as u128 {
        return false;
    }
    let bytes: u64 = highest / PAGE_SIZE as u64 / 8;
    assert(bytes == bitmap_bytes(es));
    // the area that holds the bitmap
    let mut k: usize = 0;
    while k < entries.len() && entries[k].length < bytes
        invariant
            k <= entries.len(),
            es == entries@,
            bytes == bitmap_bytes(es),
            forall|j: int| 0 <= j < k ==> (#[trigger] es[j]).length < bitmap_bytes(es),
        decreases entries.len() - k,
    {
        k = k + 1;
    }
    if k == entries.len() {
        proof {
            if exists|w: int| is_bitmap_area(es, w) {
                let w = choose|w: int| is_bitmap_area(es, w);
                assert(es[w].length < bitmap_bytes(es));
            }
        }
        return false;
    }
    assert(is_bitmap_area(es, k as int));
    // the usable areas lie within the frames of the bitmap
    let mut j: usize = 0;
    while j < entries.len()
        invariant
            j <= entries.len(),
            es == entries@,
            bytes == bitmap_bytes(es),
            bytes * 8 <= u64::MAX,
            forall|i: int| 0 <= i < es.len() ==> (#[trigger] es[i]).base + es[i].length <= u64::MAX,
            forall|i: int|
                0 <= i < j && (#[trigger] es[i]).type_ == MEMMAP_USABLE ==> (end_frame(es[i]) <= bitmap_bytes(es) * 8
                    || first_frame(es[i]) == end_frame(es[i])),
        decreases entries.len() - j,
    {
        let e = entries[j];
        if e.type_ == MEMMAP_USABLE {
            let end_addr = e.base + e.length;
            let end_fr = end_addr / PAGE_SIZE as u64 + if end_addr % PAGE_SIZE as u64 == 0 { 0 } else { 1 };
            let first_fr = e.base / PAGE_SIZE as u64;
            if !(end_fr <= bytes * 8 || first_fr == end_fr) {
                assert(es[j as int] == e);
                return false;
            }
        }
        j = j + 1;
    }
    // the usable frames can be counted
    let mut sum: u128 = 0;
    let mut j: usize = 0;
    while j < entries.len()
        invariant
            j <= entries.len(),
            es == entries@,
            forall|i: int| 0 <= i < es.len() ==> (#[trigger] es[i]).base + es[i].length <= u64::MAX,
            sum == usable_frame_sum(es.take(j as int)),
            sum <= j * 0x10_0000_0000_0001,
        decreases entries.len() - j,
    {
        proof {
            lemma_highest_step(es, j as int);
        }
        let e = entries[j];
        if e.type_ == MEMMAP_USABLE {
            let end_addr = e.base + e.length;
            let end_fr = end_addr / PAGE_SIZE as u64 + if end_addr % PAGE_SIZE as u64 == 0 { 0 } else { 1 };
            let first_fr = e.base / PAGE_SIZE as u64;
            proof {
                lemma_frames_of(end_addr as int);
            }
            sum = sum + (end_fr - first_fr) as u128;
        }
        j = j + 1;
    }
    proof {
        assert(es.take(es.len() as int) =~= es);
    }
    if sum > usize::MAX as u128 {
        return false;
    }
    // the bitmap's own frames lie within the frames it covers
    let b = entries[k];
    if b.base as u128 + bytes as u128 > usize::MAX as u128 {
        proof {
            assert(is_bitmap_area(es, k as int));
        }
        return false;
    }
    let bend = b.base + bytes;
    let bend_fr = bend / PAGE_SIZE as u64 + if bend % PAGE_SIZE as u64 == 0 { 0 } else { 1 };
    let bfirst = b.base / PAGE_SIZE as u64;
    if !(bend_fr <= bytes * 8 || bfirst == bend_fr) {
        return false;
    }
    proof {
        assert forall|w: int| is_bitmap_area(es, w) implies {
            &&& es[w].base + bitmap_bytes(es) <= usize::MAX
            &&& (bitmap_end_frame(es, es[w]) <= bitmap_bytes(es) * 8 || bitmap_first_frame(es, es[w]) == bitmap_end_frame(es, es[w]))
        } by {
            lemma_bitmap_area_unique(es, k as int, w);
        }
    }
    true
}

/// Allocates physical frames from a bitmap with one bit per frame (set = used).
#[derive(Debug)]
pub struct BitmapFrameAllocator {
    bitmap: Vec<u8>,
    total_frames: usize,
    usable_frames: usize,
    allocated_frames: usize,
    last_allocated_frame: usize,
}

impl BitmapFrameAllocator {
    /// The bitmap holds one bit for every frame of whole bytes below `total_frames`.
    pub closed spec fn wf(&self) -> bool {
        self.bitmap.len() == self.total_frames / 8
    }

    /// Per-frame usage: entry `f` is `true` when frame `f` is marked used.
    /// Its length is the number of frames that the bitmap covers.
    pub closed spec fn used(&self) -> Seq<bool> {
        used_frames(self.bitmap@)
    }

    /// The number of frames below the highest address of the memory map.
    pub closed spec fn total(&self) -> nat {
        self.total_frames as nat
    }

    /// One past the most recently allocated frame: where the next search starts.
    pub closed spec fn last_allocated(&self) -> nat {
        self.last_allocated_frame as nat
    }

    /// The number of successful and failed allocation requests so far.
    pub closed spec fn allocation_count(&self) -> nat {
        self.allocated_frames as nat
    }

    /// The number of frames that the memory map declared usable.
    pub closed spec fn usable(&self) -> nat {
        self.usable_frames as nat
    }

    /// Builds the allocator for a boot memory map: every frame starts out used, the frames of
    /// usable areas are then freed, and finally the frames that the bitmap itself occupies
    /// (at the start of the first area long enough to hold it) are marked used again.
    pub fn new(entries: &[MemmapEntry]) -> (r: Self)
        requires
            memmap_fits(entries@),
        ensures
            r.wf(),
            r.total() == highest_address(entries@) / (PAGE_SIZE as int),
            r.used().len() == bitmap_bytes(entries@) * 8,
            r.last_allocated() == 0,
            r.allocation_count() == 0,
            r.usable() == usable_frame_sum(entries@),
            forall|i: int| #[trigger] is_bitmap_area(entries@, i) ==> forall|f: int|
                0 <= f < r.used().len() ==> #[trigger] r.used()[f] == ((bitmap_first_frame(entries@, entries@[i]) <= f
                    < bitmap_end_frame(entries@, entries@[i])) || !usable_covers(entries@, f)),
    {
        let ghost es = entries@;
        // the highest address of all areas
        let mut highest: u64 = 0;
        let mut i: usize = 0;
        while i < entries.len()
            invariant
                i <= entries.len(),
                es == entries@,
                memmap_fits(es),
                highest == highest_address(es.take(i as int)),
            decreases entries.len() - i,
        {
            let e = entries[i];
            proof {
                lemma_highest_step(es, i as int);
            }
            let end = e.base + e.length;
            if end > highest {
                highest = end;
            }
            i = i + 1;
        }
        assert(es.take(es.len() as int) =~= es);
        let total_frames = highest as usize / PAGE_SIZE;
        let bitmap_array_size = total_frames / 8;

        // the first area that can hold the bitmap
        let mut k: usize = 0;
        while k < entries.len() && entries[k].length < bitmap_array_size as u64
            invariant
                k <= entries.len(),
                es == entries@,
                bitmap_array_size == bitmap_bytes(es),
                forall|j: int| 0 <= j < k ==> (#[trigger] es[j]).length < bitmap_bytes(es),
            decreases entries.len() - k,
        {
            k = k + 1;
        }
        proof {
            let w = choose|w: int| is_bitmap_area(es, w);
            if k >= entries.len() || k > w {
                assert(es[w].length < bitmap_bytes(es));
            }
            assert(is_bitmap_area(es, k as int));
        }
        let block_base = entries[k].base;

        let mut bitmap: Vec<u8> = Vec::new();
        let mut b: usize = 0;
        while b < bitmap_array_size
            invariant
                b <= bitmap_array_size,
                bitmap@.len() == b,
                forall|j: int| 0 <= j < b ==> bitmap@[j] == USED,
            decreases bitmap_array_size - b,
        {
            bitmap.push(USED);
            b = b + 1;
        }

        let mut allocator = Self {
            total_frames,
            bitmap,
            allocated_frames: 0,
            last_allocated_frame: 0,
            usable_frames: 0,
        };
        proof {
            assert forall|f: int| 0 <= f < allocator.used().len() implies #[trigger] allocator.used()[f] by {
                lemma_full_byte(allocator.bitmap@[f / 8]);
            }
        }

        // free the usable areas
        let mut j: usize = 0;
        while j < entries.len()
            invariant
                j <= entries.len(),
                es == entries@,
                memmap_fits(es),
                allocator.wf(),
                allocator.used().len() == bitmap_bytes(es) * 8,
                allocator.total() == highest_address(es) / (PAGE_SIZE as int),
                allocator.last_allocated() == 0,
                allocator.allocation_count() == 0,
                allocator.usable() == usable_frame_sum(es.take(j as int)),
                forall|f: int| 0 <= f < allocator.used().len() ==> #[trigger] allocator.used()[f] == !usable_covers(es.take(j as int), f),
            decreases entries.len() - j,
        {
            let entry = entries[j];
            proof {
                lemma_highest_step(es, j as int);
                lemma_highest_bounds(es);
                assert(es[j as int] == entry);
            }
            let ghost before = allocator.used();
            if entry.type_ == MEMMAP_USABLE {
                let start_fr = entry.base as usize / PAGE_SIZE;
                let end_addr = (entry.base + entry.length) as usize;
                let end_fr = end_addr / PAGE_SIZE + if end_addr % PAGE_SIZE == 0 { 0 } else { 1 };
                proof {
                    lemma_frames_of(end_addr as int);
                    assert(usable_frame_sum(es.take(j as int + 1)) == usable_frame_sum(es.take(j as int)) + (end_fr - start_fr));
                    assert(usable_frame_sum(es.take(j as int + 1)) <= usable_frame_sum(es)) by {
                        lemma_usable_sum_prefix(es, j as int + 1);
                    }
                }
                allocator.usable_frames = allocator.usable_frames + (end_fr - start_fr);
                allocator.mark_frames_free(start_fr..end_fr);
                proof {
                    assert forall|f: int| 0 <= f < allocator.used().len() implies #[trigger] allocator.used()[f] == !usable_covers(es.take(j as int + 1), f) by {
                        let t = es.take(j as int + 1);
                        if start_fr <= f < end_fr {
                            assert(t[j as int] == entry);
                        } else if usable_covers(t, f) {
                            let w = choose|w: int| 0 <= w < t.len() && (#[trigger] t[w]).type_ == MEMMAP_USABLE && first_frame(t[w]) <= f < end_frame(t[w]);
                            assert(w != j);
                            assert(es.take(j as int)[w] == t[w]);
                        } else if usable_covers(es.take(j as int), f) {
                            let w = choose|w: int| 0 <= w < j && (#[trigger] es.take(j as int)[w]).type_ == MEMMAP_USABLE && first_frame(es.take(j as int)[w]) <= f < end_frame(es.take(j as int)[w]);
                            assert(t[w] == es.take(j as int)[w]);
                        }
                    }
                }
            } else {
                proof {
                    assert forall|f: int| 0 <= f < allocator.used().len() implies #[trigger] allocator.used()[f] == !usable_covers(es.take(j as int + 1), f) by {
                        let t = es.take(j as int + 1);
                        if usable_covers(t, f) {
                            let w = choose|w: int| 0 <= w < t.len() && (#[trigger] t[w]).type_ == MEMMAP_USABLE && first_frame(t[w]) <= f < end_frame(t[w]);
                            assert(w != j);
                            assert(es.take(j as int)[w] == t[w]);
                        } else if usable_covers(es.take(j as int), f) {
                            let w = choose|w: int| 0 <= w < j && (#[trigger] es.take(j as int)[w]).type_ == MEMMAP_USABLE && first_frame(es.take(j as int)[w]) <= f < end_frame(es.take(j as int)[w]);
                            assert(t[w] == es.take(j as int)[w]);
                        }
                    }
                }
            }
            j = j + 1;
        }
        assert(es.take(es.len() as int) =~= es);

        // the bitmap's own frames are in use
        let bitmap_phys_base = block_base as usize;
        let bitmap_start_frame = bitmap_phys_base / PAGE_SIZE;
        let bitmap_end_addr = bitmap_phys_base + bitmap_array_size;
        let bitmap_end_frame = bitmap_end_addr / PAGE_SIZE + if bitmap_end_addr % PAGE_SIZE == 0 { 0 } else { 1 };
        proof {
            lemma_frames_of(bitmap_end_addr as int);
        }
        allocator.mark_frames_used(bitmap_start_frame..bitmap_end_frame);
        proof {
            assert forall|i: int| #[trigger] is_bitmap_area(es, i) implies i == k by {
                if i < k {
                    assert(es[i].length < bitmap_bytes(es));
                } else if i > k {
                    assert(es[k as int].length < bitmap_bytes(es));
                }
            }
        }
        allocator
    }

    /// Frame `frame_index` is not marked used.
    pub fn is_frame_free(&self, frame_index: usize) -> (r: bool)
        requires
            frame_index < self.used().len(),
        ensures
            r == !self.used()[frame_index as int],
    {
        let byte_index = frame_index >> 3;
        let bit_index = frame_index & 7;
        proof {
            lemma_index_split(frame_index);
            lemma_bits(self.bitmap@[byte_index as int], bit_index as u8, bit_index as u8);
        }
        (self.bitmap[byte_index] & (1u8 << (bit_index as u8))) == FREE
    }

    /// Frame `frame_index` is marked used.
    pub fn is_frame_used(&self, frame_index: usize) -> (r: bool)
        requires
            frame_index < self.used().len(),
        ensures
            r == self.used()[frame_index as int],
    {
        !self.is_frame_free(frame_index)
    }

    /// Marks frame `frame_index` used and leaves every other frame as it was.
    pub fn mark_frame_used(&mut self, frame_index: usize)
        requires
            old(self).wf(),
            frame_index < old(self).used().len(),
        ensures
            final(self).wf(),
            final(self).used() == old(self).used().update(frame_index as int, true),
            final(self).total() == old(self).total(),
            final(self).last_allocated() == old(self).last_allocated(),
            final(self).allocation_count() == old(self).allocation_count(),
            final(self).usable() == old(self).usable(),
    {
        let byte_index = frame_index >> 3;
        let bit_index = frame_index & 7;
        proof {
            lemma_index_split(frame_index);
        }
        let old_byte = self.bitmap[byte_index];
        let ghost old_map = self.bitmap@;
        self.bitmap.set(byte_index, old_byte | (1u8 << (bit_index as u8)));
        proof {
            let new_map = self.bitmap@;
            assert forall|g: int| 0 <= g < old_map.len() * 8 implies
                #[trigger] frame_used_in(new_map, g) == (if g == frame_index { true } else { frame_used_in(old_map, g) })
            by {
                lemma_bits(old_byte, bit_index as u8, (g % 8) as u8);
                if g / 8 != byte_index as int {
                    assert(new_map[g / 8] == old_map[g / 8]);
                    if g == frame_index {
                        assert(false);
                    }
                } else if g == frame_index {
                } else {
                    assert(g % 8 != bit_index as int);
                }
            }
            assert(used_frames(new_map) =~= used_frames(old_map).update(frame_index as int, true));
        }
    }

    /// Marks frame `frame_index` free and leaves every other frame as it was.
    pub fn mark_frame_free(&mut self, frame_index: usize)
        requires
            old(self).wf(),
            frame_index < old(self).used().len(),
        ensures
            final(self).wf(),
            final(self).used() == old(self).used().update(frame_index as int, false),
            final(self).total() == old(self).total(),
            final(self).last_allocated() == old(self).last_allocated(),
            final(self).allocation_count() == old(self).allocation_count(),
            final(self).usable() == old(self).usable(),
    {
        let byte_index = frame_index >> 3;
        let bit_index = frame_index & 7;
        proof {
            lemma_index_split(frame_index);
        }
        let old_byte = self.bitmap[byte_index];
        let ghost old_map = self.bitmap@;
        self.bitmap.set(byte_index, old_byte & !(1u8 << (bit_index as u8)));
        proof {
            let new_map = self.bitmap@;
            assert forall|g: int| 0 <= g < old_map.len() * 8 implies
                #[trigger] frame_used_in(new_map, g) == (if g == frame_index { false } else { frame_used_in(old_map, g) })
            by {
                lemma_bits(old_byte, bit_index as u8, (g % 8) as u8);
                if g / 8 != byte_index as int {
                    assert(new_map[g / 8] == old_map[g / 8]);
                    if g == frame_index {
                        assert(false);
                    }
                } else if g == frame_index {
                } else {
                    assert(g % 8 != bit_index as int);
                }
            }
            assert(used_frames(new_map) =~= used_frames(old_map).update(frame_index as int, false));
        }
    }

    /// Marks every frame in `range` used.
    pub fn mark_frames_used(&mut self, range: Range<usize>)
        requires
            old(self).wf(),
            range.start >= range.end || range.end <= old(self).used().len(),
        ensures
            final(self).wf(),
            final(self).used() == fill_range(old(self).used(), range.start as int, range.end as int, true),
            final(self).total() == old(self).total(),
            final(self).last_allocated() == old(self).last_allocated(),
            final(self).allocation_count() == old(self).allocation_count(),
            final(self).usable() == old(self).usable(),
    {
        let ghost start = range.start as int;
        let mut frame_index = range.start;
        while frame_index < range.end
            invariant
                range.start <= frame_index,
                start == range.start as int,
                range.start < range.end ==> frame_index <= range.end,
                range.start >= range.end ==> frame_index == range.start,
                range.start >= range.end || range.end <= old(self).used().len(),
                self.wf(),
                self.used() == fill_range(old(self).used(), start, frame_index as int, true),
                self.total() == old(self).total(),
                self.last_allocated() == old(self).last_allocated(),
                self.allocation_count() == old(self).allocation_count(),
                self.usable() == old(self).usable(),
            decreases range.end - frame_index,
        {
            self.mark_frame_used(frame_index);
            frame_index = frame_index + 1;
            assert(self.used() =~= fill_range(old(self).used(), start, frame_index as int, true));
        }
        assert(self.used() =~= fill_range(old(self).used(), start, range.end as int, true));
    }

    /// Marks every frame in `range` free.
    pub fn mark_frames_free(&mut self, range: Range<usize>)
        requires
            old(self).wf(),
            range.start >= range.end || range.end <= old(self).used().len(),
        ensures
            final(self).wf(),
            final(self).used() == fill_range(old(self).used(), range.start as int, range.end as int, false),
            final(self).total() == old(self).total(),
            final(self).last_allocated() == old(self).last_allocated(),
            final(self).allocation_count() == old(self).allocation_count(),
            final(self).usable() == old(self).usable(),
    {
        let ghost start = range.start as int;
        let mut frame_index = range.start;
        while frame_index < range.end
            invariant
                range.start <= frame_index,
                start == range.start as int,
                range.start < range.end ==> frame_index <= range.end,
                range.start >= range.end ==> frame_index == range.start,
                range.start >= range.end || range.end <= old(self).used().len(),
                self.wf(),
                self.used() == fill_range(old(self).used(), start, frame_index as int, false),
                self.total() == old(self).total(),
                self.last_allocated() == old(self).last_allocated(),
                self.allocation_count() == old(self).allocation_count(),
                self.usable() == old(self).usable(),
            decreases range.end - frame_index,
        {
            self.mark_frame_free(frame_index);
            frame_index = frame_index + 1;
            assert(self.used() =~= fill_range(old(self).used(), start, frame_index as int, false));
        }
        assert(self.used() =~= fill_range(old(self).used(), start, range.end as int, false));
    }

    /// Whether a frame may be asked for: the bitmap covers its frames and the count of
    /// allocations can still grow (what `allocate_frame` requires).
    pub fn can_allocate_frame(&self) -> (r: bool)
        ensures
            r == (self.wf() && self.allocation_count() < usize::MAX),
    {
        self.bitmap.len() == self.total_frames / 8 && self.allocated_frames < usize::MAX
    }

    /// The number of frames below the highest address of the memory map.
    pub fn total_frames(&self) -> (r: usize)
        ensures
            r == self.total(),
    {
        self.total_frames
    }

    /// Takes the first free frame whose byte index is at least `offset`, marks it used and
    /// remembers the frame after it as the start of the next search.
    fn allocate_frame_helper(&mut self, offset: usize) -> (r: Option<Frame>)
        requires
            old(self).wf(),
        ensures
            final(self).wf(),
            final(self).total() == old(self).total(),
            final(self).allocation_count() == old(self).allocation_count(),
            final(self).usable() == old(self).usable(),
            match r {
                None => {
                    &&& all_used_from(old(self).used(), offset * 8)
                    &&& final(self).used() == old(self).used()
                    &&& final(self).last_allocated() == old(self).last_allocated()
                },
                Some(f) => {
                    &&& first_free_from(old(self).used(), offset * 8, f.0 as int)
                    &&& final(self).used() == old(self).used().update(f.0 as int, true)
                    &&& final(self).last_allocated() == f.0 + 1
                },
            },
    {
        let mut i = offset;
        while i < self.bitmap.len()
            invariant
                offset <= i,
                *self == *old(self),
                self.wf(),
                self.used().len() == self.bitmap@.len() * 8,
                self.used().len() <= usize::MAX,
                forall|g: int| offset * 8 <= g < i * 8 && g < self.used().len() ==> #[trigger] self.used()[g],
            decreases self.bitmap.len() - i,
        {
            let byte = self.bitmap[i];
            if byte != USED {
                let ones = byte.trailing_ones();
                proof {
                    axiom_u8_trailing_ones(byte);
                }
                let frame = i * 8 + ones as usize;
                proof {
                    assert(frame / 8 == i && frame % 8 == ones);
                    assert(!self.used()[frame as int]);
                    assert forall|g: int| offset * 8 <= g < frame implies #[trigger] self.used()[g] by {
                        if g >= i * 8 {
                            assert(g / 8 == i && g % 8 < ones);
                            let j = (g % 8) as u8;
                            assert((byte >> j) & 1u8 == 1u8);
                        }
                    }
                }
                self.last_allocated_frame = frame + 1;
                self.mark_frame_used(frame);
                return Some(Frame(frame));
            }
            proof {
                lemma_full_byte(byte);
                assert forall|g: int| offset * 8 <= g < (i + 1) * 8 && g < self.used().len() implies #[trigger] self.used()[g] by {
                    if g >= i * 8 {
                        assert(g / 8 == i);
                        assert(bit_set(byte, g % 8));
                    }
                }
            }
            i = i + 1;
        }
        None
    }
}

/// Freeing the frame that an allocation took leaves every frame as it was before the
/// allocation.
pub proof fn lemma_allocate_then_free(used: Seq<bool>, f: int)
    requires
        0 <= f < used.len(),
        !used[f],
    ensures
        used.update(f, true).update(f, false) == used,
{
    assert(used.update(f, true).update(f, false) =~= used);
}

impl FrameAllocator for BitmapFrameAllocator {
    open spec fn can_allocate(&self) -> bool {
        self.wf() && self.allocation_count() < usize::MAX
    }

    open spec fn can_deallocate(&self, frame: Frame) -> bool {
        self.wf() && frame.0 < self.used().len()
    }

    /// Searches for a free frame starting at the byte of the last allocation, then from the
    /// start of the bitmap; marks the frame it finds used.
    fn allocate_frame(&mut self) -> (r: Option<Frame>)
        ensures
            final(self).wf(),
            final(self).allocation_count() == old(self).allocation_count() + 1,
            final(self).total() == old(self).total(),
            final(self).usable() == old(self).usable(),
            match r {
                None => {
                    &&& all_used_from(old(self).used(), 0)
                    &&& final(self).used() == old(self).used()
                },
                Some(f) => {
                    &&& 0 <= f.0 < old(self).used().len()
                    &&& !old(self).used()[f.0 as int]
                    &&& final(self).used() == old(self).used().update(f.0 as int, true)
                    &&& final(self).last_allocated() == f.0 + 1
                    &&& (if !all_used_from(old(self).used(), ((old(self).last_allocated() / 8) * 8) as int) {
                        first_free_from(old(self).used(), ((old(self).last_allocated() / 8) * 8) as int, f.0 as int)
                    } else {
                        first_free_from(old(self).used(), 0, f.0 as int)
                    })
                },
            },
    {
        self.allocated_frames = self.allocated_frames + 1;
        let start = self.last_allocated_frame >> 3;
        proof {
            lemma_index_split(self.last_allocated_frame);
        }
        let first = self.allocate_frame_helper(start);
        match first {
            Some(f) => Some(f),
            None => {
                let second = self.allocate_frame_helper(0);
                second
            },
        }
    }

    /// Marks `frame` free again.
    fn deallocate_frame(&mut self, frame: Frame)
        ensures
            final(self).wf(),
            final(self).used() == old(self).used().update(frame.0 as int, false),
            final(self).total() == old(self).total(),
            final(self).last_allocated() == old(self).last_allocated(),
            final(self).allocation_count() == old(self).allocation_count(),
            final(self).usable() == old(self).usable(),
    {
        let Frame(frame_index) = frame;
        self.mark_frame_free(frame_index);
    }
}

} // verus!
