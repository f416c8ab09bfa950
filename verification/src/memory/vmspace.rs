//! The virtual memory areas of a user task.
use vstd::prelude::*;
use std::sync::Arc;

use crate::kernel::USER_STACK_BOTTOM;
use crate::memory::paging::PageTableEntryFlags;
use crate::utils::{align_up, align_up_spec, is_aligned, Layout};

verus! {

/// The lowest address that `find_free_region` hands out (1 GiB).
pub const FREE_REGION_START: usize = 0x4000_0000;

/// Why an area could not be added.
#[derive(Debug, Clone, Copy, PartialEq, Eq, Structural)]
pub enum Error {
    Overlap,
}

/// What backs the pages of an area.
#[derive(Clone)]
pub enum MappingType {
    /// Zero-filled pages.
    Anonymous,
    /// Pages filled from `file_size` bytes of an ELF image starting at `file_offset`.
    Elf { data: Arc<Vec<u8>>, file_offset: usize, file_size: usize },
}

/// A virtual memory area; its start is the key under which it is stored.
#[derive(Clone)]
pub struct Vma {
    pub end: usize,
    pub flags: PageTableEntryFlags,
    pub ty: MappingType,
}

/// Areas of `s` are non-empty, sorted by start and do not overlap.
pub open spec fn areas_ordered(s: Seq<(usize, Vma)>) -> bool {
    &&& forall|i: int| 0 <= i < s.len() ==> (#[trigger] s[i]).0 < s[i].1.end
    &&& forall|i: int, j: int| 0 <= i < j < s.len() ==> (#[trigger] s[i]).1.end <= (#[trigger] s[j]).0
}

/// Some area of `s` shares an address with `lo..hi`.
pub open spec fn overlaps(s: Seq<(usize, Vma)>, lo: int, hi: int) -> bool {
    exists|i: int| 0 <= i < s.len() && (#[trigger] s[i]).0 < hi && lo < s[i].1.end
}

/// `a` can hold `size` bytes aligned to `align` for `find_free_region`: it is aligned, not
/// below 1 GiB, overlaps no area, and ends either below the user stack or below the start
/// of some area.
pub open spec fn region_fits(s: Seq<(usize, Vma)>, a: int, size: int, align: int) -> bool {
    &&& is_aligned(a, align)
    &&& a >= FREE_REGION_START
    &&& !overlaps(s, a, a + size)
    &&& (a + size <= USER_STACK_BOTTOM as usize || exists|i: int| 0 <= i < s.len() && (#[trigger] s[i]).0 >= a + size)
}

/// The areas of a task, keyed by their start address.
pub struct VmSpace {
    map: Vec<(usize, Vma)>,
}

impl View for VmSpace {
    type V = Seq<(usize, Vma)>;

    closed spec fn view(&self) -> Seq<(usize, Vma)> {
        self.map@
    }
}

impl VmSpace {
    /// A space without areas.
    pub fn new() -> (r: Self)
        ensures
            r@ == Seq::<(usize, Vma)>::empty(),
    {
        VmSpace { map: Vec::new() }
    }

    /// The areas are not empty, sorted by start and do not overlap.
    pub fn is_ordered(&self) -> (r: bool)
        ensures
            r == areas_ordered(self@),
    {
        let ghost s = self.map@;
        let mut i: usize = 0;
        while i < self.map.len()
            invariant
                i <= s.len(),
                s == self.map@,
                forall|j: int| 0 <= j < i ==> (#[trigger] s[j]).0 < s[j].1.end,
                forall|a: int, b: int| 0 <= a < b < i ==> (#[trigger] s[a]).1.end <= (#[trigger] s[b]).0,
            decreases s.len() - i,
        {
            if self.map[i].0 >= self.map[i].1.end {
                return false;
            }
            if i > 0 && self.map[i - 1].1.end > self.map[i].0 {
                return false;
            }
            proof {
                assert forall|a: int, b: int| 0 <= a < b < i + 1 implies (#[trigger] s[a]).1.end <= (#[trigger] s[b]).0 by {
                    if b == i && a < i - 1 {
                        assert(s[a].1.end <= s[i - 1].0);
                    }
                }
            }
            i = i + 1;
        }
        true
    }

    /// Some area shares an address with `lo..hi`.
    pub fn overlaps_range(&self, lo: usize, hi: usize) -> (r: bool)
        ensures
            r == overlaps(self@, lo as int, hi as int),
    {
        let mut i: usize = 0;
        while i < self.map.len()
            invariant
                i <= self.map@.len(),
                forall|j: int| 0 <= j < i ==> !((#[trigger] self.map@[j]).0 < hi && lo < self.map@[j].1.end),
            decreases self.map@.len() - i,
        {
            if self.map[i].0 < hi && lo < self.map[i].1.end {
                return true;
            }
            i = i + 1;
        }
        false
    }

    /// Adds the area `start..end` unless it shares an address with an existing area.
    pub fn insert(&mut self, start: usize, end: usize, flags: PageTableEntryFlags, ty: MappingType) -> (r: Result<(), Error>)
        requires
            start < end,
            areas_ordered(old(self)@),
        ensures
            areas_ordered(final(self)@),
            r is Ok <==> !overlaps(old(self)@, start as int, end as int),
            r is Ok ==> exists|pos: int|
                0 <= pos <= old(self)@.len() && final(self)@ == old(self)@.insert(pos, (start, Vma { end, flags, ty })),
            r is Err ==> final(self)@ == old(self)@,
    {
        let mut pos: usize = 0;
        while pos < self.map.len() && self.map[pos].0 < start
            invariant
                pos <= self.map.len(),
                self.map@ == old(self)@,
                forall|j: int| 0 <= j < pos ==> (#[trigger] self.map@[j]).0 < start,
            decreases self.map.len() - pos,
        {
            pos = pos + 1;
        }
        let ghost s = self.map@;
        if pos > 0 && self.map[pos - 1].1.end > start {
            return Err(Error::Overlap);
        }
        if pos < self.map.len() && self.map[pos].0 < end {
            return Err(Error::Overlap);
        }
        proof {
            assert forall|i: int| 0 <= i < s.len() implies !((#[trigger] s[i]).0 < end && start < s[i].1.end) by {
                if i < pos - 1 {
                    assert(s[i].1.end <= s[pos - 1].0);
                } else if i > pos {
                    assert(s[pos as int].0 <= s[i].0) by {
                        assert(s[pos as int].1.end <= s[i].0);
                    }
                }
            }
        }
        let vma = Vma { end, flags, ty };
        self.map.insert(pos, (start, vma));
        proof {
            let t = self.map@;
            assert(t == s.insert(pos as int, (start, Vma { end, flags, ty })));
            assert forall|i: int, j: int| 0 <= i < j < t.len() implies (#[trigger] t[i]).1.end <= (#[trigger] t[j]).0 by {
                let ii = if i < pos { i } else { i - 1 };
                let jj = if j < pos { j } else { j - 1 };
                if i == pos {
                    assert(t[j] == s[jj]);
                    if jj > pos {
                        assert(s[pos as int].1.end <= s[jj].0);
                    }
                } else if j == pos {
                    assert(t[i] == s[ii]);
                    if ii < pos - 1 {
                        assert(s[ii].1.end <= s[pos - 1].0);
                    }
                } else {
                    assert(t[i] == s[ii] && t[j] == s[jj]);
                }
            }
            assert forall|i: int| 0 <= i < t.len() implies (#[trigger] t[i]).0 < t[i].1.end by {
                if i < pos {
                    assert(t[i] == s[i]);
                } else if i > pos {
                    assert(t[i] == s[i - 1]);
                }
            }
        }
        Ok(())
    }

    /// The lowest address of at least 1 GiB, aligned to `layout.align`, at which
    /// `layout.size` bytes fit between the areas (ending before the next area, or below the
    /// user stack after the last one); `None` when there is none.
    pub fn find_free_region(&self, layout: Layout) -> (r: Option<usize>)
        requires
            areas_ordered(self@),
            forall|i: int| 0 <= i < self@.len() ==> (#[trigger] self@[i]).1.end + layout.spec_align() <= usize::MAX,
            FREE_REGION_START + layout.spec_align() <= usize::MAX,
        ensures
            match r {
                Some(a) => {
                    &&& region_fits(self@, a as int, layout.spec_size() as int, layout.spec_align() as int)
                    &&& forall|b: int| b < a ==> !region_fits(self@, b, layout.spec_size() as int, layout.spec_align() as int)
                },
                None => forall|b: int| !region_fits(self@, b, layout.spec_size() as int, layout.spec_align() as int),
            },
    {
        let size = layout.size();
        let align = layout.align();
        let ghost s = self.map@;
        let mut current_addr: usize = FREE_REGION_START;
        let mut k: usize = 0;
        while k < self.map.len()
            invariant
                k <= self.map.len(),
                s == self.map@,
                areas_ordered(s),
                size == layout.spec_size(),
                align == layout.spec_align(),
                align > 0,
                forall|i: int| 0 <= i < s.len() ==> (#[trigger] s[i]).1.end + align <= usize::MAX,
                FREE_REGION_START + align <= usize::MAX,
                current_addr >= FREE_REGION_START,
                forall|j: int| 0 <= j < k ==> (#[trigger] s[j]).1.end <= current_addr,
                current_addr + align <= usize::MAX,
                forall|b: int| #[trigger] region_fits(s, b, size as int, align as int) ==> b >= current_addr,
            decreases self.map.len() - k,
        {
            let start = self.map[k].0;
            let vma_end = self.map[k].1.end;
            let aligned_addr = align_up(current_addr, align);
            if start >= aligned_addr && start - aligned_addr >= size {
                proof {
                    assert(!overlaps(s, aligned_addr as int, aligned_addr + size)) by {
                        assert forall|i: int| 0 <= i < s.len() implies !((#[trigger] s[i]).0 < aligned_addr + size && aligned_addr < s[i].1.end) by {
                            if i > k {
                                assert(s[k as int].1.end <= s[i].0);
                            }
                        }
                    }
                    assert(s[k as int].0 >= aligned_addr + size);
                    assert(region_fits(s, aligned_addr as int, size as int, align as int));
                    assert forall|b: int| b < aligned_addr implies !region_fits(s, b, size as int, align as int) by {
                        if region_fits(s, b, size as int, align as int) {
                            assert(b >= current_addr);
                            lemma_aligned_above(current_addr as int, align as int, b);
                        }
                    }
                }
                return Some(aligned_addr);
            }
            proof {
                assert forall|b: int| #[trigger] region_fits(s, b, size as int, align as int) implies b >= vma_end by {
                    if b < vma_end {
                        assert(b >= current_addr);
                        lemma_aligned_above(current_addr as int, align as int, b);
                        assert(!(s[k as int].0 < b + size && b < s[k as int].1.end));
                    }
                }
            }
            if vma_end > current_addr {
                current_addr = vma_end;
            }
            k = k + 1;
        }
        let aligned_addr = align_up(current_addr, align);
        let max_addr = USER_STACK_BOTTOM as usize;
        if max_addr >= aligned_addr && max_addr - aligned_addr >= size {
            proof {
                assert(!overlaps(s, aligned_addr as int, aligned_addr + size));
                assert forall|b: int| b < aligned_addr implies !region_fits(s, b, size as int, align as int) by {
                    if region_fits(s, b, size as int, align as int) {
                        lemma_aligned_above(current_addr as int, align as int, b);
                    }
                }
            }
            return Some(aligned_addr);
        }
        proof {
            assert forall|b: int| !region_fits(s, b, size as int, align as int) by {
                if region_fits(s, b, size as int, align as int) {
                    lemma_aligned_above(current_addr as int, align as int, b);
                    if b + size > max_addr {
                        let i = choose|i: int| 0 <= i < s.len() && (#[trigger] s[i]).0 >= b + size;
                        assert(s[i].1.end <= current_addr);
                    }
                }
            }
        }
        None
    }

    /// The area that holds `addr`, with its start.
    pub fn find(&self, addr: usize) -> (r: Option<(usize, &Vma)>)
        requires
            areas_ordered(self@),
        ensures
            match r {
                Some((start, vma)) => exists|i: int|
                    0 <= i < self@.len() && (#[trigger] self@[i]).0 == start && self@[i].1 == *vma && start <= addr < vma.end,
                None => forall|i: int| 0 <= i < self@.len() ==> !((#[trigger] self@[i]).0 <= addr < self@[i].1.end),
            },
    {
        let ghost s = self.map@;
        let mut pos: usize = 0;
        while pos < self.map.len() && self.map[pos].0 <= addr
            invariant
                pos <= self.map.len(),
                s == self.map@,
                forall|j: int| 0 <= j < pos ==> (#[trigger] s[j]).0 <= addr,
            decreases self.map.len() - pos,
        {
            pos = pos + 1;
        }
        if pos == 0 {
            return None;
        }
        let start = self.map[pos - 1].0;
        let vma = &self.map[pos - 1].1;
        if addr < vma.end {
            return Some((start, vma));
        }
        proof {
            assert forall|i: int| 0 <= i < s.len() implies !((#[trigger] s[i]).0 <= addr < s[i].1.end) by {
                if i < pos - 1 {
                    assert(s[i].1.end <= s[pos - 1].0);
                }
            }
        }
        None
    }
}

/// An aligned address at or above `x` is at or above `x` rounded up.
proof fn lemma_aligned_above(x: int, align: int, b: int)
    requires
        align > 0,
        x >= 0,
        is_aligned(b, align),
        b >= x,
    ensures
        b >= align_up_spec(x, align),
{
    vstd::arithmetic::div_mod::lemma_fundamental_div_mod(x, align);
    vstd::arithmetic::div_mod::lemma_fundamental_div_mod(b, align);
    if x % align != 0 {
        assert(b >= x - x % align + align) by (nonlinear_arith)
            requires
                x == align * (x / align) + x % align,
                b == align * (b / align),
                0 < x % align < align,
                b >= x,
                align > 0,
        {
            assert(b / align > x / align) by (nonlinear_arith)
                requires
                    x == align * (x / align) + x % align,
                    b == align * (b / align),
                    0 < x % align < align,
                    b >= x,
                    align > 0,
            {
                if b / align <= x / align {
                    assert(align * (b / align) <= align * (x / align));
                }
            }
            assert(b / align >= x / align + 1);
            assert(align * (b / align) >= align * (x / align + 1));
        }
    }
}

impl Default for VmSpace {
    fn default() -> (r: Self)
        ensures
            r@ == Seq::<(usize, Vma)>::empty(),
    {
        Self::new()
    }
}

} // verus!
