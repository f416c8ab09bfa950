//! The kernel's virtual-address allocator: a first-fit list of free regions.
use vstd::prelude::*;

use crate::memory::paging::VirtualAddress;
use crate::utils::{align_up, align_up_spec, is_aligned, Layout};

verus! {

/// Start of the kernel's dynamically allocated virtual addresses.
pub const KERNEL_VMM_ADDR_START: u64 = 0xFFFF900000000000;
/// Size of the kernel's dynamically allocated virtual addresses (64 GiB).
pub const KERNEL_VMM_SIZE: u64 = 0x1000000000;

/// A free region `start..end` of virtual addresses.
#[derive(Debug, Clone, Copy, PartialEq, Eq, Structural)]
pub struct VmmEntry {
    pub start: usize,
    pub end: usize,
}

/// The addresses `lo..hi`.
pub open spec fn addr_range(lo: int, hi: int) -> Set<int> {
    Set::new(|a: int| lo <= a < hi)
}

/// Every address that some region of `s` holds.
pub open spec fn free_addresses(s: Seq<VmmEntry>) -> Set<int> {
    Set::new(|a: int| exists|i: int| 0 <= i < s.len() && (#[trigger] s[i]).start <= a < s[i].end)
}

/// No region ends before it starts.
pub open spec fn regions_well_formed(s: Seq<VmmEntry>) -> bool {
    forall|i: int| 0 <= i < s.len() ==> (#[trigger] s[i]).start <= s[i].end
}

/// The regions are not empty, in address order and do not overlap.
pub open spec fn regions_ordered(s: Seq<VmmEntry>) -> bool {
    &&& regions_well_formed(s)
    &&& forall|i: int| 0 <= i < s.len() ==> (#[trigger] s[i]).start < s[i].end
    &&& forall|i: int, j: int| 0 <= i < j < s.len() ==> (#[trigger] s[i]).end <= (#[trigger] s[j]).start
}

/// `i` is the first region of `s` with room for `need` bytes.
pub open spec fn first_fit(s: Seq<VmmEntry>, need: int, i: int) -> bool {
    &&& 0 <= i < s.len()
    &&& s[i].end - s[i].start >= need
    &&& forall|j: int| 0 <= j < i ==> (#[trigger] s[j]).end - s[j].start < need
}

/// The range `lo..hi` overlaps no region of `s`.
pub open spec fn disjoint_from(s: Seq<VmmEntry>, lo: int, hi: int) -> bool {
    forall|i: int| 0 <= i < s.len() ==> (#[trigger] s[i]).end <= lo || hi <= s[i].start
}

/// The regions are in address order with a gap between each two: no region ends where the
/// next one starts.
pub open spec fn regions_separate(s: Seq<VmmEntry>) -> bool {
    &&& regions_ordered(s)
    &&& forall|i: int, j: int| 0 <= i < j < s.len() ==> (#[trigger] s[i]).end < (#[trigger] s[j]).start
}

/// The regions after `size` bytes at the aligned address `a` were taken from region `i`,
/// whose size is at least `need`: a larger region keeps what lies after the allocation and,
/// as a region of its own, what lies before it; a region of exactly `need` bytes keeps
/// only what lies before the aligned address, and is removed when there is nothing.
pub open spec fn allocated_regions(s: Seq<VmmEntry>, i: int, a: int, size: int, need: int) -> Seq<VmmEntry> {
    let e = s[i];
    if e.end - e.start > need {
        let moved = s.update(i, VmmEntry { start: (a + size) as usize, end: e.end });
        if a != e.start {
            moved.insert(i, VmmEntry { start: e.start, end: a as usize })
        } else {
            moved
        }
    } else if a != e.start {
        s.update(i, VmmEntry { start: e.start, end: a as usize })
    } else {
        s.remove(i)
    }
}

/// A region that the freed range `address..end` touches, or that lies wholly above it.
pub open spec fn touches_or_above(e: VmmEntry, address: int, end: int) -> bool {
    e.start == end || e.end == address || end < e.start
}

/// The first region from `i` on that the freed range touches or that lies above it; the
/// length of `s` when there is none.
pub open spec fn first_touch(s: Seq<VmmEntry>, address: int, end: int, i: int) -> int
    decreases s.len() - i,
{
    if i >= s.len() || i < 0 {
        s.len() as int
    } else if touches_or_above(s[i], address, end) {
        i
    } else {
        first_touch(s, address, end, i + 1)
    }
}

/// The regions after `address..end` was given back: at the first region that the range
/// touches or that lies above it, a region starting at `end` grows down to `address` (and
/// merges with the region before it when that one ends at `address`), a region ending at
/// `address` grows up to `end` (and merges with the next one when that starts at `end`),
/// and otherwise the range becomes a region of its own there, or at the end.
pub open spec fn freed_regions(s: Seq<VmmEntry>, address: int, end: int) -> Seq<VmmEntry> {
    let i = first_touch(s, address, end, 0);
    if i >= s.len() {
        s.push(VmmEntry { start: address as usize, end: end as usize })
    } else if s[i].start == end {
        if i > 0 && s[i - 1].end == address {
            s.update(i - 1, VmmEntry { start: s[i - 1].start, end: s[i].end }).remove(i)
        } else {
            s.update(i, VmmEntry { start: address as usize, end: s[i].end })
        }
    } else if s[i].end == address {
        if i + 1 < s.len() && s[i + 1].start == end {
            s.update(i + 1, VmmEntry { start: s[i].start, end: s[i + 1].end }).remove(i)
        } else {
            s.update(i, VmmEntry { start: s[i].start, end: end as usize })
        }
    } else {
        s.insert(i, VmmEntry { start: address as usize, end: end as usize })
    }
}

/// `first_touch` from `k` is a region from `k` on that the range touches or lies below, with
/// none before it from `k` on.
proof fn lemma_first_touch(s: Seq<VmmEntry>, address: int, end: int, k: int)
    requires
        0 <= k <= s.len(),
    ensures
        k <= first_touch(s, address, end, k) <= s.len(),
        first_touch(s, address, end, k) < s.len() ==> touches_or_above(s[first_touch(s, address, end, k)], address, end),
        forall|j: int| k <= j < first_touch(s, address, end, k) ==> !touches_or_above(#[trigger] s[j], address, end),
    decreases s.len() - k,
{
    if k < s.len() && !touches_or_above(s[k], address, end) {
        lemma_first_touch(s, address, end, k + 1);
    }
}

/// Regions in order, each non-empty, with a gap after each one up to the next, are
/// separate.
proof fn lemma_gaps_separate(t: Seq<VmmEntry>)
    requires
        regions_ordered(t),
        forall|p: int| 0 <= p < t.len() - 1 ==> (#[trigger] t[p]).end < t[p + 1].start,
    ensures
        regions_separate(t),
{
    assert forall|p: int, q: int| 0 <= p < q < t.len() implies (#[trigger] t[p]).end < (#[trigger] t[q]).start by {
        assert(t[p].end < t[p + 1].start);
        if p + 1 < q {
            assert(t[p + 1].end <= t[q].start);
        }
    }
}

/// Giving back a range that lies in no region, when the regions are separate, leaves them
/// separate (where it leaves them in order): a region that the range touches absorbs it,
/// and a region of its own is kept apart from its neighbours.
proof fn lemma_freed_separate(s: Seq<VmmEntry>, address: int, end: int)
    requires
        0 <= address,
        end <= usize::MAX,
        regions_separate(s),
        disjoint_from(s, address, end),
        address < end,
    ensures
        regions_ordered(freed_regions(s, address, end)) ==> regions_separate(freed_regions(s, address, end)),
{
    let t = freed_regions(s, address, end);
    let i = first_touch(s, address, end, 0);
    lemma_first_touch(s, address, end, 0);
    assert forall|j: int| 0 <= j < i implies (#[trigger] s[j]).end < address by {
        assert(!touches_or_above(s[j], address, end));
        assert(s[j].end <= address || end <= s[j].start);
    }
    if !regions_ordered(t) {
        return;
    }
    if i >= s.len() {
        assert forall|p: int| 0 <= p < t.len() - 1 implies (#[trigger] t[p]).end < t[p + 1].start by {
            assert(t[p] == s[p]);
            if p + 1 < s.len() {
                assert(t[p + 1] == s[p + 1]);
                assert(s[p].end < s[p + 1].start);
            } else {
                assert(t[p + 1].start == address);
                assert(s[p].end < address);
            }
        }
    } else if s[i].start == end {
        if i > 0 && s[i - 1].end == address {
            assert forall|p: int| 0 <= p < t.len() - 1 implies (#[trigger] t[p]).end < t[p + 1].start by {
                if p < i - 1 {
                    assert(t[p] == s[p]);
                    assert(t[p + 1].start == s[p + 1].start);
                    assert(s[p].end < s[p + 1].start);
                } else {
                    assert(t[p].end == s[p + 1].end);
                    assert(t[p + 1] == s[p + 2]);
                    assert(s[p + 1].end < s[p + 2].start);
                }
            }
        } else {
            assert forall|p: int| 0 <= p < t.len() - 1 implies (#[trigger] t[p]).end < t[p + 1].start by {
                assert(t[p].end == s[p].end);
                if p == i - 1 {
                    assert(t[p + 1].start == address);
                    assert(s[p].end < address);
                } else {
                    assert(t[p + 1].start == s[p + 1].start || p + 1 == i);
                    assert(s[p].end < s[p + 1].start);
                }
            }
        }
    } else if s[i].end == address {
        if i + 1 < s.len() && s[i + 1].start == end {
            assert forall|p: int| 0 <= p < t.len() - 1 implies (#[trigger] t[p]).end < t[p + 1].start by {
                if p < i {
                    assert(t[p] == s[p]);
                    assert(t[p + 1].start == s[p + 1].start);
                    assert(s[p].end < s[p + 1].start);
                } else {
                    assert(t[p].end == s[p + 1].end);
                    assert(t[p + 1] == s[p + 2]);
                    assert(s[p + 1].end < s[p + 2].start);
                }
            }
        } else {
            assert forall|p: int| 0 <= p < t.len() - 1 implies (#[trigger] t[p]).end < t[p + 1].start by {
                assert(t[p + 1].start == s[p + 1].start);
                if p == i {
                    assert(t[p].end == end);
                    assert(s[i + 1].start > s[i].end);
                    assert(s[i + 1].end <= address || end <= s[i + 1].start);
                } else {
                    assert(t[p].end == s[p].end);
                    assert(s[p].end < s[p + 1].start);
                }
            }
        }
    } else {
        assert forall|p: int| 0 <= p < t.len() - 1 implies (#[trigger] t[p]).end < t[p + 1].start by {
            if p < i - 1 {
                assert(t[p] == s[p]);
                assert(t[p + 1] == s[p + 1]);
                assert(s[p].end < s[p + 1].start);
            } else if p == i - 1 {
                assert(t[p] == s[p]);
                assert(t[p + 1].start == address);
                assert(s[p].end < address);
            } else if p == i {
                assert(t[p + 1] == s[i]);
            } else {
                assert(t[p] == s[p - 1]);
                assert(t[p + 1] == s[p]);
                assert(s[p - 1].end < s[p].start);
            }
        }
    }
    lemma_gaps_separate(t);
}

proof fn lemma_free_update(s: Seq<VmmEntry>, i: int, e: VmmEntry)
    requires
        regions_ordered(s),
        0 <= i < s.len(),
    ensures
        free_addresses(s.update(i, e)) == free_addresses(s).difference(addr_range(s[i].start as int, s[i].end as int)).union(
            addr_range(e.start as int, e.end as int),
        ),
{
    let t = s.update(i, e);
    assert forall|a: int| free_addresses(t).contains(a) == free_addresses(s).difference(addr_range(s[i].start as int, s[i].end as int)).union(
        addr_range(e.start as int, e.end as int)).contains(a) by {
        if free_addresses(t).contains(a) {
            let k = choose|k: int| 0 <= k < t.len() && (#[trigger] t[k]).start <= a < t[k].end;
            if k != i {
                assert(s[k] == t[k]);
                if k < i {
                    assert(s[k].end <= s[i].start);
                } else {
                    assert(s[i].end <= s[k].start);
                }
            }
        }
        if free_addresses(s).contains(a) && !addr_range(s[i].start as int, s[i].end as int).contains(a) {
            let k = choose|k: int| 0 <= k < s.len() && (#[trigger] s[k]).start <= a < s[k].end;
            assert(k != i);
            assert(t[k] == s[k]);
        }
        if addr_range(e.start as int, e.end as int).contains(a) {
            assert(t[i] == e);
        }
    }
    assert(free_addresses(t) =~= free_addresses(s).difference(addr_range(s[i].start as int, s[i].end as int)).union(
        addr_range(e.start as int, e.end as int)));
}

proof fn lemma_free_insert(s: Seq<VmmEntry>, i: int, e: VmmEntry)
    requires
        0 <= i <= s.len(),
    ensures
        free_addresses(s.insert(i, e)) == free_addresses(s).union(addr_range(e.start as int, e.end as int)),
{
    let t = s.insert(i, e);
    assert forall|a: int| free_addresses(t).contains(a) == free_addresses(s).union(addr_range(e.start as int, e.end as int)).contains(a) by {
        if free_addresses(t).contains(a) {
            let k = choose|k: int| 0 <= k < t.len() && (#[trigger] t[k]).start <= a < t[k].end;
            if k < i {
                assert(s[k] == t[k]);
            } else if k > i {
                assert(s[k - 1] == t[k]);
            }
        }
        if free_addresses(s).contains(a) {
            let k = choose|k: int| 0 <= k < s.len() && (#[trigger] s[k]).start <= a < s[k].end;
            if k < i {
                assert(t[k] == s[k]);
            } else {
                assert(t[k + 1] == s[k]);
            }
        }
        if addr_range(e.start as int, e.end as int).contains(a) {
            assert(t[i] == e);
        }
    }
    assert(free_addresses(t) =~= free_addresses(s).union(addr_range(e.start as int, e.end as int)));
}

proof fn lemma_free_remove(s: Seq<VmmEntry>, i: int)
    requires
        regions_ordered(s),
        0 <= i < s.len(),
    ensures
        free_addresses(s.remove(i)) == free_addresses(s).difference(addr_range(s[i].start as int, s[i].end as int)),
{
    let t = s.remove(i);
    assert forall|a: int| free_addresses(t).contains(a) == free_addresses(s).difference(addr_range(s[i].start as int, s[i].end as int)).contains(a) by {
        if free_addresses(t).contains(a) {
            let k = choose|k: int| 0 <= k < t.len() && (#[trigger] t[k]).start <= a < t[k].end;
            if k < i {
                assert(s[k] == t[k]);
                assert(s[k].end <= s[i].start);
            } else {
                assert(s[k + 1] == t[k]);
                assert(s[i].end <= s[k + 1].start);
            }
        }
        if free_addresses(s).contains(a) && !addr_range(s[i].start as int, s[i].end as int).contains(a) {
            let k = choose|k: int| 0 <= k < s.len() && (#[trigger] s[k]).start <= a < s[k].end;
            assert(k != i);
            if k < i {
                assert(t[k] == s[k]);
            } else {
                assert(t[k - 1] == s[k]);
            }
        }
    }
    assert(free_addresses(t) =~= free_addresses(s).difference(addr_range(s[i].start as int, s[i].end as int)));
}

proof fn lemma_free_grow(s: Seq<VmmEntry>, i: int, e: VmmEntry)
    requires
        0 <= i < s.len(),
        e.start <= s[i].start,
        s[i].end <= e.end,
    ensures
        free_addresses(s.update(i, e)) == free_addresses(s).union(addr_range(e.start as int, e.end as int)),
{
    let t = s.update(i, e);
    assert forall|a: int| free_addresses(t).contains(a) == free_addresses(s).union(addr_range(e.start as int, e.end as int)).contains(a) by {
        if free_addresses(t).contains(a) {
            let k = choose|k: int| 0 <= k < t.len() && (#[trigger] t[k]).start <= a < t[k].end;
            if k != i {
                assert(s[k] == t[k]);
            }
        }
        if free_addresses(s).contains(a) {
            let k = choose|k: int| 0 <= k < s.len() && (#[trigger] s[k]).start <= a < s[k].end;
            assert(t[k].start <= a < t[k].end);
        }
        if addr_range(e.start as int, e.end as int).contains(a) {
            assert(t[i] == e);
        }
    }
    assert(free_addresses(t) =~= free_addresses(s).union(addr_range(e.start as int, e.end as int)));
}

proof fn lemma_free_remove_covered(s: Seq<VmmEntry>, i: int, j: int)
    requires
        0 <= i < s.len(),
        0 <= j < s.len(),
        i != j,
        s[j].start <= s[i].start,
        s[i].end <= s[j].end,
    ensures
        free_addresses(s.remove(i)) == free_addresses(s),
{
    let t = s.remove(i);
    assert forall|a: int| free_addresses(t).contains(a) == free_addresses(s).contains(a) by {
        if free_addresses(t).contains(a) {
            let k = choose|k: int| 0 <= k < t.len() && (#[trigger] t[k]).start <= a < t[k].end;
            if k < i {
                assert(s[k] == t[k]);
            } else {
                assert(s[k + 1] == t[k]);
            }
        }
        if free_addresses(s).contains(a) {
            let k0 = choose|k: int| 0 <= k < s.len() && (#[trigger] s[k]).start <= a < s[k].end;
            let k = if k0 == i { j } else { k0 };
            assert(s[k].start <= a < s[k].end);
            if k < i {
                assert(t[k] == s[k]);
            } else {
                assert(t[k - 1] == s[k]);
            }
        }
    }
    assert(free_addresses(t) =~= free_addresses(s));
}

proof fn lemma_range_union(f: Set<int>, lo: int, a: int, b: int, hi: int)
    requires
        lo <= a <= b <= hi,
        addr_range(lo, a).subset_of(f),
        addr_range(b, hi).subset_of(f),
    ensures
        f.union(addr_range(lo, hi)) == f.union(addr_range(a, b)),
{
    assert(f.union(addr_range(lo, hi)) =~= f.union(addr_range(a, b)));
}

proof fn lemma_in_free(s: Seq<VmmEntry>, i: int)
    requires
        0 <= i < s.len(),
    ensures
        addr_range(s[i].start as int, s[i].end as int).subset_of(free_addresses(s)),
{
    assert forall|a: int| addr_range(s[i].start as int, s[i].end as int).contains(a) implies #[trigger] free_addresses(s).contains(a) by {
        assert(s[i].start <= a < s[i].end);
    }
}

proof fn lemma_free_push(s: Seq<VmmEntry>, e: VmmEntry)
    ensures
        free_addresses(s.push(e)) == free_addresses(s).union(addr_range(e.start as int, e.end as int)),
{
    lemma_free_insert(s, s.len() as int, e);
    assert(s.push(e) =~= s.insert(s.len() as int, e));
}

/// The kernel's free virtual-address regions.
pub struct Vmm {
    pub entries: Vec<VmmEntry>,
}

impl Vmm {
    /// An allocator with no free region.
    pub fn new() -> (r: Self)
        ensures
            r.entries@ == Seq::<VmmEntry>::empty(),
    {
        Vmm { entries: Vec::new() }
    }

    /// Hands out `layout.size` bytes at an address aligned to `layout.align`, taken from the
    /// first region that is larger than or exactly `size + align` bytes. A region that is
    /// larger keeps what lies around the allocation; one of exactly that size keeps only
    /// the part before the aligned address (or is removed when the region was aligned).
    pub fn allocate(&mut self, layout: Layout) -> (r: Result<VirtualAddress, &'static str>)
        requires
            regions_well_formed(old(self).entries@),
        ensures
            regions_well_formed(final(self).entries@),
            regions_ordered(old(self).entries@) ==> regions_ordered(final(self).entries@),
            regions_separate(old(self).entries@) && layout.spec_size() > 0 ==> regions_separate(final(self).entries@),
            match r {
                Ok(va) => exists|i: int| #![trigger old(self).entries@[i]] {
                    let s = old(self).entries@;
                    let e = s[i];
                    let a = align_up_spec(e.start as int, layout.spec_align() as int);
                    &&& first_fit(s, (layout.spec_size() + layout.spec_align()) as int, i)
                    &&& va.0 == a
                    &&& is_aligned(a, layout.spec_align() as int)
                    &&& e.start <= a
                    &&& a + layout.spec_size() <= e.end
                    &&& final(self).entries@ == allocated_regions(s, i, a, layout.spec_size() as int, (layout.spec_size() + layout.spec_align()) as int)
                    &&& (regions_ordered(s) ==> free_addresses(final(self).entries@) == free_addresses(s).difference(
                        if e.end - e.start > layout.spec_size() + layout.spec_align() {
                            addr_range(a, a + layout.spec_size())
                        } else {
                            addr_range(a, e.end as int)
                        },
                    ))
                },
                Err(_) => {
                    &&& final(self).entries@ == old(self).entries@
                    &&& forall|j: int| 0 <= j < old(self).entries@.len() ==> (#[trigger] old(self).entries@[j]).end
                        - old(self).entries@[j].start < layout.spec_size() + layout.spec_align()
                },
            },
    {
        let align = layout.align();
        let size = layout.size();
        assert(size + align <= usize::MAX);
        let new_size = size + align;
        let mut i: usize = 0;
        while i < self.entries.len()
            invariant
                i <= self.entries.len(),
                self.entries@ == old(self).entries@,
                regions_well_formed(self.entries@),
                new_size == layout.spec_size() + layout.spec_align(),
                size == layout.spec_size(),
                align == layout.spec_align(),
                align > 0,
                size + align <= usize::MAX,
                forall|j: int| 0 <= j < i ==> (#[trigger] self.entries@[j]).end - self.entries@[j].start < new_size,
            decreases self.entries.len() - i,
        {
            let region_start = self.entries[i].start;
            let region_end = self.entries[i].end;
            let region_size = region_end - region_start;
            let ghost s = self.entries@;
            if region_size >= new_size {
                let new_addr = align_up(region_start, align);
                assert(first_fit(s, new_size as int, i as int));
                if region_size > new_size {
                    let moved = VmmEntry { start: new_addr + size, end: region_end };
                    self.entries.set(i, moved);
                    if new_addr != region_start {
                        self.entries.insert(i, VmmEntry { start: region_start, end: new_addr });
                    }
                    proof {
                        let s1 = s.update(i as int, moved);
                        assert forall|k: int| 0 <= k < self.entries@.len() implies (#[trigger] self.entries@[k]).start <= self.entries@[k].end by {
                            if new_addr != region_start {
                                if k < i {
                                    assert(self.entries@[k] == s[k]);
                                } else if k > i + 1 {
                                    assert(self.entries@[k] == s[k - 1]);
                                }
                            } else if k != i {
                                assert(self.entries@[k] == s[k]);
                            }
                        }
                        if regions_ordered(s) {
                            lemma_free_update(s, i as int, moved);
                            if new_addr != region_start {
                                lemma_free_insert(s1, i as int, VmmEntry { start: region_start, end: new_addr });
                            }
                            assert(free_addresses(self.entries@) =~= free_addresses(s).difference(addr_range(new_addr as int, new_addr + size)));
                            assert forall|p: int, q: int| 0 <= p < q < self.entries@.len() implies (#[trigger] self.entries@[p]).end <= (#[trigger] self.entries@[q]).start by {
                                if new_addr != region_start {
                                    let pp = if p < i { p } else if p <= i + 1 { i as int } else { p - 1 };
                                    let qq = if q < i { q } else if q <= i + 1 { i as int } else { q - 1 };
                                    if pp < qq {
                                        assert(s[pp].end <= s[qq].start);
                                    }
                                } else if p != i && q != i {
                                    assert(s[p].end <= s[q].start);
                                } else if p == i {
                                    assert(s[i as int].end <= s[q].start);
                                } else {
                                    assert(s[p].end <= s[i as int].start);
                                }
                            }
                        }
                    }
                    return Ok(VirtualAddress(new_addr as u64));
                } else {
                    if new_addr != region_start {
                        self.entries.set(i, VmmEntry { start: region_start, end: new_addr });
                        proof {
                            assert forall|k: int| 0 <= k < self.entries@.len() implies (#[trigger] self.entries@[k]).start <= self.entries@[k].end by {
                                if k != i {
                                    assert(self.entries@[k] == s[k]);
                                }
                            }
                            if regions_ordered(s) {
                                lemma_free_update(s, i as int, VmmEntry { start: region_start, end: new_addr });
                                assert(free_addresses(self.entries@) =~= free_addresses(s).difference(addr_range(new_addr as int, region_end as int)));
                                assert forall|p: int, q: int| 0 <= p < q < self.entries@.len() implies (#[trigger] self.entries@[p]).end <= (#[trigger] self.entries@[q]).start by {
                                    if p != i && q != i {
                                        assert(s[p].end <= s[q].start);
                                    } else if p == i {
                                        assert(s[i as int].end <= s[q].start);
                                    } else {
                                        assert(s[p].end <= s[i as int].start);
                                    }
                                }
                            }
                        }
                    } else {
                        self.entries.remove(i);
                        proof {
                            assert forall|k: int| 0 <= k < self.entries@.len() implies (#[trigger] self.entries@[k]).start <= self.entries@[k].end by {
                                if k < i {
                                    assert(self.entries@[k] == s[k]);
                                } else {
                                    assert(self.entries@[k] == s[k + 1]);
                                }
                            }
                            if regions_ordered(s) {
                                lemma_free_remove(s, i as int);
                                assert(free_addresses(self.entries@) =~= free_addresses(s).difference(addr_range(new_addr as int, region_end as int)));
                                assert forall|p: int, q: int| 0 <= p < q < self.entries@.len() implies (#[trigger] self.entries@[p]).end <= (#[trigger] self.entries@[q]).start by {
                                    let pp = if p < i { p } else { p + 1 };
                                    let qq = if q < i { q } else { q + 1 };
                                    assert(s[pp].end <= s[qq].start);
                                }
                            }
                        }
                    }
                    return Ok(VirtualAddress(new_addr as u64));
                }
            }
            i = i + 1;
        }
        Err("VMM: Out of virtual memory")
    }

    /// Gives `size` bytes at `address` back: they join the region that ends where they start or
    /// starts where they end (merging with its neighbour when that closes a gap), or become a
    /// region of their own before the first region that lies above them, or at the end.
    #[verifier::rlimit(40)]
    pub fn deallocate(&mut self, address: usize, size: usize)
        requires
            address + size <= usize::MAX,
        ensures
            regions_well_formed(old(self).entries@) ==> free_addresses(final(self).entries@) == free_addresses(
                old(self).entries@,
            ).union(addr_range(address as int, address + size)),
            regions_ordered(old(self).entries@) && disjoint_from(old(self).entries@, address as int, address + size) && size > 0
                ==> regions_ordered(final(self).entries@),
            final(self).entries@ == freed_regions(old(self).entries@, address as int, address + size),
            regions_separate(old(self).entries@) && disjoint_from(old(self).entries@, address as int, address + size) && size > 0
                ==> regions_separate(final(self).entries@),
    {
        let end = address + size;
        let mut i: usize = 0;
        while i < self.entries.len()
            invariant
                i <= self.entries.len(),
                self.entries@ == old(self).entries@,
                end == address + size,
                forall|j: int| 0 <= j < i ==> {
                    &&& (#[trigger] self.entries@[j]).start != end
                    &&& self.entries@[j].end != address
                    &&& end >= self.entries@[j].start
                },
                first_touch(old(self).entries@, address as int, end as int, 0) == first_touch(old(self).entries@, address as int, end as int, i as int),
            decreases self.entries.len() - i,
        {
            let region_start = self.entries[i].start;
            let region_end = self.entries[i].end;
            let ghost s = self.entries@;
            if region_start == end {
                let grown = VmmEntry { start: address, end: region_end };
                self.entries.set(i, grown);
                let ghost s1 = self.entries@;
                if i > 0 && self.entries[i - 1].end == address {
                    let prev_start = self.entries[i - 1].start;
                    let merged = VmmEntry { start: prev_start, end: region_end };
                    self.entries.set(i - 1, merged);
                    self.entries.remove(i);
                    proof {
                        assert(first_touch(s, address as int, end as int, i as int) == i);
                        assert(self.entries@ =~= freed_regions(s, address as int, end as int));
                        if regions_separate(s) && disjoint_from(s, address as int, end as int) && size > 0 {
                            lemma_freed_separate(s, address as int, end as int);
                        }
                        let s2 = s1.update(i - 1, merged);
                        assert(self.entries@ =~= s2.remove(i as int));
                        assert(free_addresses(self.entries@) =~= free_addresses(s).union(addr_range(address as int, end as int))) by {
                            assert forall|a: int| #[trigger] free_addresses(self.entries@).contains(a) == free_addresses(s).union(addr_range(address as int, end as int)).contains(a) by {
                                if free_addresses(self.entries@).contains(a) {
                                    let k = choose|k: int| 0 <= k < self.entries@.len() && (#[trigger] self.entries@[k]).start <= a < self.entries@[k].end;
                                    if k < i - 1 {
                                        assert(s[k] == self.entries@[k]);
                                    } else if k == i - 1 {
                                        if a < address {
                                            assert(s[k].start <= a < s[k].end);
                                        } else if a >= end {
                                            assert(s[i as int].start <= a < s[i as int].end);
                                        }
                                    } else {
                                        assert(s[k + 1] == self.entries@[k]);
                                    }
                                }
                                if free_addresses(s).contains(a) {
                                    let k = choose|k: int| 0 <= k < s.len() && (#[trigger] s[k]).start <= a < s[k].end;
                                    if k < i - 1 {
                                        assert(self.entries@[k] == s[k]);
                                    } else if k == i - 1 || k == i {
                                        assert(self.entries@[i - 1] == merged);
                                    } else {
                                        assert(self.entries@[k - 1] == s[k]);
                                    }
                                }
                                if addr_range(address as int, end as int).contains(a) {
                                    assert(self.entries@[i - 1] == merged);
                                }
                            }
                        }
                        if regions_ordered(s) && disjoint_from(s, address as int, end as int) && size > 0 {
                            assert forall|p: int, q: int| 0 <= p < q < self.entries@.len() implies (#[trigger] self.entries@[p]).end <= (#[trigger] self.entries@[q]).start by {
                                let pp = if p < i { p } else { p + 1 };
                                let qq = if q < i { q } else { q + 1 };
                                if p == i - 1 {
                                    assert(s[i as int].end <= s[qq].start);
                                } else if q == i - 1 {
                                    assert(s[pp].end <= s[i - 1].start);
                                } else {
                                    assert(s[pp].end <= s[qq].start);
                                }
                            }
                            assert forall|k: int| 0 <= k < self.entries@.len() implies (#[trigger] self.entries@[k]).start <= self.entries@[k].end by {
                                if k < i - 1 {
                                    assert(self.entries@[k] == s[k]);
                                } else if k >= i {
                                    assert(self.entries@[k] == s[k + 1]);
                                } else {
                                    assert(s[k].start <= s[k].end);
                                }
                            }
                        }
                    }
                } else {
                    proof {
                        assert(first_touch(s, address as int, end as int, i as int) == i);
                        assert(self.entries@ =~= freed_regions(s, address as int, end as int));
                        if regions_separate(s) && disjoint_from(s, address as int, end as int) && size > 0 {
                            lemma_freed_separate(s, address as int, end as int);
                        }
                        if regions_well_formed(s) {
                            lemma_free_grow(s, i as int, grown);
                            lemma_in_free(s, i as int);
                            lemma_range_union(free_addresses(s), address as int, address as int, end as int, region_end as int);
                        }
                        if regions_ordered(s) && disjoint_from(s, address as int, end as int) && size > 0 {
                            assert forall|p: int, q: int| 0 <= p < q < self.entries@.len() implies (#[trigger] self.entries@[p]).end <= (#[trigger] self.entries@[q]).start by {
                                if q == i {
                                    if p < i - 1 {
                                        assert(s[p].end <= s[i - 1].start);
                                    }
                                    assert(s[i - 1].end != address);
                                    assert(s[i - 1].end <= address || end <= s[i - 1].start);
                                } else {
                                    assert(s[p].end <= s[q].start);
                                }
                            }
                        }
                    }
                }
                return;
            } else if region_end == address {
                let grown = VmmEntry { start: region_start, end };
                self.entries.set(i, grown);
                let ghost s1 = self.entries@;
                if i + 1 < self.entries.len() && self.entries[i + 1].start == end {
                    let next_end = self.entries[i + 1].end;
                    let merged = VmmEntry { start: region_start, end: next_end };
                    self.entries.set(i + 1, merged);
                    self.entries.remove(i);
                    proof {
                        assert(first_touch(s, address as int, end as int, i as int) == i);
                        assert(self.entries@ =~= freed_regions(s, address as int, end as int));
                        if regions_separate(s) && disjoint_from(s, address as int, end as int) && size > 0 {
                            lemma_freed_separate(s, address as int, end as int);
                        }
                        let t1 = s1;
                        if regions_well_formed(s) {
                        lemma_free_grow(s, i as int, grown);
                        lemma_in_free(s, i as int);
                        lemma_range_union(free_addresses(s), region_start as int, address as int, end as int, end as int);
                        let t2 = t1.update(i + 1, merged);
                        lemma_free_grow(t1, i + 1, merged);
                        lemma_in_free(s, i + 1);
                        assert(addr_range(region_start as int, next_end as int).subset_of(free_addresses(t1))) by {
                            assert forall|a: int| addr_range(region_start as int, next_end as int).contains(a) implies #[trigger] free_addresses(t1).contains(a) by {
                                if a >= end {
                                    assert(t1[i + 1].start <= a < t1[i + 1].end);
                                } else {
                                    assert(t1[i as int].start <= a < t1[i as int].end);
                                }
                            }
                        }
                        assert(free_addresses(t2) =~= free_addresses(t1));
                        lemma_free_remove_covered(t2, i as int, i + 1);
                        assert(self.entries@ =~= t2.remove(i as int));
                        }
                        if regions_ordered(s) && disjoint_from(s, address as int, end as int) && size > 0 {
                            assert forall|p: int, q: int| 0 <= p < q < self.entries@.len() implies (#[trigger] self.entries@[p]).end <= (#[trigger] self.entries@[q]).start by {
                                let pp = if p < i { p } else { p + 1 };
                                let qq = if q < i { q } else { q + 1 };
                                if p == i {
                                    assert(s[i + 1].end <= s[qq].start);
                                } else if q == i {
                                    assert(s[pp].end <= s[i as int].start);
                                } else {
                                    assert(s[pp].end <= s[qq].start);
                                }
                            }
                            assert forall|k: int| 0 <= k < self.entries@.len() implies (#[trigger] self.entries@[k]).start <= self.entries@[k].end by {
                                if k < i {
                                    assert(self.entries@[k] == s[k]);
                                } else if k > i {
                                    assert(self.entries@[k] == s[k + 1]);
                                } else {
                                    assert(s[i + 1].start <= s[i + 1].end);
                                }
                            }
                        }
                    }
                } else {
                    proof {
                        assert(first_touch(s, address as int, end as int, i as int) == i);
                        assert(self.entries@ =~= freed_regions(s, address as int, end as int));
                        if regions_separate(s) && disjoint_from(s, address as int, end as int) && size > 0 {
                            lemma_freed_separate(s, address as int, end as int);
                        }
                        if regions_well_formed(s) {
                            lemma_free_grow(s, i as int, grown);
                            lemma_in_free(s, i as int);
                            lemma_range_union(free_addresses(s), region_start as int, address as int, end as int, end as int);
                        }
                        if regions_ordered(s) && disjoint_from(s, address as int, end as int) && size > 0 {
                            assert forall|p: int, q: int| 0 <= p < q < self.entries@.len() implies (#[trigger] self.entries@[p]).end <= (#[trigger] self.entries@[q]).start by {
                                if p == i {
                                    if q > i + 1 {
                                        assert(s[i + 1].end <= s[q].start);
                                    }
                                    assert(s[i + 1].start != end);
                                    assert(s[i + 1].end <= address || end <= s[i + 1].start);
                                    assert(s[i as int].end <= s[i + 1].start);
                                } else {
                                    assert(s[p].end <= s[q].start);
                                }
                            }
                        }
                    }
                }
                return;
            } else if end < region_start {
                let fresh = VmmEntry { start: address, end };
                self.entries.insert(i, fresh);
                proof {
                    assert(first_touch(s, address as int, end as int, i as int) == i);
                    assert(self.entries@ =~= freed_regions(s, address as int, end as int));
                        if regions_separate(s) && disjoint_from(s, address as int, end as int) && size > 0 {
                            lemma_freed_separate(s, address as int, end as int);
                        }
                    lemma_free_insert(s, i as int, fresh);
                    if regions_ordered(s) && disjoint_from(s, address as int, end as int) && size > 0 {
                        assert forall|p: int, q: int| 0 <= p < q < self.entries@.len() implies (#[trigger] self.entries@[p]).end <= (#[trigger] self.entries@[q]).start by {
                            let pp = if p < i { p } else { p - 1 };
                            let qq = if q < i { q } else { q - 1 };
                            if p == i {
                                assert(s[i as int].start <= s[qq].start);
                            } else if q == i {
                                assert(s[p].end <= address || end <= s[p].start);
                            } else {
                                assert(s[pp].end <= s[qq].start);
                            }
                        }
                        assert forall|k: int| 0 <= k < self.entries@.len() implies (#[trigger] self.entries@[k]).start <= self.entries@[k].end by {
                            if k < i {
                                assert(self.entries@[k] == s[k]);
                            } else if k > i {
                                assert(self.entries@[k] == s[k - 1]);
                            }
                        }
                    }
                }
                return;
            }
            i = i + 1;
        }
        let ghost s = self.entries@;
        let fresh = VmmEntry { start: address, end };
        self.entries.push(fresh);
        proof {
            assert(first_touch(s, address as int, end as int, i as int) == s.len());
            assert(self.entries@ =~= freed_regions(s, address as int, end as int));
                        if regions_separate(s) && disjoint_from(s, address as int, end as int) && size > 0 {
                            lemma_freed_separate(s, address as int, end as int);
                        }
            lemma_free_push(s, fresh);
            if regions_ordered(s) && disjoint_from(s, address as int, end as int) && size > 0 {
                assert forall|p: int, q: int| 0 <= p < q < self.entries@.len() implies (#[trigger] self.entries@[p]).end <= (#[trigger] self.entries@[q]).start by {
                    if q == s.len() {
                        assert(s[p].end <= address || end <= s[p].start);
                    } else {
                        assert(s[p].end <= s[q].start);
                    }
                }
                assert forall|k: int| 0 <= k < self.entries@.len() implies (#[trigger] self.entries@[k]).start <= self.entries@[k].end by {
                    if k < s.len() {
                        assert(self.entries@[k] == s[k]);
                    }
                }
            }
        }
    }
}

/// Adds the kernel's whole dynamic virtual-address window to `vmm` as one free region.
pub fn init_vmm(vmm: &mut Vmm)
    ensures
        final(vmm).entries@ == old(vmm).entries@.push(
            VmmEntry { start: KERNEL_VMM_ADDR_START as usize, end: (KERNEL_VMM_ADDR_START + KERNEL_VMM_SIZE) as usize },
        ),
{
    let start = KERNEL_VMM_ADDR_START as usize;
    let end = (KERNEL_VMM_ADDR_START + KERNEL_VMM_SIZE) as usize;
    vmm.entries.push(VmmEntry { start, end });
}

impl Default for Vmm {
    fn default() -> (r: Self)
        ensures
            r.entries@ == Seq::<VmmEntry>::empty(),
    {
        Self::new()
    }
}

/// Allocating a range out of the free list and giving the same range back restores the free
/// addresses: what an allocation removes, a deallocation of it adds again.
pub proof fn lemma_allocate_then_deallocate(
    before: Seq<VmmEntry>,
    allocated: Seq<VmmEntry>,
    freed: Seq<VmmEntry>,
    address: int,
    size: int,
)
    requires
        addr_range(address, address + size).subset_of(free_addresses(before)),
        free_addresses(allocated) == free_addresses(before).difference(addr_range(address, address + size)),
        free_addresses(freed) == free_addresses(allocated).union(addr_range(address, address + size)),
    ensures
        free_addresses(freed) == free_addresses(before),
{
    assert(free_addresses(freed) =~= free_addresses(before));
}

} // verus!
