//! Small arithmetic helpers shared by the memory code.
use vstd::prelude::*;

verus! {

/// `x` is a multiple of `align`.
pub open spec fn is_aligned(x: int, align: int) -> bool {
    x % align == 0
}

/// The smallest multiple of `align` that is not below `addr`.
pub open spec fn align_up_spec(addr: int, align: int) -> int {
    if addr % align == 0 {
        addr
    } else {
        addr - addr % align + align
    }
}

/// The greatest multiple of `align` that is not above `addr`.
pub open spec fn align_down_spec(addr: int, align: int) -> int {
    addr - addr % align
}

/// Rounds `addr` up to the next multiple of `align`.
pub fn align_up(addr: usize, align: usize) -> (r: usize)
    requires
        align > 0,
        addr + align - 1 <= usize::MAX,
    ensures
        r == align_up_spec(addr as int, align as int),
        r >= addr,
        r - addr < align,
        is_aligned(r as int, align as int),
{
    let rem = addr % align;
    if rem == 0 {
        addr
    } else {
        proof {
            vstd::arithmetic::div_mod::lemma_fundamental_div_mod(addr as int, align as int);
            vstd::arithmetic::div_mod::lemma_mod_multiples_basic(addr as int / align as int + 1, align as int);
            assert((addr as int - rem as int + align as int) == (addr as int / align as int + 1) * align as int) by (nonlinear_arith)
                requires addr as int == align as int * (addr as int / align as int) + rem as int;
        }
        addr - rem + align
    }
}

/// Rounds `addr` down to the previous multiple of `align`.
pub fn align_down(addr: usize, align: usize) -> (r: usize)
    requires
        align > 0,
    ensures
        r == align_down_spec(addr as int, align as int),
        r <= addr,
        addr - r < align,
        is_aligned(r as int, align as int),
{
    proof {
        vstd::arithmetic::div_mod::lemma_fundamental_div_mod(addr as int, align as int);
        vstd::arithmetic::div_mod::lemma_mod_multiples_basic(addr as int / align as int, align as int);
        assert(addr as int - (addr % align) as int == (addr as int / align as int) * align as int) by (nonlinear_arith)
            requires addr as int == align as int * (addr as int / align as int) + (addr % align) as int;
    }
    addr - addr % align
}

/// `x` is a positive power of two.
pub open spec fn is_power_of_two(x: int) -> bool
    decreases x,
{
    if x <= 0 {
        false
    } else if x == 1 {
        true
    } else {
        x % 2 == 0 && is_power_of_two(x / 2)
    }
}

/// The size and alignment of a block of memory.
#[derive(Debug, Clone, Copy, PartialEq, Eq, Structural)]
pub struct Layout {
    size: usize,
    align: usize,
}

impl Layout {
    #[verifier::type_invariant]
    spec fn inv(self) -> bool {
        &&& self.align > 0
        &&& self.size + self.align - 1 <= isize::MAX
    }

    /// The size in bytes.
    pub closed spec fn spec_size(&self) -> nat {
        self.size as nat
    }

    /// The alignment in bytes.
    pub closed spec fn spec_align(&self) -> nat {
        self.align as nat
    }

    /// A layout of `size` bytes aligned to `align`; `None` unless `align` is a power of two
    /// and `size`, rounded up to `align`, stays within `isize::MAX`.
    pub fn from_size_align(size: usize, align: usize) -> (r: Option<Layout>)
        ensures
            r is Some <==> (is_power_of_two(align as int) && size + align - 1 <= isize::MAX),
            r matches Some(l) ==> l.spec_size() == size && l.spec_align() == align,
    {
        if align == 0 {
            return None;
        }
        let pow2 = is_power_of_two_exec(align);
        if !pow2 {
            return None;
        }
        if align - 1 > isize::MAX as usize || size > (isize::MAX as usize) - (align - 1) {
            return None;
        }
        Some(Layout { size, align })
    }

    /// The size in bytes.
    pub fn size(&self) -> (r: usize)
        ensures
            r == self.spec_size(),
            r + self.spec_align() <= usize::MAX,
            self.spec_align() > 0,
    {
        proof {
            use_type_invariant(self);
        }
        self.size
    }

    /// The alignment in bytes.
    pub fn align(&self) -> (r: usize)
        ensures
            r == self.spec_align(),
            r > 0,
            self.spec_size() + r <= usize::MAX,
    {
        proof {
            use_type_invariant(self);
        }
        self.align
    }
}

/// Tells whether `x` is a positive power of two.
fn is_power_of_two_exec(x: usize) -> (r: bool)
    ensures
        r == is_power_of_two(x as int),
{
    let mut v = x;
    if v == 0 {
        return false;
    }
    while v > 1
        invariant
            v > 0,
            is_power_of_two(x as int) == is_power_of_two(v as int),
        decreases v,
    {
        if v % 2 != 0 {
            return false;
        }
        v = v / 2;
    }
    true
}

} // verus!
