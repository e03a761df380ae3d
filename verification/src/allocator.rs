use vstd::prelude::*;
use vstd::arithmetic::power2::{pow2, lemma_pow2_pos};
use vstd::bits::{low_bits_mask, lemma_u64_low_bits_mask_is_mod};
use vstd::arithmetic::div_mod::{lemma_fundamental_div_mod, lemma_mod_multiples_basic};

verus! {

/// `align` is a power of two that fits in 64 bits.
pub open spec fn is_power_of_two(align: int) -> bool {
    exists|k: nat| k < 64 && align == pow2(k)
}

/// The least multiple of `align` that is at least `addr`.
pub open spec fn spec_align_up(addr: int, align: int) -> int {
    ((addr + align - 1) / align) * align
}

/// What rounding up yields: a multiple of `align`, at least `addr`, less than `addr + align`.
pub proof fn lemma_align_up_properties(addr: int, align: int)
    requires
        align > 0,
        addr >= 0,
    ensures
        spec_align_up(addr, align) % align == 0,
        addr <= spec_align_up(addr, align) < addr + align,
{
    let x = addr + align - 1;
    lemma_fundamental_div_mod(x, align);
    lemma_mod_multiples_basic(x / align, align);
    assert((x / align) * align == align * (x / align)) by (nonlinear_arith);
}

pub proof fn lemma_power_of_two_pos(align: int)
    requires
        is_power_of_two(align),
    ensures
        align > 0,
{
    let k = choose|k: nat| k < 64 && align == pow2(k);
    lemma_pow2_pos(k);
}

/// Rounding up an address that is already aligned leaves it unchanged.
pub proof fn lemma_align_up_aligned(addr: int, align: int)
    requires
        align > 0,
        addr >= 0,
        addr % align == 0,
    ensures
        spec_align_up(addr, align) == addr,
{
    lemma_align_up_properties(addr, align);
    let r = spec_align_up(addr, align);
    vstd::arithmetic::div_mod::lemma_fundamental_div_mod(addr, align);
    vstd::arithmetic::div_mod::lemma_fundamental_div_mod(r, align);
    let q1 = addr / align;
    let q2 = r / align;
    assert(q1 == q2) by (nonlinear_arith)
        requires
            addr == align * q1,
            r == align * q2,
            addr <= r < addr + align,
            align > 0;
}

proof fn lemma_mask_is_round_down(x: usize, align: usize)
    requires
        is_power_of_two(align as int),
    ensures
        x & !((align - 1) as usize) == x - x % align,
{
    let k = choose|k: nat| k < 64 && align as int == pow2(k);
    lemma_pow2_pos(k);
    lemma_u64_low_bits_mask_is_mod(x as u64, k);
    let m = (align - 1) as usize;
    assert(m as u64 == low_bits_mask(k) as u64);
    let xm = x & m;
    assert(xm as u64 == (x as u64) & (m as u64)) by (bit_vector)
        requires xm == x & m;
    assert((x & !m) == x - xm) by (bit_vector)
        requires xm == x & m;
}

/// Rounds `addr` up to the next multiple of `align`.
pub fn align_up(addr: usize, align: usize) -> (r: usize)
    requires
        is_power_of_two(align as int),
        addr + align - 1 <= usize::MAX,
    ensures
        r == spec_align_up(addr as int, align as int),
{
    proof { lemma_power_of_two_pos(align as int); }
    let x: usize = addr + (align - 1);
    proof {
        lemma_mask_is_round_down(x, align);
        lemma_fundamental_div_mod(x as int, align as int);
        assert((x / align) * align == align * (x / align)) by (nonlinear_arith);
    }
    x & !(align - 1)
}


/// Start of the kernel heap in the virtual address space.
pub const HEAP_START: u64 = 0x_4444_4444_0000;

/// Size of the kernel heap in bytes.
pub const HEAP_SIZE: u64 = 100 * 1024;

/// Size and alignment of a memory request.
///
/// `align` is a power of two and `size`, rounded up to a multiple of `align`,
/// does not exceed `isize::MAX`.
#[derive(Clone, Copy, Debug, PartialEq, Eq, Structural)]
pub struct Layout {
    pub size: usize,
    pub align: usize,
}

impl Layout {
    /// The conditions under which a size and an alignment form a layout.
    pub open spec fn valid(size: int, align: int) -> bool {
        &&& is_power_of_two(align)
        &&& 0 <= size <= isize::MAX - (align - 1)
    }

    pub open spec fn is_valid(self) -> bool {
        Self::valid(self.size as int, self.align as int)
    }

    /// A layout of `size` bytes aligned to `align`, or `None` where they form none.
    pub fn from_size_align(size: usize, align: usize) -> (r: Option<Layout>)
        ensures
            r is Some <==> Self::valid(size as int, align as int),
            r matches Some(l) ==> l.size == size && l.align == align,
    {
        if !power_of_two(align) {
            return None;
        }
        proof { lemma_power_of_two_pos(align as int); }
        if align - 1 > isize::MAX as usize || size > (isize::MAX as usize) - (align - 1) {
            return None;
        }
        Some(Layout { size, align })
    }

    pub fn size(&self) -> (r: usize)
        ensures
            r == self.size,
    {
        self.size
    }

    pub fn align(&self) -> (r: usize)
        ensures
            r == self.align,
    {
        self.align
    }
}

/// Tests whether `x` is a power of two.
pub fn power_of_two(x: usize) -> (r: bool)
    ensures
        r == is_power_of_two(x as int),
{
    let mut p: u64 = 1;
    let mut k: u64 = 0;
    proof {
        vstd::arithmetic::power2::lemma2_to64();
        vstd::arithmetic::power2::lemma2_to64_rest();
    }
    while k < 64
        invariant
            k <= 64,
            k < 64 ==> p as int == pow2(k as nat),
            forall|j: nat| j < k ==> pow2(j) != x,
        decreases 64 - k,
    {
        if p == x as u64 {
            return true;
        }
        if k == 63 {
            proof { assert(forall|j: nat| j < 64 ==> pow2(j) != x); }
            return false;
        }
        proof {
            vstd::arithmetic::power2::lemma_pow2_unfold((k + 1) as nat);
            if k + 1 < 63 {
                vstd::arithmetic::power2::lemma_pow2_strictly_increases((k + 1) as nat, 63);
            }
            vstd::arithmetic::power2::lemma2_to64_rest();
        }
        p = p * 2;
        k = k + 1;
    }
    false
}

/// An allocator that hands out nothing.
pub struct Dummy;

impl Dummy {
    /// Every request fails.
    pub fn allocate(&self, layout: Layout) -> (r: Option<usize>)
        ensures
            r is None,
    {
        None
    }
}

} // verus!
