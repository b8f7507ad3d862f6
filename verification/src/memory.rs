//! What may be asked of the platform's allocator.

use vstd::prelude::*;
use vstd::arithmetic::power2::is_pow2;
use vstd::layout::valid_layout;

verus! {

/// Decides whether `n` is a power of two.
pub fn is_power_of_two(n: u32) -> (b: bool)
    ensures
        b == is_pow2(n as int),
{
    let mut rest: u32 = n;
    while rest > 1 && rest % 2 == 0
        invariant
            is_pow2(n as int) == is_pow2(rest as int),
        decreases rest,
    {
        proof {
            reveal_with_fuel(is_pow2, 2);
        }
        rest = rest / 2;
    }
    proof {
        reveal_with_fuel(is_pow2, 2);
    }
    rest == 1
}

/// Whether `size` bytes aligned to `align` can be asked of the
/// allocator: the alignment is a power of two, and the size, rounded up
/// to the alignment, is one the allocator can represent.
pub open spec fn layout_ok(size: u64, align: u32) -> bool {
    &&& is_pow2(align as int)
    &&& size <= usize::MAX
    &&& valid_layout(size as usize, align as usize)
}

/// The size and alignment to ask the allocator for, if memory of `size`
/// bytes aligned to `align` can be asked for at all.
pub fn dma_layout(size: u64, align: u32) -> (r: Option<(usize, usize)>)
    ensures
        r is Some <==> layout_ok(size, align),
        r is Some ==> r == Some((size as usize, align as usize)),
{
    if !is_power_of_two(align) {
        return None;
    }
    proof {
        reveal_with_fuel(is_pow2, 2);
    }
    let most: u64 = isize::MAX as u64;
    assert(most % (align as u64) <= most) by (nonlinear_arith)
        requires
            align > 0,
    ;
    if size > most - most % (align as u64) {
        return None;
    }
    Some((size as usize, align as usize))
}

} // verus!
