//! Power-of-two address alignment.

use vstd::prelude::*;

verus! {

/// Whether `n` is a power of two.
pub open spec fn is_power_of_two(n: nat) -> bool
    decreases n,
{
    if n == 0 {
        false
    } else if n == 1 {
        true
    } else {
        n % 2 == 0 && is_power_of_two(n / 2)
    }
}

/// Aligns `addr` downwards to the nearest multiple of `align`, which must
/// be a power of two. The result never exceeds `addr`.
pub fn align_down(addr: usize, align: usize) -> (r: usize)
    requires
        is_power_of_two(align as nat),
    ensures
        r == addr - addr % align,
        r <= addr,
        r % align == 0,
        addr < r + align,
{
    proof {
        vstd::arithmetic::div_mod::lemma_fundamental_div_mod(addr as int, align as int);
        vstd::arithmetic::div_mod::lemma_mod_bound(addr as int, align as int);
        assert((addr as int / align as int) * align as int % align as int == 0)
            by (nonlinear_arith)
            requires
                align >= 1,
        ;
        assert((addr as int / align as int) * align as int == addr - addr % align)
            by (nonlinear_arith)
            requires
                align >= 1,
        ;
    }
    addr / align * align
}

/// Aligns `addr` upwards to the nearest multiple of `align`, which must be
/// a power of two; the aligned address must still fit in `usize`. The
/// result is never below `addr`.
pub fn align_up(addr: usize, align: usize) -> (r: usize)
    requires
        is_power_of_two(align as nat),
        addr % align == 0 || addr - addr % align + align <= usize::MAX,
    ensures
        addr % align == 0 ==> r == addr,
        addr % align != 0 ==> r == addr + align - addr % align,
        addr <= r,
        r % align == 0,
        r < addr + align,
{
    let down = align_down(addr, align);
    if addr == down {
        down
    } else {
        proof {
            vstd::arithmetic::div_mod::lemma_mod_adds(
                (addr - addr % align) as int,
                align as int,
                align as int,
            );
            assert(align % align == 0) by (nonlinear_arith)
                requires
                    align >= 1,
            ;
        }
        down + align
    }
}

} // verus!
