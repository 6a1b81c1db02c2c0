//! Integer facts used by the fixed-point gas arithmetic.
use vstd::arithmetic::div_mod::{
    lemma_div_is_ordered, lemma_fundamental_div_mod, lemma_fundamental_div_mod_converse_div,
};
use vstd::prelude::*;

verus! {

/// Splitting off whole multiples of the divisor before dividing.
pub proof fn lemma_div_shift(k: int, x: int, d: int)
    requires
        d > 0,
        x >= 0,
    ensures
        (k * d + x) / d == k + x / d,
{
    lemma_fundamental_div_mod(x, d);
    let q = x / d;
    let r = x % d;
    assert(0 <= r < d);
    assert(x == q * d + r) by (nonlinear_arith)
        requires
            x == d * q + r,
    ;
    assert(k * d + x == (k + q) * d + r) by (nonlinear_arith)
        requires
            x == q * d + r,
    ;
    lemma_fundamental_div_mod_converse_div(k * d + x, d, k + q, r);
}

/// A quotient never falls below a whole multiple that its dividend exceeds.
pub proof fn lemma_div_at_least(k: int, x: int, d: int)
    requires
        d > 0,
        k * d <= x,
    ensures
        k <= x / d,
{
    lemma_div_is_ordered(k * d, x, d);
    lemma_div_shift(k, 0, d);
}

/// A share computed through a parts-per-million ratio never exceeds the part itself.
pub proof fn lemma_ratio_share_bounded(part: int, quota: int, whole: int)
    requires
        0 <= part <= whole,
        0 <= quota <= whole,
        whole > 0,
    ensures
        0 <= part * 1_000_000 / whole <= 1_000_000,
        0 <= quota * (part * 1_000_000 / whole) / 1_000_000 <= part,
{
    let r = part * 1_000_000 / whole;
    lemma_fundamental_div_mod(part * 1_000_000, whole);
    assert(0 <= part * 1_000_000) by (nonlinear_arith)
        requires
            0 <= part,
    ;
    assert(r * whole <= part * 1_000_000);
    assert(0 <= r <= 1_000_000) by (nonlinear_arith)
        requires
            r * whole <= part * 1_000_000,
            part <= whole,
            whole > 0,
            r == part * 1_000_000 / whole,
            0 <= part * 1_000_000,
    ;
    assert(quota * r <= part * 1_000_000) by (nonlinear_arith)
        requires
            r * whole <= part * 1_000_000,
            0 <= quota <= whole,
            0 <= r,
    ;
    assert(0 <= quota * r) by (nonlinear_arith)
        requires
            0 <= quota,
            0 <= r,
    ;
    lemma_div_is_ordered(quota * r, part * 1_000_000, 1_000_000);
    lemma_div_shift(part, 0, 1_000_000);
    lemma_div_is_ordered(0, quota * r, 1_000_000);
}

/// A quotient rounded down lies within one divisor of the dividend.
pub proof fn lemma_floor_bounds(x: int, d: int)
    requires
        d > 0,
    ensures
        d * (x / d) <= x < d * (x / d) + d,
{
    lemma_fundamental_div_mod(x, d);
    vstd::arithmetic::div_mod::lemma_mod_bound(x, d);
}

} // verus!
