//! Fixed-point sample arithmetic.
//!
//! Two blends drive the whole effect: the equal-weight average that softens
//! the loop seam after a capture, and the linear crossfade that ramps from
//! looped content back to the live signal after a note-off. Every blend of
//! two samples lies between them, so none of these operations can leave the
//! sample range.
use vstd::arithmetic::div_mod::{
    lemma_fundamental_div_mod, lemma_mod_division_less_than_divisor, lemma_multiply_divide_le,
};
use vstd::math::abs;
use vstd::prelude::*;

verus! {

/// Integer division of `m` by `d` with the quotient rounded toward zero.
pub open spec fn trunc_div(m: int, d: int) -> int
    recommends
        d >= 1,
{
    if m >= 0 {
        m / d
    } else {
        0 - ((0 - m) / d)
    }
}

/// Equal-weight average of two samples: the value a smoothing step writes
/// over the current sample.
pub open spec fn sample_avg(a: int, b: int) -> int {
    trunc_div(a + b, 2)
}

/// Linear crossfade between looped and live content while `remaining` steps
/// of the [`crate::XFADE_FRAMES`]-sample release countdown are left: the
/// looped sample is weighted `remaining / XFADE_FRAMES`, the live sample
/// carries the rest.
pub open spec fn xfade_mix(remaining: int, looped: int, live: int) -> int {
    trunc_div(
        remaining * looped + (crate::XFADE_FRAMES - remaining) * live,
        crate::XFADE_FRAMES as int,
    )
}

/// Doubling a truncated half recovers the sum up to one unit.
proof fn lemma_twice_trunc_half(s: int)
    ensures
        s - 1 <= 2 * trunc_div(s, 2) <= s + 1,
{
    if s >= 0 {
        lemma_fundamental_div_mod(s, 2);
        lemma_mod_division_less_than_divisor(s, 2);
    } else {
        lemma_fundamental_div_mod(0 - s, 2);
        lemma_mod_division_less_than_divisor(0 - s, 2);
    }
}

/// The equal-weight average of two samples lies between them: no blend can
/// leave the range its inputs span.
pub proof fn lemma_avg_between(a: int, b: int)
    ensures
        a <= b ==> a <= sample_avg(a, b) <= b,
        b <= a ==> b <= sample_avg(a, b) <= a,
{
    lemma_twice_trunc_half(a + b);
}

/// One averaging step halves a gap, up to one unit of integer rounding: the
/// average sits within half the former distance (rounded up) of either
/// input.
pub proof fn lemma_avg_halves_gap(a: int, b: int)
    ensures
        2 * abs(sample_avg(a, b) - a) <= abs(b - a) + 1,
{
    lemma_twice_trunc_half(a + b);
}

/// Quotient of `m / d` rounded toward zero, for quotients that fit an `i64`.
fn div_trunc(m: i128, d: u64) -> (r: i64)
    requires
        1 <= d,
        i64::MIN * (d as int) <= m <= i64::MAX * (d as int),
    ensures
        r == trunc_div(m as int, d as int),
{
    if m >= 0 {
        let q: u128 = (m as u128) / (d as u128);
        proof {
            lemma_multiply_divide_le(m as int, d as int, i64::MAX as int);
        }
        q as i64
    } else {
        proof {
            assert(m > i128::MIN) by (nonlinear_arith)
                requires
                    1 <= d <= u64::MAX,
                    i64::MIN * (d as int) <= m,
            ;
        }
        let n: u128 = (-m) as u128;
        let q: u128 = n / (d as u128);
        proof {
            assert(n as int <= (d as int) * (i64::MAX as int + 1)) by (nonlinear_arith)
                requires
                    n == 0 - m,
                    i64::MIN * (d as int) <= m,
            ;
            lemma_multiply_divide_le(n as int, d as int, i64::MAX as int + 1);
        }
        if q > i64::MAX as u128 {
            proof {
                lemma_fundamental_div_mod(n as int, d as int);
                assert(q == i64::MAX as int + 1);
            }
            i64::MIN
        } else {
            -(q as i64)
        }
    }
}

/// The equal-weight average of two samples.
pub fn avg_samples(a: i64, b: i64) -> (r: i64)
    ensures
        r == sample_avg(a as int, b as int),
{
    let s: i128 = a as i128 + b as i128;
    div_trunc(s, 2)
}

/// One release-crossfade output sample, mixed while `remaining` steps of the
/// armed countdown are left.
pub fn mix_samples(remaining: usize, looped: i64, live: i64) -> (r: i64)
    requires
        1 <= remaining <= crate::XFADE_FRAMES,
    ensures
        r == xfade_mix(remaining as int, looped as int, live as int),
{
    let rem: i128 = remaining as i128;
    let inv: i128 = (crate::XFADE_FRAMES - remaining) as i128;
    proof {
        assert(i64::MIN * (rem as int) <= rem * (looped as int) <= i64::MAX * (rem as int))
            by (nonlinear_arith)
            requires
                0 <= rem,
                i64::MIN <= looped as int <= i64::MAX,
        ;
        assert(i64::MIN * (inv as int) <= inv * (live as int) <= i64::MAX * (inv as int))
            by (nonlinear_arith)
            requires
                0 <= inv,
                i64::MIN <= live as int <= i64::MAX,
        ;
        assert(i64::MIN * (rem as int) + i64::MIN * (inv as int) == i64::MIN * (rem + inv))
            by (nonlinear_arith);
        assert(i64::MAX * (rem as int) + i64::MAX * (inv as int) == i64::MAX * (rem + inv))
            by (nonlinear_arith);
    }
    let m: i128 = rem * (looped as i128) + inv * (live as i128);
    div_trunc(m, crate::XFADE_FRAMES as u64)
}

} // verus!
