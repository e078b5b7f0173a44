//! Signed fixed-point scalars: `i64` values carrying 16 fractional bits.
//!
//! A scalar `v` stands for the real number `v / 65536`. All operations
//! round toward zero and saturate at the `i64` range, so every operation is
//! total: no input makes one panic or wrap around.

use vstd::prelude::*;

verus! {

/// The fixed-point representation of 1 (one whole unit, 2^16).
pub const FX_ONE: i64 = 65536;

/// Saturate an unbounded integer to the `i64` range.
pub open spec fn sat_i64(v: int) -> i64 {
    if v < i64::MIN {
        i64::MIN
    } else if v > i64::MAX {
        i64::MAX
    } else {
        v as i64
    }
}

/// Division rounding toward zero (the direction hardware division rounds),
/// as opposed to the euclidean `/` of spec arithmetic.
pub open spec fn tdiv(a: int, b: int) -> int
    recommends
        b != 0,
{
    let q = (if a >= 0 { a } else { -a }) / (if b >= 0 { b } else { -b });
    if (a < 0) != (b < 0) {
        -q
    } else {
        q
    }
}

/// Saturating fixed-point addition.
pub open spec fn fx_add_s(a: i64, b: i64) -> i64 {
    sat_i64(a + b)
}

/// Saturating fixed-point subtraction.
pub open spec fn fx_sub_s(a: i64, b: i64) -> i64 {
    sat_i64(a - b)
}

/// Saturating fixed-point multiplication: the double-width product is
/// rescaled by 2^16 rounding toward zero, then saturated.
pub open spec fn fx_mul_s(a: i64, b: i64) -> i64 {
    sat_i64(tdiv(a * b, FX_ONE as int))
}

/// Saturating fixed-point division: the numerator is prescaled by 2^16,
/// the quotient rounds toward zero, then saturates.
pub open spec fn fx_div_s(a: i64, b: i64) -> i64
    recommends
        b != 0,
{
    sat_i64(tdiv(a * (FX_ONE as int), b as int))
}

/// Linear interpolation from `a` toward `b` by the fraction `t`
/// (`t == FX_ONE` is the far end), made of the saturating operations.
pub open spec fn fx_lerp_s(a: i64, b: i64, t: i64) -> i64 {
    fx_add_s(a, fx_mul_s(fx_sub_s(b, a), t))
}

fn clamp_i128(v: i128) -> (r: i64)
    ensures
        r == sat_i64(v as int),
{
    if v < i64::MIN as i128 {
        i64::MIN
    } else if v > i64::MAX as i128 {
        i64::MAX
    } else {
        v as i64
    }
}

/// Saturating addition.
pub fn fx_add(a: i64, b: i64) -> (r: i64)
    ensures
        r == fx_add_s(a, b),
{
    clamp_i128(a as i128 + b as i128)
}

/// Saturating subtraction.
pub fn fx_sub(a: i64, b: i64) -> (r: i64)
    ensures
        r == fx_sub_s(a, b),
{
    clamp_i128(a as i128 - b as i128)
}

/// Divide a non-negative double-width magnitude by a positive divisor and
/// reapply the sign, saturating to the `i64` range.
fn signed_scaled_quotient(mag: u128, neg: bool) -> (r: i64)
    requires
        mag <= 0x8000_0000_0000_0000_0000_0000_0000_0000u128 - 1,
    ensures
        r == sat_i64(if neg { -((mag / 65536) as int) } else { (mag / 65536) as int }),
{
    let q: u128 = mag / 65536u128;
    if neg {
        if q >= 9223372036854775808u128 {
            i64::MIN
        } else {
            -(q as i64)
        }
    } else {
        if q > i64::MAX as u128 {
            i64::MAX
        } else {
            q as i64
        }
    }
}

/// Saturating multiplication with rescaling by 2^16.
pub fn fx_mul(a: i64, b: i64) -> (r: i64)
    ensures
        r == fx_mul_s(a, b),
{
    proof {
        assert((a as int) * (b as int) <= 85070591730234615865843651857942052864 && (a as int) * (
        b as int) >= -85070591730234615865843651857942052864) by (nonlinear_arith)
            requires
                -9223372036854775808 <= a <= 9223372036854775807,
                -9223372036854775808 <= b <= 9223372036854775807,
        ;
    }
    let p: i128 = (a as i128) * (b as i128);
    let neg: bool = p < 0;
    let mag: u128 = if p < 0 {
        (-p) as u128
    } else {
        p as u128
    };
    let r = signed_scaled_quotient(mag, neg);
    proof {
        let pi = (a as int) * (b as int);
        if pi >= 0 {
            assert(tdiv(pi, FX_ONE as int) == pi / 65536);
        } else {
            assert(tdiv(pi, FX_ONE as int) == -((-pi) / 65536));
        }
    }
    r
}

/// Saturating division with prescaling by 2^16. The divisor must not be zero.
pub fn fx_div(a: i64, b: i64) -> (r: i64)
    requires
        b != 0,
    ensures
        r == fx_div_s(a, b),
{
    let p: i128 = (a as i128) * 65536;
    let neg: bool = (p < 0) != (b < 0);
    let mag_p: u128 = if p < 0 {
        (-p) as u128
    } else {
        p as u128
    };
    let mag_b: u128 = if b < 0 {
        (-(b as i128)) as u128
    } else {
        b as u128
    };
    let q: u128 = mag_p / mag_b;
    proof {
        assert(mag_p == if p < 0 { -(p as int) } else { p as int });
        let pi = (a as int) * (FX_ONE as int);
        if (pi < 0) == (b < 0) {
            assert(tdiv(pi, b as int) == q);
        } else {
            assert(tdiv(pi, b as int) == -(q as int));
        }
    }
    if neg {
        if q >= 9223372036854775808u128 {
            proof {
                if (p < 0) == (b < 0) {
                    assert(false);
                }
            }
            i64::MIN
        } else {
            -(q as i64)
        }
    } else {
        if q > i64::MAX as u128 {
            i64::MAX
        } else {
            q as i64
        }
    }
}

/// Linear interpolation from `a` toward `b` by the fraction `t`.
pub fn fx_lerp(a: i64, b: i64, t: i64) -> (r: i64)
    ensures
        r == fx_lerp_s(a, b, t),
{
    fx_add(a, fx_mul(fx_sub(b, a), t))
}

/// Interpolating by a fraction of zero lands exactly on the start value.
pub proof fn lemma_lerp_zero(a: i64, b: i64)
    ensures
        fx_lerp_s(a, b, 0) == a,
{
}

/// Multiplying by the fixed-point 1 changes nothing.
pub proof fn lemma_fx_mul_one(a: i64)
    ensures
        fx_mul_s(a, FX_ONE) == a,
        fx_mul_s(FX_ONE, a) == a,
{
    if a >= 0 {
        vstd::arithmetic::div_mod::lemma_div_multiples_vanish(a as int, 65536);
    } else {
        vstd::arithmetic::div_mod::lemma_div_multiples_vanish(-(a as int), 65536);
    }
}

} // verus!
