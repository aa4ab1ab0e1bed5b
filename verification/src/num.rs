//! Exact integer arithmetic that the rest of the library builds on:
//! floor division by a positive divisor, saturation to the `i64` range,
//! and rational scaling of sample amplitudes.

use vstd::prelude::*;

verus! {

/// Spec-level saturation of an unbounded integer to the `i64` range.
pub open spec fn clamp_spec(v: int) -> int {
    if v < (i64::MIN as int) {
        (i64::MIN as int)
    } else if v > (i64::MAX as int) {
        (i64::MAX as int)
    } else {
        v
    }
}

/// Saturates a wide intermediate result to the `i64` range.
pub fn clamp_i64(v: i128) -> (r: i64)
    ensures
        (r as int) == clamp_spec(v as int),
{
    if v < i64::MIN as i128 {
        i64::MIN
    } else if v > i64::MAX as i128 {
        i64::MAX
    } else {
        v as i64
    }
}

/// Floor division of a signed value by a positive divisor.
/// In specifications `/` is Euclidean division, which for a positive
/// divisor is exactly floor division.
pub fn floor_div_i128(a: i128, b: i128) -> (q: i128)
    requires
        0 < b,
        (i128::MIN as int) < (a as int),
    ensures
        q == (a as int) / (b as int),
{
    let neg: bool = a < 0;
    let mag: u128 = if neg {
        (-a) as u128
    } else {
        a as u128
    };
    let bu: u128 = b as u128;
    let down: u128 = mag / bu;
    let rem: u128 = mag % bu;
    proof {
        vstd::arithmetic::div_mod::lemma_fundamental_div_mod((mag as int), bu as int);
    }
    if neg {
        if rem == 0 {
            assert((-(down as int)) * (b as int) == a as int) by (nonlinear_arith)
                requires
                    (mag as int) == (down as int) * (bu as int),
                    (mag as int) == -(a as int),
                    (bu as int) == (b as int),
            ;
            assert((a as int) / (b as int) == -(down as int)) by (nonlinear_arith)
                requires
                    (-(down as int)) * (b as int) == (a as int),
                    0 < (b as int),
            ;
            -(down as i128)
        } else {
            assert((-(down as int) - 1) * (b as int) + ((b as int) - rem as int) == a as int)
                by (nonlinear_arith)
                requires
                    (mag as int) == (down as int) * (bu as int) + (rem as int),
                    (mag as int) == -(a as int),
                    (bu as int) == (b as int),
            ;
            assert((a as int) / (b as int) == -(down as int) - 1) by (nonlinear_arith)
                requires
                    (-(down as int) - 1) * (b as int) + ((b as int) - rem as int) == (a as int),
                    0 < (b as int) - (rem as int) < (b as int),
            ;
            -(down as i128) - 1
        }
    } else {
        proof {
            assert((a as int) / (b as int) == down as int) by (nonlinear_arith)
                requires
                    (mag as int) == (down as int) * (bu as int) + (rem as int),
                    0 <= (rem as int) < (bu as int),
                    (mag as int) == (a as int),
                    (bu as int) == (b as int),
                    0 < (b as int),
            ;
        }
        down as i128
    }
}

/// The sample a buffer yields at index `i`: silence outside it.
pub open spec fn at_or_zero(v: Seq<i64>, i: int) -> int {
    if 0 <= i < v.len() {
        v[i] as int
    } else {
        0
    }
}

/// Linear interpolation between neighbouring samples, exact over the
/// rational weight `rem / den` (floor division, saturated).
pub open spec fn lerp_spec(l: int, r: int, rem: int, den: int) -> int {
    clamp_spec((l * (den - rem) + r * rem) / den)
}

/// The absolute value of an integer.
pub open spec fn abs2(x: int) -> int {
    if x < 0 {
        -x
    } else {
        x
    }
}

/// Spec model of rational amplitude scaling: multiply by `num`, floor-divide
/// by `den`, saturate to `i64`.
pub open spec fn scale_spec(s: int, num: int, den: int) -> int {
    clamp_spec((s * num) / den)
}

/// Scales one sample amplitude by the rational factor `num / den`.
pub fn scale_sample(s: i64, num: i64, den: i64) -> (r: i64)
    requires
        0 < den,
    ensures
        (r as int) == scale_spec((s as int), (num as int), den as int),
{
    proof {
        assert((i128::MIN as int) < (s as int) * (num as int) < (i128::MAX as int))
            by (nonlinear_arith)
            requires
                (i64::MIN as int) <= (s as int) <= (i64::MAX as int),
                (i64::MIN as int) <= (num as int) <= (i64::MAX as int),
        ;
    }
    let wide: i128 = (s as i128) * (num as i128);
    let q: i128 = floor_div_i128(wide, den as i128);
    clamp_i64(q)
}

} // verus!
