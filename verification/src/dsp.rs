//! Software resampling: a sliding two-tap window walks the source at an
//! exact rational ratio, interpolating linearly between the neighbouring
//! samples; the source is zero-padded at both edges and the stream ends
//! once the trailing pulls have all been padding.

use vstd::prelude::*;
use crate::num::{at_or_zero, lerp_spec, clamp_i64, floor_div_i128};
use crate::samples::max2;
use vstd::arithmetic::div_mod::{
    lemma_fundamental_div_mod,
    lemma_div_is_ordered,
    lemma_div_pos_is_pos,
    lemma_div_multiples_vanish,
};

verus! {

/// Whether the resampling stream ends after emitting output `j`: the tick
/// from position `j` to `j + 1` pulls at least one source sample, and by
/// then every sample after the next read position is padding.
pub open spec fn resample_done(len: int, num: int, den: int, j: int) -> bool {
    &&& ((j + 1) * num) / den > (j * num) / den
    &&& ((j + 1) * num) / den >= len - 1
}

/// The full statement of a linear resampling run: at least one output;
/// output `j` interpolates the zero-padded source at the exact rational
/// position `j * num / den`; the run ends at the first position where
/// `resample_done` holds.
pub open spec fn is_linear_resample(out: Seq<i64>, src: Seq<i64>, num: int, den: int) -> bool {
    &&& out.len() >= 1
    &&& forall|j: int|
        0 <= j < out.len() ==> #[trigger] out[j] as int == lerp_spec(
            at_or_zero(src, (j * num) / den),
            at_or_zero(src, (j * num) / den + 1),
            (j * num) % den,
            den,
        )
    &&& resample_done(src.len() as int, num, den, out.len() - 1)
    &&& forall|j: int| 0 <= j < out.len() - 1 ==> !#[trigger] resample_done(
        src.len() as int,
        num,
        den,
        j,
    )
}

/// Resamples a buffer by the exact ratio `num / den` (source frames per
/// output frame) with two-tap linear interpolation.
pub fn linear_resample(src: &Vec<i64>, num: u64, den: u64) -> (out: Vec<i64>)
    requires
        1 <= num <= 0xFFFFFFFF,
        1 <= den <= 0xFFFFFFFF,
        src@.len() <= 0xFFFFFFFF,
        (max2(src@.len() as int, 1) + 1) * (den as int) + 2 * (num as int) <= usize::MAX as int,
    ensures
        is_linear_resample(out@, src@, num as int, den as int),
        out@.len() <= ((max2(src@.len() as int, 1) + 1) * (den as int)) / (num as int) + 2,
{
    let l = src.len();
    let ghost lg = l as int;
    let ghost m1 = max2(lg, 1);
    let mut out: Vec<i64> = Vec::new();
    let mut pos: u128 = 0;
    let mut j: usize = 0;
    let mut done = false;
    proof {
        assert(0 < (m1 + 1) * (den as int) && (m1 + 1) * (den as int) <= (0x100000001
            * 0x100000000)) by (nonlinear_arith)
            requires
                1 <= m1 <= 0x100000000,
                1 <= den as int <= 0x100000000,
        ;
    }
    while !done
        invariant
            1 <= num <= 0xFFFFFFFF,
            1 <= den <= 0xFFFFFFFF,
            (m1 + 1) * (den as int) + 2 * (num as int) <= usize::MAX as int,
            0 < (m1 + 1) * (den as int) <= 0x100000001 * 0x100000000,
            l == src@.len(),
            lg == l as int,
            m1 == max2(lg, 1),
            l <= 0xFFFFFFFF,
            out@.len() == j,
            pos == j as int * num as int,
            forall|i: int|
                0 <= i < j ==> #[trigger] out@[i] as int == lerp_spec(
                    at_or_zero(src@, (i * num as int) / (den as int)),
                    at_or_zero(src@, (i * num as int) / (den as int) + 1),
                    (i * num as int) % (den as int),
                    den as int,
                ),
            forall|i: int|
                0 <= i < j - 1 ==> !#[trigger] resample_done(lg, num as int, den as int, i),
            done ==> j >= 1 && resample_done(lg, num as int, den as int, j - 1),
            !done ==> forall|i: int|
                0 <= i < j ==> !#[trigger] resample_done(lg, num as int, den as int, i),
            !done ==> (pos as int) < (m1 + 1) * (den as int),
            pos as int <= (m1 + 1) * (den as int) + num as int,
        decreases (m1 + 1) * (den as int) + num as int - pos,
    {
        let q: u128 = pos / (den as u128);
        let rem: u128 = pos % (den as u128);
        proof {
            vstd::arithmetic::div_mod::lemma_mod_bound(pos as int, den as int);
            lemma_div_pos_is_pos(pos as int, den as int);
            lemma_fundamental_div_mod(pos as int, den as int);
            // `pos < (m1 + 1) * den` pins the read position under `m1`.
            assert(q as int <= m1) by (nonlinear_arith)
                requires
                    (den as int) * (q as int) + (rem as int) == pos as int,
                    0 <= rem as int,
                    (pos as int) < (m1 + 1) * (den as int),
                    1 <= den as int,
                    0 <= q as int,
            ;
        }
        let left: i64 = if q < l as u128 {
            src[q as usize]
        } else {
            0
        };
        let right: i64 = if q + 1 < l as u128 {
            src[(q + 1) as usize]
        } else {
            0
        };
        proof {
            assert((i128::MIN as int) < (left as int) * (den as int - rem as int) + (right as int)
                * (rem as int) < (i128::MAX as int) && (i128::MIN as int) < (left as int) * (
            den as int - rem as int) < (i128::MAX as int) && (i128::MIN as int) < (right as int) * (
            rem as int) < (i128::MAX as int)) by (nonlinear_arith)
                requires
                    i64::MIN as int <= left as int <= i64::MAX as int,
                    i64::MIN as int <= right as int <= i64::MAX as int,
                    0 <= rem as int <= 0xFFFFFFFF,
                    0 <= den as int - rem as int <= 0xFFFFFFFF,
            ;
        }
        let wide: i128 = (left as i128) * ((den as i128) - (rem as i128)) + (right as i128) * (
        rem as i128);
        let lq = floor_div_i128(wide, den as i128);
        let y = clamp_i64(lq);
        out.push(y);
        let pos2 = pos + (num as u128);
        let q2: u128 = pos2 / (den as u128);
        proof {
            vstd::arithmetic::div_mod::lemma_div_nonincreasing(pos2 as int, den as int);
            assert(pos2 as int == (j as int + 1) * (num as int)) by (nonlinear_arith)
                requires
                    pos as int == j as int * (num as int),
                    pos2 as int == pos as int + num as int,
            ;
            lemma_div_pos_is_pos(pos2 as int, den as int);
        }
        let next_done = q2 > q && (l == 0 || q2 + 1 >= l as u128);
        proof {
            assert(next_done == resample_done(lg, num as int, den as int, j as int));
            if !next_done {
                // The next read position stays within the padded source, so
                // the walk is bounded.
                lemma_fundamental_div_mod(pos2 as int, den as int);
                vstd::arithmetic::div_mod::lemma_mod_bound(pos2 as int, den as int);
                assert((pos2 as int) < (q2 as int + 1) * (den as int)) by (nonlinear_arith)
                    requires
                        (den as int) * (q2 as int) + (pos2 as int) % (den as int) == pos2 as int,
                        (pos2 as int) % (den as int) < den as int,
                ;
                if q2 > q {
                    assert(q2 as int + 1 <= m1);
                    assert((q2 as int + 1) * (den as int) <= m1 * (den as int))
                        by (nonlinear_arith)
                        requires
                            q2 as int + 1 <= m1,
                            1 <= den as int,
                    ;
                } else {
                    assert((q2 as int + 1) * (den as int) <= (m1 + 1) * (den as int))
                        by (nonlinear_arith)
                        requires
                            q2 as int + 1 <= m1 + 1,
                            1 <= den as int,
                    ;
                }
                assert(m1 * (den as int) <= (m1 + 1) * (den as int)) by (nonlinear_arith)
                    requires
                        0 <= den as int,
                ;
            }
            assert(j as int + 1 <= (j as int + 1) * (num as int)) by (nonlinear_arith)
                requires
                    1 <= num as int,
                    0 <= j as int,
            ;
        }
        pos = pos2;
        j = j + 1;
        done = next_done;
    }
    proof {
        lemma_div_multiples_vanish(j as int, num as int);
        assert((num as int) * (j as int) == (j as int) * (num as int)) by (nonlinear_arith);
        lemma_div_is_ordered(
            (j as int) * (num as int),
            (m1 + 1) * (den as int) + num as int,
            num as int,
        );
        // `j * num <= m1 * den + num`, so `j <= (m1 * den) / num + 1`.
        vstd::arithmetic::div_mod::lemma_hoist_over_denominator(
            (m1 + 1) * (den as int),
            1,
            num as nat,
        );
    }
    out
}

} // verus!
