//! A periodic grid for snapping positions: marks every `scale` micro-units,
//! shifted by `offset`.

use vstd::prelude::*;
use crate::util::fx::{Fx, FX_SCALE, FX_UNIT_BOUND};
use crate::samples::max2;
use crate::num::floor_div_i128;
use vstd::arithmetic::div_mod::{
    lemma_fundamental_div_mod,
    lemma_div_is_ordered,
    lemma_div_pos_is_pos,
    lemma_div_multiples_vanish,
};

verus! {

/// Truncated remainder (the sign follows the dividend), as the grid's
/// offset wraps.
pub open spec fn trunc_rem(a: int, b: int) -> int {
    if a >= 0 || a % b == 0 {
        a % b
    } else {
        a % b - b
    }
}

/// A snapping grid: mark `k` sits at `k * scale + offset` micro-units.
#[derive(Clone, Copy, Debug)]
pub struct Ruler {
    scale: Fx,
    offset: Fx,
}

impl Ruler {
    /// The grid period in micro-units.
    pub closed spec fn spec_scale(&self) -> int {
        self.scale.m()
    }

    /// The grid shift in micro-units.
    pub closed spec fn spec_offset(&self) -> int {
        self.offset.m()
    }

    /// A positive period, both quantities in range.
    pub closed spec fn wf(&self) -> bool {
        &&& self.scale.wf()
        &&& self.offset.wf()
        &&& self.spec_scale() >= 1
    }

    /// A grid from a period and a shift; the period is floored to whole
    /// frames and forced to at least one frame, the shift to whole frames.
    pub fn new(scale: Fx, offset: Fx) -> (r: Ruler)
        requires
            scale.wf(),
            offset.wf(),
        ensures
            r.wf(),
            r.spec_scale() == max2(scale.m() / (FX_SCALE as int), 1) * (FX_SCALE as int),
            r.spec_offset() == (offset.m() / (FX_SCALE as int)) * (FX_SCALE as int),
    {
        let su = scale.floor_units();
        let su = if su < 1 {
            1
        } else {
            su
        };
        let ou = offset.floor_units();
        proof {
            lemma_div_is_ordered(
                scale.m(),
                FX_UNIT_BOUND as int * (FX_SCALE as int),
                FX_SCALE as int,
            );
            lemma_div_multiples_vanish(FX_UNIT_BOUND as int, FX_SCALE as int);
            lemma_div_is_ordered(
                -FX_UNIT_BOUND as int * (FX_SCALE as int),
                offset.m(),
                FX_SCALE as int,
            );
            lemma_div_is_ordered(
                offset.m(),
                FX_UNIT_BOUND as int * (FX_SCALE as int),
                FX_SCALE as int,
            );
            lemma_div_multiples_vanish(-FX_UNIT_BOUND as int, FX_SCALE as int);
            assert((FX_SCALE as int) * (FX_UNIT_BOUND as int) == (FX_UNIT_BOUND as int) * (
            FX_SCALE as int) && (FX_SCALE as int) * (-FX_UNIT_BOUND as int) == (-FX_UNIT_BOUND as int)
                * (FX_SCALE as int)) by (nonlinear_arith);
            assert(su as int * (FX_SCALE as int) <= (FX_UNIT_BOUND as int) * (FX_SCALE as int)
                && su as int * (FX_SCALE as int) >= FX_SCALE as int) by (nonlinear_arith)
                requires
                    1 <= su as int <= FX_UNIT_BOUND as int,
            ;
            assert(ou as int * (FX_SCALE as int) <= (FX_UNIT_BOUND as int) * (FX_SCALE as int)
                && ou as int * (FX_SCALE as int) >= (-FX_UNIT_BOUND as int) * (FX_SCALE as int))
                by (nonlinear_arith)
                requires
                    -FX_UNIT_BOUND as int <= ou as int <= FX_UNIT_BOUND as int,
            ;
        }
        Ruler { scale: Fx::from_micros(su * FX_SCALE), offset: Fx::from_micros(ou * FX_SCALE) }
    }

    /// The same grid with its shift replaced: the new shift is floored to a
    /// whole frame and wrapped into one period (sign kept, as a truncated
    /// remainder).
    pub fn slide(&self, offset: Fx) -> (r: Ruler)
        requires
            self.wf(),
            offset.wf(),
        ensures
            r.wf(),
            r.spec_scale() == self.spec_scale(),
            r.spec_offset() == trunc_rem(
                (offset.m() / (FX_SCALE as int)) * (FX_SCALE as int),
                self.spec_scale(),
            ),
    {
        let ou = offset.floor_units();
        proof {
            lemma_div_is_ordered(
                -FX_UNIT_BOUND as int * (FX_SCALE as int),
                offset.m(),
                FX_SCALE as int,
            );
            lemma_div_is_ordered(
                offset.m(),
                FX_UNIT_BOUND as int * (FX_SCALE as int),
                FX_SCALE as int,
            );
            lemma_div_multiples_vanish(-FX_UNIT_BOUND as int, FX_SCALE as int);
            lemma_div_multiples_vanish(FX_UNIT_BOUND as int, FX_SCALE as int);
            assert((FX_SCALE as int) * (FX_UNIT_BOUND as int) == (FX_UNIT_BOUND as int) * (
            FX_SCALE as int) && (FX_SCALE as int) * (-FX_UNIT_BOUND as int) == (-FX_UNIT_BOUND as int)
                * (FX_SCALE as int)) by (nonlinear_arith);
            assert(ou as int * (FX_SCALE as int) <= (FX_UNIT_BOUND as int) * (FX_SCALE as int)
                && ou as int * (FX_SCALE as int) >= (-FX_UNIT_BOUND as int) * (FX_SCALE as int))
                by (nonlinear_arith)
                requires
                    -FX_UNIT_BOUND as int <= ou as int <= FX_UNIT_BOUND as int,
            ;
        }
        let om = ou * FX_SCALE;
        let wrapped = trunc_rem_exec(om, self.scale.as_micros());
        Ruler { scale: self.scale, offset: Fx::from_micros(wrapped) }
    }

    /// The same grid with its period multiplied by a positive factor (floored
    /// to a micro-unit, kept at least one micro-unit); a non-positive factor
    /// leaves the grid unchanged.
    pub fn rescale(&self, div: Fx) -> (r: Ruler)
        requires
            self.wf(),
            div.wf(),
        ensures
            r.wf(),
            r.spec_offset() == self.spec_offset(),
            div.m() <= 0 ==> r.spec_scale() == self.spec_scale(),
            div.m() > 0 ==> r.spec_scale() == crate::samples::min2(
                max2((self.spec_scale() * div.m()) / (FX_SCALE as int), 1),
                (FX_UNIT_BOUND as int) * (FX_SCALE as int),
            ),
    {
        if !div.is_neg() && div.as_micros() != 0 {
            proof {
                assert((i128::MIN as int) < self.spec_scale() * div.m() < (i128::MAX as int))
                    by (nonlinear_arith)
                    requires
                        0 <= self.spec_scale() <= i64::MAX as int,
                        0 <= div.m() <= i64::MAX as int,
                ;
            }
            let prod: i128 = (self.scale.as_micros() as i128) * (div.as_micros() as i128);
            let q = floor_div_i128(prod, FX_SCALE as i128);
            let q = if q < 1 {
                1i128
            } else {
                q
            };
            let capped: i64 = if q > (FX_UNIT_BOUND as i128) * (FX_SCALE as i128) {
                FX_UNIT_BOUND * FX_SCALE
            } else {
                q as i64
            };
            proof {
                lemma_div_pos_is_pos(prod as int, FX_SCALE as int);
            }
            Ruler { scale: Fx::from_micros(capped), offset: self.offset }
        } else {
            Ruler { scale: self.scale, offset: self.offset }
        }
    }

    /// The last grid mark at or before the position.
    pub fn previous_mark(&self, pos: Fx) -> (r: Fx)
        requires
            self.wf(),
            pos.wf(),
        ensures
            r.m() == ((pos.m() - self.spec_offset()) / self.spec_scale()) * self.spec_scale()
                + self.spec_offset(),
            pos.m() - self.spec_scale() < r.m() <= pos.m(),
    {
        let d: i64 = pos.as_micros() - self.offset.as_micros();
        let q = floor_div_i128(d as i128, self.scale.as_micros() as i128);
        proof {
            let sc = self.spec_scale();
            let dd = d as int;
            let qq = dd / sc;
            let rr = dd % sc;
            lemma_fundamental_div_mod(dd, sc);
            vstd::arithmetic::div_mod::lemma_mod_bound(dd, sc);
            assert(qq * sc == sc * qq) by (nonlinear_arith);
            assert(qq * sc == dd - rr);
            if dd >= 0 {
                assert(0 <= qq <= dd) by (nonlinear_arith)
                    requires
                        qq * sc == dd - rr,
                        0 <= rr < sc,
                        1 <= sc,
                        0 <= dd,
                ;
            } else {
                assert(dd <= qq <= 0) by (nonlinear_arith)
                    requires
                        qq * sc == dd - rr,
                        0 <= rr < sc,
                        1 <= sc,
                        dd < 0,
                ;
            }
        }
        let mark: i64 = (q as i64) * self.scale.as_micros() + self.offset.as_micros();
        Fx::from_micros(mark)
    }

    /// The first grid mark strictly after the previous mark.
    pub fn next_mark(&self, pos: Fx) -> (r: Fx)
        requires
            self.wf(),
            pos.wf(),
        ensures
            r.m() == ((pos.m() - self.spec_offset()) / self.spec_scale()) * self.spec_scale()
                + self.spec_offset() + self.spec_scale(),
            pos.m() < r.m() <= pos.m() + self.spec_scale(),
    {
        let pm = self.previous_mark(pos);
        pm.plus(&self.scale)
    }

    /// The position itself if it sits on a mark, else the next mark.
    pub fn next_or_current(&self, pos: Fx) -> (r: Fx)
        requires
            self.wf(),
            pos.wf(),
        ensures
            ({
                let pm = ((pos.m() - self.spec_offset()) / self.spec_scale()) * self.spec_scale()
                    + self.spec_offset();
                r.m() == if pm == pos.m() {
                    pos.m()
                } else {
                    pm + self.spec_scale()
                }
            }),
    {
        let pm = self.previous_mark(pos);
        if pm.as_micros() == pos.as_micros() {
            pos
        } else {
            pm.plus(&self.scale)
        }
    }

    /// Mark index `pt` (in whole frames) mapped to its position.
    pub fn time_pt(&self, pt: i64) -> (r: Fx)
        requires
            self.wf(),
            i64::MIN as int <= pt as int * self.spec_scale() + self.spec_offset() <= i64::MAX as int,
            i64::MIN as int <= pt as int * self.spec_scale() <= i64::MAX as int,
        ensures
            r.m() == pt as int * self.spec_scale() + self.spec_offset(),
    {
        let prod: i128 = (pt as i128) * (self.scale.as_micros() as i128);
        let r: i64 = (prod as i64) + self.offset.as_micros();
        Fx::from_micros(r)
    }

    /// The grid period.
    pub fn scale(&self) -> (r: Fx)
        ensures
            r.m() == self.spec_scale(),
    {
        self.scale
    }
}

/// Remainder with the dividend's sign, for a positive divisor.
fn trunc_rem_exec(a: i64, b: i64) -> (r: i64)
    requires
        b > 0,
        (i64::MIN as int) < (a as int),
    ensures
        r as int == trunc_rem(a as int, b as int),
        -(b as int) < (r as int) < (b as int),
{
    proof {
        vstd::arithmetic::div_mod::lemma_mod_bound(a as int, b as int);
    }
    let bu = b as u64;
    if a >= 0 {
        let m = (a as u64) % bu;
        m as i64
    } else {
        let m = ((-a) as u64) % bu;
        proof {
            vstd::arithmetic::div_mod::lemma_mod_bound(-(a as int), b as int);
            lemma_neg_mod(a as int, b as int);
        }
        if m == 0 {
            0
        } else {
            -(m as i64)
        }
    }
}

/// Links the remainder of a negation to the truncated remainder.
proof fn lemma_neg_mod(a: int, b: int)
    requires
        a < 0,
        0 < b,
    ensures
        (-a) % b == 0 ==> trunc_rem(a, b) == 0,
        (-a) % b != 0 ==> trunc_rem(a, b) == -((-a) % b),
{
    vstd::arithmetic::div_mod::lemma_mod_bound(-a, b);
    vstd::arithmetic::div_mod::lemma_fundamental_div_mod(-a, b);
    vstd::arithmetic::div_mod::lemma_fundamental_div_mod(a, b);
    vstd::arithmetic::div_mod::lemma_mod_bound(a, b);
    let q = (-a) / b;
    let r = (-a) % b;
    if r == 0 {
        assert(a == b * (-q)) by (nonlinear_arith)
            requires
                -a == b * q,
        ;
        vstd::arithmetic::div_mod::lemma_mod_multiples_basic(-q, b);
    } else {
        assert(a == b * (-q - 1) + (b - r)) by (nonlinear_arith)
            requires
                -a == b * q + r,
        ;
        vstd::arithmetic::div_mod::lemma_fundamental_div_mod_converse(a, b, -q - 1, b - r);
    }
}

} // verus!
