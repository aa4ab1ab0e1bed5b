//! Fractional positions as decimal fixed-point values: an `Fx` counts
//! millionths of a sample frame.  All position arithmetic in the editor is
//! exact integer arithmetic on these micro-units.

use vstd::prelude::*;
use crate::num::floor_div_i128;

verus! {

/// Micro-units per whole sample frame.
pub const FX_SCALE: i64 = 1000000;

/// Largest whole-frame magnitude a position may reach.
pub const FX_UNIT_BOUND: i64 = 0xFFFFFFFF;

/// A fractional position, in millionths of a frame.
#[derive(PartialEq, Eq, Structural, Clone, Copy, Debug)]
pub struct Fx {
    m: i64,
}

impl Fx {
    /// The raw micro-unit count as a spec value.
    pub closed spec fn m(&self) -> int {
        self.m as int
    }

    /// The position lies within the supported frame range.
    pub open spec fn wf(&self) -> bool {
        -(FX_UNIT_BOUND as int) * (FX_SCALE as int) <= self.m() <= (FX_UNIT_BOUND as int) * (
        FX_SCALE as int)
    }

    /// Position zero.
    pub fn zero() -> (r: Fx)
        ensures
            r.m() == 0,
            r.wf(),
    {
        Fx { m: 0 }
    }

    /// A position from raw micro-units.
    pub fn from_micros(m: i64) -> (r: Fx)
        ensures
            r.m() == m,
    {
        Fx { m }
    }

    /// A position at a whole frame index.
    pub fn from_int(i: i64) -> (r: Fx)
        requires
            -(FX_UNIT_BOUND as int) <= i as int <= FX_UNIT_BOUND as int,
        ensures
            r.m() == i as int * (FX_SCALE as int),
            r.wf(),
    {
        proof {
            assert(i as int * (FX_SCALE as int) <= (FX_UNIT_BOUND as int) * (FX_SCALE as int)
                && -(FX_UNIT_BOUND as int) * (FX_SCALE as int) <= i as int * (FX_SCALE as int))
                by (nonlinear_arith)
                requires
                    -(FX_UNIT_BOUND as int) <= i as int <= FX_UNIT_BOUND as int,
            ;
        }
        Fx { m: i * FX_SCALE }
    }

    /// A position at a whole frame index given as a machine size.
    pub fn from_usize(i: usize) -> (r: Fx)
        requires
            i as int <= FX_UNIT_BOUND as int,
        ensures
            r.m() == i as int * (FX_SCALE as int),
            r.wf(),
    {
        proof {
            assert(i as int * (FX_SCALE as int) <= (FX_UNIT_BOUND as int) * (FX_SCALE as int)
                && 0 <= i as int * (FX_SCALE as int)) by (nonlinear_arith)
                requires
                    0 <= i as int <= FX_UNIT_BOUND as int,
            ;
        }
        Fx { m: (i as i64) * FX_SCALE }
    }

    /// The raw micro-unit count.
    pub fn as_micros(&self) -> (r: i64)
        ensures
            r as int == self.m(),
    {
        self.m
    }

    /// The largest whole frame at or below the position.
    pub fn floor_units(&self) -> (r: i64)
        ensures
            r as int == self.m() / (FX_SCALE as int),
    {
        let q = floor_div_i128(self.m as i128, FX_SCALE as i128);
        proof {
            vstd::arithmetic::div_mod::lemma_div_is_ordered(
                i64::MIN as int,
                self.m(),
                FX_SCALE as int,
            );
            vstd::arithmetic::div_mod::lemma_div_is_ordered(
                self.m(),
                i64::MAX as int,
                FX_SCALE as int,
            );
            vstd::arithmetic::div_mod::lemma_div_pos_is_pos(i64::MAX as int, FX_SCALE as int);
            vstd::arithmetic::div_mod::lemma_fundamental_div_mod(i64::MIN as int, FX_SCALE as int);
        }
        q as i64
    }

    /// The smallest whole frame at or above the position.
    pub fn ceil_units(&self) -> (r: i64)
        requires
            (i64::MIN as int) < self.m(),
        ensures
            r as int == -((-self.m()) / (FX_SCALE as int)),
    {
        let q = floor_div_i128(-(self.m as i128), FX_SCALE as i128);
        proof {
            vstd::arithmetic::div_mod::lemma_div_is_ordered(
                i64::MIN as int,
                -self.m(),
                FX_SCALE as int,
            );
            vstd::arithmetic::div_mod::lemma_div_is_ordered(
                -self.m(),
                i64::MAX as int,
                FX_SCALE as int,
            );
            vstd::arithmetic::div_mod::lemma_div_pos_is_pos(i64::MAX as int, FX_SCALE as int);
            vstd::arithmetic::div_mod::lemma_fundamental_div_mod(i64::MIN as int, FX_SCALE as int);
        }
        -(q as i64)
    }

    /// Exact sum of two positions.
    pub fn plus(&self, o: &Fx) -> (r: Fx)
        requires
            i64::MIN as int <= self.m() + o.m() <= i64::MAX as int,
        ensures
            r.m() == self.m() + o.m(),
    {
        Fx { m: self.m + o.m }
    }

    /// Exact difference of two positions.
    pub fn minus(&self, o: &Fx) -> (r: Fx)
        requires
            i64::MIN as int <= self.m() - o.m() <= i64::MAX as int,
        ensures
            r.m() == self.m() - o.m(),
    {
        Fx { m: self.m - o.m }
    }

    /// The exact negation.
    pub fn neg(&self) -> (r: Fx)
        requires
            (i64::MIN as int) < self.m(),
        ensures
            r.m() == -self.m(),
    {
        Fx { m: -self.m }
    }

    /// Whether this position lies strictly below another.
    pub fn lt(&self, o: &Fx) -> (r: bool)
        ensures
            r == (self.m() < o.m()),
    {
        self.m < o.m
    }

    /// Whether this position lies at or below another.
    pub fn le(&self, o: &Fx) -> (r: bool)
        ensures
            r == (self.m() <= o.m()),
    {
        self.m <= o.m
    }

    /// The smaller of two positions.
    pub fn min(&self, o: &Fx) -> (r: Fx)
        ensures
            r.m() == crate::samples::min2(self.m(), o.m()),
    {
        if self.m <= o.m {
            Fx { m: self.m }
        } else {
            Fx { m: o.m }
        }
    }

    /// The larger of two positions.
    pub fn max(&self, o: &Fx) -> (r: Fx)
        ensures
            r.m() == crate::samples::max2(self.m(), o.m()),
    {
        if self.m >= o.m {
            Fx { m: self.m }
        } else {
            Fx { m: o.m }
        }
    }

    /// Whether the position is negative.
    pub fn is_neg(&self) -> (r: bool)
        ensures
            r == (self.m() < 0),
    {
        self.m < 0
    }
}

} // verus!
