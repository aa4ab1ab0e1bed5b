//! A closed interval of fractional positions, normalised so the start never
//! exceeds the end.

use vstd::prelude::*;
use crate::util::fx::{Fx, FX_SCALE, FX_UNIT_BOUND};
use crate::samples::{min2, max2};

verus! {

/// The smallest whole frame at or above a micro-unit position.
pub open spec fn ceil_frames(m: int) -> int {
    -((-m) / (FX_SCALE as int))
}

/// A normalised interval `[start, end]` of fractional positions.
#[derive(Clone, Copy, Debug)]
pub struct Region {
    start: Fx,
    end: Fx,
}

impl Region {
    /// The lower endpoint in micro-units.
    pub closed spec fn spec_start(&self) -> int {
        self.start.m()
    }

    /// The upper endpoint in micro-units.
    pub closed spec fn spec_end(&self) -> int {
        self.end.m()
    }

    /// Both endpoints in range, lower first.
    pub closed spec fn wf(&self) -> bool {
        &&& self.start.wf()
        &&& self.end.wf()
        &&& self.spec_start() <= self.spec_end()
    }

    /// The interval between two positions, in either order.
    pub fn new(a: Fx, b: Fx) -> (r: Region)
        requires
            a.wf(),
            b.wf(),
        ensures
            r.wf(),
            r.spec_start() == min2(a.m(), b.m()),
            r.spec_end() == max2(a.m(), b.m()),
    {
        Region { start: a.min(&b), end: a.max(&b) }
    }

    /// The lower endpoint.
    pub fn start(&self) -> (r: Fx)
        ensures
            r.m() == self.spec_start(),
    {
        self.start
    }

    /// The upper endpoint.
    pub fn end(&self) -> (r: Fx)
        ensures
            r.m() == self.spec_end(),
    {
        self.end
    }

    /// The exact width of the interval.
    pub fn len(&self) -> (r: Fx)
        requires
            self.wf(),
        ensures
            r.m() == self.spec_end() - self.spec_start(),
    {
        self.end.minus(&self.start)
    }

    /// The whole frames the interval covers: both ends rounded up, negatives
    /// truncated to frame zero, so a non-inclusive upper frame bound catches
    /// every covered sample.
    pub fn sample_range(&self) -> (r: (usize, usize))
        requires
            self.wf(),
        ensures
            r.0 as int == ceil_frames(max2(self.spec_start(), 0)),
            r.1 as int == max2(ceil_frames(self.spec_end()), 0),
            r.0 <= r.1,
    {
        let zero = Fx::zero();
        let s = self.start.max(&zero);
        let sc = s.ceil_units();
        let ec = self.end.ceil_units();
        let e = if ec < 0 {
            0
        } else {
            ec
        };
        proof {
            let sm = max2(self.spec_start(), 0);
            vstd::arithmetic::div_mod::lemma_div_of0(FX_SCALE as int);
            vstd::arithmetic::div_mod::lemma_div_is_ordered(-sm, 0, FX_SCALE as int);
            vstd::arithmetic::div_mod::lemma_div_is_ordered(
                -(FX_UNIT_BOUND as int) * (FX_SCALE as int),
                -sm,
                FX_SCALE as int,
            );
            vstd::arithmetic::div_mod::lemma_div_multiples_vanish(
                -(FX_UNIT_BOUND as int),
                FX_SCALE as int,
            );
            assert((-(FX_UNIT_BOUND as int)) * (FX_SCALE as int) == (FX_SCALE as int) * (-(
            FX_UNIT_BOUND as int))) by (nonlinear_arith);
            vstd::arithmetic::div_mod::lemma_div_is_ordered(
                -(FX_UNIT_BOUND as int) * (FX_SCALE as int),
                -self.spec_end(),
                FX_SCALE as int,
            );
            if self.spec_end() >= 0 {
                vstd::arithmetic::div_mod::lemma_div_is_ordered(
                    -self.spec_end(),
                    -sm,
                    FX_SCALE as int,
                );
            } else {
                vstd::arithmetic::div_mod::lemma_div_is_ordered(0, -sm, FX_SCALE as int);
            }
        }
        (sc as usize, e as usize)
    }

    /// The overlap of two intervals, if they touch at all.
    pub fn intersect(&self, other: &Region) -> (r: Option<Region>)
        requires
            self.wf(),
            other.wf(),
        ensures
            (self.spec_end() < other.spec_start() || other.spec_end() < self.spec_start())
                ==> r is None,
            !(self.spec_end() < other.spec_start() || other.spec_end() < self.spec_start()) ==> (
            r matches Some(v) && v.wf() && v.spec_start() == max2(self.spec_start(), other.spec_start())
                && v.spec_end() == min2(self.spec_end(), other.spec_end())),
    {
        if self.end.lt(&other.start) || other.end.lt(&self.start) {
            None
        } else {
            Some(Region { start: self.start.max(&other.start), end: self.end.min(&other.end) })
        }
    }

    /// The midpoint, rounded down to a micro-unit.
    pub fn center(&self) -> (r: Fx)
        requires
            self.wf(),
        ensures
            r.m() == (self.spec_start() + self.spec_end()) / 2,
    {
        let sum: i128 = (self.start.as_micros() as i128) + (self.end.as_micros() as i128);
        let q = crate::num::floor_div_i128(sum, 2);
        proof {
            vstd::arithmetic::div_mod::lemma_div_is_ordered(i64::MIN as int, sum as int, 2);
            vstd::arithmetic::div_mod::lemma_div_is_ordered(sum as int, i64::MAX as int, 2);
            vstd::arithmetic::div_mod::lemma_div_pos_is_pos(i64::MAX as int, 2);
            vstd::arithmetic::div_mod::lemma_fundamental_div_mod(i64::MIN as int, 2);
        }
        Fx::from_micros(q as i64)
    }

    /// Whether a position lies inside the interval (endpoints included).
    pub fn contains(&self, pt: &Fx) -> (r: bool)
        ensures
            r == (self.spec_start() <= pt.m() && pt.m() <= self.spec_end()),
    {
        self.start.le(pt) && pt.le(&self.end)
    }

    /// The position, pulled to the nearest endpoint if it lies outside.
    pub fn clamp(&self, pt: &Fx) -> (r: Fx)
        requires
            self.wf(),
        ensures
            r.m() == min2(max2(pt.m(), self.spec_start()), self.spec_end()),
    {
        pt.max(&self.start).min(&self.end)
    }

    /// The interval moved by a distance.
    pub fn slide(&self, dist: &Fx) -> (r: Region)
        requires
            self.wf(),
            dist.wf(),
            i64::MIN as int <= self.spec_start() + dist.m() <= i64::MAX as int,
            i64::MIN as int <= self.spec_end() + dist.m() <= i64::MAX as int,
        ensures
            r.spec_start() == self.spec_start() + dist.m(),
            r.spec_end() == self.spec_end() + dist.m(),
    {
        Region { start: self.start.plus(dist), end: self.end.plus(dist) }
    }
}

} // verus!
