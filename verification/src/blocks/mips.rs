//! Multi-resolution min/max index over a fixed sample buffer.
//!
//! Level `k` summarises spans of `2^(k+1)` consecutive samples; the levels
//! shrink by half until fewer than two entries remain.  A range query walks
//! the buffer in power-of-two chunks that are aligned to their own size, so
//! it touches only O(log n) entries.

use vstd::prelude::*;
use vstd::arithmetic::power2::{pow2, lemma_pow2_unfold, lemma_pow2_strictly_increases, lemma2_to64};
use vstd::arithmetic::div_mod::{
    lemma_fundamental_div_mod,
    lemma_div_denominator,
    lemma_div_is_ordered,
    lemma_div_multiples_vanish,
};
use crate::samples::{seq_min, seq_max, lemma_minmax_pair, lemma_minmax_single,
    lemma_minmax_split};

verus! {

/// One summary level: entry `i` covers samples `[i*w, i*w + w)` of the base
/// buffer, where `w = 2^(k+1)` is the span width of level `k`.
pub open spec fn level_wf(level: Seq<(i64, i64)>, base: Seq<i64>, k: nat) -> bool {
    let w = pow2(k + 1) as int;
    &&& level.len() == base.len() as int / w
    &&& forall|i: int|
        0 <= i < level.len() ==> (#[trigger] level[i]).0 as int == seq_min(
            base.subrange(i * w, i * w + w),
        ) && level[i].1 as int == seq_max(base.subrange(i * w, i * w + w))
}

/// Precomputed min/max summary tree over one sample buffer.
pub struct Pyramid {
    /// The summary levels, finest first: level `k` holds one `(min, max)`
    /// entry per `2^(k+1)` base samples (a trailing odd span is dropped).
    pub levels: Vec<Vec<(i64, i64)>>,
}

impl Pyramid {
    /// The pyramid indexes the buffer `base`: every level is a correct
    /// summary, and levels were added until fewer than two entries remained.
    pub open spec fn wf(&self, base: Seq<i64>) -> bool {
        &&& self.levels.len() >= 1
        &&& forall|k: int|
            0 <= k < self.levels@.len() ==> level_wf((#[trigger] self.levels@[k])@, base, k as nat)
        &&& self.levels@.last()@.len() <= 1
        &&& forall|k: int| 0 <= k < self.levels@.len() - 1 ==> (#[trigger] self.levels@[k])@.len() >= 2
    }

    /// How many summary levels the tree holds.
    pub open spec fn spec_levels_len(&self) -> nat {
        self.levels@.len()
    }

    /// How many summary levels were built.
    pub fn levels_len(&self) -> (n: usize)
        ensures
            n == self.spec_levels_len(),
    {
        self.levels.len()
    }

    /// Builds the summary tree for `base`: level 0 summarises sample pairs,
    /// and each further level merges consecutive pairs of the level below.
    pub fn build(base: &Vec<i64>) -> (p: Pyramid)
        ensures
            p.wf(base@),
    {
        let mut levels: Vec<Vec<(i64, i64)>> = Vec::new();
        let first = base_level(base);
        levels.push(first);
        while levels[levels.len() - 1].len() >= 2
            invariant
                levels@.len() >= 1,
                forall|k: int|
                    0 <= k < levels@.len() ==> level_wf((#[trigger] levels@[k])@, base@, k as nat),
                forall|k: int| 0 <= k < levels@.len() - 1 ==> (#[trigger] levels@[k])@.len() >= 2,
            decreases levels@.last()@.len(),
        {
            let last_idx = levels.len() - 1;
            let nl = next_level(&levels[last_idx], Ghost(base@), Ghost(last_idx as nat));
            proof {
                let prev = levels@.last()@;
                assert(nl@.len() == prev.len() as int / 2);
                lemma_fundamental_div_mod(prev.len() as int, 2);
            }
            levels.push(nl);
        }
        Pyramid { levels }
    }

    /// Summary of the samples in `[start, end)`: the pair of their running
    /// minimum and maximum, folded from `(i64::MAX, i64::MIN)` (which is what
    /// an empty range yields).  The range must lie inside the indexed buffer.
    pub fn peaks(&self, start: usize, end: usize, base: &Vec<i64>) -> (r: (i64, i64))
        requires
            self.wf(base@),
            start <= end,
            end <= base@.len(),
        ensures
            r.0 as int == seq_min(base@.subrange(start as int, end as int)),
            r.1 as int == seq_max(base@.subrange(start as int, end as int)),
    {
        let mut cur = start;
        let mut mn = i64::MAX;
        let mut mx = i64::MIN;
        proof {
            assert(base@.subrange(start as int, start as int) =~= Seq::<i64>::empty());
        }
        while cur < end
            invariant
                self.wf(base@),
                start <= cur <= end,
                end <= base@.len(),
                mn as int == seq_min(base@.subrange(start as int, cur as int)),
                mx as int == seq_max(base@.subrange(start as int, cur as int)),
            decreases end - cur,
        {
            let (align, lod, idx) = power_chunk(cur, end);
            let cmin: i64;
            let cmax: i64;
            if align == 1 {
                cmin = base[cur];
                cmax = cmin;
                proof {
                    lemma_minmax_single(base@, cur as int);
                }
            } else {
                proof {
                    let n = base@.len() as int;
                    let ll = self.levels@.len() as int;
                    let w = pow2(lod as nat) as int;
                    vstd::arithmetic::power2::lemma_pow2_pos(ll as nat);
                    // The last level has at most one entry, so `n < 2^(ll+1)`;
                    // a chunk of width `2^lod` fits in the buffer, so `lod <= ll`.
                    assert(self.levels@.last() == self.levels@[ll - 1]);
                    assert(level_wf(self.levels@[ll - 1]@, base@, (ll - 1) as nat));
                    assert(self.levels@[ll - 1]@.len() == n / pow2((ll) as nat) as int);
                    lemma_fundamental_div_mod(n, pow2((ll) as nat) as int);
                    let q = n / pow2((ll) as nat) as int;
                    assert(q == 0 || q == 1);
                    if q == 0 {
                        assert(n == pow2((ll) as nat) as int * 0 + n % pow2((ll) as nat) as int);
                        assert(pow2((ll) as nat) as int * 0 == 0) by (nonlinear_arith);
                    } else {
                        assert(pow2((ll) as nat) as int * 1 == pow2((ll) as nat) as int)
                            by (nonlinear_arith);
                    }
                    assert(n < 2 * pow2((ll) as nat));
                    lemma_pow2_unfold(ll as nat + 1);
                    assert(n < pow2(ll as nat + 1));
                    if lod as int > ll {
                        if lod as int > ll + 1 {
                            lemma_pow2_strictly_increases((ll + 1) as nat, lod as nat);
                        }
                        assert(pow2(lod as nat) >= pow2((ll + 1) as nat));
                        assert(false);
                    }
                    // The chunk is the entry `idx` of level `lod - 1`.
                    assert(level_wf(self.levels@[lod - 1]@, base@, (lod - 1) as nat));
                    lemma_fundamental_div_mod(cur as int, align as int);
                    assert(idx as int * align as int == cur as int);
                    assert(self.levels@[lod - 1]@.len() == n / align as int);
                    assert((idx as int + 1) * align == cur as int + align) by (nonlinear_arith)
                        requires
                            idx as int * align as int == cur as int,
                    ;
                    lemma_div_multiples_vanish(idx as int + 1, align as int);
                    assert((align as int) * (idx as int + 1) == (idx as int + 1) * align)
                        by (nonlinear_arith);
                    lemma_div_is_ordered((idx as int + 1) * align, n, align as int);
                    assert(idx < n / align as int);
                }
                let entry = self.levels[lod - 1][idx];
                cmin = entry.0;
                cmax = entry.1;
                proof {
                    let w = pow2(lod as nat) as int;
                    assert(entry == self.levels@[lod - 1]@[idx as int]);
                    assert(entry.0 as int == seq_min(base@.subrange(idx as int * w, idx as int * w + w))
                        && entry.1 as int == seq_max(
                        base@.subrange(idx as int * w, idx as int * w + w),
                    ));
                    assert(idx as int * w == cur as int);
                    assert(base@.subrange(idx as int * w, idx as int * w + w) =~= base@.subrange(
                        cur as int,
                        cur as int + align as int,
                    ));
                }
            }
            proof {
                lemma_minmax_split(base@, start as int, cur as int, cur as int + align as int);
            }
            if cmin < mn {
                mn = cmin;
            }
            if cmax > mx {
                mx = cmax;
            }
            cur = cur + align;
        }
        (mn, mx)
    }
}

/// Level 0: the min/max of each consecutive sample pair (a trailing odd
/// sample is not summarised; queries read it directly).
fn base_level(base: &Vec<i64>) -> (lvl: Vec<(i64, i64)>)
    ensures
        level_wf(lvl@, base@, 0),
{
    proof {
        lemma2_to64();
    }
    let n = base.len();
    let half = n / 2;
    let mut lvl: Vec<(i64, i64)> = Vec::new();
    let mut i: usize = 0;
    while i < half
        invariant
            half == base@.len() as int / 2,
            i <= half,
            n == base@.len(),
            lvl@.len() == i,
            forall|j: int|
                0 <= j < i ==> (#[trigger] lvl@[j]).0 as int == seq_min(
                    base@.subrange(j * 2, j * 2 + 2),
                ) && lvl@[j].1 as int == seq_max(base@.subrange(j * 2, j * 2 + 2)),
        decreases half - i,
    {
        proof {
            lemma_fundamental_div_mod(n as int, 2);
        }
        let a = base[2 * i];
        let b = base[2 * i + 1];
        let mn = if a <= b {
            a
        } else {
            b
        };
        let mx = if a >= b {
            a
        } else {
            b
        };
        proof {
            lemma_minmax_pair(base@, 2 * i as int);
        }
        lvl.push((mn, mx));
        i = i + 1;
    }
    proof {
        lemma2_to64();
        assert(pow2(1) == 2);
    }
    lvl
}

/// Merges consecutive entry pairs of level `k` into level `k + 1`.
fn next_level(prev: &Vec<(i64, i64)>, base: Ghost<Seq<i64>>, k: Ghost<nat>) -> (nl: Vec<(i64, i64)>)
    requires
        level_wf(prev@, base@, k@),
    ensures
        level_wf(nl@, base@, k@ + 1),
        nl@.len() == prev@.len() as int / 2,
{
    let ghost w = pow2(k@ + 1) as int;
    let ghost ww = pow2(k@ + 2) as int;
    proof {
        lemma_pow2_unfold(k@ + 2);
        vstd::arithmetic::power2::lemma_pow2_pos(k@ + 1);
    }
    let n = prev.len();
    let half = n / 2;
    let mut nl: Vec<(i64, i64)> = Vec::new();
    let mut i: usize = 0;
    while i < half
        invariant
            level_wf(prev@, base@, k@),
            w == pow2(k@ + 1) as int,
            ww == pow2(k@ + 2) as int,
            ww == 2 * w,
            w >= 1,
            half == prev@.len() as int / 2,
            i <= half,
            n == prev@.len(),
            nl@.len() == i,
            forall|j: int|
                0 <= j < i ==> (#[trigger] nl@[j]).0 as int == seq_min(
                    base@.subrange(j * ww, j * ww + ww),
                ) && nl@[j].1 as int == seq_max(base@.subrange(j * ww, j * ww + ww)),
        decreases half - i,
    {
        proof {
            lemma_fundamental_div_mod(n as int, 2);
        }
        let a = prev[2 * i];
        let b = prev[2 * i + 1];
        let mn = if a.0 <= b.0 {
            a.0
        } else {
            b.0
        };
        let mx = if a.1 >= b.1 {
            a.1
        } else {
            b.1
        };
        proof {
            let j = i as int;
            let lo = 2 * j;
            let hi = 2 * j + 1;
            assert(lo * w == j * ww && hi * w == j * ww + w && hi * w + w == j * ww + ww
                && (hi + 1) * w == j * ww + ww && j * ww >= 0) by (nonlinear_arith)
                requires
                    ww == 2 * w,
                    lo == 2 * j,
                    hi == 2 * j + 1,
                    j >= 0,
                    w >= 1,
            ;
            // Each span of level k lies inside the buffer.
            lemma_fundamental_div_mod(base@.len() as int, w);
            assert((hi + 1) * w <= prev@.len() * w) by (nonlinear_arith)
                requires
                    hi + 1 <= prev@.len(),
                    w >= 1,
            ;
            assert(prev@.len() * w <= base@.len()) by (nonlinear_arith)
                requires
                    prev@.len() == base@.len() as int / w,
                    base@.len() as int == w * (base@.len() as int / w) + base@.len() as int % w,
                    base@.len() as int % w >= 0,
            ;
            lemma_minmax_split(base@, j * ww, j * ww + w, j * ww + ww);
        }
        nl.push((mn, mx));
        i = i + 1;
    }
    proof {
        lemma_div_denominator(base@.len() as int, w, 2);
        assert(nl@.len() == base@.len() as int / ww);
    }
    nl
}

/// Picks the chunk that a range query takes next: the largest power-of-two
/// size that divides `start` and still fits in `[start, end)` (falling back
/// to a single sample).  Returns the chunk size, its level-of-detail
/// exponent, and the entry index `start / size`.
fn power_chunk(start: usize, end: usize) -> (r: (usize, usize, usize))
    requires
        start < end,
    ensures
        r.0 as nat == pow2(r.1 as nat),
        r.0 >= 1,
        start % r.0 == 0,
        start + r.0 <= end,
        r.2 == start as int / r.0 as int,
        (r.1 == 0) == (r.0 == 1),
        // Maximality: no larger power of two both fits the range and
        // divides the cursor.
        forall|n: nat|
            (r.1 as nat) < n && pow2(n) <= (end - start) as nat ==> (start as nat) % pow2(n) != 0,
{
    let len = end - start;
    proof {
        lemma2_to64();
        assert(pow2(0) == 1);
    }
    let mut p: usize = 0;
    let mut w: usize = 1;
    while w <= len / 2
        invariant
            w as nat == pow2(p as nat),
            1 <= w <= len,
            len >= 1,
            len == end - start,
            p < 64,
        decreases len - w,
    {
        proof {
            lemma_fundamental_div_mod(len as int, 2);
            lemma_pow2_unfold(p as nat + 1);
            lemma2_to64();
            assert(2 * w <= len);
            assert(pow2(p as nat + 1) == 2 * w);
            assert((len as nat) < pow2(64));
            if p as nat + 1 >= 64 {
                if p as nat + 1 > 64 {
                    lemma_pow2_strictly_increases(64, p as nat + 1);
                }
                assert(pow2(p as nat + 1) >= pow2(64));
                assert(false);
            }
        }
        w = w * 2;
        p = p + 1;
    }
    proof {
        // No power of two above the probe fits the range at all.
        assert forall|n: nat| (p as nat) < n && pow2(n) <= (len as nat) implies (start as nat)
            % pow2(n) != 0 by {
            if n > p as nat + 1 {
                lemma_pow2_strictly_increases(p as nat + 1, n);
            }
            lemma_pow2_unfold(p as nat + 1);
            lemma_fundamental_div_mod(len as int, 2);
            assert(pow2(p as nat + 1) > len as nat);
            assert(false);
        }
    }
    while p >= 1
        invariant
            w as nat == pow2(p as nat),
            1 <= w <= len,
            len == end - start,
            forall|n: nat|
                (p as nat) < n && pow2(n) <= (len as nat) ==> (start as nat) % pow2(n) != 0,
        decreases p,
    {
        if start % w == 0 {
            proof {
                lemma2_to64();
                assert(pow2(0) == 1);
                if p >= 1 {
                    lemma_pow2_strictly_increases(0, p as nat);
                }
            }
            return (w, p, start / w);
        }
        proof {
            lemma_pow2_unfold(p as nat);
            lemma_fundamental_div_mod(w as int, 2);
            assert((start as nat) % pow2(p as nat) != 0);
        }
        w = w / 2;
        p = p - 1;
    }
    proof {
        assert(pow2(0) == 1);
        lemma_fundamental_div_mod(start as int, 1);
        lemma_div_multiples_vanish(start as int, 1);
    }
    (1, 0, start)
}

} // verus!
