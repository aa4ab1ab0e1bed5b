//! The mathematical model of sample data: sequences of `i64` amplitudes,
//! running minima and maxima over them, and the lemmas that let range
//! summaries be split and recombined.

use vstd::prelude::*;

verus! {

/// The smaller of two integers.
pub open spec fn min2(a: int, b: int) -> int {
    if a <= b {
        a
    } else {
        b
    }
}

/// The larger of two integers.
pub open spec fn max2(a: int, b: int) -> int {
    if a >= b {
        a
    } else {
        b
    }
}

/// A run of silence: `n` zero samples.
pub open spec fn zeros(n: nat) -> Seq<i64> {
    Seq::new(n, |i: int| 0i64)
}

/// Running minimum of a sample sequence, folded from the neutral
/// accumulator `i64::MAX` (so the empty sequence yields `i64::MAX`).
pub open spec fn seq_min(s: Seq<i64>) -> int
    decreases s.len(),
{
    if s.len() == 0 {
        i64::MAX as int
    } else {
        min2(seq_min(s.drop_last()), s.last() as int)
    }
}

/// Running maximum of a sample sequence, folded from `i64::MIN`.
pub open spec fn seq_max(s: Seq<i64>) -> int
    decreases s.len(),
{
    if s.len() == 0 {
        i64::MIN as int
    } else {
        max2(seq_max(s.drop_last()), s.last() as int)
    }
}

/// Both folds stay inside the `i64` range.
pub proof fn lemma_minmax_bounds(s: Seq<i64>)
    ensures
        i64::MIN as int <= seq_min(s) <= i64::MAX as int,
        i64::MIN as int <= seq_max(s) <= i64::MAX as int,
    decreases s.len(),
{
    if s.len() > 0 {
        lemma_minmax_bounds(s.drop_last());
    }
}

/// The folds distribute over concatenation.
pub proof fn lemma_minmax_concat(a: Seq<i64>, b: Seq<i64>)
    ensures
        seq_min(a + b) == min2(seq_min(a), seq_min(b)),
        seq_max(a + b) == max2(seq_max(a), seq_max(b)),
    decreases b.len(),
{
    if b.len() == 0 {
        assert(a + b =~= a);
        lemma_minmax_bounds(a);
    } else {
        assert((a + b).drop_last() =~= a + b.drop_last());
        assert((a + b).last() == b.last());
        lemma_minmax_concat(a, b.drop_last());
    }
}

/// A range summary can be split at any interior point.
pub proof fn lemma_minmax_split(s: Seq<i64>, i: int, j: int, k: int)
    requires
        0 <= i <= j <= k <= s.len(),
    ensures
        seq_min(s.subrange(i, k)) == min2(seq_min(s.subrange(i, j)), seq_min(s.subrange(j, k))),
        seq_max(s.subrange(i, k)) == max2(seq_max(s.subrange(i, j)), seq_max(s.subrange(j, k))),
{
    assert(s.subrange(i, k) =~= s.subrange(i, j) + s.subrange(j, k));
    lemma_minmax_concat(s.subrange(i, j), s.subrange(j, k));
}

/// The summary of a single sample is that sample.
pub proof fn lemma_minmax_single(s: Seq<i64>, i: int)
    requires
        0 <= i < s.len(),
    ensures
        seq_min(s.subrange(i, i + 1)) == s[i] as int,
        seq_max(s.subrange(i, i + 1)) == s[i] as int,
{
    let one = s.subrange(i, i + 1);
    assert(one.len() == 1);
    assert(one.last() == s[i]);
    assert(one.drop_last() =~= Seq::<i64>::empty());
    assert(seq_min(Seq::<i64>::empty()) == i64::MAX as int);
    assert(seq_max(Seq::<i64>::empty()) == i64::MIN as int);
    assert(seq_min(one) == min2(seq_min(one.drop_last()), one.last() as int));
    assert(seq_max(one) == max2(seq_max(one.drop_last()), one.last() as int));
}

/// The summary of a pair is its least and greatest member.
pub proof fn lemma_minmax_pair(s: Seq<i64>, i: int)
    requires
        0 <= i,
        i + 2 <= s.len(),
    ensures
        seq_min(s.subrange(i, i + 2)) == min2(s[i] as int, s[i + 1] as int),
        seq_max(s.subrange(i, i + 2)) == max2(s[i] as int, s[i + 1] as int),
{
    lemma_minmax_split(s, i, i + 1, i + 2);
    lemma_minmax_single(s, i);
    lemma_minmax_single(s, i + 1);
}

/// Every sample of a range lies between the range's summary bounds,
/// and a non-empty range attains both bounds.
pub proof fn lemma_minmax_members(s: Seq<i64>)
    ensures
        forall|i: int| 0 <= i < s.len() ==> seq_min(s) <= #[trigger] s[i] as int <= seq_max(s),
        s.len() > 0 ==> exists|i: int| 0 <= i < s.len() && s[i] as int == seq_min(s),
        s.len() > 0 ==> exists|i: int| 0 <= i < s.len() && s[i] as int == seq_max(s),
    decreases s.len(),
{
    if s.len() > 0 {
        lemma_minmax_members(s.drop_last());
        lemma_minmax_bounds(s.drop_last());
        assert(forall|i: int| 0 <= i < s.len() - 1 ==> s.drop_last()[i] == #[trigger] s[i]);
        if s.len() > 1 {
            if seq_min(s.drop_last()) <= s.last() as int {
                let w = choose|i: int|
                    0 <= i < s.len() - 1 && s.drop_last()[i] as int == seq_min(s.drop_last());
                assert(s[w] as int == seq_min(s));
            }
            if seq_max(s.drop_last()) >= s.last() as int {
                let w = choose|i: int|
                    0 <= i < s.len() - 1 && s.drop_last()[i] as int == seq_max(s.drop_last());
                assert(s[w] as int == seq_max(s));
            }
        }
        assert(s[s.len() - 1] == s.last());
    }
}

} // verus!
