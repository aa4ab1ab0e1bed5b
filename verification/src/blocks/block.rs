//! The atomic unit of sample storage.  A block is either a window into a
//! shared, immutable sample buffer (with its summary pyramid) or a virtual
//! run of silence.  Blocks are the unit of structural sharing: taking a
//! sub-range never copies sample data.

use vstd::prelude::*;
use std::sync::Arc;
use crate::blocks::mips::Pyramid;
use crate::samples::{seq_min, seq_max, zeros, lemma_minmax_single};

verus! {

/// A window `[start, end)` into a shared immutable sample buffer.
pub struct ArcBlock {
    data: Arc<Vec<i64>>,
    mips: Arc<Pyramid>,
    start: usize,
    end: usize,
}

impl View for ArcBlock {
    type V = Seq<i64>;

    /// The samples visible through the window.
    closed spec fn view(&self) -> Seq<i64> {
        self.data@.subrange(self.start as int, self.end as int)
    }
}

impl ArcBlock {
    /// The window lies inside the buffer and the pyramid indexes the buffer.
    pub closed spec fn wf(&self) -> bool {
        &&& self.start <= self.end <= self.data@.len()
        &&& self.mips.wf(self.data@)
    }

    /// Wraps a whole sample buffer, building its summary pyramid.
    pub fn from_samples(data: Vec<i64>) -> (b: ArcBlock)
        ensures
            b.wf(),
            b@ == data@,
    {
        let mips = Pyramid::build(&data);
        let end = data.len();
        let b = ArcBlock { data: Arc::new(data), mips: Arc::new(mips), start: 0, end };
        proof {
            assert(b@ =~= b.data@);
        }
        b
    }

    /// Number of visible samples.
    pub fn len(&self) -> (n: usize)
        requires
            self.wf(),
        ensures
            n == self@.len(),
    {
        self.end - self.start
    }

    /// A narrower window into the same buffer; no sample data is copied.
    pub fn rng(&self, start: usize, end: usize) -> (b: ArcBlock)
        requires
            self.wf(),
            start <= end <= self@.len(),
        ensures
            b.wf(),
            b@ == self@.subrange(start as int, end as int),
    {
        let b = ArcBlock {
            data: self.data.clone(),
            mips: self.mips.clone(),
            start: self.start + start,
            end: self.start + end,
        };
        proof {
            assert(b@ =~= self@.subrange(start as int, end as int));
        }
        b
    }

    /// The sample at `index` within the window, if any.
    pub fn get_sample(&self, index: usize) -> (r: Option<i64>)
        requires
            self.wf(),
        ensures
            index < self@.len() ==> r == Some(self@[index as int]),
            index >= self@.len() ==> r is None,
    {
        if index >= self.end - self.start {
            None
        } else {
            Some(self.data[self.start + index])
        }
    }

    /// Min and max of all visible samples, folded from `(i64::MAX, i64::MIN)`.
    pub fn summary(&self) -> (r: (i64, i64))
        requires
            self.wf(),
        ensures
            r.0 as int == seq_min(self@),
            r.1 as int == seq_max(self@),
    {
        self.mips.peaks(self.start, self.end, &self.data)
    }
}

impl Clone for ArcBlock {
    /// Another handle on the same window; the buffer is shared, not copied.
    fn clone(&self) -> (b: Self)
        ensures
            b == *self,
    {
        ArcBlock {
            data: self.data.clone(),
            mips: self.mips.clone(),
            start: self.start,
            end: self.end,
        }
    }
}

/// A virtual run of silence: `len` zero samples, no storage at all.
pub struct SilentBlock {
    len: usize,
}

impl View for SilentBlock {
    type V = Seq<i64>;

    closed spec fn view(&self) -> Seq<i64> {
        zeros(self.len as nat)
    }
}

impl SilentBlock {
    /// A silence run of the given length.
    pub fn new(len: usize) -> (b: SilentBlock)
        ensures
            b@ == zeros(len as nat),
    {
        SilentBlock { len }
    }

    /// Number of (virtual) samples.
    pub fn len(&self) -> (n: usize)
        ensures
            n == self@.len(),
    {
        self.len
    }

    /// A shorter run of silence.
    pub fn rng(&self, start: usize, end: usize) -> (b: SilentBlock)
        requires
            start <= end <= self@.len(),
        ensures
            b@ == self@.subrange(start as int, end as int),
    {
        let b = SilentBlock { len: end - start };
        proof {
            assert(b@ =~= self@.subrange(start as int, end as int));
        }
        b
    }

    /// Zero for any index inside the run.
    pub fn get_sample(&self, index: usize) -> (r: Option<i64>)
        ensures
            index < self@.len() ==> r == Some(0i64),
            index >= self@.len() ==> r is None,
    {
        if index < self.len {
            Some(0)
        } else {
            None
        }
    }

    /// Silence summarises to `(0, 0)` whatever its length.
    pub fn summary(&self) -> (r: (i64, i64))
        ensures
            r == (0i64, 0i64),
    {
        (0, 0)
    }
}

impl Clone for SilentBlock {
    fn clone(&self) -> (b: Self)
        ensures
            b == *self,
    {
        SilentBlock { len: self.len }
    }
}

/// The block interface over the two concrete kinds.
pub enum Block {
    Arc(ArcBlock),
    Silent(SilentBlock),
}

impl View for Block {
    type V = Seq<i64>;

    /// The samples the block holds.
    closed spec fn view(&self) -> Seq<i64> {
        match self {
            Block::Arc(ab) => ab@,
            Block::Silent(sb) => sb@,
        }
    }
}

impl Block {
    /// Structural well-formedness of the underlying variant.
    pub closed spec fn wf(&self) -> bool {
        match self {
            Block::Arc(ab) => ab.wf(),
            Block::Silent(_) => true,
        }
    }

    /// Whether this block is a virtual silence run.
    pub closed spec fn is_silence(&self) -> bool {
        self is Silent
    }

    /// A block never holds more samples than the machine can index.
    pub proof fn lemma_len_bound(&self)
        requires
            self.wf(),
        ensures
            self@.len() <= usize::MAX,
    {
    }

    /// Every sample of a silence run is zero.
    pub proof fn lemma_silence_is_zero(&self)
        requires
            self.is_silence(),
        ensures
            forall|i: int| 0 <= i < self@.len() ==> self@[i] == 0i64,
    {
    }

    /// A fresh data block holding the given samples.
    pub fn data(samples: Vec<i64>) -> (b: Block)
        ensures
            b.wf(),
            b@ == samples@,
            !b.is_silence(),
    {
        Block::Arc(ArcBlock::from_samples(samples))
    }

    /// A silence block of the given length.
    pub fn silence(len: usize) -> (b: Block)
        ensures
            b.wf(),
            b@ == zeros(len as nat),
            b.is_silence(),
    {
        Block::Silent(SilentBlock::new(len))
    }

    /// Number of samples.
    pub fn len(&self) -> (n: usize)
        requires
            self.wf(),
        ensures
            n == self@.len(),
    {
        match self {
            Block::Arc(ab) => ab.len(),
            Block::Silent(sb) => sb.len(),
        }
    }

    /// The sub-block over `[start, end)`; zero-copy for both kinds.
    pub fn rng(&self, start: usize, end: usize) -> (b: Block)
        requires
            self.wf(),
            start <= end <= self@.len(),
        ensures
            b.wf(),
            b@ == self@.subrange(start as int, end as int),
            b.is_silence() == self.is_silence(),
    {
        match self {
            Block::Arc(ab) => Block::Arc(ab.rng(start, end)),
            Block::Silent(sb) => Block::Silent(sb.rng(start, end)),
        }
    }

    /// The sample at `index`, or nothing outside the block.
    pub fn get_sample(&self, index: usize) -> (r: Option<i64>)
        requires
            self.wf(),
        ensures
            index < self@.len() ==> r == Some(self@[index as int]),
            index >= self@.len() ==> r is None,
    {
        match self {
            Block::Arc(ab) => ab.get_sample(index),
            Block::Silent(sb) => sb.get_sample(index),
        }
    }

    /// Min/max over the whole block: a pyramid query for data, the constant
    /// `(0, 0)` for silence.
    pub fn summary(&self) -> (r: (i64, i64))
        requires
            self.wf(),
        ensures
            self@.len() > 0 ==> r.0 as int == seq_min(self@) && r.1 as int == seq_max(self@),
            !self.is_silence() ==> r.0 as int == seq_min(self@) && r.1 as int == seq_max(self@),
            self.is_silence() ==> r == (0i64, 0i64),
    {
        match self {
            Block::Arc(ab) => ab.summary(),
            Block::Silent(sb) => {
                proof {
                    if sb@.len() > 0 {
                        silence_summary(sb@);
                    }
                }
                sb.summary()
            },
        }
    }

    /// All samples of the block, materialised in order.
    pub fn samples(&self) -> (v: Vec<i64>)
        requires
            self.wf(),
        ensures
            v@ == self@,
    {
        let n = self.len();
        let mut v: Vec<i64> = Vec::new();
        let mut i: usize = 0;
        while i < n
            invariant
                self.wf(),
                n == self@.len(),
                i <= n,
                v@ =~= self@.subrange(0, i as int),
            decreases n - i,
        {
            let s = match self.get_sample(i) {
                Some(s) => s,
                None => 0,
            };
            v.push(s);
            proof {
                assert(v@ =~= self@.subrange(0, i as int + 1));
            }
            i = i + 1;
        }
        proof {
            assert(self@.subrange(0, n as int) =~= self@);
        }
        v
    }
}

impl Clone for Block {
    /// Another handle on the same samples; data blocks stay shared.
    fn clone(&self) -> (b: Self)
        ensures
            b == *self,
    {
        match self {
            Block::Arc(ab) => Block::Arc(ab.clone()),
            Block::Silent(sb) => Block::Silent(sb.clone()),
        }
    }
}

/// A non-empty run of zeros has min and max zero.
proof fn silence_summary(s: Seq<i64>)
    requires
        s.len() > 0,
        forall|i: int| 0 <= i < s.len() ==> s[i] == 0i64,
    ensures
        seq_min(s) == 0,
        seq_max(s) == 0,
    decreases s.len(),
{
    if s.len() == 1 {
        assert(s =~= s.subrange(0, 1));
        lemma_minmax_single(s, 0);
    } else {
        silence_summary(s.drop_last());
    }
}


/// Sub-ranging commutes with composition: taking `[s2, e2)` of the block
/// `[s1, e1)` reads the same samples as taking `[s1 + s2, s1 + e2)` of the
/// original block.  (`Block::rng` pins each result to exactly these
/// subranges of the block's sample view.)
pub proof fn lemma_rng_compose(b: Seq<i64>, s1: int, e1: int, s2: int, e2: int)
    requires
        0 <= s1 <= e1 <= b.len(),
        0 <= s2 <= e2 <= e1 - s1,
    ensures
        b.subrange(s1, e1).subrange(s2, e2) == b.subrange(s1 + s2, s1 + e2),
{
    assert(b.subrange(s1, e1).subrange(s2, e2) =~= b.subrange(s1 + s2, s1 + e2));
}

} // verus!
