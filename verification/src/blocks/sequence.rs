//! One channel's samples: an ordered composition of blocks.  Every edit is
//! expressed as sequence reconstruction from chunks of existing blocks, so
//! unaffected regions keep their original block handles.

use vstd::prelude::*;
use crate::blocks::block::Block;
use crate::samples::{seq_min, seq_max, zeros, min2, max2, lemma_minmax_concat};

verus! {

/// Concatenation of the sample contents of a row of blocks.
pub open spec fn cat(v: Seq<Block>) -> Seq<i64>
    decreases v.len(),
{
    if v.len() == 0 {
        Seq::empty()
    } else {
        cat(v.drop_last()) + v.last()@
    }
}

/// Number of samples before block `i`: the length of the concatenation of
/// the blocks in front of it.
pub open spec fn pre(v: Seq<Block>, i: int) -> int {
    cat(v.take(i)).len() as int
}

/// Appending a block appends its samples.
pub proof fn lemma_cat_push(v: Seq<Block>, b: Block)
    ensures
        cat(v.push(b)) == cat(v) + b@,
{
    assert(v.push(b).drop_last() =~= v);
    assert(v.push(b).last() == b);
}

/// The prefix length steps by each block's sample count.
pub proof fn lemma_pre_step(v: Seq<Block>, i: int)
    requires
        0 <= i < v.len(),
    ensures
        pre(v, i + 1) == pre(v, i) + v[i]@.len(),
{
    assert(v.take(i + 1).drop_last() =~= v.take(i));
    assert(v.take(i + 1).last() == v[i]);
}

/// Prefix lengths are monotone.
pub proof fn lemma_pre_mono(v: Seq<Block>, i: int, j: int)
    requires
        0 <= i <= j <= v.len(),
    ensures
        pre(v, i) <= pre(v, j),
    decreases j - i,
{
    if i < j {
        lemma_pre_step(v, j - 1);
        lemma_pre_mono(v, i, j - 1);
    }
}

/// The prefix of all blocks is the whole concatenation.
pub proof fn lemma_pre_full(v: Seq<Block>)
    ensures
        pre(v, v.len() as int) == cat(v).len(),
{
    assert(v.take(v.len() as int) =~= v);
}

/// Block `k` occupies exactly `[pre(k), pre(k) + |v[k]|)` of the whole.
pub proof fn lemma_cat_slice(v: Seq<Block>, k: int)
    requires
        0 <= k < v.len(),
    ensures
        0 <= pre(v, k),
        pre(v, k) + v[k]@.len() <= cat(v).len(),
        cat(v).subrange(pre(v, k), pre(v, k) + v[k]@.len()) == v[k]@,
    decreases v.len(),
{
    lemma_pre_mono(v, 0, k);
    assert(pre(v, 0) == 0) by {
        assert(v.take(0) =~= Seq::<Block>::empty());
    }
    if k == v.len() - 1 {
        assert(v.drop_last() =~= v.take(k));
        assert(cat(v) == cat(v.take(k)) + v[k]@);
        assert(cat(v).subrange(pre(v, k), pre(v, k) + v[k]@.len()) =~= v[k]@);
    } else {
        let w = v.drop_last();
        assert(w.take(k) =~= v.take(k));
        lemma_cat_slice(w, k);
        lemma_pre_mono(w, k + 1, w.len() as int);
        lemma_pre_step(w, k);
        lemma_pre_full(w);
        assert(cat(v) == cat(w) + v.last()@);
        assert(cat(v).subrange(pre(v, k), pre(v, k) + v[k]@.len()) =~= cat(w).subrange(
            pre(w, k),
            pre(w, k) + w[k]@.len(),
        ));
    }
}

/// Reading through a block: sample `idx` of the whole is sample
/// `idx - pre(k)` of the block that covers it.
pub proof fn lemma_cat_index(v: Seq<Block>, k: int, idx: int)
    requires
        0 <= k < v.len(),
        pre(v, k) <= idx < pre(v, k) + v[k]@.len(),
    ensures
        0 <= idx < cat(v).len(),
        cat(v)[idx] == v[k]@[idx - pre(v, k)],
{
    lemma_cat_slice(v, k);
    assert(cat(v).subrange(pre(v, k), pre(v, k) + v[k]@.len())[idx - pre(v, k)] == cat(v)[idx]);
}

/// Every in-range sample index is covered by some block.
pub proof fn lemma_exists_containing(v: Seq<Block>, idx: int)
    requires
        0 <= idx < cat(v).len(),
    ensures
        exists|k: int|
            0 <= k < v.len() && pre(v, k) <= idx < pre(v, k) + (#[trigger] v[k])@.len(),
    decreases v.len(),
{
    assert(v.len() > 0);
    let last = v.len() - 1;
    lemma_pre_step(v, last);
    lemma_pre_full(v);
    if idx >= pre(v, last) {
        assert(pre(v, last) <= idx < pre(v, last) + v[last]@.len());
    } else {
        let w = v.drop_last();
        assert(w =~= v.take(last));
        assert(cat(w).len() == pre(v, last));
        lemma_exists_containing(w, idx);
        let k = choose|k: int|
            0 <= k < w.len() && pre(w, k) <= idx < pre(w, k) + (#[trigger] w[k])@.len();
        assert(w.take(k) =~= v.take(k));
        assert(pre(v, k) <= idx < pre(v, k) + v[k]@.len());
    }
}

/// One channel's sample stream: blocks with their starting offsets.
pub struct BlockSequence {
    blocks: Vec<(usize, Block)>,
}

impl View for BlockSequence {
    type V = Seq<i64>;

    /// All samples of the channel, in order.
    closed spec fn view(&self) -> Seq<i64> {
        cat(self.bseq())
    }
}

impl BlockSequence {
    /// The row of blocks without their offsets.
    pub closed spec fn bseq(&self) -> Seq<Block> {
        self.blocks@.map_values(|p: (usize, Block)| p.1)
    }

    /// Offsets are the cumulative sample counts, every block is well-formed,
    /// and the total length fits the machine.
    pub closed spec fn wf(&self) -> bool {
        &&& forall|i: int|
            0 <= i < self.blocks@.len() ==> (#[trigger] self.blocks@[i]).1.wf()
                && self.blocks@[i].0 as int == pre(self.bseq(), i)
        &&& cat(self.bseq()).len() <= usize::MAX
    }

    /// The empty channel.
    pub fn new() -> (s: BlockSequence)
        ensures
            s.wf(),
            s@ == Seq::<i64>::empty(),
    {
        let s = BlockSequence { blocks: Vec::new() };
        proof {
            assert(s.bseq() =~= Seq::<Block>::empty());
        }
        s
    }

    /// Assembles a channel from a row of blocks, computing their offsets:
    /// the given blocks become the channel's blocks, in order.
    pub fn from_blocks(blocks: Vec<Block>) -> (s: BlockSequence)
        requires
            forall|i: int| 0 <= i < blocks@.len() ==> (#[trigger] blocks@[i]).wf(),
            cat(blocks@).len() <= usize::MAX,
        ensures
            s.wf(),
            s.bseq() == blocks@,
            s@ == cat(blocks@),
    {
        let mut out: Vec<(usize, Block)> = Vec::new();
        let mut count: usize = 0;
        let n = blocks.len();
        let mut i: usize = 0;
        while i < n
            invariant
                n == blocks@.len(),
                i <= n,
                forall|j: int| 0 <= j < blocks@.len() ==> (#[trigger] blocks@[j]).wf(),
                cat(blocks@).len() <= usize::MAX,
                out@.len() == i,
                out@.map_values(|p: (usize, Block)| p.1) =~= blocks@.take(i as int),
                forall|j: int|
                    0 <= j < i ==> (#[trigger] out@[j]).1 == blocks@[j] && out@[j].0 as int == pre(
                        blocks@,
                        j,
                    ),
                count as int == pre(blocks@, i as int),
            decreases n - i,
        {
            let b = (&blocks[i]).clone();
            let bl = b.len();
            proof {
                lemma_pre_step(blocks@, i as int);
                lemma_pre_mono(blocks@, i as int + 1, blocks@.len() as int);
                lemma_pre_full(blocks@);
            }
            out.push((count, b));
            count = count + bl;
            i = i + 1;
        }
        let s = BlockSequence { blocks: out };
        proof {
            assert(s.bseq() =~= blocks@);
            assert(forall|j: int|
                0 <= j < s.blocks@.len() ==> (#[trigger] s.blocks@[j]).1.wf()
                    && s.blocks@[j].0 as int == pre(s.bseq(), j)) by {
                assert(forall|j: int|
                    0 <= j < s.blocks@.len() ==> s.bseq().take(j) =~= blocks@.take(j));
            }
        }
        s
    }

    /// A channel holding a single block.
    pub fn from_block(b: Block) -> (s: BlockSequence)
        requires
            b.wf(),
        ensures
            s.wf(),
            s.bseq() == seq![b],
            s@ == b@,
    {
        let mut v: Vec<Block> = Vec::new();
        proof {
            lemma_cat_push(v@, b);
            b.lemma_len_bound();
            assert(cat(v@.push(b)) =~= b@);
        }
        v.push(b);
        let s = BlockSequence::from_blocks(v);
        s
    }

    /// Total number of samples in the channel.
    pub fn len(&self) -> (n: usize)
        requires
            self.wf(),
        ensures
            n == self@.len(),
    {
        let bn = self.blocks.len();
        if bn == 0 {
            proof {
                assert(self.bseq() =~= Seq::<Block>::empty());
            }
            0
        } else {
            proof {
                lemma_pre_step(self.bseq(), bn - 1);
                lemma_pre_full(self.bseq());
            }
            let off = self.blocks[bn - 1].0;
            let l = self.blocks[bn - 1].1.len();
            off + l
        }
    }

    /// How many blocks compose the channel.
    pub fn blocks_len(&self) -> (n: usize)
        ensures
            n == self.bseq().len(),
    {
        self.blocks.len()
    }

    /// The offset and block at position `block_idx`, if any.
    pub fn get_block(&self, block_idx: usize) -> (r: Option<(usize, Block)>)
        requires
            self.wf(),
        ensures
            block_idx < self.bseq().len() ==> (r matches Some(p) && p.0 as int == pre(
                self.bseq(),
                block_idx as int,
            ) && p.1 == self.bseq()[block_idx as int]),
            block_idx >= self.bseq().len() ==> r is None,
    {
        if block_idx < self.blocks.len() {
            let off = self.blocks[block_idx].0;
            let b = self.blocks[block_idx].1.clone();
            Some((off, b))
        } else {
            None
        }
    }

    /// Binary search for the block whose span contains sample `idx`:
    /// `Some` exactly when `idx` is below the channel's length.
    #[verifier::rlimit(50)]
    pub fn get_containing_block_index(&self, idx: usize) -> (r: Option<usize>)
        requires
            self.wf(),
        ensures
            match r {
                Some(k) => {
                    &&& k < self.bseq().len()
                    &&& pre(self.bseq(), k as int) <= idx as int
                    &&& (idx as int) < pre(self.bseq(), k as int) + self.bseq()[k as int]@.len()
                    &&& (idx as int) < self@.len()
                },
                None => idx >= self@.len(),
            },
    {
        let v = Ghost(self.bseq());
        let mut lo: usize = 0;
        let mut hi: usize = self.blocks.len();
        while lo < hi
            invariant
                self.wf(),
                v@ == self.bseq(),
                lo <= hi <= v@.len(),
                forall|j: int| 0 <= j < lo ==> pre(v@, j) + (#[trigger] v@[j])@.len() <= idx as int,
                forall|j: int| hi <= j < v@.len() ==> idx < #[trigger] pre(v@, j),
            decreases hi - lo,
        {
            let mid = lo + (hi - lo) / 2;
            let off = self.blocks[mid].0;
            let blen = self.blocks[mid].1.len();
            proof {
                lemma_pre_step(v@, mid as int);
                lemma_pre_mono(v@, mid as int + 1, v@.len() as int);
                lemma_pre_full(v@);
            }
            if idx < off {
                proof {
                    assert forall|j: int| mid <= j < v@.len() implies idx < #[trigger] pre(v@, j) by {
                        lemma_pre_mono(v@, mid as int, j);
                    }
                }
                hi = mid;
            } else if idx - off >= blen {
                proof {
                    lemma_pre_step(v@, mid as int);
                    assert forall|j: int| 0 <= j < mid + 1 implies pre(v@, j) + (#[trigger] v@[j])@.len()
                        <= idx as int by {
                        lemma_pre_step(v@, j);
                        lemma_pre_mono(v@, j + 1, mid as int + 1);
                    }
                }
                lo = mid + 1;
            } else {
                proof {
                    lemma_cat_index(v@, mid as int, idx as int);
                }
                return Some(mid);
            }
        }
        proof {
            if (idx as int) < self@.len() {
                lemma_exists_containing(v@, idx as int);
                let k = choose|k: int|
                    0 <= k < v@.len() && pre(v@, k) <= (idx as int) < pre(v@, k) + (
                    #[trigger] v@[k])@.len();
                assert(false);
            }
        }
        None
    }

    /// The sample at `idx`, or nothing past the end of the channel.
    pub fn get_sample(&self, idx: usize) -> (r: Option<i64>)
        requires
            self.wf(),
        ensures
            (idx as int) < self@.len() ==> r == Some(self@[idx as int]),
            idx as int >= self@.len() ==> r is None,
    {
        match self.get_containing_block_index(idx) {
            Some(k) => {
                let off = self.blocks[k].0;
                proof {
                    lemma_cat_index(self.bseq(), k as int, idx as int);
                }
                self.blocks[k].1.get_sample(idx - off)
            },
            None => None,
        }
    }
}


/// A query range clamped to the channel: the end first, then the start.
pub open spec fn clip_end(end: int, len: int) -> int {
    if end > len {
        len
    } else {
        end
    }
}

/// Where a clamped query range begins.
pub open spec fn clip_start(start: int, end: int, len: int) -> int {
    let e = clip_end(end, len);
    if start > e {
        e
    } else {
        start
    }
}

/// Concatenation distributes over appending rows of blocks.
pub proof fn lemma_cat_concat(a: Seq<Block>, b: Seq<Block>)
    ensures
        cat(a + b) == cat(a) + cat(b),
    decreases b.len(),
{
    if b.len() == 0 {
        assert(a + b =~= a);
        assert(cat(a) + cat(b) =~= cat(a));
    } else {
        assert((a + b).drop_last() =~= a + b.drop_last());
        lemma_cat_concat(a, b.drop_last());
        assert((a + b).last() == b.last());
        assert(cat(a) + cat(b.drop_last()) + b.last()@ =~= cat(a) + cat(b));
    }
}

impl BlockSequence {
    /// The chunks of `[start, end)` (clamped to the channel): each block's
    /// sub-range clipped to the query bounds, in order.  This is the sole
    /// primitive behind every structural edit; the pieces keep their original
    /// buffers.
    pub fn chunks(&self, start: usize, end: usize) -> (out: Vec<Block>)
        requires
            self.wf(),
        ensures
            forall|i: int| 0 <= i < out@.len() ==> (#[trigger] out@[i]).wf(),
            forall|i: int| 0 <= i < out@.len() ==> (#[trigger] out@[i])@.len() > 0,
            cat(out@) == self@.subrange(
                clip_start(start as int, end as int, self@.len() as int),
                clip_end(end as int, self@.len() as int),
            ),
    {
        let n = self.len();
        let e = if end > n {
            n
        } else {
            end
        };
        let s = if start > e {
            e
        } else {
            start
        };
        let mut out: Vec<Block> = Vec::new();
        let mut cur = s;
        proof {
            assert(cat(out@) =~= self@.subrange(s as int, s as int));
        }
        while cur < e
            invariant
                self.wf(),
                s <= cur <= e,
                e <= self@.len(),
                forall|i: int| 0 <= i < out@.len() ==> (#[trigger] out@[i]).wf(),
                forall|i: int| 0 <= i < out@.len() ==> (#[trigger] out@[i])@.len() > 0,
                cat(out@) == self@.subrange(s as int, cur as int),
            decreases e - cur,
        {
            let k = match self.get_containing_block_index(cur) {
                Some(k) => k,
                None => {
                    proof {
                        assert(false);
                    }
                    0
                },
            };
            let off = self.blocks[k].0;
            let blen = self.blocks[k].1.len();
            let piece_start = cur - off;
            let piece_end = if e - off < blen {
                e - off
            } else {
                blen
            };
            let piece = self.blocks[k].1.rng(piece_start, piece_end);
            proof {
                lemma_cat_slice(self.bseq(), k as int);
                assert(piece@ =~= self@.subrange(cur as int, off as int + piece_end as int));
                lemma_cat_push(out@, piece);
                assert(cat(out@.push(piece)) =~= self@.subrange(
                    s as int,
                    off as int + piece_end as int,
                ));
            }
            out.push(piece);
            cur = off + piece_end;
        }
        out
    }

    /// The channel restricted to `[start, end)` (clamped), as a new channel
    /// sharing the original blocks.
    pub fn sub_seq(&self, start: usize, end: usize) -> (r: BlockSequence)
        requires
            self.wf(),
        ensures
            r.wf(),
            r@ == self@.subrange(
                clip_start(start as int, end as int, self@.len() as int),
                clip_end(end as int, self@.len() as int),
            ),
    {
        BlockSequence::from_blocks(self.chunks(start, end))
    }

    /// All samples of `[start, end)` (clamped), materialised in order.
    pub fn samples(&self, start: usize, end: usize) -> (v: Vec<i64>)
        requires
            self.wf(),
        ensures
            v@ == self@.subrange(
                clip_start(start as int, end as int, self@.len() as int),
                clip_end(end as int, self@.len() as int),
            ),
    {
        let ch = self.chunks(start, end);
        let mut v: Vec<i64> = Vec::new();
        let n = ch.len();
        let mut i: usize = 0;
        while i < n
            invariant
                n == ch@.len(),
                i <= n,
                forall|j: int| 0 <= j < ch@.len() ==> (#[trigger] ch@[j]).wf(),
                v@ == cat(ch@.take(i as int)),
            decreases n - i,
        {
            let mut piece = ch[i].samples();
            proof {
                lemma_pre_step(ch@, i as int);
                assert(ch@.take(i as int + 1).drop_last() =~= ch@.take(i as int));
                assert(v@ + piece@ =~= cat(ch@.take(i as int + 1)));
            }
            v.append(&mut piece);
            i = i + 1;
        }
        proof {
            assert(ch@.take(n as int) =~= ch@);
        }
        v
    }

    /// Removes `[start, end)` (normalised and clamped): what was before the
    /// range is glued to what was after it.  Untouched blocks are shared.
    pub fn delete(&self, start: usize, end: usize) -> (r: BlockSequence)
        requires
            self.wf(),
        ensures
            r.wf(),
            r@ == self@.subrange(0, min2(min2(start as int, end as int), self@.len() as int))
                + self@.subrange(
                min2(max2(start as int, end as int), self@.len() as int),
                self@.len() as int,
            ),
    {
        let (s2, e2) = if start <= end {
            (start, end)
        } else {
            (end, start)
        };
        let n = self.len();
        let mut prev = self.chunks(0, s2);
        let mut post = self.chunks(e2, n);
        proof {
            lemma_cat_concat(prev@, post@);
        }
        prev.append(&mut post);
        BlockSequence::from_blocks(prev)
    }

    /// Inserts the samples of `datums` at position `at`; if `at` lies past
    /// the end, the gap is padded with silence first.
    pub fn insert(&self, at: usize, datums: &BlockSequence) -> (r: BlockSequence)
        requires
            self.wf(),
            datums.wf(),
            max2(at as int, self@.len() as int) + datums@.len() <= usize::MAX,
        ensures
            r.wf(),
            at <= self@.len() ==> r@ == self@.subrange(0, at as int) + datums@ + self@.subrange(
                at as int,
                self@.len() as int,
            ),
            at > self@.len() ==> r@ == self@ + zeros((at - self@.len()) as nat) + datums@,
    {
        let n = self.len();
        let dn = datums.len();
        if at > n {
            let mut v = self.chunks(0, n);
            let pad = crate::blocks::block::Block::silence(at - n);
            proof {
                lemma_cat_push(v@, pad);
            }
            v.push(pad);
            let mut mid = datums.chunks(0, dn);
            proof {
                lemma_cat_concat(v@, mid@);
                assert(self@.subrange(0, n as int) =~= self@);
                assert(datums@.subrange(0, dn as int) =~= datums@);
            }
            v.append(&mut mid);
            let r = BlockSequence::from_blocks(v);
            r
        } else {
            let mut v = self.chunks(0, at);
            let mut mid = datums.chunks(0, dn);
            proof {
                lemma_cat_concat(v@, mid@);
            }
            v.append(&mut mid);
            let mut post = self.chunks(at, n);
            proof {
                lemma_cat_concat(v@, post@);
                assert(datums@.subrange(0, dn as int) =~= datums@);
            }
            v.append(&mut post);
            let r = BlockSequence::from_blocks(v);
            r
        }
    }

    /// Replaces `[start, end)` (normalised and clamped) with the samples of
    /// `datums`.
    pub fn replace(&self, start: usize, end: usize, datums: &BlockSequence) -> (r: BlockSequence)
        requires
            self.wf(),
            datums.wf(),
            min2(min2(start as int, end as int), self@.len() as int) + datums@.len() + (
            self@.len() - min2(max2(start as int, end as int), self@.len() as int))
                <= usize::MAX,
        ensures
            r.wf(),
            r@ == self@.subrange(0, min2(min2(start as int, end as int), self@.len() as int))
                + datums@ + self@.subrange(
                min2(max2(start as int, end as int), self@.len() as int),
                self@.len() as int,
            ),
    {
        let (s2, e2) = if start <= end {
            (start, end)
        } else {
            (end, start)
        };
        let n = self.len();
        let dn = datums.len();
        let mut v = self.chunks(0, s2);
        let mut mid = datums.chunks(0, dn);
        proof {
            lemma_cat_concat(v@, mid@);
        }
        v.append(&mut mid);
        let mut post = self.chunks(e2, n);
        proof {
            lemma_cat_concat(v@, post@);
            assert(datums@.subrange(0, dn as int) =~= datums@);
        }
        v.append(&mut post);
        BlockSequence::from_blocks(v)
    }
}

impl Clone for BlockSequence {
    /// Another handle on the same blocks; sample buffers stay shared.
    fn clone(&self) -> (r: Self)
        ensures
            r@ == self@,
            self.wf() ==> r.wf(),
    {
        let n = self.blocks.len();
        let mut out: Vec<(usize, Block)> = Vec::new();
        let mut i: usize = 0;
        while i < n
            invariant
                n == self.blocks@.len(),
                i <= n,
                out@ =~= self.blocks@.take(i as int),
            decreases n - i,
        {
            let off = self.blocks[i].0;
            let b = self.blocks[i].1.clone();
            out.push((off, b));
            proof {
                assert(out@ =~= self.blocks@.take(i as int + 1));
            }
            i = i + 1;
        }
        proof {
            assert(out@ =~= self.blocks@);
            let r = BlockSequence { blocks: out };
            assert(r.bseq() =~= self.bseq());
        }
        BlockSequence { blocks: out }
    }
}


impl BlockSequence {
    /// Rebuilds the channel with `f` applied to every sample of
    /// `[start, end)` (clamped); the surrounding chunks keep their original
    /// blocks, the middle becomes one fresh data block.
    pub fn map_rng<F: Fn(i64) -> i64>(&self, start: usize, end: usize, f: &F) -> (r: BlockSequence)
        requires
            self.wf(),
            start <= end,
            forall|x: i64| #[trigger] f.requires((x,)),
        ensures
            r.wf(),
            r@.len() == self@.len(),
            forall|i: int|
                0 <= i < clip_start(start as int, end as int, self@.len() as int) ==> r@[i]
                    == self@[i],
            forall|i: int|
                clip_end(end as int, self@.len() as int) <= i < self@.len() ==> r@[i] == self@[i],
            forall|i: int|
                clip_start(start as int, end as int, self@.len() as int) <= i < clip_end(
                    end as int,
                    self@.len() as int,
                ) ==> call_ensures(*f, (self@[i],), #[trigger] r@[i]),
    {
        let ghost len = self@.len() as int;
        let ghost cs = clip_start(start as int, end as int, len);
        let ghost ce = clip_end(end as int, len);
        let mid = self.samples(start, end);
        let mut mapped: Vec<i64> = Vec::new();
        let mn = mid.len();
        let mut j: usize = 0;
        while j < mn
            invariant
                mn == mid@.len(),
                j <= mn,
                mapped@.len() == j,
                forall|x: i64| #[trigger] f.requires((x,)),
                forall|k: int| 0 <= k < j ==> call_ensures(*f, (mid@[k],), #[trigger] mapped@[k]),
            decreases mn - j,
        {
            let y = f(mid[j]);
            mapped.push(y);
            j = j + 1;
        }
        let mut v = self.chunks(0, start);
        let mb = crate::blocks::block::Block::data(mapped);
        proof {
            lemma_cat_push(v@, mb);
        }
        v.push(mb);
        let n = self.len();
        let mut post = self.chunks(end, n);
        proof {
            lemma_cat_concat(v@, post@);
        }
        v.append(&mut post);
        let r = BlockSequence::from_blocks(v);
        proof {
            assert(clip_start(0, start as int, len) == 0);
            assert(clip_end(start as int, len) == cs);
            assert(clip_start(end as int, n as int, len) == ce);
            assert(r@ =~= self@.subrange(0, cs) + mapped@ + self@.subrange(ce, len));
            assert(r@.len() == self@.len());
            assert forall|i: int| 0 <= i < cs implies r@[i] == self@[i] by {
                assert(r@[i] == self@.subrange(0, cs)[i]);
            }
            assert forall|i: int| ce <= i < len implies r@[i] == self@[i] by {
                assert(r@[i] == self@.subrange(ce, len)[i - ce]);
            }
            assert forall|i: int| cs <= i < ce implies call_ensures(*f, (self@[i],), #[trigger] r@[i]) by {
                assert(r@[i] == mapped@[i - cs]);
                assert(mid@[i - cs] == self@.subrange(cs, ce)[i - cs]);
            }
        }
        r
    }

    /// Min/max over the span between `st` and `end` (normalised, so the
    /// endpoint order does not matter).  A query at a single in-range point
    /// yields that sample twice; a query starting past the end yields
    /// `(0, 0)`; otherwise the chunk summaries are folded into a running
    /// min/max.
    pub fn summary(&self, st: usize, end: usize) -> (r: (i64, i64))
        requires
            self.wf(),
        ensures
            min2(st as int, end as int) >= self@.len() ==> r == (0i64, 0i64),
            st == end && (st as int) < self@.len() ==> r == (self@[st as int], self@[st as int]),
            min2(st as int, end as int) < max2(st as int, end as int) && min2(st as int, end as int)
                < self@.len() ==> r.0 as int == seq_min(
                self@.subrange(
                    min2(st as int, end as int),
                    clip_end(max2(st as int, end as int), self@.len() as int),
                ),
            ) && r.1 as int == seq_max(
                self@.subrange(
                    min2(st as int, end as int),
                    clip_end(max2(st as int, end as int), self@.len() as int),
                ),
            ),
    {
        let (s2, e2) = if st <= end {
            (st, end)
        } else {
            (end, st)
        };
        let n = self.len();
        if s2 >= n {
            return (0, 0);
        }
        if s2 == e2 {
            let v = match self.get_sample(s2) {
                Some(v) => v,
                None => {
                    proof {
                        assert(false);
                    }
                    0
                },
            };
            return (v, v);
        }
        let ghost ce = clip_end(e2 as int, self@.len() as int);
        let ch = self.chunks(s2, e2);
        let cn = ch.len();
        let mut mn = i64::MAX;
        let mut mx = i64::MIN;
        let mut i: usize = 0;
        let ghost pos = s2 as int;
        proof {
            assert(self@.subrange(s2 as int, pos) =~= Seq::<i64>::empty());
        }
        while i < cn
            invariant
                self.wf(),
                cn == ch@.len(),
                i <= cn,
                forall|j: int| 0 <= j < ch@.len() ==> (#[trigger] ch@[j]).wf(),
                forall|j: int| 0 <= j < ch@.len() ==> (#[trigger] ch@[j])@.len() > 0,
                cat(ch@) == self@.subrange(s2 as int, ce),
                s2 as int <= ce <= self@.len(),
                pos == s2 + pre(ch@, i as int),
                pos <= ce,
                mn as int == seq_min(self@.subrange(s2 as int, pos)),
                mx as int == seq_max(self@.subrange(s2 as int, pos)),
            decreases cn - i,
        {
            let (cmin, cmax) = ch[i].summary();
            proof {
                lemma_cat_slice(ch@, i as int);
                lemma_pre_step(ch@, i as int);
                lemma_pre_mono(ch@, i as int + 1, ch@.len() as int);
                lemma_pre_full(ch@);
                let clen = ch@[i as int]@.len() as int;
                assert(ch@[i as int]@ =~= self@.subrange(pos, pos + clen));
                lemma_minmax_concat(
                    self@.subrange(s2 as int, pos),
                    self@.subrange(pos, pos + clen),
                );
                assert(self@.subrange(s2 as int, pos) + self@.subrange(pos, pos + clen)
                    =~= self@.subrange(s2 as int, pos + clen));
                pos = pos + clen;
            }
            if cmin < mn {
                mn = cmin;
            }
            if cmax > mx {
                mx = cmax;
            }
            i = i + 1;
        }
        proof {
            lemma_pre_full(ch@);
            assert(pos == ce);
        }
        (mn, mx)
    }
}


/// Length bookkeeping of the three structural edits matches a flat-buffer
/// model: deleting `[s, e)` shortens the channel by `e - s`, inserting a
/// buffer lengthens it by that buffer, and replacing does both at once.
pub proof fn lemma_edit_lengths(v: Seq<i64>, s: int, e: int, d: Seq<i64>)
    requires
        0 <= s <= e <= v.len(),
    ensures
        (v.subrange(0, s) + v.subrange(e, v.len() as int)).len() == v.len() - (e - s),
        (v.subrange(0, s) + d + v.subrange(s, v.len() as int)).len() == v.len() + d.len(),
        (v.subrange(0, s) + d + v.subrange(e, v.len() as int)).len() == v.len() - (e - s)
            + d.len(),
{
}

/// Deleting `[s, e)` and then inserting the extracted samples back at `s`
/// restores the original sample content exactly.
pub proof fn lemma_delete_insert_roundtrip(v: Seq<i64>, s: int, e: int)
    requires
        0 <= s <= e <= v.len(),
    ensures
        ({
            let deleted = v.subrange(0, s) + v.subrange(e, v.len() as int);
            let extracted = v.subrange(s, e);
            deleted.subrange(0, s) + extracted + deleted.subrange(s, deleted.len() as int) == v
        }),
{
    let deleted = v.subrange(0, s) + v.subrange(e, v.len() as int);
    let extracted = v.subrange(s, e);
    assert(deleted.subrange(0, s) =~= v.subrange(0, s));
    assert(deleted.subrange(s, deleted.len() as int) =~= v.subrange(e, v.len() as int));
    assert(deleted.subrange(0, s) + extracted + deleted.subrange(s, deleted.len() as int) =~= v);
}

} // verus!
