//! Effects that rewrite the selected span: reversing the sample order.

use vstd::prelude::*;
use crate::blocks::sequence::{BlockSequence, clip_start, clip_end};
use super::ctx::Ctx;
use super::util::{active, flipped_from, replace_view, lemma_chan_lens_match};

verus! {

/// A channel with its selected span reversed in place.
pub open spec fn reversed_chan(v: Seq<i64>, s: int, e: int) -> Seq<i64> {
    replace_view(v, s, e, v.subrange(clip_start(s, e, v.len() as int), clip_end(e, v.len() as int)).reverse())
}

/// Reverses the selected samples of every active channel; the chunks around
/// the selection keep their original blocks.
pub fn reverse(ctx: &Ctx) -> (r: Ctx)
    requires
        ctx.wf(),
    ensures
        r.wf(),
        ({
            let s = ctx.spec_sample_start();
            let e = ctx.spec_sample_end();
            let chs = ctx.snd.chans();
            &&& r.snd.chans().len() == chs.len()
            &&& forall|i: int|
                0 <= i < chs.len() ==> #[trigger] r.snd.chans()[i] == if active(*ctx, i) {
                    reversed_chan(chs[i], s, e)
                } else {
                    chs[i]
                }
            &&& flipped_from(r, *ctx, r.snd.chans(), ctx.snd.spec_sample_rate())
        }),
{
    let (s, e) = ctx.sample_region();
    let cn = ctx.snd.channels();
    let mut out: Vec<BlockSequence> = Vec::new();
    let mut i: usize = 0;
    while i < cn
        invariant
            ctx.wf(),
            s as int == ctx.spec_sample_start(),
            e as int == ctx.spec_sample_end(),
            s <= e,
            cn == ctx.snd.chans().len(),
            i <= cn,
            out@.len() == i,
            forall|j: int| 0 <= j < i ==> (#[trigger] out@[j]).wf(),
            forall|j: int|
                0 <= j < i ==> (#[trigger] out@[j])@ == if active(*ctx, j) {
                    reversed_chan(ctx.snd.chans()[j], s as int, e as int)
                } else {
                    ctx.snd.chans()[j]
                },
        decreases cn - i,
    {
        let seq_i = match ctx.snd.channel(i) {
            Some(c) => c,
            None => vstd::pervasive::unreached(),
        };
        if ctx.channels.is_on(i) {
            let nc = reverse_channel(seq_i, s, e);
            out.push(nc);
        } else {
            out.push(seq_i.clone());
        }
        i = i + 1;
    }
    proof {
        assert forall|j: int| 0 <= j < cn implies (#[trigger] out@[j])@.len()
            == ctx.snd.chans()[j].len() by {
        }
        lemma_chan_lens_match(out@, ctx.snd.chans());
        ctx.snd.lemma_wf_rate();
    }
    let sr = ctx.snd.sample_rate();
    super::util::flip_assemble(ctx, sr, out)
}

/// Rebuilds one channel with `[s, e)` (clamped) reversed.
fn reverse_channel(seq: &BlockSequence, s: usize, e: usize) -> (r: BlockSequence)
    requires
        seq.wf(),
        s <= e,
    ensures
        r.wf(),
        r@ == reversed_chan(seq@, s as int, e as int),
{
    let mid = seq.samples(s, e);
    let mn = mid.len();
    let mut rev: Vec<i64> = Vec::new();
    let mut k: usize = 0;
    while k < mn
        invariant
            mn == mid@.len(),
            k <= mn,
            rev@.len() == k,
            forall|j: int| 0 <= j < k ==> #[trigger] rev@[j] == mid@[mn - 1 - j],
        decreases mn - k,
    {
        let x = mid[mn - 1 - k];
        rev.push(x);
        k = k + 1;
    }
    proof {
        assert(rev@ =~= mid@.reverse());
    }
    let mb = crate::blocks::block::Block::data(rev);
    let ms = BlockSequence::from_block(mb);
    let total = seq.len();
    proof {
        assert(seq@.len() == total);
    }
    let r = seq.replace(s, e, &ms);
    proof {
        assert(r@ =~= reversed_chan(seq@, s as int, e as int));
    }
    r
}

} // verus!
