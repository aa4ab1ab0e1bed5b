//! Per-channel operations: soloing, deleting and adding channels.

use vstd::prelude::*;
use crate::blocks::sequence::BlockSequence;
use crate::blocks::block::Block;
use crate::snd::snd_len;
use crate::samples::zeros;
use super::ctx::Ctx;
use super::util::{flipped_from, revalidated, lemma_snd_len_ub};
use crate::util::channel_mask::mask_bit;

verus! {

/// Keeps only the given channel (none if it does not exist) and marks it
/// the sole active channel.
pub fn solo(ctx: &Ctx, channel: usize) -> (r: Ctx)
    requires
        ctx.wf(),
    ensures
        r.wf(),
        channel < ctx.snd.chans().len() ==> r.snd.chans() =~= seq![
            ctx.snd.chans()[channel as int],
        ],
        channel >= ctx.snd.chans().len() ==> r.snd.chans() =~= Seq::<Seq<i64>>::empty(),
        r.channels.spec_bits() == 1u32,
        revalidated(r, *ctx, r.snd.chans()),
        r.snd.spec_sample_rate() == ctx.snd.spec_sample_rate(),
        r.ruler == ctx.ruler,
        r.zoom == ctx.zoom,
        r.slide == ctx.slide,
        r.loop_mode == ctx.loop_mode,
{
    let cn = ctx.snd.channels();
    let mut out: Vec<BlockSequence> = Vec::new();
    if channel < cn {
        let c = match ctx.snd.channel(channel) {
            Some(c) => c,
            None => vstd::pervasive::unreached(),
        };
        out.push(c.clone());
        proof {
            crate::snd::lemma_snd_len_ge(ctx.snd.chans(), channel as int);
            crate::snd::lemma_snd_len_nonneg(ctx.snd.chans());
            lemma_snd_len_ub(
                out@.map_values(|c: BlockSequence| c@),
                snd_len(ctx.snd.chans()),
            );
        }
    } else {
        proof {
            crate::snd::lemma_snd_len_nonneg(ctx.snd.chans());
            assert(out@.map_values(|c: BlockSequence| c@) =~= Seq::<Seq<i64>>::empty());
            lemma_snd_len_ub(
                out@.map_values(|c: BlockSequence| c@),
                snd_len(ctx.snd.chans()),
            );
        }
    }
    proof {
        ctx.snd.lemma_wf_rate();
    }
    let sr = ctx.snd.sample_rate();
    let mut r = super::util::flip_assemble(ctx, sr, out);
    r.channels.solo();
    r
}

/// Removes the given channel from the sound and shifts the mask down past
/// it; a channel index past the end leaves the channels unchanged.
pub fn delete(ctx: &Ctx, channel: usize) -> (r: Ctx)
    requires
        ctx.wf(),
        channel < 32,
    ensures
        r.wf(),
        ({
            let chs = ctx.snd.chans();
            &&& (channel < chs.len() ==> r.snd.chans().len() == chs.len() - 1 && forall|i: int|
                0 <= i < r.snd.chans().len() ==> #[trigger] r.snd.chans()[i] == (if i
                    < channel as int {
                    chs[i]
                } else {
                    chs[i + 1]
                }))
            &&& (channel >= chs.len() ==> r.snd.chans() =~= chs)
        }),
        r.snd.spec_sample_rate() == ctx.snd.spec_sample_rate(),
        revalidated(r, *ctx, r.snd.chans()),
        forall|c: int|
            0 <= c && c + 1 < channel as int ==> #[trigger] mask_bit(r.channels.spec_bits(), c)
                == mask_bit(ctx.channels.spec_bits(), c),
        channel >= 1 ==> mask_bit(r.channels.spec_bits(), channel as int - 1) == (mask_bit(
            ctx.channels.spec_bits(),
            channel as int - 1,
        ) || mask_bit(ctx.channels.spec_bits(), channel as int)),
        forall|c: int|
            channel as int <= c < 32 ==> #[trigger] mask_bit(r.channels.spec_bits(), c) == (c + 1
                < 32 && mask_bit(ctx.channels.spec_bits(), c + 1)),
        r.ruler == ctx.ruler,
        r.zoom == ctx.zoom,
        r.slide == ctx.slide,
        r.loop_mode == ctx.loop_mode,
{
    let cn = ctx.snd.channels();
    let mut out: Vec<BlockSequence> = Vec::new();
    let mut i: usize = 0;
    while i < cn
        invariant
            ctx.wf(),
            cn == ctx.snd.chans().len(),
            i <= cn,
            channel < cn ==> out@.len() == if i <= channel {
                i as int
            } else {
                i - 1
            },
            channel >= cn ==> out@.len() == i,
            forall|j: int| 0 <= j < out@.len() ==> (#[trigger] out@[j]).wf(),
            forall|j: int|
                0 <= j < out@.len() ==> (#[trigger] out@[j])@ == (if j < channel as int {
                    ctx.snd.chans()[j]
                } else {
                    ctx.snd.chans()[j + 1]
                }),
        decreases cn - i,
    {
        if i != channel {
            let c = match ctx.snd.channel(i) {
                Some(c) => c,
                None => vstd::pervasive::unreached(),
            };
            out.push(c.clone());
        }
        i = i + 1;
    }
    proof {
        crate::snd::lemma_snd_len_nonneg(ctx.snd.chans());
        let m = out@.map_values(|c: BlockSequence| c@);
        assert forall|j: int| 0 <= j < m.len() implies (#[trigger] m[j]).len() <= snd_len(
            ctx.snd.chans(),
        ) by {
            assert(m[j] == out@[j]@);
            if j < channel as int {
                crate::snd::lemma_snd_len_ge(ctx.snd.chans(), j);
            } else {
                crate::snd::lemma_snd_len_ge(ctx.snd.chans(), j + 1);
            }
        }
        lemma_snd_len_ub(m, snd_len(ctx.snd.chans()));
        ctx.snd.lemma_wf_rate();
    }
    let sr = ctx.snd.sample_rate();
    let mut r = super::util::flip_assemble(ctx, sr, out);
    r.channels.shift_after(channel);
    r
}

/// Appends a fresh silent channel as long as the sound.
pub fn insert(ctx: &Ctx) -> (r: Ctx)
    requires
        ctx.wf(),
        ctx.snd.chans().len() < 32,
    ensures
        r.wf(),
        r.snd.chans() =~= ctx.snd.chans().push(
            zeros(snd_len(ctx.snd.chans()) as nat),
        ),
        r.snd.spec_sample_rate() == ctx.snd.spec_sample_rate(),
        flipped_from(r, *ctx, r.snd.chans(), ctx.snd.spec_sample_rate()),
{
    let cn = ctx.snd.channels();
    let n = ctx.snd.len();
    let mut out: Vec<BlockSequence> = Vec::new();
    let mut i: usize = 0;
    while i < cn
        invariant
            ctx.wf(),
            cn == ctx.snd.chans().len(),
            i <= cn,
            out@.len() == i,
            forall|j: int| 0 <= j < i ==> (#[trigger] out@[j]).wf(),
            forall|j: int| 0 <= j < i ==> (#[trigger] out@[j])@ == ctx.snd.chans()[j],
        decreases cn - i,
    {
        let c = match ctx.snd.channel(i) {
            Some(c) => c,
            None => vstd::pervasive::unreached(),
        };
        out.push(c.clone());
        i = i + 1;
    }
    proof {
        crate::snd::lemma_snd_len_nonneg(ctx.snd.chans());
    }
    let silence = BlockSequence::from_block(Block::silence(n));
    out.push(silence);
    proof {
        let chs2 = ctx.snd.chans().push(zeros(snd_len(ctx.snd.chans()) as nat));
        assert(out@.map_values(|c: BlockSequence| c@) =~= chs2);
        assert forall|j: int| 0 <= j < chs2.len() implies (#[trigger] chs2[j]).len() <= snd_len(
            ctx.snd.chans(),
        ) by {
            if j < ctx.snd.chans().len() {
                crate::snd::lemma_snd_len_ge(ctx.snd.chans(), j);
            }
        }
        lemma_snd_len_ub(chs2, snd_len(ctx.snd.chans()));
        ctx.snd.lemma_wf_rate();
    }
    let sr = ctx.snd.sample_rate();
    super::util::flip_assemble(ctx, sr, out)
}

} // verus!
