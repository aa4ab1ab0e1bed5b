//! Rate conversion: resampling the whole sound to a new rate, and pitch
//! shifting the selection by a rational ratio.

use vstd::prelude::*;
use crate::dsp::{linear_resample, is_linear_resample};
use crate::snd::snd_len;
use crate::blocks::sequence::{BlockSequence, clip_start, clip_end};
use crate::util::fx::{Fx, FX_SCALE, FX_UNIT_BOUND};
use crate::samples::{min2, max2};
use super::ctx::{Ctx, flip_cursor};
use super::util::{active, flipped_from, lemma_snd_len_ub};
use crate::util::channel_mask::mask_bit;

verus! {

/// Resamples every channel to a new sample rate with the linear kernel;
/// the conversion ratio is the exact fraction `old rate / new rate`.
pub fn resample(ctx: &Ctx, rate: usize) -> (r: Ctx)
    requires
        ctx.wf(),
        1 <= rate <= 0xFFFFFFFF,
        ctx.snd.spec_sample_rate() <= 0xFFFFFFFF,
        (max2(snd_len(ctx.snd.chans()), 1) + 1) * (rate as int) + 2 * ctx.snd.spec_sample_rate()
            <= usize::MAX as int,
        ((max2(snd_len(ctx.snd.chans()), 1) + 1) * (rate as int)) / ctx.snd.spec_sample_rate() + 2
            <= FX_UNIT_BOUND as int,
    ensures
        r.wf(),
        r.snd.chans().len() == ctx.snd.chans().len(),
        forall|i: int|
            0 <= i < ctx.snd.chans().len() ==> is_linear_resample(
                #[trigger] r.snd.chans()[i],
                ctx.snd.chans()[i],
                ctx.snd.spec_sample_rate(),
                rate as int,
            ),
        flipped_from(r, *ctx, r.snd.chans(), rate as int),
{
    let sr = ctx.snd.sample_rate();
    proof {
        ctx.snd.lemma_wf_rate();
        crate::snd::lemma_snd_len_nonneg(ctx.snd.chans());
    }
    let cn = ctx.snd.channels();
    let mut out: Vec<BlockSequence> = Vec::new();
    let mut i: usize = 0;
    while i < cn
        invariant
            ctx.wf(),
            cn == ctx.snd.chans().len(),
            i <= cn,
            1 <= rate <= 0xFFFFFFFF,
            1 <= sr as int <= 0xFFFFFFFF,
            sr as int == ctx.snd.spec_sample_rate(),
            (max2(snd_len(ctx.snd.chans()), 1) + 1) * (rate as int) + 2 * (sr as int)
                <= usize::MAX as int,
            ((max2(snd_len(ctx.snd.chans()), 1) + 1) * (rate as int)) / (sr as int) + 2
                <= FX_UNIT_BOUND as int,
            out@.len() == i,
            forall|j: int| 0 <= j < i ==> (#[trigger] out@[j]).wf(),
            forall|j: int|
                0 <= j < i ==> is_linear_resample(
                    (#[trigger] out@[j])@,
                    ctx.snd.chans()[j],
                    sr as int,
                    rate as int,
                ),
            forall|j: int| 0 <= j < i ==> (#[trigger] out@[j])@.len() <= FX_UNIT_BOUND as int,
        decreases cn - i,
    {
        let seq_i = match ctx.snd.channel(i) {
            Some(c) => c,
            None => vstd::pervasive::unreached(),
        };
        let ln = seq_i.len();
        let samples = seq_i.samples(0, ln);
        proof {
            assert(samples@ =~= ctx.snd.chans()[i as int]);
            crate::snd::lemma_snd_len_ge(ctx.snd.chans(), i as int);
            let big = max2(snd_len(ctx.snd.chans()), 1);
            let small = max2(samples@.len() as int, 1);
            assert((small + 1) * (rate as int) <= (big + 1) * (rate as int)) by (nonlinear_arith)
                requires
                    small <= big,
                    0 <= rate as int,
            ;
            vstd::arithmetic::div_mod::lemma_div_is_ordered(
                (small + 1) * (rate as int),
                (big + 1) * (rate as int),
                sr as int,
            );
        }
        let resampled = linear_resample(&samples, sr as u64, rate as u64);
        let nb = crate::blocks::block::Block::data(resampled);
        let nc = BlockSequence::from_block(nb);
        out.push(nc);
        i = i + 1;
    }
    proof {
        let m = out@.map_values(|c: BlockSequence| c@);
        assert forall|j: int| 0 <= j < m.len() implies (#[trigger] m[j]).len()
            <= FX_UNIT_BOUND as int by {
            assert(m[j] == out@[j]@);
        }
        lemma_snd_len_ub(m, FX_UNIT_BOUND as int);
    }
    super::util::flip_assemble(ctx, rate, out)
}

/// What one channel looks like after a pitch shift: active channels have
/// their clamped selection replaced by some linear resampling of it,
/// inactive channels are untouched.
pub open spec fn pitched_chan(
    outv: Seq<i64>,
    srcv: Seq<i64>,
    s: int,
    e: int,
    num: int,
    den: int,
    act: bool,
) -> bool {
    if act {
        exists|p: Seq<i64>|
            is_linear_resample(
                p,
                srcv.subrange(clip_start(s, e, srcv.len() as int), clip_end(e, srcv.len() as int)),
                num,
                den,
            ) && outv == super::util::replace_view(srcv, s, e, p)
    } else {
        outv == srcv
    }
}

/// The highest active channel below `n`, or -1 when none is.
pub open spec fn last_active(bits: u32, n: int) -> int
    decreases n,
{
    if n <= 0 {
        -1
    } else if mask_bit(bits, n - 1) {
        n - 1
    } else {
        last_active(bits, n - 1)
    }
}

/// The highest active channel index stays below the channel count.
pub proof fn lemma_last_active_range(bits: u32, n: int)
    requires
        0 <= n,
    ensures
        -1 <= last_active(bits, n) < n,
    decreases n,
{
    if n > 0 {
        lemma_last_active_range(bits, n - 1);
    }
}

/// How many samples the pitch shift left in a channel's selected span:
/// the channel's new length, less its untouched surroundings.
pub open spec fn shifted_len(outc: Seq<i64>, srcc: Seq<i64>, s: int, e: int) -> int {
    outc.len() - (srcc.len() - (clip_end(e, srcc.len() as int) - clip_start(
        s,
        e,
        srcc.len() as int,
    )))
}

/// Pitch-shifts the selection of every active channel by the exact ratio
/// `num / den` (source frames per output frame) with the linear kernel,
/// and re-aims cursor and selection at the shifted span.
pub fn pitch(ctx: &Ctx, num: u64, den: u64) -> (r: Ctx)
    requires
        ctx.wf(),
        1 <= num <= 0xFFFFFFFF,
        1 <= den <= 0xFFFFFFFF,
        (max2(snd_len(ctx.snd.chans()), 1) + 1) * (den as int) + 2 * (num as int)
            <= usize::MAX as int,
        snd_len(ctx.snd.chans()) + ((max2(snd_len(ctx.snd.chans()), 1) + 1) * (den as int)) / (
        num as int) + 2 <= FX_UNIT_BOUND as int,
    ensures
        r.wf(),
        ({
            let s = ctx.spec_sample_start();
            let e = ctx.spec_sample_end();
            let chs = ctx.snd.chans();
            &&& r.snd.chans().len() == chs.len()
            &&& forall|i: int|
                0 <= i < chs.len() ==> pitched_chan(
                    #[trigger] r.snd.chans()[i],
                    chs[i],
                    s,
                    e,
                    num as int,
                    den as int,
                    active(*ctx, i),
                )
        }),
        r.snd.spec_sample_rate() == ctx.snd.spec_sample_rate(),
        ({
            // The cursor and selection re-aim at the shifted span (clamped
            // into the new sound), or re-validate as any sound swap does.
            let chs = ctx.snd.chans();
            let bits = ctx.channels.spec_bits();
            let la = last_active(bits, chs.len() as int);
            let s = ctx.spec_sample_start();
            let e = ctx.spec_sample_end();
            let lm = snd_len(r.snd.chans()) * (FX_SCALE as int);
            let osl_m = (if la >= 0 {
                shifted_len(r.snd.chans()[la], chs[la], s, e)
            } else {
                0
            }) * (FX_SCALE as int);
            match (ctx.cursor, ctx.selection) {
                (Option::Some(pt), Option::Some(sl)) => if sl.m() >= 0 {
                    &&& (r.cursor matches Option::Some(rc) && rc.m() == min2(pt.m(), lm))
                    &&& (r.selection matches Option::Some(sv) && sv.m() == min2(
                        osl_m,
                        lm - min2(pt.m(), lm),
                    ))
                } else {
                    &&& (r.cursor matches Option::Some(rc) && rc.m() == min2(
                        max2(pt.m() + osl_m + sl.m(), 0),
                        lm,
                    ))
                    &&& (r.selection matches Option::Some(sv) && sv.m() == max2(
                        -osl_m,
                        -min2(max2(pt.m() + osl_m + sl.m(), 0), lm),
                    ))
                },
                _ => {
                    let cm = match ctx.cursor {
                        Option::Some(c) => Option::Some(c.m()),
                        Option::None => Option::None,
                    };
                    &&& (match r.cursor {
                        Option::Some(rc) => flip_cursor(cm, Option::None, lm) == Option::Some(
                            rc.m(),
                        ),
                        Option::None => flip_cursor(cm, Option::None, lm) is None,
                    })
                    &&& r.selection is None
                },
            }
        }),
        r.ruler == ctx.ruler,
        r.channels == ctx.channels,
        r.zoom == ctx.zoom,
        r.slide == ctx.slide,
        r.loop_mode == ctx.loop_mode,
{
    let (s, e) = ctx.sample_region();
    let cn = ctx.snd.channels();
    let mut out: Vec<BlockSequence> = Vec::new();
    let mut out_sel_len: usize = 0;
    let mut i: usize = 0;
    while i < cn
        invariant
            ctx.wf(),
            cn == ctx.snd.chans().len(),
            i <= cn,
            s as int == ctx.spec_sample_start(),
            e as int == ctx.spec_sample_end(),
            s <= e,
            1 <= num <= 0xFFFFFFFF,
            1 <= den <= 0xFFFFFFFF,
            (max2(snd_len(ctx.snd.chans()), 1) + 1) * (den as int) + 2 * (num as int)
                <= usize::MAX as int,
            snd_len(ctx.snd.chans()) + ((max2(snd_len(ctx.snd.chans()), 1) + 1) * (den as int)) / (
            num as int) + 2 <= FX_UNIT_BOUND as int,
            out@.len() == i,
            forall|j: int| 0 <= j < i ==> (#[trigger] out@[j]).wf(),
            forall|j: int|
                0 <= j < i ==> pitched_chan(
                    (#[trigger] out@[j])@,
                    ctx.snd.chans()[j],
                    s as int,
                    e as int,
                    num as int,
                    den as int,
                    active(*ctx, j),
                ),
            forall|j: int|
                0 <= j < i ==> (#[trigger] out@[j])@.len() <= snd_len(ctx.snd.chans()) + ((max2(
                    snd_len(ctx.snd.chans()),
                    1,
                ) + 1) * (den as int)) / (num as int) + 2,
            out_sel_len as int <= FX_UNIT_BOUND as int,
            ({
                let la = last_active(ctx.channels.spec_bits(), i as int);
                &&& (la < 0 ==> out_sel_len == 0)
                &&& (la >= 0 ==> la < i && out_sel_len as int == shifted_len(
                    out@[la]@,
                    ctx.snd.chans()[la],
                    s as int,
                    e as int,
                ))
            }),
        decreases cn - i,
    {
        let ghost out_head = out@;
        let seq_i = match ctx.snd.channel(i) {
            Some(c) => c,
            None => vstd::pervasive::unreached(),
        };
        if ctx.channels.is_on(i) {
            let sub = seq_i.samples(s, e);
            proof {
                crate::snd::lemma_snd_len_ge(ctx.snd.chans(), i as int);
                let big = max2(snd_len(ctx.snd.chans()), 1);
                let small = max2(sub@.len() as int, 1);
                assert((small + 1) * (den as int) <= (big + 1) * (den as int)) by (nonlinear_arith)
                    requires
                        small <= big,
                        0 <= den as int,
                ;
                vstd::arithmetic::div_mod::lemma_div_is_ordered(
                    (small + 1) * (den as int),
                    (big + 1) * (den as int),
                    num as int,
                );
            }
            let p = linear_resample(&sub, num, den);
            let ghost pg = p@;
            out_sel_len = p.len();
            let nb = crate::blocks::block::Block::data(p);
            let ns = BlockSequence::from_block(nb);
            proof {
                crate::snd::lemma_snd_len_nonneg(ctx.snd.chans());
                assert(is_linear_resample(
                    pg,
                    ctx.snd.chans()[i as int].subrange(
                        clip_start(s as int, e as int, ctx.snd.chans()[i as int].len() as int),
                        clip_end(e as int, ctx.snd.chans()[i as int].len() as int),
                    ),
                    num as int,
                    den as int,
                ));
            }
            let nc = seq_i.replace(s, e, &ns);
            proof {
                assert(nc@ == super::util::replace_view(
                    ctx.snd.chans()[i as int],
                    s as int,
                    e as int,
                    pg,
                ));
                crate::snd::lemma_snd_len_ge(ctx.snd.chans(), i as int);
                assert(nc@.len() <= snd_len(ctx.snd.chans()) + ((max2(snd_len(ctx.snd.chans()), 1)
                    + 1) * (den as int)) / (num as int) + 2);
            }
            out.push(nc);
            proof {
                crate::snd::lemma_snd_len_nonneg(ctx.snd.chans());
                assert(last_active(ctx.channels.spec_bits(), i as int + 1) == i as int);
                assert(out_sel_len as int == shifted_len(
                    out@[i as int]@,
                    ctx.snd.chans()[i as int],
                    s as int,
                    e as int,
                ));
            }
        } else {
            out.push(seq_i.clone());
            proof {
                assert(last_active(ctx.channels.spec_bits(), i as int + 1) == last_active(
                    ctx.channels.spec_bits(),
                    i as int,
                ));
                lemma_last_active_range(ctx.channels.spec_bits(), i as int);
            }
        }
        proof {
            let bound = snd_len(ctx.snd.chans()) + ((max2(snd_len(ctx.snd.chans()), 1) + 1) * (
            den as int)) / (num as int) + 2;
            vstd::arithmetic::div_mod::lemma_div_pos_is_pos(
                (max2(snd_len(ctx.snd.chans()), 1) + 1) * (den as int),
                num as int,
            );
            assert(0 <= (max2(snd_len(ctx.snd.chans()), 1) + 1) * (den as int))
                by (nonlinear_arith)
                requires
                    0 <= max2(snd_len(ctx.snd.chans()), 1) + 1,
                    0 <= den as int,
            ;
            assert forall|j: int| 0 <= j < i + 1 implies (#[trigger] out@[j])@.len() <= bound by {
                if j < i {
                    assert(out@[j] == out_head[j]);
                } else {
                    crate::snd::lemma_snd_len_ge(ctx.snd.chans(), j);
                }
            }
            assert forall|j: int| 0 <= j < i + 1 implies pitched_chan(
                (#[trigger] out@[j])@,
                ctx.snd.chans()[j],
                s as int,
                e as int,
                num as int,
                den as int,
                active(*ctx, j),
            ) by {
                if j < i {
                    assert(out@[j] == out_head[j]);
                }
            }
        }
        i = i + 1;
    }
    proof {
        crate::snd::lemma_snd_len_nonneg(ctx.snd.chans());
        let m = out@.map_values(|c: BlockSequence| c@);
        assert forall|j: int| 0 <= j < m.len() implies (#[trigger] m[j]).len()
            <= FX_UNIT_BOUND as int by {
            assert(m[j] == out@[j]@);
            crate::snd::lemma_snd_len_ge(ctx.snd.chans(), j);
        }
        lemma_snd_len_ub(m, FX_UNIT_BOUND as int);
        ctx.snd.lemma_wf_rate();
    }
    let sr = ctx.snd.sample_rate();
    let flipped = super::util::flip_assemble(ctx, sr, out);
    // Re-aim cursor and selection at the shifted span, as far as the new
    // sound allows.
    let new_len_fx = Fx::from_usize(flipped.snd.len());
    proof {
        crate::snd::lemma_snd_len_nonneg(flipped.snd.chans());
        lemma_last_active_range(ctx.channels.spec_bits(), cn as int);
        assert(0 <= snd_len(flipped.snd.chans()) * (FX_SCALE as int) && snd_len(
            flipped.snd.chans(),
        ) * (FX_SCALE as int) <= (FX_UNIT_BOUND as int) * (FX_SCALE as int)) by (nonlinear_arith)
            requires
                0 <= snd_len(flipped.snd.chans()) <= FX_UNIT_BOUND as int,
        ;
        assert(0 <= (out_sel_len as int) * (FX_SCALE as int) && (out_sel_len as int) * (
        FX_SCALE as int) <= (FX_UNIT_BOUND as int) * (FX_SCALE as int)) by (nonlinear_arith)
            requires
                0 <= out_sel_len as int <= FX_UNIT_BOUND as int,
        ;
    }
    match (&ctx.cursor, &ctx.selection) {
        (Some(pt), Some(sl)) => {
            let osl = Fx::from_usize(out_sel_len);
            if !sl.is_neg() {
                let c2 = match &flipped.cursor {
                    Some(c) => *c,
                    None => vstd::pervasive::unreached(),
                };
                let sel2 = osl.min(&new_len_fx.minus(&c2));
                let r = Ctx { selection: Some(sel2), ..flipped };
                r
            } else {
                let moved = pt.plus(&osl).plus(sl);
                let zero = Fx::zero();
                let c2 = moved.max(&zero).min(&new_len_fx);
                let sel2 = osl.neg().max(&c2.neg());
                let r = Ctx { cursor: Some(c2), selection: Some(sel2), ..flipped };
                r
            }
        },
        _ => flipped,
    }
}

} // verus!
