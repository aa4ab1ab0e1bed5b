//! Amplitude edits: rational gain, linear fades, and normalisation to a
//! target peak.

use vstd::prelude::*;
use crate::num::{scale_spec, scale_sample, abs2, floor_div_i128};
use crate::blocks::sequence::{BlockSequence, clip_start, clip_end};
use crate::samples::{min2, max2, seq_min, seq_max};
use super::ctx::Ctx;
use super::util::{active, flipped_from};

verus! {

/// The library's nominal full-scale amplitude (what a decoder maps a
/// floating-point sample of one to).
pub const FULL_SCALE: i64 = 0x1000000;

/// A channel with `[s, e)` (clamped to it) scaled by `num / den`.
pub open spec fn scaled_chan(v: Seq<i64>, s: int, e: int, num: int, den: int) -> Seq<i64> {
    Seq::new(
        v.len(),
        |j: int|
            if clip_start(s, e, v.len() as int) <= j < clip_end(e, v.len() as int) {
                scale_spec(v[j] as int, num, den) as i64
            } else {
                v[j]
            },
    )
}

/// Multiplies every selected sample of every active channel by the exact
/// rational factor `num / den` (floor division, saturated to `i64`).
pub fn gain(ctx: &Ctx, num: i64, den: i64) -> (r: Ctx)
    requires
        ctx.wf(),
        0 < den,
    ensures
        r.wf(),
        ({
            let s = ctx.spec_sample_start();
            let e = ctx.spec_sample_end();
            let chs = ctx.snd.chans();
            &&& r.snd.chans().len() == chs.len()
            &&& forall|i: int|
                0 <= i < chs.len() ==> #[trigger] r.snd.chans()[i] == if active(*ctx, i) {
                    scaled_chan(chs[i], s, e, num as int, den as int)
                } else {
                    chs[i]
                }
            &&& flipped_from(r, *ctx, r.snd.chans(), ctx.snd.spec_sample_rate())
        }),
{
    let (s, e) = ctx.sample_region();
    let cn = ctx.snd.channels();
    let mut out: Vec<BlockSequence> = Vec::new();
    let mut i: usize = 0;
    let f = |x: i64| -> (y: i64)
        requires
            0 < den,
        ensures
            y as int == scale_spec(x as int, num as int, den as int),
        { scale_sample(x, num, den) };
    while i < cn
        invariant
            ctx.wf(),
            0 < den,
            s as int == ctx.spec_sample_start(),
            e as int == ctx.spec_sample_end(),
            s <= e,
            cn == ctx.snd.chans().len(),
            i <= cn,
            out@.len() == i,
            forall|x: i64| #[trigger] f.requires((x,)),
            forall|x: i64, y: i64|
                #[trigger] call_ensures(f, (x,), y) ==> y as int == scale_spec(
                    x as int,
                    num as int,
                    den as int,
                ),
            forall|j: int| 0 <= j < i ==> (#[trigger] out@[j]).wf(),
            forall|j: int|
                0 <= j < i ==> (#[trigger] out@[j])@ == if active(*ctx, j) {
                    scaled_chan(ctx.snd.chans()[j], s as int, e as int, num as int, den as int)
                } else {
                    ctx.snd.chans()[j]
                },
        decreases cn - i,
    {
        let seq_i = match ctx.snd.channel(i) {
            Some(c) => c,
            None => vstd::pervasive::unreached(),
        };
        if ctx.channels.is_on(i) {
            let nc = seq_i.map_rng(s, e, &f);
            proof {
                assert(nc@ =~= scaled_chan(
                    ctx.snd.chans()[i as int],
                    s as int,
                    e as int,
                    num as int,
                    den as int,
                ));
            }
            out.push(nc);
        } else {
            out.push(seq_i.clone());
        }
        i = i + 1;
    }
    proof {
        assert forall|j: int| 0 <= j < cn implies (#[trigger] out@[j])@.len()
            == ctx.snd.chans()[j].len() by {
        }
        super::util::lemma_chan_lens_match(out@, ctx.snd.chans());
        ctx.snd.lemma_wf_rate();
    }
    let sr = ctx.snd.sample_rate();
    let r = super::util::flip_assemble(ctx, sr, out);
    r
}

/// The fade factor at step `k` of `cnt`: a numerator walking linearly from
/// `a` to `b` (floor division).
pub open spec fn fade_factor(a: int, b: int, cnt: int, k: int) -> int {
    a + ((b - a) * k) / cnt
}

/// A channel with `[s, e)` (clamped) faded linearly from factor `a/den` to
/// `b/den` across the selection.
pub open spec fn faded_chan(v: Seq<i64>, s: int, e: int, a: int, b: int, den: int) -> Seq<i64> {
    let cs = clip_start(s, e, v.len() as int);
    let ce = clip_end(e, v.len() as int);
    let cnt = if e - s >= 1 {
        e - s
    } else {
        1
    };
    Seq::new(
        v.len(),
        |j: int|
            if cs <= j < ce {
                scale_spec(v[j] as int, fade_factor(a, b, cnt, j - cs), den) as i64
            } else {
                v[j]
            },
    )
}

/// Applies a linear fade over the selected samples of every active channel:
/// sample `k` of the selection is scaled by `(a + (b - a) * k / count) / den`.
pub fn lin_fade(ctx: &Ctx, a: i32, b: i32, den: i64) -> (r: Ctx)
    requires
        ctx.wf(),
        0 < den,
    ensures
        r.wf(),
        ({
            let s = ctx.spec_sample_start();
            let e = ctx.spec_sample_end();
            let chs = ctx.snd.chans();
            &&& r.snd.chans().len() == chs.len()
            &&& forall|i: int|
                0 <= i < chs.len() ==> #[trigger] r.snd.chans()[i] == if active(*ctx, i) {
                    faded_chan(chs[i], s, e, a as int, b as int, den as int)
                } else {
                    chs[i]
                }
            &&& flipped_from(r, *ctx, r.snd.chans(), ctx.snd.spec_sample_rate())
        }),
{
    let (s, e) = ctx.sample_region();
    let cnt: usize = if e - s >= 1 {
        e - s
    } else {
        1
    };
    let cn = ctx.snd.channels();
    let mut out: Vec<BlockSequence> = Vec::new();
    let mut i: usize = 0;
    while i < cn
        invariant
            ctx.wf(),
            0 < den,
            s as int == ctx.spec_sample_start(),
            e as int == ctx.spec_sample_end(),
            s <= e,
            cnt as int == if e - s >= 1 {
                e - s
            } else {
                1int
            },
            cn == ctx.snd.chans().len(),
            i <= cn,
            out@.len() == i,
            forall|j: int| 0 <= j < i ==> (#[trigger] out@[j]).wf(),
            forall|j: int|
                0 <= j < i ==> (#[trigger] out@[j])@ == if active(*ctx, j) {
                    faded_chan(
                        ctx.snd.chans()[j],
                        s as int,
                        e as int,
                        a as int,
                        b as int,
                        den as int,
                    )
                } else {
                    ctx.snd.chans()[j]
                },
        decreases cn - i,
    {
        let seq_i = match ctx.snd.channel(i) {
            Some(c) => c,
            None => vstd::pervasive::unreached(),
        };
        if ctx.channels.is_on(i) {
            let nc = fade_channel(seq_i, s, e, cnt, a, b, den);
            out.push(nc);
        } else {
            out.push(seq_i.clone());
        }
        i = i + 1;
    }
    proof {
        assert forall|j: int| 0 <= j < cn implies (#[trigger] out@[j])@.len()
            == ctx.snd.chans()[j].len() by {
        }
        super::util::lemma_chan_lens_match(out@, ctx.snd.chans());
        ctx.snd.lemma_wf_rate();
    }
    let sr = ctx.snd.sample_rate();
    super::util::flip_assemble(ctx, sr, out)
}

/// Rebuilds one channel with the linear fade applied over `[s, e)`.
fn fade_channel(seq: &BlockSequence, s: usize, e: usize, cnt: usize, a: i32, b: i32, den: i64) -> (r:
    BlockSequence)
    requires
        seq.wf(),
        s <= e,
        0 < den,
        cnt as int == if e - s >= 1 {
            (e - s) as int
        } else {
            1int
        },
    ensures
        r.wf(),
        r@ == faded_chan(seq@, s as int, e as int, a as int, b as int, den as int),
{
    let ghost len = seq@.len() as int;
    let ghost cs = clip_start(s as int, e as int, len);
    let ghost ce = clip_end(e as int, len);
    let mid = seq.samples(s, e);
    let mn = mid.len();
    let mut mapped: Vec<i64> = Vec::new();
    let mut k: usize = 0;
    while k < mn
        invariant
            0 < den,
            cnt >= 1,
            mn as int <= cnt as int,
            mn == mid@.len(),
            k <= mn,
            mapped@.len() == k,
            forall|j: int|
                0 <= j < k ==> #[trigger] mapped@[j] as int == scale_spec(
                    mid@[j] as int,
                    fade_factor(a as int, b as int, cnt as int, j),
                    den as int,
                ),
        decreases mn - k,
    {
        let diff: i128 = (b as i128) - (a as i128);
        proof {
            assert(-0x100000000 * (cnt as int) <= diff as int * (k as int) <= 0x100000000 * (
            cnt as int) && (i128::MIN as int) < diff as int * (k as int) < (i128::MAX as int))
                by (nonlinear_arith)
                requires
                    -0x100000000 <= diff as int <= 0x100000000,
                    0 <= k as int <= cnt as int,
                    1 <= cnt as int <= 0xFFFFFFFFFFFFFFFF,
            ;
            vstd::arithmetic::div_mod::lemma_fundamental_div_mod(
                diff as int * (k as int),
                cnt as int,
            );
            vstd::arithmetic::div_mod::lemma_mod_bound(diff as int * (k as int), cnt as int);
            let q = (diff as int * (k as int)) / (cnt as int);
            assert(-0x100000000 <= q <= 0x100000000) by (nonlinear_arith)
                requires
                    (cnt as int) * q == diff as int * (k as int) - (diff as int * (k as int)) % (
                    cnt as int),
                    0 <= (diff as int * (k as int)) % (cnt as int) < cnt as int,
                    1 <= cnt as int,
                    -0x100000000 * (cnt as int) <= diff as int * (k as int) <= 0x100000000 * (
                    cnt as int),
            ;
        }
        let step: i128 = floor_div_i128(diff * (k as i128), cnt as i128);
        let factor: i64 = (a as i64) + (step as i64);
        let y = scale_sample(mid[k], factor, den);
        mapped.push(y);
        k = k + 1;
    }
    let prev = seq.chunks(0, s);
    let mut v = prev;
    let mb = crate::blocks::block::Block::data(mapped);
    proof {
        crate::blocks::sequence::lemma_cat_push(v@, mb);
    }
    v.push(mb);
    let n = seq.len();
    let mut post = seq.chunks(e, n);
    proof {
        crate::blocks::sequence::lemma_cat_concat(v@, post@);
    }
    v.append(&mut post);
    let r = BlockSequence::from_blocks(v);
    proof {
        assert(r@ =~= faded_chan(seq@, s as int, e as int, a as int, b as int, den as int));
    }
    r
}


/// The peak amplitude a summary query reports for one channel over
/// `[st, e)`: zero past the channel's end, the sample's magnitude at a
/// point, else the larger magnitude of the range's minimum and maximum.
pub open spec fn chan_peak(v: Seq<i64>, st: int, e: int) -> int {
    if st >= v.len() {
        0
    } else if st == e {
        abs2(v[st] as int)
    } else {
        max2(
            abs2(seq_min(v.subrange(st, clip_end(e, v.len() as int)))),
            abs2(seq_max(v.subrange(st, clip_end(e, v.len() as int)))),
        )
    }
}

/// The peak over the first `i` channels, counting only active ones.
pub open spec fn peak_fold(chs: Seq<Seq<i64>>, bits: u32, st: int, e: int, i: int) -> int
    decreases i,
{
    if i <= 0 {
        0
    } else {
        max2(
            peak_fold(chs, bits, st, e, i - 1),
            if crate::util::channel_mask::mask_bit(bits, i - 1) {
                chan_peak(chs[i - 1], st, e)
            } else {
                0
            },
        )
    }
}

/// Rescales the selection of every active channel so its peak magnitude
/// becomes `level` (the nominal full scale when absent): a gain of
/// `level / peak`.  A silent selection (peak zero) leaves the samples
/// unchanged.
pub fn normalize(ctx: &Ctx, level: Option<i64>) -> (r: Ctx)
    requires
        ctx.wf(),
    ensures
        r.wf(),
        ({
            let s = ctx.spec_sample_start();
            let e = ctx.spec_sample_end();
            let chs = ctx.snd.chans();
            let lvl = match level {
                Option::Some(l) => l as int,
                Option::None => FULL_SCALE as int,
            };
            let pk = min2(
                peak_fold(chs, ctx.channels.spec_bits(), s, e, chs.len() as int),
                i64::MAX as int,
            );
            &&& r.snd.chans().len() == chs.len()
            &&& (pk > 0 ==> forall|i: int|
                0 <= i < chs.len() ==> #[trigger] r.snd.chans()[i] == if active(*ctx, i) {
                    scaled_chan(chs[i], s, e, lvl, pk)
                } else {
                    chs[i]
                })
            &&& (pk == 0 ==> forall|i: int|
                0 <= i < chs.len() ==> #[trigger] r.snd.chans()[i] == chs[i])
            &&& flipped_from(r, *ctx, r.snd.chans(), ctx.snd.spec_sample_rate())
        }),
{
    let lvl = match level {
        Some(l) => l,
        None => FULL_SCALE,
    };
    let (s, e) = ctx.sample_region();
    let cn = ctx.snd.channels();
    let mut accum: i128 = 0;
    let mut i: usize = 0;
    while i < cn
        invariant
            ctx.wf(),
            s as int == ctx.spec_sample_start(),
            e as int == ctx.spec_sample_end(),
            s <= e,
            cn == ctx.snd.chans().len(),
            i <= cn,
            accum as int == peak_fold(
                ctx.snd.chans(),
                ctx.channels.spec_bits(),
                s as int,
                e as int,
                i as int,
            ),
            0 <= accum as int <= 0x8000000000000000,
        decreases cn - i,
    {
        let seq_i = match ctx.snd.channel(i) {
            Some(c) => c,
            None => vstd::pervasive::unreached(),
        };
        if ctx.channels.is_on(i) {
            let (cmin, cmax) = seq_i.summary(s, e);
            proof {
                if (s as int) < seq_i@.len() && s < e {
                    crate::samples::lemma_minmax_bounds(
                        seq_i@.subrange(s as int, clip_end(e as int, seq_i@.len() as int)),
                    );
                }
            }
            let am: i128 = if (cmin as i128) < 0 {
                -(cmin as i128)
            } else {
                cmin as i128
            };
            let ax: i128 = if (cmax as i128) < 0 {
                -(cmax as i128)
            } else {
                cmax as i128
            };
            let cp: i128 = if am >= ax {
                am
            } else {
                ax
            };
            if cp > accum {
                accum = cp;
            }
        }
        i = i + 1;
    }
    let peak: i64 = if accum > (i64::MAX as i128) {
        i64::MAX
    } else {
        accum as i64
    };
    if peak == 0 {
        let cloned_snd = ctx.snd.clone();
        let r = ctx.flip(cloned_snd);
        r
    } else {
        gain(ctx, lvl, peak)
    }
}

} // verus!
