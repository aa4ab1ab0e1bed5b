//! Pasting: replacing the selection (or inserting at the cursor) with
//! another sound, and mixing another sound into the selection.

use vstd::prelude::*;
use std::sync::Arc;
use crate::num::{clamp_spec, floor_div_i128, clamp_i64};
use crate::snd::{Snd, snd_len, lemma_snd_len_nonneg};
use crate::blocks::sequence::{BlockSequence, clip_start, clip_end};
use crate::util::fx::{Fx, FX_SCALE, FX_UNIT_BOUND};
use crate::samples::{min2, max2};
use super::ctx::Ctx;
use super::util::{
    active,
    insert_view,
    replace_view,
    insert_multichannel,
    replace_multichannel,
    lemma_chan_lens_match,
};

verus! {

/// Pastes a sound into the snapshot.  With a selection, the selected span
/// of every active channel is replaced and the pasted span becomes the new
/// selection (clamped into the new sound); without one, the sound is
/// inserted at the cursor (or appended), and the cursor is re-validated.
pub fn insert_or_replace(target: &Ctx, to_insert: &Snd) -> (r: Ctx)
    requires
        target.wf(),
        to_insert.wf(),
        to_insert.chans().len() > 0,
        snd_len(target.snd.chans()) + snd_len(to_insert.chans()) <= FX_UNIT_BOUND as int,
    ensures
        r.wf(),
        r.snd.spec_sample_rate() == target.snd.spec_sample_rate(),
        r.snd.chans().len() == target.snd.chans().len(),
        r.ruler == target.ruler,
        r.channels == target.channels,
        r.zoom == target.zoom,
        r.slide == target.slide,
        r.loop_mode == target.loop_mode,
        (target.cursor is Some && target.selection is Some) ==> ({
            let a = min2(
                target.cursor->Some_0.m(),
                target.cursor->Some_0.m() + target.selection->Some_0.m(),
            );
            let b = max2(
                target.cursor->Some_0.m(),
                target.cursor->Some_0.m() + target.selection->Some_0.m(),
            );
            let ln = snd_len(target.snd.chans());
            let s = min2(max2(a / (FX_SCALE as int), 0), ln);
            let e = min2(max2(b / (FX_SCALE as int), 0), ln);
            let new_lm = snd_len(r.snd.chans()) * (FX_SCALE as int);
            &&& (forall|i: int|
                0 <= i < r.snd.chans().len() ==> #[trigger] r.snd.chans()[i] == if active(
                    *target,
                    i,
                ) {
                    replace_view(
                        target.snd.chans()[i],
                        s,
                        e,
                        to_insert.chans()[min2(i, to_insert.chans().len() - 1)],
                    )
                } else {
                    target.snd.chans()[i]
                })
            &&& r.cursor matches Option::Some(c) && c.m() == min2(a, new_lm)
            &&& r.selection matches Option::Some(sv) && sv.m() == min2(
                snd_len(to_insert.chans()) * (FX_SCALE as int),
                new_lm - min2(a, new_lm),
            )
        }),
        !(target.cursor is Some && target.selection is Some) ==> ({
            let pt = match target.cursor {
                Option::Some(c) => c.m(),
                Option::None => snd_len(target.snd.chans()) * (FX_SCALE as int),
            };
            let ip = min2(max2(pt / (FX_SCALE as int), 0), snd_len(target.snd.chans()));
            forall|i: int|
                0 <= i < r.snd.chans().len() ==> #[trigger] r.snd.chans()[i] == if active(
                    *target,
                    i,
                ) {
                    insert_view(
                        target.snd.chans()[i],
                        ip,
                        to_insert.chans()[min2(i, to_insert.chans().len() - 1)],
                    )
                } else {
                    target.snd.chans()[i]
                }
        }),
{
    proof {
        lemma_snd_len_nonneg(target.snd.chans());
        lemma_snd_len_nonneg(to_insert.chans());
        assert(0 <= snd_len(to_insert.chans()) * (FX_SCALE as int) && snd_len(
            to_insert.chans(),
        ) * (FX_SCALE as int) <= (FX_UNIT_BOUND as int) * (FX_SCALE as int)) by (nonlinear_arith)
            requires
                0 <= snd_len(to_insert.chans()) <= FX_UNIT_BOUND as int,
        ;
    }
    let sel = target.selected_region();
    match sel {
        Some(region) => {
            let s_fx = region.start();
            let e_fx = region.end();
            let new_snd = replace_multichannel(target, to_insert, (s_fx, e_fx));
            proof {
                lemma_snd_len_nonneg(new_snd.chans());
                assert(0 <= snd_len(new_snd.chans()) * (FX_SCALE as int) && snd_len(
                    new_snd.chans(),
                ) * (FX_SCALE as int) <= (FX_UNIT_BOUND as int) * (FX_SCALE as int))
                    by (nonlinear_arith)
                    requires
                        0 <= snd_len(new_snd.chans()) <= FX_UNIT_BOUND as int,
                ;
            }
            let new_len_fx = Fx::from_usize(new_snd.len());
            let flipped = target.flip(Arc::new(new_snd));
            let new_cursor = s_fx.min(&new_len_fx);
            let ins_len_fx = Fx::from_usize(to_insert.len());
            let new_sel = ins_len_fx.min(&new_len_fx.minus(&new_cursor));
            let r = Ctx { cursor: Some(new_cursor), selection: Some(new_sel), ..flipped };
            r
        },
        None => {
            let pt = match &target.cursor {
                Some(c) => *c,
                None => Fx::from_usize(target.snd.len()),
            };
            proof {
                assert(0 <= snd_len(target.snd.chans()) * (FX_SCALE as int) && snd_len(
                    target.snd.chans(),
                ) * (FX_SCALE as int) <= (FX_UNIT_BOUND as int) * (FX_SCALE as int))
                    by (nonlinear_arith)
                    requires
                        0 <= snd_len(target.snd.chans()) <= FX_UNIT_BOUND as int,
                ;
            }
            let new_snd = insert_multichannel(target, to_insert, pt);
            target.flip(Arc::new(new_snd))
        },
    }
}

/// One mixed sample: the target sample scaled by `tn / den` plus the source
/// sample scaled by `sn / den`, floor-divided and saturated.
pub open spec fn mix_spec(t: int, sk: int, tn: int, sn: int, den: int) -> int {
    clamp_spec((t * tn + sk * sn) / den)
}

/// A channel with the source channel mixed into its `[s, e)` span.
pub open spec fn mixed_chan(v: Seq<i64>, s: int, e: int, srcv: Seq<i64>, tn: int, sn: int, den: int) -> Seq<
    i64,
> {
    let cs = clip_start(s, e, v.len() as int);
    let ce = clip_end(e, v.len() as int);
    Seq::new(
        v.len(),
        |j: int|
            if cs <= j < ce {
                mix_spec(
                    v[j] as int,
                    if j - cs < srcv.len() {
                        srcv[j - cs] as int
                    } else {
                        0
                    },
                    tn,
                    sn,
                    den,
                ) as i64
            } else {
                v[j]
            },
    )
}

/// Mixes a source sound into the selection (or from the cursor to the end)
/// of every active channel: each target sample becomes
/// `(target * tn + source * sn) / den`, sources read from their start.
pub fn mix_in(target: &Ctx, src: &Snd, sn: i32, tn: i32, den: i64) -> (r: Ctx)
    requires
        target.wf(),
        src.wf(),
        src.chans().len() > 0,
        0 < den,
    ensures
        r.wf(),
        ({
            let s = if target.cursor is Some && target.selection is None {
                max2(
                    -((-target.cursor->Some_0.m()) / (FX_SCALE as int)),
                    0,
                )
            } else {
                target.spec_sample_start()
            };
            let e = if target.cursor is Some && target.selection is None {
                snd_len(target.snd.chans())
            } else {
                target.spec_sample_end()
            };
            let chs = target.snd.chans();
            &&& r.snd.chans().len() == chs.len()
            &&& forall|i: int|
                0 <= i < chs.len() ==> #[trigger] r.snd.chans()[i] == if active(*target, i) {
                    mixed_chan(
                        chs[i],
                        s,
                        e,
                        src.chans()[min2(i, src.chans().len() - 1)],
                        tn as int,
                        sn as int,
                        den as int,
                    )
                } else {
                    chs[i]
                }
            &&& super::util::flipped_from(r, *target, r.snd.chans(), target.snd.spec_sample_rate())
        }),
{
    let (s, e): (usize, usize) = if target.cursor.is_some() && target.selection.is_none() {
        let c = match &target.cursor {
            Some(c) => *c,
            None => vstd::pervasive::unreached(),
        };
        let cu = c.ceil_units();
        let cu = if cu < 0 {
            0
        } else {
            cu
        };
        let n = target.snd.len();
        proof {
            lemma_snd_len_nonneg(target.snd.chans());
            vstd::arithmetic::div_mod::lemma_div_of0(FX_SCALE as int);
            vstd::arithmetic::div_mod::lemma_div_is_ordered(-c.m(), 0, FX_SCALE as int);
            let lm = snd_len(target.snd.chans()) * (FX_SCALE as int);
            vstd::arithmetic::div_mod::lemma_div_is_ordered(-lm, -c.m(), FX_SCALE as int);
            vstd::arithmetic::div_mod::lemma_div_multiples_vanish(
                -snd_len(target.snd.chans()),
                FX_SCALE as int,
            );
            assert((FX_SCALE as int) * (-snd_len(target.snd.chans())) == -(snd_len(
                target.snd.chans(),
            ) * (FX_SCALE as int))) by (nonlinear_arith);
        }
        ((cu as u64) as usize, n)
    } else {
        target.sample_region()
    };
    let cn = target.snd.channels();
    let scount = src.channels();
    let mut out: Vec<BlockSequence> = Vec::new();
    let mut i: usize = 0;
    let ghost sg = s as int;
    let ghost eg = e as int;
    proof {
        assert(s <= e);
    }
    while i < cn
        invariant
            target.wf(),
            src.wf(),
            0 < den,
            scount == src.chans().len(),
            scount > 0,
            cn == target.snd.chans().len(),
            i <= cn,
            s <= e,
            sg == s,
            eg == e,
            out@.len() == i,
            forall|j: int| 0 <= j < i ==> (#[trigger] out@[j]).wf(),
            forall|j: int|
                0 <= j < i ==> (#[trigger] out@[j])@ == if active(*target, j) {
                    mixed_chan(
                        target.snd.chans()[j],
                        sg,
                        eg,
                        src.chans()[min2(j, src.chans().len() - 1)],
                        tn as int,
                        sn as int,
                        den as int,
                    )
                } else {
                    target.snd.chans()[j]
                },
        decreases cn - i,
    {
        let seq_i = match target.snd.channel(i) {
            Some(c) => c,
            None => vstd::pervasive::unreached(),
        };
        if target.channels.is_on(i) {
            let src_idx = if i < scount - 1 {
                i
            } else {
                scount - 1
            };
            let src_seq = match src.channel(src_idx) {
                Some(c) => c,
                None => vstd::pervasive::unreached(),
            };
            let nc = mix_channel(seq_i, s, e, src_seq, tn, sn, den);
            out.push(nc);
        } else {
            out.push(seq_i.clone());
        }
        i = i + 1;
    }
    proof {
        assert forall|j: int| 0 <= j < cn implies (#[trigger] out@[j])@.len()
            == target.snd.chans()[j].len() by {
        }
        lemma_chan_lens_match(out@, target.snd.chans());
        target.snd.lemma_wf_rate();
    }
    let sr = target.snd.sample_rate();
    super::util::flip_assemble(target, sr, out)
}

/// Rebuilds one channel with the source mixed into `[s, e)` (clamped).
fn mix_channel(
    seq: &BlockSequence,
    s: usize,
    e: usize,
    src: &BlockSequence,
    tn: i32,
    sn: i32,
    den: i64,
) -> (r: BlockSequence)
    requires
        seq.wf(),
        src.wf(),
        s <= e,
        0 < den,
    ensures
        r.wf(),
        r@ == mixed_chan(seq@, s as int, e as int, src@, tn as int, sn as int, den as int),
{
    let mid = seq.samples(s, e);
    let mn = mid.len();
    let srcv = src.samples(0, mn);
    let mut mapped: Vec<i64> = Vec::new();
    let mut k: usize = 0;
    proof {
        assert(srcv@ =~= src@.subrange(0, min2(mn as int, src@.len() as int)));
    }
    while k < mn
        invariant
            0 < den,
            mn == mid@.len(),
            srcv@ =~= src@.subrange(0, min2(mn as int, src@.len() as int)),
            k <= mn,
            mapped@.len() == k,
            forall|j: int|
                0 <= j < k ==> #[trigger] mapped@[j] as int == mix_spec(
                    mid@[j] as int,
                    if j < src@.len() {
                        src@[j] as int
                    } else {
                        0
                    },
                    tn as int,
                    sn as int,
                    den as int,
                ),
        decreases mn - k,
    {
        let sk: i64 = if k < srcv.len() {
            srcv[k]
        } else {
            0
        };
        let t = mid[k];
        proof {
            assert((i128::MIN as int) < (t as int) * (tn as int) < (i128::MAX as int) && (
            i128::MIN as int) < (sk as int) * (sn as int) < (i128::MAX as int) && (
            i128::MIN as int) < (t as int) * (tn as int) + (sk as int) * (sn as int) < (
            i128::MAX as int)) by (nonlinear_arith)
                requires
                    i64::MIN as int <= t as int <= i64::MAX as int,
                    i32::MIN as int <= tn as int <= i32::MAX as int,
                    i64::MIN as int <= sk as int <= i64::MAX as int,
                    i32::MIN as int <= sn as int <= i32::MAX as int,
            ;
        }
        let wide: i128 = (t as i128) * (tn as i128) + (sk as i128) * (sn as i128);
        let q = floor_div_i128(wide, den as i128);
        let y = clamp_i64(q);
        mapped.push(y);
        k = k + 1;
    }
    let prev = seq.chunks(0, s);
    let mut v = prev;
    let mb = crate::blocks::block::Block::data(mapped);
    proof {
        crate::blocks::sequence::lemma_cat_push(v@, mb);
    }
    v.push(mb);
    let n = seq.len();
    let mut post = seq.chunks(e, n);
    proof {
        crate::blocks::sequence::lemma_cat_concat(v@, post@);
    }
    v.append(&mut post);
    let r = BlockSequence::from_blocks(v);
    proof {
        assert(r@ =~= mixed_chan(seq@, s as int, e as int, src@, tn as int, sn as int, den as int));
    }
    r
}

} // verus!
