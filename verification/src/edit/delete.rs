//! Deleting the selection, and cropping to it.

use vstd::prelude::*;
use crate::blocks::sequence::{BlockSequence, clip_start, clip_end};
use crate::snd::snd_len;
use crate::util::fx::{Fx, FX_SCALE};
use super::ctx::Ctx;
use super::util::{active, delete_view, lemma_snd_len_ub};

verus! {

/// Some channel attains the sound's length.
pub proof fn lemma_snd_len_attained(chs: Seq<Seq<i64>>)
    requires
        chs.len() > 0,
    ensures
        exists|i: int| 0 <= i < chs.len() && (#[trigger] chs[i]).len() == snd_len(chs),
    decreases chs.len(),
{
    if chs.len() == 1 {
        assert(chs.drop_last() =~= Seq::<Seq<i64>>::empty());
        assert(snd_len(Seq::<Seq<i64>>::empty()) == 0);
        assert(chs.last() == chs[0]);
        assert(chs[0].len() == snd_len(chs));
    } else {
        lemma_snd_len_attained(chs.drop_last());
        if snd_len(chs.drop_last()) >= chs.last().len() {
            let k = choose|i: int|
                0 <= i < chs.drop_last().len() && (#[trigger] chs.drop_last()[i]).len() == snd_len(
                    chs.drop_last(),
                );
            assert(chs[k].len() == snd_len(chs));
        } else {
            assert(chs[chs.len() - 1].len() == snd_len(chs));
        }
    }
}

/// Removes the selected samples from every active channel.  The cursor
/// moves to the start of the removed span and the selection clears.
/// Without a selection nothing happens.
pub fn remove_selected(ctx: &Ctx) -> (r: Option<Ctx>)
    requires
        ctx.wf(),
    ensures
        !(ctx.cursor is Some && ctx.selection is Some) ==> r is None,
        ctx.cursor is Some && ctx.selection is Some ==> (r matches Some(nc) && {
            let s = ctx.spec_sample_start();
            let e = ctx.spec_sample_end();
            let chs = ctx.snd.chans();
            &&& nc.wf()
            &&& nc.snd.chans().len() == chs.len()
            &&& (forall|i: int|
                0 <= i < chs.len() ==> #[trigger] nc.snd.chans()[i] == if active(*ctx, i) {
                    delete_view(chs[i], s, e)
                } else {
                    chs[i]
                })
            &&& nc.snd.spec_sample_rate() == ctx.snd.spec_sample_rate()
            &&& nc.cursor matches Option::Some(c) && c.m() == s * (FX_SCALE as int)
            &&& nc.selection is None
            &&& nc.ruler == ctx.ruler
            &&& nc.channels == ctx.channels
            &&& nc.zoom == ctx.zoom
            &&& nc.slide == ctx.slide
            &&& nc.loop_mode == ctx.loop_mode
        }),
{
    if !(ctx.cursor.is_some() && ctx.selection.is_some()) {
        return None;
    }
    let (s, e) = ctx.sample_region();
    let cn = ctx.snd.channels();
    let mut out: Vec<BlockSequence> = Vec::new();
    let mut i: usize = 0;
    while i < cn
        invariant
            ctx.wf(),
            s as int == ctx.spec_sample_start(),
            e as int == ctx.spec_sample_end(),
            s <= e,
            e as int <= snd_len(ctx.snd.chans()),
            cn == ctx.snd.chans().len(),
            i <= cn,
            out@.len() == i,
            forall|j: int| 0 <= j < i ==> (#[trigger] out@[j]).wf(),
            forall|j: int|
                0 <= j < i ==> (#[trigger] out@[j])@ == if active(*ctx, j) {
                    delete_view(ctx.snd.chans()[j], s as int, e as int)
                } else {
                    ctx.snd.chans()[j]
                },
        decreases cn - i,
    {
        let seq_i = match ctx.snd.channel(i) {
            Some(c) => c,
            None => vstd::pervasive::unreached(),
        };
        if ctx.channels.is_on(i) {
            let nc = seq_i.delete(s, e);
            out.push(nc);
        } else {
            out.push(seq_i.clone());
        }
        i = i + 1;
    }
    let ghost new_chs = out@.map_values(|c: BlockSequence| c@);
    proof {
        crate::snd::lemma_snd_len_nonneg(ctx.snd.chans());
        assert forall|j: int| 0 <= j < cn implies (#[trigger] new_chs[j]).len() <= snd_len(
            ctx.snd.chans(),
        ) by {
            assert(new_chs[j] == out@[j]@);
            crate::snd::lemma_snd_len_ge(ctx.snd.chans(), j);
        }
        lemma_snd_len_ub(new_chs, snd_len(ctx.snd.chans()));
        // The longest channel keeps at least its first `s` samples, so the
        // cursor can sit at `s` in the new sound.
        if cn > 0 {
            lemma_snd_len_attained(ctx.snd.chans());
            let k = choose|i: int|
                0 <= i < ctx.snd.chans().len() && (#[trigger] ctx.snd.chans()[i]).len() == snd_len(
                    ctx.snd.chans(),
                );
            assert(new_chs[k] == out@[k]@);
            assert(new_chs[k].len() >= s);
            crate::snd::lemma_snd_len_ge(new_chs, k);
        }
        ctx.snd.lemma_wf_rate();
    }
    let sr = ctx.snd.sample_rate();
    let flipped = super::util::flip_assemble(ctx, sr, out);
    let cursor_fx = Fx::from_usize(s);
    let nc = Ctx {
        cursor: Some(cursor_fx),
        selection: None,
        ..flipped
    };
    proof {
        assert(s as int <= snd_len(nc.snd.chans()));
        assert(s as int * (FX_SCALE as int) <= snd_len(nc.snd.chans()) * (FX_SCALE as int)
            && 0 <= s as int * (FX_SCALE as int)) by (nonlinear_arith)
            requires
                0 <= s as int <= snd_len(nc.snd.chans()),
        ;
    }
    Some(nc)
}

/// Keeps only the selected samples of every active channel; cursor and
/// selection clear.  Without a selection nothing happens.
pub fn remove_non_selected(ctx: &Ctx) -> (r: Option<Ctx>)
    requires
        ctx.wf(),
    ensures
        !(ctx.cursor is Some && ctx.selection is Some) ==> r is None,
        ctx.cursor is Some && ctx.selection is Some ==> (r matches Some(nc) && {
            let s = ctx.spec_sample_start();
            let e = ctx.spec_sample_end();
            let chs = ctx.snd.chans();
            &&& nc.wf()
            &&& nc.snd.chans().len() == chs.len()
            &&& (forall|i: int|
                0 <= i < chs.len() ==> #[trigger] nc.snd.chans()[i] == if active(*ctx, i) {
                    chs[i].subrange(
                        clip_start(s, e, chs[i].len() as int),
                        clip_end(e, chs[i].len() as int),
                    )
                } else {
                    chs[i]
                })
            &&& nc.snd.spec_sample_rate() == ctx.snd.spec_sample_rate()
            &&& nc.cursor is None
            &&& nc.selection is None
            &&& nc.ruler == ctx.ruler
            &&& nc.channels == ctx.channels
            &&& nc.zoom == ctx.zoom
            &&& nc.slide == ctx.slide
            &&& nc.loop_mode == ctx.loop_mode
        }),
{
    if !(ctx.cursor.is_some() && ctx.selection.is_some()) {
        return None;
    }
    let (s, e) = ctx.sample_region();
    let cn = ctx.snd.channels();
    let mut out: Vec<BlockSequence> = Vec::new();
    let mut i: usize = 0;
    while i < cn
        invariant
            ctx.wf(),
            s as int == ctx.spec_sample_start(),
            e as int == ctx.spec_sample_end(),
            s <= e,
            cn == ctx.snd.chans().len(),
            i <= cn,
            out@.len() == i,
            forall|j: int| 0 <= j < i ==> (#[trigger] out@[j]).wf(),
            forall|j: int|
                0 <= j < i ==> (#[trigger] out@[j])@ == if active(*ctx, j) {
                    ctx.snd.chans()[j].subrange(
                        clip_start(s as int, e as int, ctx.snd.chans()[j].len() as int),
                        clip_end(e as int, ctx.snd.chans()[j].len() as int),
                    )
                } else {
                    ctx.snd.chans()[j]
                },
        decreases cn - i,
    {
        let seq_i = match ctx.snd.channel(i) {
            Some(c) => c,
            None => vstd::pervasive::unreached(),
        };
        if ctx.channels.is_on(i) {
            let nc = seq_i.sub_seq(s, e);
            out.push(nc);
        } else {
            out.push(seq_i.clone());
        }
        i = i + 1;
    }
    let ghost new_chs = out@.map_values(|c: BlockSequence| c@);
    proof {
        crate::snd::lemma_snd_len_nonneg(ctx.snd.chans());
        assert forall|j: int| 0 <= j < cn implies (#[trigger] new_chs[j]).len() <= snd_len(
            ctx.snd.chans(),
        ) by {
            assert(new_chs[j] == out@[j]@);
            crate::snd::lemma_snd_len_ge(ctx.snd.chans(), j);
        }
        lemma_snd_len_ub(new_chs, snd_len(ctx.snd.chans()));
        ctx.snd.lemma_wf_rate();
    }
    let sr = ctx.snd.sample_rate();
    let flipped = super::util::flip_assemble(ctx, sr, out);
    let nc = Ctx { cursor: None, selection: None, ..flipped };
    Some(nc)
}

} // verus!
