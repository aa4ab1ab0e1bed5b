//! Shared machinery of the edit operations: the spec-level views of the
//! structural edits, snapshot reassembly, and multichannel insert/replace.

use vstd::prelude::*;
use std::sync::Arc;
use crate::snd::{Snd, snd_len, lemma_snd_len_nonneg};
use crate::blocks::sequence::BlockSequence;
use crate::util::fx::{Fx, FX_SCALE, FX_UNIT_BOUND};
use crate::util::channel_mask::mask_bit;
use crate::samples::{min2, max2, zeros};
use super::ctx::{Ctx, flip_cursor, flip_selection};

verus! {

/// What inserting `d` at `at` leaves of a channel: past the end the gap is
/// padded with silence.
pub open spec fn insert_view(v: Seq<i64>, at: int, d: Seq<i64>) -> Seq<i64> {
    if at <= v.len() {
        v.subrange(0, at) + d + v.subrange(at, v.len() as int)
    } else {
        v + zeros((at - v.len()) as nat) + d
    }
}

/// What deleting `[s, e)` (normalised and clamped) leaves of a channel.
pub open spec fn delete_view(v: Seq<i64>, s: int, e: int) -> Seq<i64> {
    v.subrange(0, min2(min2(s, e), v.len() as int)) + v.subrange(
        min2(max2(s, e), v.len() as int),
        v.len() as int,
    )
}

/// What replacing `[s, e)` (normalised and clamped) with `d` leaves.
pub open spec fn replace_view(v: Seq<i64>, s: int, e: int, d: Seq<i64>) -> Seq<i64> {
    v.subrange(0, min2(min2(s, e), v.len() as int)) + d + v.subrange(
        min2(max2(s, e), v.len() as int),
        v.len() as int,
    )
}

/// Whether channel `i` takes part in an edit under snapshot `base`.
pub open spec fn active(base: Ctx, i: int) -> bool {
    mask_bit(base.channels.spec_bits(), i)
}

/// Cursor and selection of `r` are the base snapshot's, re-validated
/// against a sound of the given channels (the sound-swap rule).
pub open spec fn revalidated(r: Ctx, base: Ctx, chs: Seq<Seq<i64>>) -> bool {
    let c = match base.cursor {
        Option::Some(c) => Option::Some(c.m()),
        Option::None => Option::None,
    };
    let s = match base.selection {
        Option::Some(s) => Option::Some(s.m()),
        Option::None => Option::None,
    };
    let lm = snd_len(chs) * (FX_SCALE as int);
    &&& (match r.cursor {
        Option::Some(rc) => flip_cursor(c, s, lm) == Option::Some(rc.m()),
        Option::None => flip_cursor(c, s, lm) is None,
    })
    &&& (match r.selection {
        Option::Some(rs) => flip_selection(c, s, lm) == Option::Some(rs.m()),
        Option::None => flip_selection(c, s, lm) is None,
    })
}

/// The result snapshot of an edit: the given channels and sample rate,
/// cursor and selection re-validated against the new length, everything
/// else carried over from the base snapshot.
pub open spec fn flipped_from(r: Ctx, base: Ctx, chs: Seq<Seq<i64>>, sr: int) -> bool {
    &&& r.snd.chans() == chs
    &&& r.snd.spec_sample_rate() == sr
    &&& revalidated(r, base, chs)
    &&& r.ruler == base.ruler
    &&& r.channels == base.channels
    &&& r.zoom == base.zoom
    &&& r.slide == base.slide
    &&& r.loop_mode == base.loop_mode
}

/// Sounds of equal channel count and pointwise equal channel lengths have
/// the same length.
pub proof fn lemma_snd_len_congruent(a: Seq<Seq<i64>>, b: Seq<Seq<i64>>)
    requires
        a.len() == b.len(),
        forall|i: int| 0 <= i < a.len() ==> (#[trigger] a[i]).len() == b[i].len(),
    ensures
        snd_len(a) == snd_len(b),
    decreases a.len(),
{
    if a.len() > 0 {
        lemma_snd_len_congruent(a.drop_last(), b.drop_last());
    }
}

/// A bound on every channel's length bounds the sound's length.
pub proof fn lemma_snd_len_ub(chs: Seq<Seq<i64>>, b: int)
    requires
        0 <= b,
        forall|i: int| 0 <= i < chs.len() ==> (#[trigger] chs[i]).len() <= b,
    ensures
        snd_len(chs) <= b,
    decreases chs.len(),
{
    if chs.len() > 0 {
        lemma_snd_len_ub(chs.drop_last(), b);
    }
}

/// Edited channels with the original per-channel lengths leave the sound's
/// length unchanged.
pub proof fn lemma_chan_lens_match(out: Seq<BlockSequence>, chs: Seq<Seq<i64>>)
    requires
        out.len() == chs.len(),
        forall|i: int| 0 <= i < out.len() ==> (#[trigger] out[i])@.len() == chs[i].len(),
    ensures
        snd_len(out.map_values(|c: BlockSequence| c@)) == snd_len(chs),
{
    let m = out.map_values(|c: BlockSequence| c@);
    assert forall|i: int| 0 <= i < m.len() implies (#[trigger] m[i]).len() == chs[i].len() by {
        assert(m[i] == out[i]@);
    }
    lemma_snd_len_congruent(m, chs);
}

/// Assembles edited channels into a sound and re-validates the snapshot
/// around it.
pub fn flip_assemble(ctx: &Ctx, sr: usize, new_chans: Vec<BlockSequence>) -> (r: Ctx)
    requires
        ctx.wf(),
        sr >= 1,
        new_chans@.len() <= 32,
        forall|i: int| 0 <= i < new_chans@.len() ==> (#[trigger] new_chans@[i]).wf(),
        snd_len(new_chans@.map_values(|c: BlockSequence| c@)) <= FX_UNIT_BOUND as int,
    ensures
        r.wf(),
        flipped_from(r, *ctx, new_chans@.map_values(|c: BlockSequence| c@), sr as int),
{
    let ghost chs = new_chans@.map_values(|c: BlockSequence| c@);
    let snd = Snd::new(sr, new_chans);
    ctx.flip(Arc::new(snd))
}

/// Inserts a sound's channels into the snapshot's active channels at a
/// point (floored to a whole frame and clamped to the length); a sound with
/// fewer channels contributes its nearest channel.
pub fn insert_multichannel(ctx: &Ctx, to_insert: &Snd, point: Fx) -> (r: Snd)
    requires
        ctx.wf(),
        to_insert.wf(),
        point.wf(),
        to_insert.chans().len() > 0,
        snd_len(ctx.snd.chans()) + snd_len(to_insert.chans()) <= FX_UNIT_BOUND as int,
    ensures
        r.wf(),
        r.spec_sample_rate() == ctx.snd.spec_sample_rate(),
        r.chans().len() == ctx.snd.chans().len(),
        ({
            let ip = min2(
                max2(point.m() / (FX_SCALE as int), 0),
                snd_len(ctx.snd.chans()),
            );
            forall|i: int|
                0 <= i < r.chans().len() ==> #[trigger] r.chans()[i] == if active(*ctx, i) {
                    insert_view(
                        ctx.snd.chans()[i],
                        ip,
                        to_insert.chans()[min2(i, to_insert.chans().len() - 1)],
                    )
                } else {
                    ctx.snd.chans()[i]
                }
        }),
        snd_len(r.chans()) <= snd_len(ctx.snd.chans()) + snd_len(to_insert.chans()),
{
    let n = ctx.snd.len();
    let fl = point.floor_units();
    let fl = if fl < 0 {
        0
    } else {
        fl
    };
    let insert_point: usize = if (fl as u64) as usize > n {
        n
    } else {
        (fl as u64) as usize
    };
    proof {
        lemma_snd_len_nonneg(ctx.snd.chans());
        lemma_snd_len_nonneg(to_insert.chans());
    }
    let ghost ip = min2(max2(point.m() / (FX_SCALE as int), 0), snd_len(ctx.snd.chans()));
    proof {
        vstd::arithmetic::div_mod::lemma_div_is_ordered(
            -(FX_UNIT_BOUND as int) * (FX_SCALE as int),
            point.m(),
            FX_SCALE as int,
        );
        vstd::arithmetic::div_mod::lemma_div_is_ordered(
            point.m(),
            (FX_UNIT_BOUND as int) * (FX_SCALE as int),
            FX_SCALE as int,
        );
        vstd::arithmetic::div_mod::lemma_div_multiples_vanish(
            FX_UNIT_BOUND as int,
            FX_SCALE as int,
        );
        vstd::arithmetic::div_mod::lemma_div_multiples_vanish(
            -(FX_UNIT_BOUND as int),
            FX_SCALE as int,
        );
        assert((FX_SCALE as int) * (FX_UNIT_BOUND as int) == (FX_UNIT_BOUND as int) * (
        FX_SCALE as int) && (FX_SCALE as int) * (-(FX_UNIT_BOUND as int)) == -(FX_UNIT_BOUND as int)
            * (FX_SCALE as int)) by (nonlinear_arith);
        assert(insert_point as int == ip);
    }
    let icount = to_insert.channels();
    let cn = ctx.snd.channels();
    let mut out: Vec<BlockSequence> = Vec::new();
    let mut i: usize = 0;
    while i < cn
        invariant
            ctx.wf(),
            to_insert.wf(),
            cn == ctx.snd.chans().len(),
            icount == to_insert.chans().len(),
            icount > 0,
            i <= cn,
            insert_point as int == ip,
            insert_point <= snd_len(ctx.snd.chans()),
            snd_len(ctx.snd.chans()) + snd_len(to_insert.chans()) <= FX_UNIT_BOUND as int,
            out@.len() == i,
            forall|j: int| 0 <= j < i ==> (#[trigger] out@[j]).wf(),
            forall|j: int|
                0 <= j < i ==> (#[trigger] out@[j])@ == if active(*ctx, j) {
                    insert_view(
                        ctx.snd.chans()[j],
                        ip,
                        to_insert.chans()[min2(j, to_insert.chans().len() - 1)],
                    )
                } else {
                    ctx.snd.chans()[j]
                },
        decreases cn - i,
    {
        let seq_i = match ctx.snd.channel(i) {
            Some(s) => s,
            None => vstd::pervasive::unreached(),
        };
        let is_active = ctx.channels.is_on(i);
        if is_active {
            let insert_idx = if i < icount - 1 {
                i
            } else {
                icount - 1
            };
            let iseq = match to_insert.channel(insert_idx) {
                Some(s) => s,
                None => vstd::pervasive::unreached(),
            };
            proof {
                crate::snd::lemma_snd_len_ge(ctx.snd.chans(), i as int);
                crate::snd::lemma_snd_len_ge(to_insert.chans(), insert_idx as int);
            }
            let nc = seq_i.insert(insert_point, iseq);
            out.push(nc);
        } else {
            out.push(seq_i.clone());
        }
        i = i + 1;
    }
    proof {
        assert forall|j: int| 0 <= j < cn implies (#[trigger] out@[j])@.len() <= snd_len(
            ctx.snd.chans(),
        ) + snd_len(to_insert.chans()) by {
            crate::snd::lemma_snd_len_ge(ctx.snd.chans(), j);
            if active(*ctx, j) {
                crate::snd::lemma_snd_len_ge(
                    to_insert.chans(),
                    min2(j, to_insert.chans().len() - 1),
                );
            }
        }
        lemma_snd_len_ub(
            out@.map_values(|c: BlockSequence| c@),
            snd_len(ctx.snd.chans()) + snd_len(to_insert.chans()),
        );
    }
    proof {
        ctx.snd.lemma_wf_rate();
    }
    let sr = ctx.snd.sample_rate();
    Snd::new(sr, out)
}


/// Replaces a fractional region (truncated to whole frames and clamped to
/// the sound) of every active channel with the channels of another sound.
pub fn replace_multichannel(ctx: &Ctx, to_insert: &Snd, region: (Fx, Fx)) -> (r: Snd)
    requires
        ctx.wf(),
        to_insert.wf(),
        region.0.wf(),
        region.1.wf(),
        to_insert.chans().len() > 0,
        snd_len(ctx.snd.chans()) + snd_len(to_insert.chans()) <= FX_UNIT_BOUND as int,
    ensures
        r.wf(),
        r.spec_sample_rate() == ctx.snd.spec_sample_rate(),
        r.chans().len() == ctx.snd.chans().len(),
        ({
            let a = min2(region.0.m(), region.1.m());
            let b = max2(region.0.m(), region.1.m());
            let ln = snd_len(ctx.snd.chans());
            let s = min2(max2(a / (FX_SCALE as int), 0), ln);
            let e = min2(max2(b / (FX_SCALE as int), 0), ln);
            forall|i: int|
                0 <= i < r.chans().len() ==> #[trigger] r.chans()[i] == if active(*ctx, i) {
                    replace_view(
                        ctx.snd.chans()[i],
                        s,
                        e,
                        to_insert.chans()[min2(i, to_insert.chans().len() - 1)],
                    )
                } else {
                    ctx.snd.chans()[i]
                }
        }),
        snd_len(r.chans()) <= snd_len(ctx.snd.chans()) + snd_len(to_insert.chans()),
{
    let n = ctx.snd.len();
    let (ra, rb) = region;
    let fa = ra.min(&rb);
    let fb = ra.max(&rb);
    let s = clamp_frames(&fa, n);
    let e = clamp_frames(&fb, n);
    proof {
        lemma_snd_len_nonneg(ctx.snd.chans());
        lemma_snd_len_nonneg(to_insert.chans());
    }
    let ghost sg = s as int;
    let ghost eg = e as int;
    let icount = to_insert.channels();
    let cn = ctx.snd.channels();
    let mut out: Vec<BlockSequence> = Vec::new();
    let mut i: usize = 0;
    while i < cn
        invariant
            ctx.wf(),
            to_insert.wf(),
            cn == ctx.snd.chans().len(),
            icount == to_insert.chans().len(),
            icount > 0,
            i <= cn,
            sg == s,
            eg == e,
            s <= e,
            e as int <= snd_len(ctx.snd.chans()),
            snd_len(ctx.snd.chans()) + snd_len(to_insert.chans()) <= FX_UNIT_BOUND as int,
            out@.len() == i,
            forall|j: int| 0 <= j < i ==> (#[trigger] out@[j]).wf(),
            forall|j: int|
                0 <= j < i ==> (#[trigger] out@[j])@ == if active(*ctx, j) {
                    replace_view(
                        ctx.snd.chans()[j],
                        sg,
                        eg,
                        to_insert.chans()[min2(j, to_insert.chans().len() - 1)],
                    )
                } else {
                    ctx.snd.chans()[j]
                },
        decreases cn - i,
    {
        let seq_i = match ctx.snd.channel(i) {
            Some(c) => c,
            None => vstd::pervasive::unreached(),
        };
        if ctx.channels.is_on(i) {
            let insert_idx = if i < icount - 1 {
                i
            } else {
                icount - 1
            };
            let iseq = match to_insert.channel(insert_idx) {
                Some(c) => c,
                None => vstd::pervasive::unreached(),
            };
            proof {
                crate::snd::lemma_snd_len_ge(ctx.snd.chans(), i as int);
                crate::snd::lemma_snd_len_ge(to_insert.chans(), insert_idx as int);
            }
            let nc = seq_i.replace(s, e, iseq);
            out.push(nc);
        } else {
            out.push(seq_i.clone());
        }
        i = i + 1;
    }
    proof {
        let m = out@.map_values(|c: BlockSequence| c@);
        assert forall|j: int| 0 <= j < cn implies (#[trigger] m[j]).len() <= snd_len(
            ctx.snd.chans(),
        ) + snd_len(to_insert.chans()) by {
            assert(m[j] == out@[j]@);
            crate::snd::lemma_snd_len_ge(ctx.snd.chans(), j);
            if active(*ctx, j) {
                crate::snd::lemma_snd_len_ge(
                    to_insert.chans(),
                    min2(j, to_insert.chans().len() - 1),
                );
            }
        }
        lemma_snd_len_ub(m, snd_len(ctx.snd.chans()) + snd_len(to_insert.chans()));
        ctx.snd.lemma_wf_rate();
    }
    let sr = ctx.snd.sample_rate();
    Snd::new(sr, out)
}

/// A fractional position truncated to whole frames and clamped into
/// `[0, limit]`.
pub fn clamp_frames(p: &Fx, limit: usize) -> (r: usize)
    requires
        p.wf(),
        limit <= FX_UNIT_BOUND,
    ensures
        r as int == min2(max2(p.m() / (FX_SCALE as int), 0), limit as int),
{
    proof {
        vstd::arithmetic::div_mod::lemma_div_is_ordered(
            p.m(),
            (FX_UNIT_BOUND as int) * (FX_SCALE as int),
            FX_SCALE as int,
        );
        vstd::arithmetic::div_mod::lemma_div_multiples_vanish(
            FX_UNIT_BOUND as int,
            FX_SCALE as int,
        );
        assert((FX_SCALE as int) * (FX_UNIT_BOUND as int) == (FX_UNIT_BOUND as int) * (
        FX_SCALE as int)) by (nonlinear_arith);
    }
    let fl = p.floor_units();
    let fl = if fl < 0 {
        0
    } else {
        fl
    };
    let fu = (fl as u64) as usize;
    if fu > limit {
        limit
    } else {
        fu
    }
}

} // verus!
