//! An immutable edit-session snapshot: the sound plus cursor, selection,
//! view window, channel mask, ruler and loop flag.  Every edit operation
//! derives a new snapshot from an old one.

use vstd::prelude::*;
use std::sync::Arc;
use crate::snd::{Snd, snd_len, lemma_snd_len_nonneg};
use crate::util::fx::{Fx, FX_SCALE, FX_UNIT_BOUND};
use crate::util::region::{Region, ceil_frames};
use crate::util::ruler::Ruler;
use crate::util::channel_mask::Mask;
use crate::samples::{min2, max2};
use crate::blocks::sequence::BlockSequence;

verus! {

/// Where the cursor lands after a sound swap: clamped to the new length
/// while a selection exists, dropped if it exceeds the new length alone.
pub open spec fn flip_cursor(c: Option<int>, s: Option<int>, len_m: int) -> Option<int> {
    match (c, s) {
        (Option::Some(c), Option::Some(_)) => Option::Some(min2(c, len_m)),
        (Option::Some(c), Option::None) => if c > len_m {
            Option::None
        } else {
            Option::Some(c)
        },
        _ => Option::None,
    }
}

/// Where the selection lands after a sound swap: re-clamped so that the
/// selected span stays within the new sound.
pub open spec fn flip_selection(c: Option<int>, s: Option<int>, len_m: int) -> Option<int> {
    match (c, s) {
        (Option::Some(c), Option::Some(s)) => {
            let nc = min2(c, len_m);
            if s < 0 {
                Option::Some(max2(s, -nc))
            } else {
                Option::Some(min2(s, len_m - nc))
            }
        },
        _ => Option::None,
    }
}

/// A cursor at or below the new length survives a sound swap unchanged,
/// whether or not a selection exists.
pub proof fn lemma_flip_cursor_kept(c: int, s: Option<int>, len_m: int)
    requires
        c <= len_m,
    ensures
        flip_cursor(Option::Some(c), s, len_m) == Option::Some(c),
{
}

/// Without a selection, a cursor beyond the new length becomes absent.
pub proof fn lemma_flip_cursor_dropped(c: int, len_m: int)
    requires
        c > len_m,
    ensures
        flip_cursor(Option::Some(c), Option::None, len_m) is None,
{
}

/// After a sound swap the selection always stays within
/// `[-cursor, length - cursor]` of the new cursor.
pub proof fn lemma_flip_selection_bounds(c: Option<int>, s: Option<int>, len_m: int)
    requires
        0 <= len_m,
        c matches Option::Some(cv) && 0 <= cv,
    ensures
        flip_selection(c, s, len_m) matches Option::Some(sv) ==> {
            let nc = flip_cursor(c, s, len_m)->Some_0;
            -nc <= sv <= len_m - nc
        },
{
}

/// An edit snapshot.
pub struct Ctx {
    /// The sound this snapshot edits.
    pub snd: Arc<Snd>,
    /// The edit position, in micro-frames, if one is set.
    pub cursor: Option<Fx>,
    /// The signed selection length relative to the cursor, if one is set.
    pub selection: Option<Fx>,
    /// The snapping grid, if one is set.
    pub ruler: Option<Ruler>,
    /// Which channels edit operations touch.
    pub channels: Mask,
    /// The viewed fraction of the sound.
    pub zoom: Fx,
    /// Where the viewed window begins, as a fraction of the sound.
    pub slide: Fx,
    /// Whether playback loops over the selection.
    pub loop_mode: bool,
}

impl Ctx {
    /// The sound's length in micro-frame units.
    pub open spec fn len_m(&self) -> int {
        snd_len(self.snd.chans()) * (FX_SCALE as int)
    }

    /// A well-formed snapshot: the sound is well-formed and fits the mask
    /// and the position range; cursor and selection stay inside the sound;
    /// the view window is a sub-range of it.
    pub open spec fn wf(&self) -> bool {
        &&& self.snd.wf()
        &&& self.snd.chans().len() <= 32
        &&& snd_len(self.snd.chans()) <= FX_UNIT_BOUND as int
        &&& (self.cursor matches Option::Some(c) ==> 0 <= c.m() <= self.len_m())
        &&& (self.selection matches Option::Some(s) ==> {
            &&& self.cursor is Some
            &&& 0 <= self.cursor->Some_0.m() + s.m() <= self.len_m()
        })
        &&& (self.ruler matches Option::Some(r) ==> r.wf())
        &&& 0 <= self.zoom.m() <= FX_SCALE as int
        &&& 0 <= self.slide.m() <= FX_SCALE as int
        &&& self.slide.m() + self.zoom.m() <= FX_SCALE as int
    }

    /// A fresh snapshot around a sound: no cursor, no selection, no ruler,
    /// every channel active, the whole sound in view, looping off.
    pub fn from_snd(s: Arc<Snd>) -> (r: Ctx)
        requires
            s.wf(),
            s.chans().len() <= 32,
            snd_len(s.chans()) <= FX_UNIT_BOUND as int,
        ensures
            r.wf(),
            r.snd == s,
            r.cursor is None,
            r.selection is None,
            r.ruler is None,
            r.channels.spec_bits() == 0xFFFFFFFFu32,
            r.zoom.m() == FX_SCALE as int,
            r.slide.m() == 0,
            r.loop_mode == false,
    {
        proof {
            lemma_snd_len_nonneg(s.chans());
            assert(0 <= snd_len(s.chans()) * (FX_SCALE as int)) by (nonlinear_arith)
                requires
                    0 <= snd_len(s.chans()),
            ;
        }
        Ctx {
            snd: s,
            cursor: None,
            selection: None,
            ruler: None,
            channels: Mask::default(),
            zoom: Fx::from_micros(FX_SCALE),
            slide: Fx::zero(),
            loop_mode: false,
        }
    }

    /// The same view state around a new sound, with cursor and selection
    /// re-validated against the new length.
    pub fn flip(&self, new_snd: Arc<Snd>) -> (r: Ctx)
        requires
            self.wf(),
            new_snd.wf(),
            new_snd.chans().len() <= 32,
            snd_len(new_snd.chans()) <= FX_UNIT_BOUND as int,
        ensures
            r.wf(),
            r.snd == new_snd,
            ({
                let c = match self.cursor {
                    Option::Some(c) => Option::Some(c.m()),
                    Option::None => Option::None,
                };
                let s = match self.selection {
                    Option::Some(s) => Option::Some(s.m()),
                    Option::None => Option::None,
                };
                let lm = snd_len(new_snd.chans()) * (FX_SCALE as int);
                &&& (match r.cursor {
                    Option::Some(rc) => flip_cursor(c, s, lm) == Option::Some(rc.m()),
                    Option::None => flip_cursor(c, s, lm) is None,
                })
                &&& (match r.selection {
                    Option::Some(rs) => flip_selection(c, s, lm) == Option::Some(rs.m()),
                    Option::None => flip_selection(c, s, lm) is None,
                })
            }),
            r.ruler == self.ruler,
            r.channels == self.channels,
            r.zoom == self.zoom,
            r.slide == self.slide,
            r.loop_mode == self.loop_mode,
    {
        let snd_len_fx = Fx::from_usize(new_snd.len());
        proof {
            lemma_snd_len_nonneg(new_snd.chans());
        }
        let (nc, ns): (Option<Fx>, Option<Fx>) = match (&self.cursor, &self.selection) {
            (Some(c), Some(s)) => {
                let new_c = c.min(&snd_len_fx);
                let new_s = if s.is_neg() {
                    s.max(&new_c.neg())
                } else {
                    s.min(&snd_len_fx.minus(&new_c))
                };
                (Some(new_c), Some(new_s))
            },
            (Some(c), None) => {
                if snd_len_fx.lt(c) {
                    (None, None)
                } else {
                    (Some(*c), None)
                }
            },
            _ => (None, None),
        };
        Ctx {
            snd: new_snd,
            cursor: nc,
            selection: ns,
            ruler: self.ruler,
            channels: self.channels,
            zoom: self.zoom,
            slide: self.slide,
            loop_mode: self.loop_mode,
        }
    }

    /// The viewed window of the sound, in micro-frames.
    pub fn region(&self) -> (r: Region)
        requires
            self.wf(),
        ensures
            r.spec_start() == self.slide.m() * snd_len(self.snd.chans()),
            r.spec_end() == (self.slide.m() + self.zoom.m()) * snd_len(self.snd.chans()),
    {
        let len = self.snd.len();
        proof {
            lemma_snd_len_nonneg(self.snd.chans());
            let ln = snd_len(self.snd.chans());
            assert(0 <= self.slide.m() * ln <= (FX_SCALE as int) * ln && 0 <= self.zoom.m() * ln
                <= (FX_SCALE as int) * ln && (self.slide.m() + self.zoom.m()) * ln == self.slide.m()
                * ln + self.zoom.m() * ln && (self.slide.m() + self.zoom.m()) * ln <= (
            FX_SCALE as int) * ln && (FX_SCALE as int) * ln <= (FX_SCALE as int) * (
            FX_UNIT_BOUND as int)) by (nonlinear_arith)
                requires
                    0 <= self.slide.m() <= FX_SCALE as int,
                    0 <= self.zoom.m() <= FX_SCALE as int,
                    self.slide.m() + self.zoom.m() <= FX_SCALE as int,
                    0 <= ln <= FX_UNIT_BOUND as int,
            ;
        }
        let start_m: i64 = self.slide.as_micros() * (len as i64);
        let width_m: i64 = self.zoom.as_micros() * (len as i64);
        let end_m: i64 = start_m + width_m;
        Region::new(Fx::from_micros(start_m), Fx::from_micros(end_m))
    }

    /// The selected span as a region, if both cursor and selection exist.
    pub fn selected_region(&self) -> (r: Option<Region>)
        requires
            self.wf(),
        ensures
            self.cursor is Some && self.selection is Some ==> (r matches Some(v) && v.wf()
                && v.spec_start() == min2(
                self.cursor->Some_0.m(),
                self.cursor->Some_0.m() + self.selection->Some_0.m(),
            ) && v.spec_end() == max2(
                self.cursor->Some_0.m(),
                self.cursor->Some_0.m() + self.selection->Some_0.m(),
            )),
            !(self.cursor is Some && self.selection is Some) ==> r is None,
    {
        proof {
            lemma_snd_len_nonneg(self.snd.chans());
            assert(0 <= snd_len(self.snd.chans()) * (FX_SCALE as int) <= (FX_UNIT_BOUND as int) * (
            FX_SCALE as int)) by (nonlinear_arith)
                requires
                    0 <= snd_len(self.snd.chans()) <= FX_UNIT_BOUND as int,
            ;
        }
        match (&self.cursor, &self.selection) {
            (Some(c), Some(s)) => Some(Region::new(*c, c.plus(s))),
            _ => None,
        }
    }

    /// Where the edited frame range begins.
    pub open spec fn spec_sample_start(&self) -> int {
        if self.cursor is Some && self.selection is Some {
            let a = self.cursor->Some_0.m();
            let b = self.cursor->Some_0.m() + self.selection->Some_0.m();
            ceil_frames(max2(min2(a, b), 0))
        } else {
            0
        }
    }

    /// Where the edited frame range ends.
    pub open spec fn spec_sample_end(&self) -> int {
        if self.cursor is Some && self.selection is Some {
            let a = self.cursor->Some_0.m();
            let b = self.cursor->Some_0.m() + self.selection->Some_0.m();
            max2(ceil_frames(max2(a, b)), 0)
        } else {
            snd_len(self.snd.chans())
        }
    }

    /// The whole frames the selection covers, or the full sound when
    /// nothing is selected.
    pub fn sample_region(&self) -> (r: (usize, usize))
        requires
            self.wf(),
        ensures
            r.0 as int == self.spec_sample_start(),
            r.1 as int == self.spec_sample_end(),
            self.cursor is Some && self.selection is Some ==> {
                let a = self.cursor->Some_0.m();
                let b = self.cursor->Some_0.m() + self.selection->Some_0.m();
                &&& r.0 as int == ceil_frames(max2(min2(a, b), 0))
                &&& r.1 as int == max2(ceil_frames(max2(a, b)), 0)
            },
            !(self.cursor is Some && self.selection is Some) ==> r.0 == 0 && r.1 as int == snd_len(
                self.snd.chans(),
            ),
            r.0 <= r.1,
            r.1 as int <= snd_len(self.snd.chans()),
    {
        let sel = self.selected_region();
        match sel {
            Some(region) => {
                let r = region.sample_range();
                proof {
                    lemma_snd_len_nonneg(self.snd.chans());
                    let ln = snd_len(self.snd.chans());
                    let a = self.cursor->Some_0.m();
                    let b = self.cursor->Some_0.m() + self.selection->Some_0.m();
                    let top = max2(a, b);
                    assert(top <= ln * (FX_SCALE as int));
                    vstd::arithmetic::div_mod::lemma_div_is_ordered(
                        -(ln * (FX_SCALE as int)),
                        -top,
                        FX_SCALE as int,
                    );
                    vstd::arithmetic::div_mod::lemma_div_multiples_vanish(-ln, FX_SCALE as int);
                    assert((FX_SCALE as int) * (-ln) == -(ln * (FX_SCALE as int)))
                        by (nonlinear_arith);
                }
                r
            },
            None => {
                let n = self.snd.len();
                proof {
                    lemma_snd_len_nonneg(self.snd.chans());
                }
                (0, n)
            },
        }
    }
}


/// The channels a copy takes: for each active channel, its selected span.
pub open spec fn copied_chans(chs: Seq<Seq<i64>>, bits: u32, s: int, e: int, i: int) -> Seq<
    Seq<i64>,
>
    decreases i,
{
    if i <= 0 {
        Seq::empty()
    } else {
        copied_chans(chs, bits, s, e, i - 1) + (if crate::util::channel_mask::mask_bit(
            bits,
            i - 1,
        ) {
            seq![
                chs[i - 1].subrange(
                    crate::blocks::sequence::clip_start(s, e, chs[i - 1].len() as int),
                    crate::blocks::sequence::clip_end(e, chs[i - 1].len() as int),
                ),
            ]
        } else {
            Seq::empty()
        })
    }
}

impl Ctx {
    /// Copies the selected span (or the whole sound) of every active
    /// channel into a new sound; inactive channels are left out.
    pub fn copy(&self) -> (r: Arc<Snd>)
        requires
            self.wf(),
        ensures
            r.wf(),
            r.spec_sample_rate() == self.snd.spec_sample_rate(),
            r.chans() == copied_chans(
                self.snd.chans(),
                self.channels.spec_bits(),
                self.spec_sample_start(),
                self.spec_sample_end(),
                self.snd.chans().len() as int,
            ),
    {
        let (s, e) = self.sample_region();
        let cn = self.snd.channels();
        let mut out: Vec<BlockSequence> = Vec::new();
        let mut i: usize = 0;
        while i < cn
            invariant
                self.wf(),
                s as int == self.spec_sample_start(),
                e as int == self.spec_sample_end(),
                s <= e,
                cn == self.snd.chans().len(),
                i <= cn,
                forall|j: int| 0 <= j < out@.len() ==> (#[trigger] out@[j]).wf(),
                out@.map_values(|c: BlockSequence| c@) =~= copied_chans(
                    self.snd.chans(),
                    self.channels.spec_bits(),
                    s as int,
                    e as int,
                    i as int,
                ),
            decreases cn - i,
        {
            let seq_i = match self.snd.channel(i) {
                Some(c) => c,
                None => vstd::pervasive::unreached(),
            };
            let ghost before = out@.map_values(|c: BlockSequence| c@);
            if self.channels.is_on(i) {
                let sub = seq_i.sub_seq(s, e);
                out.push(sub);
                proof {
                    assert(out@.map_values(|c: BlockSequence| c@) =~= before.push(
                        out@.last()@,
                    ));
                    assert(out@.map_values(|c: BlockSequence| c@) =~= copied_chans(
                        self.snd.chans(),
                        self.channels.spec_bits(),
                        s as int,
                        e as int,
                        i as int + 1,
                    ));
                }
            } else {
                proof {
                    assert(out@.map_values(|c: BlockSequence| c@) =~= copied_chans(
                        self.snd.chans(),
                        self.channels.spec_bits(),
                        s as int,
                        e as int,
                        i as int + 1,
                    ));
                }
            }
            i = i + 1;
        }
        proof {
            self.snd.lemma_wf_rate();
        }
        let sr = self.snd.sample_rate();
        Arc::new(Snd::new(sr, out))
    }

    /// Places the cursor where a click at window fraction `x` lands: the
    /// clicked position, floored to a whole frame.  The selection clears.
    pub fn default_click(&mut self, x: Fx)
        requires
            old(self).wf(),
            0 <= x.m() <= FX_SCALE as int,
        ensures
            final(self).wf(),
            ({
                let ln = snd_len(old(self).snd.chans());
                let start_m = old(self).slide.m() * ln;
                let wlen_m = old(self).zoom.m() * ln;
                let place = ((x.m() * wlen_m) / (FX_SCALE as int) / (FX_SCALE as int)) * (
                FX_SCALE as int) + start_m;
                final(self).cursor matches Option::Some(c) && c.m() == place
            }),
            final(self).selection is None,
            final(self).snd == old(self).snd,
            final(self).ruler == old(self).ruler,
            final(self).channels == old(self).channels,
            final(self).zoom == old(self).zoom,
            final(self).slide == old(self).slide,
            final(self).loop_mode == old(self).loop_mode,
    {
        let ln = self.snd.len();
        let ghost lng = snd_len(self.snd.chans());
        proof {
            lemma_snd_len_nonneg(self.snd.chans());
            assert(0 <= self.slide.m() * lng && 0 <= self.zoom.m() * lng && self.slide.m() * lng
                + self.zoom.m() * lng == (self.slide.m() + self.zoom.m()) * lng && (self.slide.m()
                + self.zoom.m()) * lng <= (FX_SCALE as int) * lng && (FX_SCALE as int) * lng <= (
            FX_SCALE as int) * (FX_UNIT_BOUND as int)) by (nonlinear_arith)
                requires
                    0 <= self.slide.m(),
                    0 <= self.zoom.m(),
                    self.slide.m() + self.zoom.m() <= FX_SCALE as int,
                    0 <= lng <= FX_UNIT_BOUND as int,
            ;
        }
        let start_m: i64 = self.slide.as_micros() * (ln as i64);
        let wlen_m: i64 = self.zoom.as_micros() * (ln as i64);
        proof {
            assert(0 <= (x.m()) * (wlen_m as int) && (x.m()) * (wlen_m as int) <= (
            FX_SCALE as int) * ((FX_SCALE as int) * (FX_UNIT_BOUND as int)) && (x.m()) * (
            wlen_m as int) <= (FX_SCALE as int) * (wlen_m as int)) by (nonlinear_arith)
                requires
                    0 <= x.m() <= FX_SCALE as int,
                    0 <= wlen_m as int <= (FX_SCALE as int) * (FX_UNIT_BOUND as int),
            ;
        }
        let prod: i128 = (x.as_micros() as i128) * (wlen_m as i128);
        let p1 = crate::num::floor_div_i128(prod, FX_SCALE as i128);
        let fl = crate::num::floor_div_i128(p1, FX_SCALE as i128);
        proof {
            vstd::arithmetic::div_mod::lemma_div_pos_is_pos(prod as int, FX_SCALE as int);
            vstd::arithmetic::div_mod::lemma_div_pos_is_pos(p1 as int, FX_SCALE as int);
            vstd::arithmetic::div_mod::lemma_fundamental_div_mod(prod as int, FX_SCALE as int);
            vstd::arithmetic::div_mod::lemma_fundamental_div_mod(p1 as int, FX_SCALE as int);
            vstd::arithmetic::div_mod::lemma_mod_bound(prod as int, FX_SCALE as int);
            vstd::arithmetic::div_mod::lemma_mod_bound(p1 as int, FX_SCALE as int);
            // The clicked frame times the scale stays inside the window.
            assert((fl as int) * (FX_SCALE as int) <= p1 as int && 0 <= (fl as int) * (
            FX_SCALE as int)) by (nonlinear_arith)
                requires
                    (FX_SCALE as int) * (fl as int) + (p1 as int) % (FX_SCALE as int) == p1 as int,
                    0 <= (p1 as int) % (FX_SCALE as int),
                    0 <= fl as int,
                    0 < FX_SCALE as int,
            ;
            assert(p1 as int <= wlen_m as int) by (nonlinear_arith)
                requires
                    (FX_SCALE as int) * (p1 as int) + (prod as int) % (FX_SCALE as int)
                        == prod as int,
                    prod as int == (x.m()) * (wlen_m as int),
                    (x.m()) * (wlen_m as int) <= (FX_SCALE as int) * (wlen_m as int),
                    0 <= (prod as int) % (FX_SCALE as int),
                    0 < FX_SCALE as int,
            ;
        }
        let place: i64 = (fl as i64) * FX_SCALE + start_m;
        self.cursor = Some(Fx::from_micros(place));
        self.selection = None;
    }

    /// Extends (or clears) the selection towards a drag at window fraction
    /// `x`: the dragged-to frame becomes the far edge of the selection, and
    /// a drag within one frame of the cursor clears it.
    pub fn default_drag(&mut self, x: Fx)
        requires
            old(self).wf(),
            0 <= x.m() <= FX_SCALE as int,
        ensures
            final(self).wf(),
            ({
                let ln = snd_len(old(self).snd.chans());
                let start_m = old(self).slide.m() * ln;
                let wlen_m = old(self).zoom.m() * ln;
                let wx = (((x.m() * wlen_m) / (FX_SCALE as int) + start_m) / (FX_SCALE as int)) * (
                FX_SCALE as int);
                match old(self).cursor {
                    Option::Some(c) => if -(FX_SCALE as int) < wx - c.m() < FX_SCALE as int {
                        final(self).selection is None
                    } else {
                        final(self).selection matches Option::Some(sv) && sv.m() == wx - c.m()
                    },
                    Option::None => final(self).selection is None,
                }
            }),
            final(self).cursor == old(self).cursor,
            final(self).snd == old(self).snd,
            final(self).ruler == old(self).ruler,
            final(self).channels == old(self).channels,
            final(self).zoom == old(self).zoom,
            final(self).slide == old(self).slide,
            final(self).loop_mode == old(self).loop_mode,
    {
        let ln = self.snd.len();
        let ghost lng = snd_len(self.snd.chans());
        proof {
            lemma_snd_len_nonneg(self.snd.chans());
            assert(0 <= self.slide.m() * lng && 0 <= self.zoom.m() * lng && self.slide.m() * lng
                + self.zoom.m() * lng == (self.slide.m() + self.zoom.m()) * lng && (self.slide.m()
                + self.zoom.m()) * lng <= (FX_SCALE as int) * lng && (FX_SCALE as int) * lng <= (
            FX_SCALE as int) * (FX_UNIT_BOUND as int)) by (nonlinear_arith)
                requires
                    0 <= self.slide.m(),
                    0 <= self.zoom.m(),
                    self.slide.m() + self.zoom.m() <= FX_SCALE as int,
                    0 <= lng <= FX_UNIT_BOUND as int,
            ;
        }
        let start_m: i64 = self.slide.as_micros() * (ln as i64);
        let wlen_m: i64 = self.zoom.as_micros() * (ln as i64);
        proof {
            assert(0 <= (x.m()) * (wlen_m as int) && (x.m()) * (wlen_m as int) <= (
            FX_SCALE as int) * (wlen_m as int) && (x.m()) * (wlen_m as int) <= (FX_SCALE as int)
                * ((FX_SCALE as int) * (FX_UNIT_BOUND as int))) by (nonlinear_arith)
                requires
                    0 <= x.m() <= FX_SCALE as int,
                    0 <= wlen_m as int <= (FX_SCALE as int) * (FX_UNIT_BOUND as int),
            ;
        }
        let prod: i128 = (x.as_micros() as i128) * (wlen_m as i128);
        let p1 = crate::num::floor_div_i128(prod, FX_SCALE as i128);
        proof {
            vstd::arithmetic::div_mod::lemma_div_pos_is_pos(prod as int, FX_SCALE as int);
            vstd::arithmetic::div_mod::lemma_fundamental_div_mod(prod as int, FX_SCALE as int);
            vstd::arithmetic::div_mod::lemma_mod_bound(prod as int, FX_SCALE as int);
            assert(p1 as int <= wlen_m as int) by (nonlinear_arith)
                requires
                    (FX_SCALE as int) * (p1 as int) + (prod as int) % (FX_SCALE as int)
                        == prod as int,
                    (x.m()) * (wlen_m as int) <= (FX_SCALE as int) * (wlen_m as int),
                    prod as int == (x.m()) * (wlen_m as int),
                    0 <= (prod as int) % (FX_SCALE as int),
                    0 < FX_SCALE as int,
            ;
        }
        let inner: i64 = (p1 as i64) + start_m;
        let flq = crate::num::floor_div_i128(inner as i128, FX_SCALE as i128);
        proof {
            vstd::arithmetic::div_mod::lemma_div_pos_is_pos(inner as int, FX_SCALE as int);
            vstd::arithmetic::div_mod::lemma_fundamental_div_mod(inner as int, FX_SCALE as int);
            vstd::arithmetic::div_mod::lemma_mod_bound(inner as int, FX_SCALE as int);
            assert((flq as int) * (FX_SCALE as int) <= inner as int && 0 <= (flq as int) * (
            FX_SCALE as int)) by (nonlinear_arith)
                requires
                    (FX_SCALE as int) * (flq as int) + (inner as int) % (FX_SCALE as int)
                        == inner as int,
                    0 <= (inner as int) % (FX_SCALE as int),
                    0 <= flq as int,
                    0 < FX_SCALE as int,
            ;
        }
        let wx: i64 = (flq as i64) * FX_SCALE;
        let new_sel: Option<Fx> = match &self.cursor {
            None => None,
            Some(c) => {
                let d = wx - c.as_micros();
                if -FX_SCALE < d && d < FX_SCALE {
                    None
                } else {
                    Some(Fx::from_micros(d))
                }
            },
        };
        self.selection = new_sel;
    }
}

} // verus!
