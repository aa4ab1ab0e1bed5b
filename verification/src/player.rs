//! Real-time playback: a cursor that walks a shared sound at an exact
//! rational rate, and the driver state machine the audio thread runs.
//!
//! The head is a fraction with the device rate as its fixed denominator:
//! it advances by the source rate each tick, so every position is exact.

use vstd::prelude::*;
use std::sync::Arc;
use crate::snd::Snd;
use crate::num::{clamp_i64, at_or_zero, lerp_spec};
use crate::samples::min2;

verus! {

/// Rates and frame positions stay below this, so no head computation can
/// overflow 64 bits.
pub const RATE_BOUND: u64 = 0x7FFFFFFF;

/// A playback cursor over a shared sound.
pub struct Player {
    id: u64,
    snd: Arc<Snd>,
    start: u64,
    end: u64,
    play_loop: bool,
    head_num: u64,
    src_sr: u64,
    dev_sr: u64,
}

impl Player {
    /// The playback identity this cursor reports.
    pub closed spec fn spec_id(&self) -> u64 {
        self.id
    }

    /// The channels being played.
    pub closed spec fn chans(&self) -> Seq<Seq<i64>> {
        self.snd.chans()
    }

    /// The region start, in frames.
    pub closed spec fn spec_start(&self) -> int {
        self.start as int
    }

    /// The region end, in frames.
    pub closed spec fn spec_end(&self) -> int {
        self.end as int
    }

    /// Whether the cursor wraps at the region end.
    pub closed spec fn spec_loop(&self) -> bool {
        self.play_loop
    }

    /// The head position, in `1 / device-rate` frames.
    pub closed spec fn spec_head(&self) -> int {
        self.head_num as int
    }

    /// The per-tick advance: the source sample rate.
    pub closed spec fn spec_src(&self) -> int {
        self.src_sr as int
    }

    /// The head denominator: the device sample rate.
    pub closed spec fn spec_dev(&self) -> int {
        self.dev_sr as int
    }

    /// Rates positive and bounded, the region ordered and bounded, at least
    /// one channel, the head within one overshoot of the region end, and a
    /// looped region at least one tick long.
    pub closed spec fn wf(&self) -> bool {
        &&& self.snd.wf()
        &&& self.snd.chans().len() >= 1
        &&& 1 <= self.src_sr <= RATE_BOUND
        &&& 1 <= self.dev_sr <= RATE_BOUND
        &&& self.start <= self.end <= RATE_BOUND
        &&& self.head_num as int <= self.end as int * self.dev_sr as int + self.src_sr as int
        &&& (self.play_loop ==> self.src_sr as int <= (self.end as int - self.start as int)
            * self.dev_sr as int)
    }

    /// A cursor over `snd`, playing `[start, end)` frames from `head`
    /// through a device running at `dev_sr`; the advance ratio is
    /// `snd.sample_rate() / dev_sr` as an exact fraction.
    pub fn new(id: u64, snd: Arc<Snd>, dev_sr: u64, start: u64, end: u64, head: u64, lp: bool) -> (p:
        Player)
        requires
            snd.wf(),
            snd.chans().len() >= 1,
            1 <= snd.spec_sample_rate() <= RATE_BOUND as int,
            1 <= dev_sr <= RATE_BOUND,
            start <= end <= RATE_BOUND,
            start <= head <= end,
            lp ==> snd.spec_sample_rate() <= (end as int - start as int) * (dev_sr as int),
        ensures
            p.wf(),
            p.spec_id() == id,
            p.chans() == snd.chans(),
            p.spec_start() == start as int,
            p.spec_end() == end as int,
            p.spec_loop() == lp,
            p.spec_head() == head as int * dev_sr as int,
            p.spec_src() == snd.spec_sample_rate(),
            p.spec_dev() == dev_sr as int,
    {
        let src_sr = snd.sample_rate() as u64;
        proof {
            assert(head as int * dev_sr as int <= end as int * dev_sr as int && 0 <= head as int
                * dev_sr as int && end as int * dev_sr as int <= RATE_BOUND as int * (
            RATE_BOUND as int)) by (nonlinear_arith)
                requires
                    0 <= head as int <= end as int <= RATE_BOUND as int,
                    1 <= dev_sr as int <= RATE_BOUND as int,
            ;
        }
        Player {
            id,
            snd,
            start,
            end,
            play_loop: lp,
            head_num: head * dev_sr,
            src_sr,
            dev_sr,
        }
    }

    /// The playback identity.
    pub fn id(&self) -> (r: u64)
        ensures
            r == self.spec_id(),
    {
        self.id
    }

    /// The whole frame the head currently sits on.
    pub fn play_pos(&self) -> (r: usize)
        requires
            self.wf(),
        ensures
            r as int == self.spec_head() / self.spec_dev(),
    {
        proof {
            vstd::arithmetic::div_mod::lemma_div_is_ordered(
                self.head_num as int,
                self.end as int * self.dev_sr as int + self.src_sr as int,
                self.dev_sr as int,
            );
            vstd::arithmetic::div_mod::lemma_fundamental_div_mod(
                self.end as int * self.dev_sr as int + self.src_sr as int,
                self.dev_sr as int,
            );
            let q = (self.end as int * self.dev_sr as int + self.src_sr as int) / (
            self.dev_sr as int);
            assert(q <= self.end as int + self.src_sr as int) by (nonlinear_arith)
                requires
                    self.dev_sr as int * q + (self.end as int * self.dev_sr as int
                        + self.src_sr as int) % (self.dev_sr as int) == self.end as int
                        * self.dev_sr as int + self.src_sr as int,
                    0 <= (self.end as int * self.dev_sr as int + self.src_sr as int) % (
                    self.dev_sr as int),
                    1 <= self.dev_sr as int,
                    0 <= self.src_sr as int,
                    0 <= self.end as int,
            ;
            vstd::arithmetic::div_mod::lemma_div_pos_is_pos(
                self.head_num as int,
                self.dev_sr as int,
            );
        }
        (self.head_num / self.dev_sr) as usize
    }

    /// Fills one output frame by interpolating every device channel, then
    /// advances the head by one tick.  Returns whether playback continues:
    /// at the region end it stops, or wraps back by exactly the region
    /// length when looping.
    pub fn tick(&mut self, out: &mut Vec<i64>) -> (cont: bool)
        requires
            old(self).wf(),
        ensures
            final(self).wf(),
            final(self).spec_id() == old(self).spec_id(),
            final(self).chans() == old(self).chans(),
            final(self).spec_start() == old(self).spec_start(),
            final(self).spec_end() == old(self).spec_end(),
            final(self).spec_loop() == old(self).spec_loop(),
            final(self).spec_src() == old(self).spec_src(),
            final(self).spec_dev() == old(self).spec_dev(),
            final(out)@.len() == old(out)@.len(),
            forall|c: int|
                0 <= c < final(out)@.len() ==> #[trigger] final(out)@[c] as int == frame_sample(
                    old(self).chans(),
                    old(self).spec_head(),
                    old(self).spec_dev(),
                    c,
                ),
            cont == tick_cont(
                old(self).spec_head(),
                old(self).spec_end(),
                old(self).spec_dev(),
                old(self).spec_src(),
                old(self).spec_loop(),
            ),
            final(self).spec_head() == tick_head(
                old(self).spec_head(),
                old(self).spec_start(),
                old(self).spec_end(),
                old(self).spec_dev(),
                old(self).spec_src(),
                old(self).spec_loop(),
            ),
            ({
                let h2 = old(self).spec_head() + old(self).spec_src();
                let edge = old(self).spec_end() * old(self).spec_dev();
                let cap = edge + old(self).spec_src();
                &&& (h2 < edge ==> cont && final(self).spec_head() == h2)
                &&& (h2 >= edge && old(self).spec_loop() ==> cont && final(self).spec_head() == h2
                    - (old(self).spec_end() - old(self).spec_start()) * old(self).spec_dev())
                &&& (h2 >= edge && !old(self).spec_loop() ==> !cont && final(self).spec_head()
                    == min2(h2, cap))
            }),
    {
        let q128: u64 = self.head_num / self.dev_sr;
        let rem: u64 = self.head_num % self.dev_sr;
        proof {
            vstd::arithmetic::div_mod::lemma_mod_bound(self.head_num as int, self.dev_sr as int);
            vstd::arithmetic::div_mod::lemma_div_is_ordered(
                self.head_num as int,
                self.end as int * self.dev_sr as int + self.src_sr as int,
                self.dev_sr as int,
            );
            vstd::arithmetic::div_mod::lemma_fundamental_div_mod(
                self.end as int * self.dev_sr as int + self.src_sr as int,
                self.dev_sr as int,
            );
            vstd::arithmetic::div_mod::lemma_div_pos_is_pos(
                self.head_num as int,
                self.dev_sr as int,
            );
            let qb = (self.end as int * self.dev_sr as int + self.src_sr as int) / (
            self.dev_sr as int);
            assert(qb <= self.end as int + self.src_sr as int) by (nonlinear_arith)
                requires
                    self.dev_sr as int * qb + (self.end as int * self.dev_sr as int
                        + self.src_sr as int) % (self.dev_sr as int) == self.end as int
                        * self.dev_sr as int + self.src_sr as int,
                    0 <= (self.end as int * self.dev_sr as int + self.src_sr as int) % (
                    self.dev_sr as int),
                    1 <= self.dev_sr as int,
                    0 <= self.src_sr as int,
                    0 <= self.end as int,
            ;
            assert(q128 as int <= 2 * RATE_BOUND as int);
            assert(usize::MAX >= 0xFFFFFFFFusize);
        }
        let idx: usize = q128 as usize;
        let cn = self.snd.channels();
        let on = out.len();
        let mut buf: Vec<i64> = Vec::new();
        let mut c: usize = 0;
        while c < on
            invariant
                self.wf(),
                cn == self.snd.chans().len(),
                cn >= 1,
                on == out@.len(),
                c <= on,
                buf@.len() == c,
                idx as int == self.head_num as int / self.dev_sr as int,
                idx as int <= 2 * RATE_BOUND as int,
                rem as int == self.head_num as int % self.dev_sr as int,
                0 <= (rem as int) && (rem as int) < self.dev_sr as int,
                forall|j: int|
                    0 <= j < c ==> #[trigger] buf@[j] as int == lerp_spec(
                        at_or_zero(self.snd.chans()[min2(j, self.snd.chans().len() - 1)], idx as int),
                        at_or_zero(
                            self.snd.chans()[min2(j, self.snd.chans().len() - 1)],
                            idx as int + 1,
                        ),
                        rem as int,
                        self.dev_sr as int,
                    ),
            decreases on - c,
        {
            let ch = if c < cn - 1 {
                c
            } else {
                cn - 1
            };
            let seq_c = match self.snd.channel(ch) {
                Some(s) => s,
                None => vstd::pervasive::unreached(),
            };
            let left: i64 = match seq_c.get_sample(idx) {
                Some(v) => v,
                None => 0,
            };
            let right: i64 = match seq_c.get_sample(idx + 1) {
                Some(v) => v,
                None => 0,
            };
            proof {
                assert((i128::MIN as int) < (left as int) * (self.dev_sr as int - rem as int) + (
                right as int) * (rem as int) < (i128::MAX as int) && (i128::MIN as int) < (
                left as int) * (self.dev_sr as int - rem as int) < (i128::MAX as int) && (
                i128::MIN as int) < (right as int) * (rem as int) < (i128::MAX as int))
                    by (nonlinear_arith)
                    requires
                        i64::MIN as int <= left as int <= i64::MAX as int,
                        i64::MIN as int <= right as int <= i64::MAX as int,
                        0 <= rem as int <= RATE_BOUND as int,
                        0 <= self.dev_sr as int - rem as int <= RATE_BOUND as int,
                ;
            }
            let wide: i128 = (left as i128) * ((self.dev_sr - rem) as i128) + (right as i128) * (
            rem as i128);
            let q = crate::num::floor_div_i128(wide, self.dev_sr as i128);
            let y = clamp_i64(q);
            buf.push(y);
            c = c + 1;
        }
        *out = buf;
        // Advance the head by one tick and apply the boundary rule.
        proof {
            assert(self.end as int * self.dev_sr as int <= RATE_BOUND as int * (RATE_BOUND as int))
                by (nonlinear_arith)
                requires
                    0 <= self.end as int <= RATE_BOUND as int,
                    0 <= self.dev_sr as int <= RATE_BOUND as int,
            ;
        }
        let h2 = self.head_num + self.src_sr;
        let edge = self.end * self.dev_sr;
        if h2 >= edge {
            if self.play_loop {
                proof {
                    assert((self.end as int - self.start as int) * self.dev_sr as int
                        <= RATE_BOUND as int * (RATE_BOUND as int)) by (nonlinear_arith)
                        requires
                            0 <= self.end as int - self.start as int <= RATE_BOUND as int,
                            0 <= self.dev_sr as int <= RATE_BOUND as int,
                    ;
                }
                let span = (self.end - self.start) * self.dev_sr;
                proof {
                    assert((self.end as int - self.start as int) * self.dev_sr as int
                        == self.end as int * self.dev_sr as int - self.start as int
                        * self.dev_sr as int && 0 <= self.start as int * self.dev_sr as int)
                        by (nonlinear_arith)
                        requires
                            0 <= self.start as int <= self.end as int,
                            1 <= self.dev_sr as int,
                    ;
                }
                self.head_num = h2 - span;
                true
            } else {
                let cap = edge + self.src_sr;
                self.head_num = if h2 > cap {
                    cap
                } else {
                    h2
                };
                false
            }
        } else {
            self.head_num = h2;
            true
        }
    }
}


/// The sample device channel `c` receives from a tick at head `h`:
/// interpolation on the matching source channel, the last source channel
/// replicated for extra device channels.
pub open spec fn frame_sample(chans: Seq<Seq<i64>>, h: int, dev: int, c: int) -> int {
    lerp_spec(
        at_or_zero(chans[min2(c, chans.len() - 1)], h / dev),
        at_or_zero(chans[min2(c, chans.len() - 1)], h / dev + 1),
        h % dev,
        dev,
    )
}

/// Whether a tick from head `h` continues: it does unless the advanced
/// head reaches the region end without looping.
pub open spec fn tick_cont(h: int, end: int, dev: int, src: int, lp: bool) -> bool {
    h + src < end * dev || lp
}

/// The head after one tick: advance by `src`, then wrap back by the region
/// length, or saturate one overshoot past the end when stopping.
pub open spec fn tick_head(h: int, start: int, end: int, dev: int, src: int, lp: bool) -> int {
    let h2 = h + src;
    let edge = end * dev;
    if h2 < edge {
        h2
    } else if lp {
        h2 - (end - start) * dev
    } else {
        min2(h2, edge + src)
    }
}

/// The head after `k` ticks.
pub open spec fn head_after(
    h: int,
    start: int,
    end: int,
    dev: int,
    src: int,
    lp: bool,
    k: int,
) -> int
    decreases k,
{
    if k <= 0 {
        h
    } else {
        head_after(tick_head(h, start, end, dev, src, lp), start, end, dev, src, lp, k - 1)
    }
}

/// Whether each of the first `k` ticks continues.
pub open spec fn runs_for(
    h: int,
    start: int,
    end: int,
    dev: int,
    src: int,
    lp: bool,
    k: int,
) -> bool
    decreases k,
{
    if k <= 0 {
        true
    } else {
        tick_cont(h, end, dev, src, lp) && runs_for(
            tick_head(h, start, end, dev, src, lp),
            start,
            end,
            dev,
            src,
            lp,
            k - 1,
        )
    }
}

/// How many ticks a period of `frames` executes: the period stops right
/// after the first tick that does not continue.
pub open spec fn ticks_run(
    h: int,
    start: int,
    end: int,
    dev: int,
    src: int,
    lp: bool,
    frames: int,
) -> int
    decreases frames,
{
    if frames <= 0 {
        0
    } else if !tick_cont(h, end, dev, src, lp) {
        1
    } else {
        1 + ticks_run(tick_head(h, start, end, dev, src, lp), start, end, dev, src, lp, frames - 1)
    }
}

/// Whether a period of `frames` ticks runs to its end with every tick
/// continuing.
pub open spec fn run_continues(
    h: int,
    start: int,
    end: int,
    dev: int,
    src: int,
    lp: bool,
    frames: int,
) -> bool
    decreases frames,
{
    if frames <= 0 {
        true
    } else if !tick_cont(h, end, dev, src, lp) {
        false
    } else {
        run_continues(tick_head(h, start, end, dev, src, lp), start, end, dev, src, lp, frames - 1)
    }
}

/// Peeling a run from the back: the head after `k + 1` ticks is one tick
/// past the head after `k`.
pub proof fn lemma_head_after_snoc(h: int, start: int, end: int, dev: int, src: int, lp: bool, k: int)
    requires
        k >= 0,
    ensures
        head_after(h, start, end, dev, src, lp, k + 1) == tick_head(
            head_after(h, start, end, dev, src, lp, k),
            start,
            end,
            dev,
            src,
            lp,
        ),
    decreases k,
{
    let th = tick_head(h, start, end, dev, src, lp);
    assert(head_after(h, start, end, dev, src, lp, k + 1) == head_after(
        th,
        start,
        end,
        dev,
        src,
        lp,
        k,
    ));
    if k > 0 {
        lemma_head_after_snoc(th, start, end, dev, src, lp, k - 1);
        assert(head_after(h, start, end, dev, src, lp, k) == head_after(
            th,
            start,
            end,
            dev,
            src,
            lp,
            k - 1,
        ));
    } else {
        assert(head_after(th, start, end, dev, src, lp, 0) == th);
        assert(head_after(h, start, end, dev, src, lp, 0) == h);
    }
}

/// Extending a continuing run by one more tick.
pub proof fn lemma_runs_for_snoc(h: int, start: int, end: int, dev: int, src: int, lp: bool, k: int)
    requires
        k >= 0,
    ensures
        runs_for(h, start, end, dev, src, lp, k + 1) == (runs_for(h, start, end, dev, src, lp, k)
            && tick_cont(head_after(h, start, end, dev, src, lp, k), end, dev, src, lp)),
    decreases k,
{
    let th = tick_head(h, start, end, dev, src, lp);
    assert(runs_for(h, start, end, dev, src, lp, k + 1) == (tick_cont(h, end, dev, src, lp)
        && runs_for(th, start, end, dev, src, lp, k)));
    if k > 0 {
        lemma_runs_for_snoc(th, start, end, dev, src, lp, k - 1);
        lemma_head_after_snoc(h, start, end, dev, src, lp, k - 1);
        assert(runs_for(h, start, end, dev, src, lp, k) == (tick_cont(h, end, dev, src, lp)
            && runs_for(th, start, end, dev, src, lp, k - 1)));
        assert(head_after(h, start, end, dev, src, lp, k) == head_after(
            th,
            start,
            end,
            dev,
            src,
            lp,
            k - 1,
        ));
    } else {
        assert(runs_for(th, start, end, dev, src, lp, 0));
        assert(runs_for(h, start, end, dev, src, lp, 0));
        assert(head_after(h, start, end, dev, src, lp, 0) == h);
    }
}

/// A period whose tick `k` is the first not to continue executes exactly
/// `k + 1` ticks and does not run through.
pub proof fn lemma_run_stops(
    h: int,
    start: int,
    end: int,
    dev: int,
    src: int,
    lp: bool,
    frames: int,
    k: int,
)
    requires
        0 <= k,
        k + 1 <= frames,
        runs_for(h, start, end, dev, src, lp, k),
        !tick_cont(head_after(h, start, end, dev, src, lp, k), end, dev, src, lp),
    ensures
        ticks_run(h, start, end, dev, src, lp, frames) == k + 1,
        !run_continues(h, start, end, dev, src, lp, frames),
    decreases k,
{
    if k > 0 {
        lemma_run_stops(tick_head(h, start, end, dev, src, lp), start, end, dev, src, lp, frames - 1, k - 1);
    }
}

/// A period whose ticks all continue executes them all and runs through.
pub proof fn lemma_run_completes(h: int, start: int, end: int, dev: int, src: int, lp: bool, frames: int)
    requires
        frames >= 0,
        runs_for(h, start, end, dev, src, lp, frames),
    ensures
        ticks_run(h, start, end, dev, src, lp, frames) == frames,
        run_continues(h, start, end, dev, src, lp, frames),
    decreases frames,
{
    if frames > 0 {
        lemma_run_completes(tick_head(h, start, end, dev, src, lp), start, end, dev, src, lp, frames - 1);
    }
}

/// With a unit advance ratio over the region `[0, n)` from head zero, the
/// first `n - 1` ticks continue, the `n`-th tick is the first to stop, and
/// the last continuing tick leaves the head on frame `n - 1`.  (Combine
/// with `Player::tick`'s contract: each continuing tick advances the head
/// by exactly `sr`, so after `k` ticks the head is `k * sr`.)
pub proof fn lemma_unit_ratio_run(n: int, sr: int)
    requires
        n >= 1,
        sr >= 1,
    ensures
        forall|k: int| 0 <= k < n - 1 ==> #[trigger] (k * sr) + sr < n * sr,
        (n - 1) * sr + sr >= n * sr,
        ((n - 1) * sr) / sr == n - 1,
{
    assert forall|k: int| 0 <= k < n - 1 implies #[trigger] (k * sr) + sr < n * sr by {
        assert((k + 1) * sr < n * sr && (k + 1) * sr == k * sr + sr) by (nonlinear_arith)
            requires
                k + 1 < n,
                sr >= 1,
        ;
    }
    assert((n - 1) * sr + sr >= n * sr) by (nonlinear_arith)
        requires
            sr >= 1,
    ;
    vstd::arithmetic::div_mod::lemma_div_multiples_vanish(n - 1, sr);
    assert(sr * (n - 1) == (n - 1) * sr) by (nonlinear_arith);
}

/// A control command for the audio-thread driver.
pub enum Cmd {
    /// Start playing: identity, sound, region start and end (frames),
    /// initial head (frames), loop flag.
    Play(u64, Arc<Snd>, u64, u64, u64, bool),
    /// Stop the playback with this identity.
    Stop(u64),
}

/// A status message the driver emits towards the interface thread.
pub enum OutMsg {
    /// The playback with this identity reached this frame.
    Playback(u64, usize),
    /// The playback with this identity ended.
    Stop(u64),
}

/// Whether a play command satisfies what a `Player` needs.
pub open spec fn play_cmd_wf(cmd: Cmd, dev_sr: u64) -> bool {
    match cmd {
        Cmd::Play(_, snd, rs, re, pt, lp) => {
            &&& snd.wf()
            &&& snd.chans().len() >= 1
            &&& 1 <= snd.spec_sample_rate() <= RATE_BOUND as int
            &&& rs <= re <= RATE_BOUND
            &&& rs <= pt <= re
            &&& (lp ==> snd.spec_sample_rate() <= (re as int - rs as int) * (dev_sr as int))
        },
        Cmd::Stop(_) => true,
    }
}

/// The state machine the real-time thread owns: idle, or driving one
/// player.  Commands arrive from a queue; each callback period renders one
/// buffer and emits at most one status message.
pub struct Driver {
    current: Option<Player>,
    dev_sr: u64,
}

impl Driver {
    /// The device rate the driver renders at.
    pub closed spec fn spec_dev(&self) -> u64 {
        self.dev_sr
    }

    /// The active playback, if any.
    pub closed spec fn spec_current(&self) -> Option<Player> {
        self.current
    }

    /// The device rate is usable and any active player is well-formed.
    pub closed spec fn wf(&self) -> bool {
        &&& 1 <= self.dev_sr <= RATE_BOUND
        &&& (self.current matches Option::Some(p) ==> p.wf() && p.spec_dev() == self.dev_sr as int)
    }

    /// An idle driver for a device rate.
    pub fn new(dev_sr: u64) -> (r: Driver)
        requires
            1 <= dev_sr <= RATE_BOUND,
        ensures
            r.wf(),
            r.spec_current() is None,
            r.spec_dev() == dev_sr,
    {
        Driver { current: None, dev_sr }
    }

    /// Applies one control command.  A play command replaces the active
    /// player (emitting a stop notice if a different playback was active);
    /// a stop command ends the matching playback with a stop notice and is
    /// ignored otherwise.
    pub fn handle_cmd(&mut self, cmd: Cmd) -> (msg: Option<OutMsg>)
        requires
            old(self).wf(),
            play_cmd_wf(cmd, old(self).spec_dev()),
        ensures
            final(self).wf(),
            final(self).spec_dev() == old(self).spec_dev(),
            match cmd {
                Cmd::Play(id, snd, rs, re, pt, lp) => {
                    &&& (final(self).spec_current() matches Option::Some(p) && p.spec_id() == id
                        && p.chans() == snd.chans() && p.spec_start() == rs as int && p.spec_end()
                        == re as int && p.spec_loop() == lp && p.spec_head() == pt as int
                        * old(self).spec_dev() as int)
                    &&& (match old(self).spec_current() {
                        Option::Some(q) => if q.spec_id() != id {
                            msg == Option::Some(OutMsg::Stop(q.spec_id()))
                        } else {
                            msg is None
                        },
                        Option::None => msg is None,
                    })
                },
                Cmd::Stop(id) => {
                    match old(self).spec_current() {
                        Option::Some(q) => if q.spec_id() == id {
                            final(self).spec_current() is None && msg == Option::Some(
                                OutMsg::Stop(id),
                            )
                        } else {
                            final(self).spec_current() == old(self).spec_current() && msg is None
                        },
                        Option::None => final(self).spec_current() is None && msg is None,
                    }
                },
            },
    {
        match cmd {
            Cmd::Play(id, snd, rs, re, pt, lp) => {
                let mut msg: Option<OutMsg> = None;
                match &self.current {
                    Some(p) => {
                        if p.id() != id {
                            msg = Some(OutMsg::Stop(p.id()));
                        }
                    },
                    None => {},
                }
                let player = Player::new(id, snd, self.dev_sr, rs, re, pt, lp);
                self.current = Some(player);
                msg
            },
            Cmd::Stop(id) => {
                match &self.current {
                    Some(p) => {
                        if p.id() == id {
                            self.current = None;
                            Some(OutMsg::Stop(id))
                        } else {
                            None
                        }
                    },
                    None => None,
                }
            },
        }
    }

    /// Renders one callback period of `frames` frames on `channels` output
    /// channels: silence when idle, otherwise repeated ticks of the active
    /// player, each tick's frame written in order and the tail zero-padded
    /// if playback ends early.  Emits one status message per active period:
    /// the position the advanced player reached, or a stop notice if a tick
    /// stopped (the player is then discarded).
    pub fn render_period(&mut self, frames: usize, channels: usize) -> (r: (Vec<i64>, Option<
        OutMsg,
    >))
        requires
            old(self).wf(),
            channels >= 1,
            frames * channels <= usize::MAX,
        ensures
            final(self).wf(),
            final(self).spec_dev() == old(self).spec_dev(),
            r.0@.len() == frames * channels,
            old(self).spec_current() is None ==> final(self).spec_current() is None && r.1 is None
                && (forall|i: int| 0 <= i < r.0@.len() ==> r.0@[i] == 0i64),
            old(self).spec_current() matches Option::Some(p) ==> ({
                let h0 = p.spec_head();
                let st = p.spec_start();
                let en = p.spec_end();
                let dv = p.spec_dev();
                let sr = p.spec_src();
                let lp = p.spec_loop();
                let n = ticks_run(h0, st, en, dv, sr, lp, frames as int);
                &&& (forall|f: int, c: int|
                    0 <= f < n && 0 <= c < channels ==> #[trigger] r.0@[f * channels + c] as int
                        == frame_sample(p.chans(), head_after(h0, st, en, dv, sr, lp, f), dv, c))
                &&& (forall|i: int| n * channels <= i < r.0@.len() ==> #[trigger] r.0@[i] == 0i64)
                &&& (run_continues(h0, st, en, dv, sr, lp, frames as int) ==> ((
                final(self).spec_current() matches Option::Some(p2) && p2.spec_id() == p.spec_id()
                    && p2.chans() == p.chans() && p2.spec_start() == st && p2.spec_end() == en
                    && p2.spec_dev() == dv && p2.spec_src() == sr && p2.spec_loop() == lp
                    && p2.spec_head() == head_after(h0, st, en, dv, sr, lp, n)) && (
                r.1 matches Option::Some(m) && m matches OutMsg::Playback(id, pos) && id
                    == p.spec_id() && pos as int == head_after(h0, st, en, dv, sr, lp, n) / dv)))
                &&& (!run_continues(h0, st, en, dv, sr, lp, frames as int) ==> r.1
                    == Option::Some(OutMsg::Stop(p.spec_id())) && final(self).spec_current()
                    is None)
            }),
    {
        let mut buf: Vec<i64> = Vec::new();
        let total = frames * channels;
        if self.current.is_none() {
            let mut i: usize = 0;
            while i < total
                invariant
                    i <= total,
                    buf@.len() == i,
                    forall|j: int| 0 <= j < i ==> buf@[j] == 0i64,
                decreases total - i,
            {
                buf.push(0);
                i = i + 1;
            }
            return (buf, None);
        }
        let ghost p0 = old(self).spec_current()->Some_0;
        let mut player = match self.current.take() {
            Some(p) => p,
            None => vstd::pervasive::unreached(),
        };
        let ghost h0 = p0.spec_head();
        let ghost st = p0.spec_start();
        let ghost en = p0.spec_end();
        let ghost dv = p0.spec_dev();
        let ghost sr = p0.spec_src();
        let ghost lp = p0.spec_loop();
        let mut keep_on = true;
        let mut f: usize = 0;
        let mut frame: Vec<i64> = Vec::new();
        let mut c0: usize = 0;
        while c0 < channels
            invariant
                c0 <= channels,
                frame@.len() == c0,
            decreases channels - c0,
        {
            frame.push(0);
            c0 = c0 + 1;
        }
        while f < frames && keep_on
            invariant
                channels >= 1,
                f <= frames,
                frames * channels <= usize::MAX,
                buf@.len() == f * channels,
                frame@.len() == channels,
                player.wf(),
                player.spec_id() == p0.spec_id(),
                player.chans() == p0.chans(),
                player.spec_start() == st,
                player.spec_end() == en,
                player.spec_dev() == dv,
                player.spec_src() == sr,
                player.spec_loop() == lp,
                dv == old(self).spec_dev() as int,
                player.spec_head() == head_after(h0, st, en, dv, sr, lp, f as int),
                keep_on ==> runs_for(h0, st, en, dv, sr, lp, f as int),
                !keep_on ==> f >= 1 && runs_for(h0, st, en, dv, sr, lp, f as int - 1)
                    && !tick_cont(head_after(h0, st, en, dv, sr, lp, f as int - 1), en, dv, sr, lp),
                forall|f2: int, c2: int|
                    0 <= f2 < f && 0 <= c2 < channels ==> #[trigger] buf@[f2 * channels + c2] as int
                        == frame_sample(
                        p0.chans(),
                        head_after(h0, st, en, dv, sr, lp, f2),
                        dv,
                        c2,
                    ),
            decreases frames - f,
        {
            proof {
                assert((f + 1) * channels == f * channels + channels) by (nonlinear_arith);
            }
            keep_on = player.tick(&mut frame);
            proof {
                lemma_head_after_snoc(h0, st, en, dv, sr, lp, f as int);
                lemma_runs_for_snoc(h0, st, en, dv, sr, lp, f as int);
            }
            let ghost buf_head = buf@;
            let mut c: usize = 0;
            while c < channels
                invariant
                    c <= channels,
                    frame@.len() == channels,
                    buf@ =~= buf_head + frame@.subrange(0, c as int),
                decreases channels - c,
            {
                let v = frame[c];
                buf.push(v);
                proof {
                    assert(buf@ =~= buf_head + frame@.subrange(0, c as int + 1));
                }
                c = c + 1;
            }
            proof {
                assert(frame@.subrange(0, channels as int) =~= frame@);
                assert forall|f2: int, c2: int|
                    0 <= f2 < f + 1 && 0 <= c2 < channels implies #[trigger] buf@[f2 * channels
                    + c2] as int == frame_sample(
                    p0.chans(),
                    head_after(h0, st, en, dv, sr, lp, f2),
                    dv,
                    c2,
                ) by {
                    if f2 < f {
                        assert(f2 * channels + c2 < f * channels) by (nonlinear_arith)
                            requires
                                0 <= f2,
                                f2 + 1 <= f,
                                0 <= c2 < channels,
                        ;
                        assert(buf@[f2 * channels + c2] == buf_head[f2 * channels + c2]);
                    } else {
                        assert(buf@[f * channels + c2] == frame@[c2]);
                    }
                }
            }
            f = f + 1;
        }
        let ghost n_run = ticks_run(h0, st, en, dv, sr, lp, frames as int);
        proof {
            if keep_on {
                lemma_run_completes(h0, st, en, dv, sr, lp, frames as int);
            } else {
                lemma_run_stops(h0, st, en, dv, sr, lp, frames as int, f as int - 1);
            }
            assert(n_run == f as int);
        }
        // Pad the rest of the period with silence if playback ended early.
        proof {
            assert(f * channels <= frames * channels) by (nonlinear_arith)
                requires
                    0 <= f <= frames,
                    0 <= channels,
            ;
        }
        let ghost buf_mid = buf@;
        let mut k = buf.len();
        while k < total
            invariant
                k == buf@.len(),
                k <= total,
                total == frames * channels,
                buf_mid.len() <= k,
                buf@.subrange(0, buf_mid.len() as int) =~= buf_mid,
                forall|i: int| buf_mid.len() <= i < k ==> #[trigger] buf@[i] == 0i64,
            decreases total - k,
        {
            buf.push(0);
            k = k + 1;
        }
        proof {
            assert forall|f2: int, c2: int|
                0 <= f2 < n_run && 0 <= c2 < channels implies #[trigger] buf@[f2 * channels
                + c2] as int == frame_sample(
                p0.chans(),
                head_after(h0, st, en, dv, sr, lp, f2),
                dv,
                c2,
            ) by {
                assert(f2 * channels + c2 < buf_mid.len()) by (nonlinear_arith)
                    requires
                        0 <= f2,
                        f2 + 1 <= n_run,
                        0 <= c2 < channels,
                        buf_mid.len() == n_run * channels,
                ;
                assert(buf@.subrange(0, buf_mid.len() as int)[f2 * channels + c2] == buf@[f2
                    * channels + c2]);
            }
        }
        if keep_on {
            let pos = player.play_pos();
            let id = player.id();
            self.current = Some(player);
            (buf, Some(OutMsg::Playback(id, pos)))
        } else {
            let id = player.id();
            self.current = None;
            (buf, Some(OutMsg::Stop(id)))
        }
    }
}

} // verus!
