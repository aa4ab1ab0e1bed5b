//! Multichannel audio: a sample rate and one block sequence per channel.
//! Channels may differ in length; reads past a channel's own length yield
//! silence, so the sound's length is the longest channel.

use vstd::prelude::*;
use crate::blocks::sequence::BlockSequence;
use crate::samples::max2;

verus! {

/// The length of a sound: the longest of its channels (0 for none).
pub open spec fn snd_len(chs: Seq<Seq<i64>>) -> int
    decreases chs.len(),
{
    if chs.len() == 0 {
        0
    } else {
        max2(snd_len(chs.drop_last()), chs.last().len() as int)
    }
}

/// What the interleaved stream carries at channel `c`, sample index `s`:
/// the channel's sample, or silence past that channel's own end.
pub open spec fn interleave_at(chs: Seq<Seq<i64>>, c: int, s: int) -> i64 {
    if s < chs[c].len() {
        chs[c][s]
    } else {
        0i64
    }
}

/// No channel is longer than the whole sound.
pub proof fn lemma_snd_len_ge(chs: Seq<Seq<i64>>, c: int)
    requires
        0 <= c < chs.len(),
    ensures
        chs[c].len() <= snd_len(chs),
        0 <= snd_len(chs),
    decreases chs.len(),
{
    if c < chs.len() - 1 {
        lemma_snd_len_ge(chs.drop_last(), c);
    }
}

/// The sound's length is 0 only without samples, and non-negative always.
pub proof fn lemma_snd_len_nonneg(chs: Seq<Seq<i64>>)
    ensures
        0 <= snd_len(chs),
    decreases chs.len(),
{
    if chs.len() > 0 {
        lemma_snd_len_nonneg(chs.drop_last());
    }
}

/// Multichannel audio data.
pub struct Snd {
    sample_rate: usize,
    channels: Vec<BlockSequence>,
}

impl Snd {
    /// The per-channel sample contents.
    pub closed spec fn chans(&self) -> Seq<Seq<i64>> {
        self.channels@.map_values(|c: BlockSequence| c@)
    }

    /// The sample rate as a spec value.
    pub closed spec fn spec_sample_rate(&self) -> int {
        self.sample_rate as int
    }

    /// A positive sample rate and well-formed channels.
    pub closed spec fn wf(&self) -> bool {
        &&& self.sample_rate >= 1
        &&& forall|i: int| 0 <= i < self.channels@.len() ==> (#[trigger] self.channels@[i]).wf()
    }

    /// A well-formed sound has a usable (positive) sample rate.
    pub proof fn lemma_wf_rate(&self)
        requires
            self.wf(),
        ensures
            self.spec_sample_rate() >= 1,
    {
    }

    /// A sound from a sample rate and its channels.
    pub fn new(sr: usize, channels: Vec<BlockSequence>) -> (s: Snd)
        requires
            sr >= 1,
            forall|i: int| 0 <= i < channels@.len() ==> (#[trigger] channels@[i]).wf(),
        ensures
            s.wf(),
            s.chans() == channels@.map_values(|c: BlockSequence| c@),
            s.spec_sample_rate() == sr,
    {
        Snd { sample_rate: sr, channels }
    }

    /// Same as `new`; kept as the construction contract consumed by decoders.
    pub fn from_iter(sr: usize, channels: Vec<BlockSequence>) -> (s: Snd)
        requires
            sr >= 1,
            forall|i: int| 0 <= i < channels@.len() ==> (#[trigger] channels@[i]).wf(),
        ensures
            s.wf(),
            s.chans() == channels@.map_values(|c: BlockSequence| c@),
            s.spec_sample_rate() == sr,
    {
        Snd::new(sr, channels)
    }

    /// The longest channel's length.
    pub fn len(&self) -> (n: usize)
        requires
            self.wf(),
        ensures
            n == snd_len(self.chans()),
    {
        let cn = self.channels.len();
        let mut mx: usize = 0;
        let mut i: usize = 0;
        proof {
            assert(self.chans().take(0) =~= Seq::<Seq<i64>>::empty());
        }
        while i < cn
            invariant
                self.wf(),
                cn == self.channels@.len(),
                i <= cn,
                mx as int == snd_len(self.chans().take(i as int)),
            decreases cn - i,
        {
            let cl = self.channels[i].len();
            proof {
                assert(self.chans().take(i as int + 1).drop_last() =~= self.chans().take(i as int));
                assert(self.chans().take(i as int + 1).last() == self.chans()[i as int]);
            }
            if cl > mx {
                mx = cl;
            }
            i = i + 1;
        }
        proof {
            assert(self.chans().take(cn as int) =~= self.chans());
        }
        mx
    }

    /// The sample rate.
    pub fn sample_rate(&self) -> (sr: usize)
        ensures
            sr == self.spec_sample_rate(),
    {
        self.sample_rate
    }

    /// How many channels the sound has.
    pub fn channels(&self) -> (n: usize)
        ensures
            n == self.chans().len(),
    {
        self.channels.len()
    }

    /// The `n`-th channel, if any.
    pub fn channel(&self, n: usize) -> (r: Option<&BlockSequence>)
        requires
            self.wf(),
        ensures
            n < self.chans().len() ==> (r matches Some(c) && c@ == self.chans()[n as int]
                && c.wf()),
            n >= self.chans().len() ==> r is None,
    {
        if n < self.channels.len() {
            Some(&self.channels[n])
        } else {
            None
        }
    }

    /// All channels.
    pub fn seqs(&self) -> (r: &Vec<BlockSequence>)
        requires
            self.wf(),
        ensures
            r@.map_values(|c: BlockSequence| c@) == self.chans(),
            forall|i: int| 0 <= i < r@.len() ==> (#[trigger] r@[i]).wf(),
    {
        &self.channels
    }

    /// The whole sound as one interleaved stream, channels round-robin per
    /// sample index; a channel past its own end contributes silence.  This is
    /// the serialization contract consumed by encoders.
    pub fn interleaved_audio(&self) -> (v: Vec<i64>)
        requires
            self.wf(),
            snd_len(self.chans()) * self.chans().len() <= usize::MAX,
        ensures
            v@.len() == snd_len(self.chans()) * self.chans().len(),
            forall|i: int|
                0 <= i < v@.len() ==> v@[i] == interleave_at(
                    self.chans(),
                    i % self.chans().len() as int,
                    i / self.chans().len() as int,
                ),
    {
        let cn = self.channels.len();
        let n = self.len();
        proof {
            lemma_snd_len_nonneg(self.chans());
        }
        if cn == 0 {
            let v: Vec<i64> = Vec::new();
            return v;
        }
        let total = n * cn;
        let mut v: Vec<i64> = Vec::new();
        let mut i: usize = 0;
        while i < total
            invariant
                self.wf(),
                cn == self.chans().len(),
                cn >= 1,
                n == snd_len(self.chans()),
                total == n * cn,
                i <= total,
                v@.len() == i,
                forall|j: int|
                    0 <= j < i ==> v@[j] == interleave_at(
                        self.chans(),
                        j % cn as int,
                        j / cn as int,
                    ),
            decreases total - i,
        {
            let c = i % cn;
            let s = i / cn;
            proof {
                vstd::arithmetic::div_mod::lemma_mod_bound(i as int, cn as int);
            }
            let smp = match self.channels[c].get_sample(s) {
                Some(x) => x,
                None => 0,
            };
            v.push(smp);
            i = i + 1;
        }
        v
    }
}


/// A stepping serialiser over one sound: channels round-robin per sample
/// index, silence for a channel past its own end.
pub struct InterLeaved<'a> {
    snd: &'a Snd,
    chan: usize,
    sample: usize,
    end: usize,
}

impl<'a> InterLeaved<'a> {
    /// The sound being serialised.
    pub closed spec fn spec_snd(&self) -> Snd {
        *self.snd
    }

    /// The channel the next step reads.
    pub closed spec fn spec_chan(&self) -> int {
        self.chan as int
    }

    /// The sample index the next step reads.
    pub closed spec fn spec_sample(&self) -> int {
        self.sample as int
    }

    /// Position and bound stay consistent with the sound.
    pub closed spec fn wf(&self) -> bool {
        &&& self.snd.wf()
        &&& self.end as int == snd_len(self.snd.chans())
        &&& self.sample <= self.end
        &&& (self.snd.chans().len() == 0 ==> self.chan == 0)
        &&& (self.snd.chans().len() > 0 ==> (self.chan as int) < self.snd.chans().len())
    }

    /// A stepper at the start of the sound.
    pub fn new(snd: &'a Snd) -> (r: InterLeaved<'a>)
        requires
            snd.wf(),
        ensures
            r.wf(),
            r.spec_snd() == *snd,
            r.spec_chan() == 0,
            r.spec_sample() == 0,
    {
        let end = snd.len();
        proof {
            lemma_snd_len_nonneg(snd.chans());
        }
        InterLeaved { snd, chan: 0, sample: 0, end }
    }

    /// The next interleaved value, or nothing once every channel has
    /// passed the sound's end.
    pub fn next(&mut self) -> (r: Option<i64>)
        requires
            old(self).wf(),
        ensures
            final(self).wf(),
            final(self).spec_snd() == old(self).spec_snd(),
            old(self).spec_sample() == snd_len(old(self).spec_snd().chans()) ==> r is None
                && final(self).spec_chan() == old(self).spec_chan() && final(self).spec_sample()
                == old(self).spec_sample(),
            old(self).spec_sample() < snd_len(old(self).spec_snd().chans()) ==> {
                let chans = old(self).spec_snd().chans();
                &&& r == Option::Some(
                    interleave_at(chans, old(self).spec_chan(), old(self).spec_sample()),
                )
                &&& (old(self).spec_chan() + 1 < chans.len() ==> final(self).spec_chan() == old(
                    self,
                ).spec_chan() + 1 && final(self).spec_sample() == old(self).spec_sample())
                &&& (old(self).spec_chan() + 1 >= chans.len() ==> final(self).spec_chan() == 0
                    && final(self).spec_sample() == old(self).spec_sample() + 1)
            },
    {
        if self.sample == self.end {
            return None;
        }
        proof {
            lemma_snd_len_nonneg(self.snd.chans());
        }
        let seq_c = match self.snd.channel(self.chan) {
            Some(c) => c,
            None => vstd::pervasive::unreached(),
        };
        let out = match seq_c.get_sample(self.sample) {
            Some(v) => v,
            None => 0,
        };
        let cn = self.snd.channels();
        self.chan = self.chan + 1;
        if self.chan == cn {
            self.chan = 0;
            self.sample = self.sample + 1;
        }
        Some(out)
    }
}

} // verus!
