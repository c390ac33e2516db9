//! A decoded track, kept channel by channel, that plays its samples back
//! in the order in which they came: frame after frame, and within a frame
//! channel after channel.

use vstd::arithmetic::div_mod::{lemma_fundamental_div_mod, lemma_fundamental_div_mod_converse};
use vstd::prelude::*;

verus! {

/// The samples of one channel.
pub struct SoundChannel<T> {
    pub samples: Vec<T>,
}

/// A decoded track. Its length in time is held in nanoseconds.
pub struct SoundTrack<T> {
    pub index: usize,
    pub sampling_rate: u32,
    pub samples_per_channel: u32,
    pub total_duration: u128,
    pub sound_channels: Vec<SoundChannel<T>>,
}

/// Sample `frame` of channel `channel` stands at one place of the
/// interleaved sequence, and that place names no other sample.
pub proof fn lemma_slot(channel: int, frame: int, channels: int, frames: int)
    requires
        0 <= channel < channels,
        0 <= frame < frames,
    ensures
        0 <= channel + frame * channels < frames * channels,
        (channel + frame * channels) % channels == channel,
        (channel + frame * channels) / channels == frame,
{
    assert(0 <= frame * channels && frame * channels + channels <= frames * channels)
        by (nonlinear_arith)
        requires
            0 <= frame,
            frame + 1 <= frames,
            0 < channels,
    ;
    lemma_fundamental_div_mod_converse(channel + frame * channels, channels, frame, channel);
}

/// A place of the interleaved sequence belongs to one frame of one
/// channel.
pub proof fn lemma_place(place: int, channels: int, frames: int)
    requires
        0 < channels,
        0 <= place < frames * channels,
    ensures
        0 <= place % channels < channels,
        0 <= place / channels < frames,
        place == place % channels + (place / channels) * channels,
{
    lemma_fundamental_div_mod(place, channels);
    let q = place / channels;
    let r = place % channels;
    assert(channels * q == q * channels) by (nonlinear_arith);
    assert(0 <= r < channels);
    assert(0 <= q < frames) by (nonlinear_arith)
        requires
            place == q * channels + r,
            0 <= r < channels,
            0 <= place < frames * channels,
    ;
}

impl<T: Copy> SoundTrack<T> {
    pub open spec fn channel_count(&self) -> nat {
        self.sound_channels@.len()
    }

    /// Number of samples of the track, all channels together.
    pub open spec fn total(&self) -> nat {
        self.samples_per_channel as nat * self.channel_count()
    }

    /// Every channel holds `samples_per_channel` samples, the track has no
    /// more channels than a 16-bit count can say, and its position lies
    /// inside it or at its end.
    pub open spec fn wf(&self) -> bool {
        &&& self.channel_count() <= u16::MAX
        &&& self.total() <= usize::MAX
        &&& self.index <= self.total()
        &&& forall|c: int|
            0 <= c < self.channel_count() ==> (#[trigger] self.sound_channels@[c]).samples@.len()
                == self.samples_per_channel
    }

    /// The samples of the track in playing order: frame after frame, and
    /// within a frame channel after channel.
    pub open spec fn interleaved(&self) -> Seq<T> {
        Seq::new(
            self.total(),
            |k: int|
                self.sound_channels@[k % self.channel_count() as int].samples@[k
                    / self.channel_count() as int],
        )
    }

    /// The samples that are still to be played.
    pub open spec fn remaining(&self) -> Seq<T> {
        self.interleaved().skip(self.index as int)
    }

    /// Sorts interleaved samples into `channels` channels. Samples at the
    /// end that do not fill a frame are left out. The track starts at its
    /// first sample.
    pub fn from_interleaved(
        samples: &Vec<T>,
        channels: u16,
        sampling_rate: u32,
        total_duration: u128,
    ) -> (r: SoundTrack<T>)
        requires
            channels > 0,
            samples@.len() / channels as nat <= u32::MAX,
        ensures
            r.wf(),
            r.index == 0,
            r.sampling_rate == sampling_rate,
            r.total_duration == total_duration,
            r.channel_count() == channels,
            r.samples_per_channel == samples@.len() / channels as nat,
            r.total() <= samples@.len(),
            r.interleaved() == samples@.take(r.total() as int),
            forall|c: int, f: int|
                0 <= c < channels && 0 <= f < r.samples_per_channel ==> (
                #[trigger] r.sound_channels@[c].samples@[f]) == samples@[c + f * channels],
    {
        let n: usize = channels as usize;
        let len: usize = samples.len();
        let frames: usize = len / n;
        proof {
            lemma_fundamental_div_mod(samples@.len() as int, n as int);
            assert(n * frames == frames * n) by (nonlinear_arith);
        }
        let mut sound_channels: Vec<SoundChannel<T>> = Vec::with_capacity(n);
        let mut c: usize = 0;
        while c < n
            invariant
                c <= n,
                n > 0,
                len == samples@.len(),
                frames * n <= samples@.len(),
                sound_channels@.len() == c,
                forall|i: int|
                    0 <= i < c ==> (#[trigger] sound_channels@[i]).samples@.len() == frames,
                forall|i: int, j: int|
                    0 <= i < c && 0 <= j < frames ==> (#[trigger] sound_channels@[i].samples@[j])
                        == samples@[i + j * n],
            decreases n - c,
        {
            let mut channel: Vec<T> = Vec::with_capacity(frames);
            let mut f: usize = 0;
            while f < frames
                invariant
                    f <= frames,
                    c < n,
                    len == samples@.len(),
                    frames * n <= samples@.len(),
                    channel@.len() == f,
                    forall|j: int| 0 <= j < f ==> channel@[j] == samples@[c + j * n],
                decreases frames - f,
            {
                proof {
                    lemma_slot(c as int, f as int, n as int, frames as int);
                }
                channel.push(samples[c + f * n]);
                f += 1;
            }
            sound_channels.push(SoundChannel { samples: channel });
            c += 1;
        }
        let r = SoundTrack {
            index: 0,
            sampling_rate,
            samples_per_channel: frames as u32,
            total_duration,
            sound_channels,
        };
        proof {
            assert(r.total() == frames * n);
            assert forall|k: int| 0 <= k < r.total() implies r.interleaved()[k] == samples@[k] by {
                lemma_place(k, n as int, frames as int);
            }
            assert(r.interleaved() =~= samples@.take(r.total() as int));
        }
        r
    }

    /// Number of channels.
    pub fn channels(&self) -> (n: u16)
        requires
            self.wf(),
        ensures
            n == self.channel_count(),
    {
        self.sound_channels.len() as u16
    }

    /// Length of the track in time, in nanoseconds.
    pub fn total_duration(&self) -> (d: Option<u128>)
        ensures
            d == Some(self.total_duration),
    {
        Some(self.total_duration)
    }

    /// Number of frames in a second.
    pub fn sample_rate(&self) -> (rate: u32)
        ensures
            rate == self.sampling_rate,
    {
        self.sampling_rate
    }

    /// Number of samples that are still to be played.
    pub fn current_frame_len(&self) -> (left: Option<usize>)
        requires
            self.wf(),
        ensures
            left == Some((self.total() - self.index) as usize),
            left == Some(self.remaining().len() as usize),
    {
        let n = self.sound_channels.len();
        assert(self.samples_per_channel as nat * n as nat == self.total());
        Some((self.samples_per_channel as usize) * n - self.index)
    }

    /// Plays one sample: the next one in playing order, or `None` at the
    /// end of the track.
    pub fn next(&mut self) -> (r: Option<T>)
        requires
            old(self).wf(),
        ensures
            final(self).wf(),
            final(self).sound_channels == old(self).sound_channels,
            final(self).samples_per_channel == old(self).samples_per_channel,
            final(self).sampling_rate == old(self).sampling_rate,
            final(self).total_duration == old(self).total_duration,
            final(self).interleaved() == old(self).interleaved(),
            old(self).remaining().len() > 0 ==> {
                &&& r == Some(old(self).interleaved()[old(self).index as int])
                &&& r == Some(old(self).remaining()[0])
                &&& final(self).index == old(self).index + 1
                &&& final(self).remaining() == old(self).remaining().drop_first()
            },
            old(self).remaining().len() == 0 ==> {
                &&& r is None
                &&& final(self).index == old(self).index
                &&& final(self).index == old(self).total()
            },
    {
        let n = self.sound_channels.len();
        assert(self.samples_per_channel as nat * n as nat == self.total());
        let total = (self.samples_per_channel as usize) * n;
        if self.index == total {
            return None;
        }
        proof {
            assert(n > 0) by (nonlinear_arith)
                requires
                    self.index < self.samples_per_channel * n,
                    0 <= self.index,
                    0 <= n,
            ;
            lemma_place(self.index as int, n as int, self.samples_per_channel as int);
        }
        let channel_no: usize = self.index % n;
        let value: T = self.sound_channels[channel_no].samples[self.index / n];
        proof {
            assert(old(self).remaining()[0] == old(self).interleaved()[self.index as int]);
        }
        self.index += 1;
        proof {
            assert(self.remaining() =~= old(self).remaining().drop_first());
        }
        Some(value)
    }
}

} // verus!
