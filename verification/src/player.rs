//! The playback clock: one decoded track, played from the samples the analysis already
//! decoded, with a single source of truth for position, an interleaved sample index.
//!
//! The audio device, the volume and the conversion of indices to seconds are handled around
//! this module; here is how a track is admitted for playback, how the index walks it, and how
//! seeking, ending and restarting move the index.

use vstd::prelude::*;
use vstd::arithmetic::div_mod::{lemma_fundamental_div_mod, lemma_fundamental_div_mod_converse};

verus! {

/// The shortest channel's length (0 when there is no channel): it bounds the playable track.
pub open spec fn min_len<T>(channels: Seq<Vec<T>>) -> nat
    decreases channels.len(),
{
    if channels.len() == 0 {
        0
    } else if channels.len() == 1 {
        channels[0]@.len()
    } else {
        let rest = min_len(channels.drop_last());
        if channels.last()@.len() < rest {
            channels.last()@.len()
        } else {
            rest
        }
    }
}

proof fn lemma_min_len_bounds<T>(channels: Seq<Vec<T>>)
    ensures
        forall|c: int| 0 <= c < channels.len() ==> min_len(channels) <= (#[trigger] channels[c])@.len(),
        channels.len() > 0 ==> exists|c: int| 0 <= c < channels.len() && min_len(channels) == (#[trigger] channels[c])@.len(),
    decreases channels.len(),
{
    if channels.len() > 1 {
        lemma_min_len_bounds(channels.drop_last());
        assert forall|c: int| 0 <= c < channels.len() implies min_len(channels) <= (#[trigger] channels[c])@.len() by {
            if c < channels.len() - 1 {
                assert(channels.drop_last()[c] == channels[c]);
            }
        }
        let rest = min_len(channels.drop_last());
        if channels.last()@.len() < rest {
            assert(min_len(channels) == channels[channels.len() - 1]@.len());
        } else {
            let c = choose|c: int| 0 <= c < channels.drop_last().len() && rest == (#[trigger] channels.drop_last()[c])@.len();
            assert(channels.drop_last()[c] == channels[c]);
        }
    } else if channels.len() == 1 {
        assert(min_len(channels) == channels[0]@.len());
    }
}

/// Frames every channel can supply: the shortest channel's length. Channels of unequal
/// length mean a damaged file; playing past the short one would read silence from it while
/// the others go on.
pub fn playable_frames<T>(channel_samples: &Vec<Vec<T>>) -> (frames: usize)
    ensures
        frames == min_len(channel_samples@),
{
    if channel_samples.len() == 0 {
        return 0;
    }
    let mut frames = channel_samples[0].len();
    let mut c: usize = 1;
    proof {
        assert(channel_samples@.take(1) =~= seq![channel_samples@[0]]);
    }
    while c < channel_samples.len()
        invariant
            1 <= c <= channel_samples@.len(),
            frames == min_len(channel_samples@.take(c as int)),
        decreases channel_samples.len() - c,
    {
        proof {
            assert(channel_samples@.take(c + 1).drop_last() =~= channel_samples@.take(c as int));
            assert(channel_samples@.take(c + 1).last() == channel_samples@[c as int]);
        }
        if channel_samples[c].len() < frames {
            frames = channel_samples[c].len();
        }
        c = c + 1;
    }
    proof {
        assert(channel_samples@.take(channel_samples@.len() as int) =~= channel_samples@);
    }
    frames
}

/// A decoded track admitted for playback: its channels, the number of frames every channel
/// can supply, and the silence played past the end.
pub struct TrackSource<T> {
    channel_samples: Vec<Vec<T>>,
    channels: usize,
    frames: usize,
    total_samples: usize,
    silence: T,
}

impl<T> TrackSource<T> {
    #[verifier::type_invariant]
    spec fn well_formed(self) -> bool {
        &&& self.channels > 0
        &&& self.channels <= u16::MAX
        &&& self.channel_samples@.len() == self.channels
        &&& self.frames > 0
        &&& forall|c: int| 0 <= c < self.channels ==> self.frames <= (#[trigger] self.channel_samples@[c])@.len()
        &&& self.total_samples == self.frames * self.channels
    }

    /// Channels of the track.
    pub closed spec fn channel_count(&self) -> nat {
        self.channels as nat
    }

    /// Frames every channel supplies.
    pub closed spec fn frame_count(&self) -> nat {
        self.frames as nat
    }

    /// End of the track in interleaved samples: frames times channels.
    pub closed spec fn total(&self) -> nat {
        self.total_samples as nat
    }

    /// Sample `frame` of channel `channel`.
    pub closed spec fn sample(&self, channel: int, frame: int) -> T {
        self.channel_samples@[channel]@[frame]
    }

    /// What is played past the end.
    pub closed spec fn silence_value(&self) -> T {
        self.silence
    }

}

impl<T: Copy> TrackSource<T> {
    /// Admits a decoded track for playback: fails when it has no channel or no sample rate,
    /// when no channel supplies a frame, or when it has more channels than an audio device
    /// accepts; otherwise the track runs to the end of its shortest channel.
    pub fn prepare(channels: usize, sample_rate: u32, channel_samples: Vec<Vec<T>>, silence: T) -> (r:
        Result<Self, String>)
        requires
            channel_samples@.len() == channels,
            min_len(channel_samples@) * channels <= usize::MAX,
        ensures
            (channels == 0 || sample_rate == 0) ==> (r is Err && r->Err_0@
                == "this file has no playable audio"@),
            (channels > 0 && sample_rate > 0 && min_len(channel_samples@) == 0) ==> (r is Err
                && r->Err_0@ == "this file decoded to no audio frames"@),
            (channels > 0 && sample_rate > 0 && min_len(channel_samples@) > 0 && channels
                > u16::MAX) ==> (r is Err && r->Err_0@ == "too many channels to play"@),
            r is Ok <==> (channels > 0 && sample_rate > 0 && min_len(channel_samples@) > 0
                && channels <= u16::MAX),
            r matches Ok(t) ==> {
                &&& t.channel_count() == channels
                &&& t.frame_count() == min_len(channel_samples@)
                &&& t.total() == min_len(channel_samples@) * channels
                &&& t.silence_value() == silence
                &&& forall|c: int, f: int|
                    0 <= c < channels && 0 <= f < t.frame_count() ==> #[trigger] t.sample(c, f)
                        == channel_samples@[c]@[f]
            },
    {
        if channels == 0 || sample_rate == 0 {
            return Err("this file has no playable audio".to_string());
        }
        let frames = playable_frames(&channel_samples);
        if frames == 0 {
            return Err("this file decoded to no audio frames".to_string());
        }
        if channels > 65535 {
            return Err("too many channels to play".to_string());
        }
        proof {
            lemma_min_len_bounds(channel_samples@);
        }
        let total_samples = frames * channels;
        Ok(TrackSource { channel_samples, channels, frames, total_samples, silence })
    }

    /// End of the track in interleaved samples.
    pub fn total_samples(&self) -> (n: usize)
        ensures
            n == self.total(),
            n == self.frame_count() * self.channel_count(),
            self.frame_count() > 0,
    {
        proof {
            use_type_invariant(self);
        }
        self.total_samples
    }

    /// Channels of the track.
    pub fn channels(&self) -> (n: usize)
        ensures
            n == self.channel_count(),
            0 < n <= u16::MAX,
    {
        proof {
            use_type_invariant(self);
        }
        self.channels
    }

    /// The sample at an interleaved index: channel `index % channels` of frame
    /// `index / channels`, or nothing at and past the end.
    pub fn sample_at(&self, index: usize) -> (r: Option<T>)
        ensures
            index >= self.total() ==> r is None,
            index < self.total() ==> r == Some(
                self.sample(
                    index as int % self.channel_count() as int,
                    index as int / self.channel_count() as int,
                ),
            ),
    {
        proof {
            use_type_invariant(self);
        }
        if index >= self.total_samples {
            return None;
        }
        let frame = index / self.channels;
        let channel = index % self.channels;
        proof {
            lemma_fundamental_div_mod(index as int, self.channels as int);
            vstd::arithmetic::div_mod::lemma_mod_bound(index as int, self.channels as int);
            assert(frame < self.frames) by (nonlinear_arith)
                requires
                    index == self.channels * frame + channel,
                    index < self.frames * self.channels,
                    0 <= channel < self.channels,
            ;
            assert(self.frames <= self.channel_samples@[channel as int]@.len());
        }
        Some(self.channel_samples[channel][frame])
    }

    /// The next sample for the device, advancing the cursor by one. Past the end the track
    /// stays alive and plays silence, and the cursor is pinned to the end rather than left to
    /// count on, so a later seek backwards is an ordinary cursor move.
    pub fn next_sample(&self, cursor: &mut usize) -> (s: T)
        ensures
            *old(cursor) >= self.total() ==> s == self.silence_value() && *final(cursor) == self.total(),
            *old(cursor) < self.total() ==> {
                &&& *final(cursor) == *old(cursor) + 1
                &&& s == self.sample(
                    *old(cursor) as int % self.channel_count() as int,
                    *old(cursor) as int / self.channel_count() as int,
                )
            },
    {
        let index = *cursor;
        match self.sample_at(index) {
            Some(s) => {
                *cursor = index + 1;
                s
            },
            None => {
                *cursor = self.total_samples;
                self.silence
            },
        }
    }

    /// The playhead has reached the end of the track.
    pub fn ended(&self, cursor: usize) -> (r: bool)
        ensures
            r == (cursor >= self.total()),
    {
        cursor >= self.total_samples
    }

    /// Whole frames played: the cursor divided by the channel count.
    pub fn position_frames(&self, cursor: usize) -> (f: usize)
        ensures
            f == cursor as int / self.channel_count() as int,
    {
        proof {
            use_type_invariant(self);
        }
        cursor / self.channels
    }

    /// Length of the track in frames.
    pub fn duration_frames(&self) -> (f: usize)
        ensures
            f == self.frame_count(),
            f == self.total() as int / self.channel_count() as int,
    {
        proof {
            use_type_invariant(self);
            lemma_fundamental_div_mod_converse(
                self.total_samples as int,
                self.channels as int,
                self.frames as int,
                0,
            );
        }
        self.frames
    }

    /// Where the cursor goes for a seek to `frame`: the first sample of that frame, clamped to
    /// the end of the track.
    pub fn seek_target(&self, frame: usize) -> (target: usize)
        ensures
            target == if frame * self.channel_count() <= self.total() {
                frame * self.channel_count()
            } else {
                self.total() as int
            },
    {
        proof {
            use_type_invariant(self);
        }
        if frame > self.frames {
            proof {
                assert(frame * self.channels > self.frames * self.channels) by (nonlinear_arith)
                    requires
                        frame > self.frames,
                        self.channels > 0,
                ;
            }
            return self.total_samples;
        }
        proof {
            assert(frame * self.channels <= self.frames * self.channels) by (nonlinear_arith)
                requires
                    frame <= self.frames,
                    self.channels > 0,
            ;
        }
        frame * self.channels
    }

    /// Where the cursor goes when play is pressed: back to the start once the track has
    /// ended, otherwise where it is.
    pub fn restart_from(&self, cursor: usize) -> (r: usize)
        ensures
            r == if cursor >= self.total() {
                0
            } else {
                cursor
            },
    {
        if cursor >= self.total_samples {
            0
        } else {
            cursor
        }
    }
}

/// Planar channels come out interleaved in order: for a track of `frames` frames over
/// `channels` channels, index `frame * channels + channel` lies inside the track and is read
/// (by [`TrackSource::sample_at`]) as that channel's sample at that frame.
pub proof fn lemma_interleaved_in_order(channels: int, frames: int, frame: int, channel: int)
    requires
        0 <= channel < channels,
        0 <= frame < frames,
    ensures
        frame * channels + channel < frames * channels,
        (frame * channels + channel) % channels == channel,
        (frame * channels + channel) / channels == frame,
{
    lemma_fundamental_div_mod_converse(frame * channels + channel, channels, frame, channel);
    assert(frame * channels + channel < frames * channels) by (nonlinear_arith)
        requires
            0 <= channel < channels,
            0 <= frame < frames,
    ;
}

/// Seeking is exact: a seek to a frame inside the track puts the cursor inside the track,
/// on that frame's first channel, so the next samples out are that frame's channels in order.
pub proof fn lemma_seek_lands_on_the_frame(channels: int, frames: int, frame: int)
    requires
        channels > 0,
        0 <= frame < frames,
    ensures
        frame * channels <= frames * channels,
        frame * channels < frames * channels,
        (frame * channels) % channels == 0,
        (frame * channels) / channels == frame,
{
    lemma_interleaved_in_order(channels, frames, frame, 0);
}

} // verus!
