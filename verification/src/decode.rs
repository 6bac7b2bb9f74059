//! Bookkeeping of a decode: per-channel sample buffers filled from interleaved packets, and
//! the status that says whether the whole stream made it through.

use vstd::prelude::*;
use vstd::arithmetic::div_mod::lemma_fundamental_div_mod_converse;

verus! {

/// True when some channel's length differs from the first channel's length.
pub open spec fn lengths_differ<T>(channels: Seq<Vec<T>>) -> bool {
    exists|i: int| 0 <= i < channels.len() && #[trigger] channels[i]@.len() != channels[0]@.len()
}

/// Whether the decoder got through the whole stream, and how it did not.
#[derive(Debug, Clone, Copy, PartialEq, Eq, Structural)]
pub struct DecodeStatus {
    /// False when any audio was skipped, the stream ended early, or the channels came out
    /// with different lengths.
    pub complete: bool,
    /// Packets the decoder rejected and that were skipped over.
    pub skipped_packets: usize,
    /// The demuxer asked to be restarted mid-file and decoding stopped there.
    pub stopped_early: bool,
    /// The channels did not come out the same length.
    pub channels_unequal: bool,
}

impl DecodeStatus {
    /// Status of a finished decode from its skip count, early-stop flag and channel buffers.
    pub fn resolve<T>(skipped_packets: usize, stopped_early: bool, channels: &[Vec<T>]) -> (s: Self)
        ensures
            s.skipped_packets == skipped_packets,
            s.stopped_early == stopped_early,
            s.channels_unequal == lengths_differ(channels@),
            s.complete == (skipped_packets == 0 && !stopped_early && !s.channels_unequal),
    {
        let mut channels_unequal = false;
        if channels.len() > 0 {
            let first = channels[0].len();
            let mut i: usize = 1;
            while i < channels.len()
                invariant
                    1 <= i <= channels@.len(),
                    first == channels@[0]@.len(),
                    !channels_unequal ==> forall|j: int| 0 <= j < i ==> channels@[j]@.len() == first,
                    channels_unequal ==> lengths_differ(channels@),
                decreases channels.len() - i,
            {
                if channels[i].len() != first {
                    channels_unequal = true;
                }
                i = i + 1;
            }
        }
        DecodeStatus {
            complete: skipped_packets == 0 && !stopped_early && !channels_unequal,
            skipped_packets,
            stopped_early,
            channels_unequal,
        }
    }
}

/// Number of positions `i < len` with `i % n == c`: how many samples of an interleaved
/// buffer of `len` samples belong to channel `c` of `n`.
pub open spec fn lane_len(len: nat, n: nat, c: int) -> nat
    recommends
        0 <= c < n,
{
    ((len + n - 1 - c) / (n as int)) as nat
}

/// The samples of channel `c` in an interleaved buffer of `n` channels, in order: the
/// samples at positions `c`, `c + n`, `c + 2n`, ...
pub open spec fn lane<T>(interleaved: Seq<T>, n: nat, c: int) -> Seq<T> {
    Seq::new(lane_len(interleaved.len(), n, c), |k: int| interleaved[k * n + c])
}

/// Every channel buffer extended by its own lane of an interleaved buffer.
pub open spec fn append_interleaved<T>(channels: Seq<Seq<T>>, interleaved: Seq<T>) -> Seq<Seq<T>> {
    Seq::new(
        channels.len(),
        |c: int| channels[c] + lane(interleaved, channels.len(), c),
    )
}

/// The contents of a list of buffers, each taken by its view.
pub open spec fn buffers_view<T>(buffers: Seq<Vec<T>>) -> Seq<Seq<T>> {
    buffers.map_values(|b: Vec<T>| b@)
}

/// Division facts behind `lane_len`: a lane is empty for an empty buffer, every lane index
/// addresses a position inside the buffer, and one more position adds one sample to exactly
/// the lane it belongs to, at the lane's end.
proof fn lemma_lane_step(len: int, n: int, c: int)
    requires
        0 <= c < n,
        0 <= len,
    ensures
        (n - 1 - c) / n == 0,
        (len + n - 1 - c) / n >= 0,
        (len + 1 + n - 1 - c) / n == (len + n - 1 - c) / n + (if len % n == c { 1int } else { 0int }),
        len % n == c ==> ((len + n - 1 - c) / n) * n + c == len,
        forall|k: int| 0 <= k < (len + n - 1 - c) / n ==> #[trigger] (k * n) + c < len,
{
    vstd::arithmetic::div_mod::lemma_fundamental_div_mod(len, n);
    vstd::arithmetic::div_mod::lemma_mod_bound(len, n);
    vstd::arithmetic::div_mod::lemma_div_pos_is_pos(len, n);
    let q = len / n;
    let r = len % n;
    assert(len == q * n + r) by (nonlinear_arith)
        requires
            len == n * q + r,
    ;
    lemma_fundamental_div_mod_converse(n - 1 - c, n, 0, n - 1 - c);
    let cnt: int;
    if r == c {
        assert(len + n - 1 - c == q * n + (n - 1));
        lemma_fundamental_div_mod_converse(len + n - 1 - c, n, q, n - 1);
        assert(len + n - c == (q + 1) * n + 0) by (nonlinear_arith)
            requires
                len + n - c == q * n + n,
        ;
        lemma_fundamental_div_mod_converse(len + n - c, n, q + 1, 0);
        cnt = q;
    } else if r > c {
        assert(len + n - 1 - c == (q + 1) * n + (r - c - 1)) by (nonlinear_arith)
            requires
                len == q * n + r,
        ;
        lemma_fundamental_div_mod_converse(len + n - 1 - c, n, q + 1, r - c - 1);
        assert(len + n - c == (q + 1) * n + (r - c)) by (nonlinear_arith)
            requires
                len == q * n + r,
        ;
        lemma_fundamental_div_mod_converse(len + n - c, n, q + 1, r - c);
        cnt = q + 1;
    } else {
        assert(len + n - 1 - c == q * n + (n - 1 - (c - r)));
        lemma_fundamental_div_mod_converse(len + n - 1 - c, n, q, n - 1 - (c - r));
        assert(len + n - c == q * n + (n - (c - r)));
        lemma_fundamental_div_mod_converse(len + n - c, n, q, n - (c - r));
        cnt = q;
    }
    assert(cnt == (len + n - 1 - c) / n);
    assert(cnt * n <= len + n - 1 - c) by (nonlinear_arith)
        requires
            len == q * n + r,
            0 <= r < n,
            0 <= c < n,
            (r == c && cnt == q) || (r > c && cnt == q + 1) || (r < c && cnt == q),
    ;
    assert forall|k: int| 0 <= k < cnt implies #[trigger] (k * n) + c < len by {
        assert(k * n + c < len) by (nonlinear_arith)
            requires
                0 <= k < cnt,
                cnt * n <= len + n - 1 - c,
                n > 0,
        ;
    }
}

/// Appends each sample of an interleaved buffer to the channel it belongs to: the sample at
/// position `i` goes to channel `i % channel_count`.
pub fn push_interleaved<T: Copy>(channel_samples: &mut Vec<Vec<T>>, interleaved: &[T])
    requires
        old(channel_samples)@.len() > 0,
    ensures
        final(channel_samples)@.len() == old(channel_samples)@.len(),
        buffers_view(final(channel_samples)@) == append_interleaved(
            buffers_view(old(channel_samples)@),
            interleaved@,
        ),
{
    let n = channel_samples.len();
    let ghost start = buffers_view(channel_samples@);
    proof {
        assert forall|c: int| 0 <= c < n implies #[trigger] channel_samples@[c]@ == start[c]
            + lane(interleaved@.take(0), n as nat, c) by {
            lemma_lane_step(0, n as int, c);
            assert(lane(interleaved@.take(0), n as nat, c) =~= Seq::<T>::empty());
        }
    }
    let mut i: usize = 0;
    while i < interleaved.len()
        invariant
            n == channel_samples@.len(),
            n == start.len(),
            n > 0,
            i <= interleaved@.len(),
            forall|c: int|
                0 <= c < n ==> #[trigger] channel_samples@[c]@ == start[c] + lane(
                    interleaved@.take(i as int),
                    n as nat,
                    c,
                ),
        decreases interleaved.len() - i,
    {
        let c = i % n;
        let x = interleaved[i];
        channel_samples[c].push(x);
        proof {
            assert forall|d: int| 0 <= d < n implies #[trigger] channel_samples@[d]@ == start[d]
                + lane(interleaved@.take(i + 1), n as nat, d) by {
                lemma_lane_step(i as int, n as int, d);
                let old_lane = lane(interleaved@.take(i as int), n as nat, d);
                let new_lane = lane(interleaved@.take(i + 1), n as nat, d);
                assert forall|k: int| 0 <= k < old_lane.len() implies new_lane[k] == old_lane[k] by {
                    assert((k * n) + d < i);
                }
                if d == c {
                    assert(new_lane =~= old_lane.push(x));
                } else {
                    assert(new_lane =~= old_lane);
                }
            }
        }
        i = i + 1;
    }
    proof {
        assert(interleaved@.take(interleaved@.len() as int) =~= interleaved@);
        assert(buffers_view(channel_samples@) =~= append_interleaved(start, interleaved@));
    }
}

/// `n` empty sequences.
pub open spec fn empty_buffers<T>(n: nat) -> Seq<Seq<T>> {
    Seq::new(n, |c: int| Seq::<T>::empty())
}

/// True when every buffer is empty (and so when there are none).
pub open spec fn all_empty<T>(buffers: Seq<Seq<T>>) -> bool {
    forall|c: int| 0 <= c < buffers.len() ==> #[trigger] buffers[c].len() == 0
}

/// What a decode accumulates between packets: the stream's sample rate, one buffer per
/// channel, and how much of the stream did not make it through.
///
/// The channel layout is fixed by the first decoded buffer: later buffers are dealt out over
/// the same channels.
pub struct DecodeSession<T> {
    sample_rate: u32,
    channel_samples: Vec<Vec<T>>,
    skipped_packets: usize,
    stopped_early: bool,
}

/// A finished decode: the sample rate, one buffer per channel, and the status of the stream.
pub struct DecodedChannels<T> {
    pub sample_rate: u32,
    pub channel_samples: Vec<Vec<T>>,
    pub decode_status: DecodeStatus,
}

impl<T: Copy> DecodeSession<T> {
    /// True once a first buffer has fixed the channel layout.
    pub closed spec fn started(&self) -> bool {
        self.channel_samples@.len() > 0
    }

    /// The per-channel samples gathered so far.
    pub closed spec fn channels_view(&self) -> Seq<Seq<T>> {
        buffers_view(self.channel_samples@)
    }

    pub closed spec fn rate(&self) -> u32 {
        self.sample_rate
    }

    pub closed spec fn skipped(&self) -> usize {
        self.skipped_packets
    }

    pub closed spec fn stopped(&self) -> bool {
        self.stopped_early
    }

    /// A session before any packet.
    pub fn new() -> (s: Self)
        ensures
            !s.started(),
            s.channels_view() == Seq::<Seq<T>>::empty(),
            s.rate() == 0,
            s.skipped() == 0,
            !s.stopped(),
    {
        let s = DecodeSession {
            sample_rate: 0,
            channel_samples: Vec::new(),
            skipped_packets: 0,
            stopped_early: false,
        };
        proof {
            assert(buffers_view(s.channel_samples@) =~= Seq::<Seq<T>>::empty());
        }
        s
    }

    /// Packets skipped so far.
    pub fn skipped_packets(&self) -> (n: usize)
        ensures
            n == self.skipped(),
    {
        self.skipped_packets
    }

    /// Counts a packet the decoder rejected and that is skipped over.
    pub fn record_skipped_packet(&mut self)
        requires
            old(self).skipped() < usize::MAX,
        ensures
            final(self).skipped() == old(self).skipped() + 1,
            final(self).stopped() == old(self).stopped(),
            final(self).rate() == old(self).rate(),
            final(self).channels_view() == old(self).channels_view(),
            final(self).started() == old(self).started(),
    {
        self.skipped_packets = self.skipped_packets + 1;
    }

    /// Records that the demuxer asked for a restart and decoding stops there.
    pub fn record_stopped_early(&mut self)
        ensures
            final(self).stopped(),
            final(self).skipped() == old(self).skipped(),
            final(self).rate() == old(self).rate(),
            final(self).channels_view() == old(self).channels_view(),
            final(self).started() == old(self).started(),
    {
        self.stopped_early = true;
    }

    /// Takes one decoded buffer of interleaved samples.
    ///
    /// The first buffer fixes the channel count and the sample rate; a first buffer that
    /// reports no channels is an error. Every buffer is dealt out over the channels.
    pub fn accept_buffer(&mut self, buffer_channels: usize, buffer_rate: u32, interleaved: &[T]) -> (r:
        Result<(), String>)
        ensures
            !old(self).started() && buffer_channels == 0 ==> {
                &&& r is Err
                &&& r->Err_0@ == "decoded audio reports zero channels"@
                &&& final(self).channels_view() == old(self).channels_view()
                &&& final(self).rate() == old(self).rate()
                &&& !final(self).started()
            },
            !old(self).started() && buffer_channels > 0 ==> {
                &&& r is Ok
                &&& final(self).rate() == buffer_rate
                &&& final(self).channels_view() == append_interleaved(
                    empty_buffers::<T>(buffer_channels as nat),
                    interleaved@,
                )
            },
            old(self).started() ==> {
                &&& r is Ok
                &&& final(self).rate() == old(self).rate()
                &&& final(self).channels_view() == append_interleaved(
                    old(self).channels_view(),
                    interleaved@,
                )
            },
            final(self).skipped() == old(self).skipped(),
            final(self).stopped() == old(self).stopped(),
            r is Ok ==> final(self).started(),
    {
        if self.channel_samples.len() == 0 {
            if buffer_channels == 0 {
                return Err("decoded audio reports zero channels".to_string());
            }
            self.sample_rate = buffer_rate;
            let mut buffers: Vec<Vec<T>> = Vec::new();
            let mut c: usize = 0;
            while c < buffer_channels
                invariant
                    c <= buffer_channels,
                    buffers@.len() == c,
                    forall|k: int| 0 <= k < c ==> (#[trigger] buffers@[k])@.len() == 0,
                decreases buffer_channels - c,
            {
                buffers.push(Vec::new());
                c = c + 1;
            }
            proof {
                let v = buffers_view(buffers@);
                assert forall|k: int| 0 <= k < v.len() implies v[k] == empty_buffers::<T>(
                    buffer_channels as nat,
                )[k] by {
                    assert(buffers@[k]@ =~= Seq::<T>::empty());
                }
                assert(v =~= empty_buffers::<T>(buffer_channels as nat));
            }
            self.channel_samples = buffers;
        }
        push_interleaved(&mut self.channel_samples, interleaved);
        Ok(())
    }

    /// Ends the decode. Fails when no sample rate was learned or no channel holds a sample;
    /// otherwise hands over the channels with the status of the stream.
    pub fn finish(self) -> (r: Result<DecodedChannels<T>, String>)
        ensures
            r is Err <==> (self.rate() == 0 || all_empty(self.channels_view())),
            r is Err ==> r->Err_0@ == "no audio frames could be decoded from this file"@,
            r matches Ok(d) ==> {
                &&& d.sample_rate == self.rate()
                &&& buffers_view(d.channel_samples@) == self.channels_view()
                &&& d.decode_status.skipped_packets == self.skipped()
                &&& d.decode_status.stopped_early == self.stopped()
                &&& d.decode_status.channels_unequal == lengths_differ(d.channel_samples@)
                &&& d.decode_status.complete == (self.skipped() == 0 && !self.stopped()
                    && !d.decode_status.channels_unequal)
            },
    {
        let mut any_samples = false;
        let mut c: usize = 0;
        while c < self.channel_samples.len()
            invariant
                c <= self.channel_samples@.len(),
                any_samples <==> exists|k: int|
                    0 <= k < c && (#[trigger] self.channel_samples@[k])@.len() > 0,
            decreases self.channel_samples.len() - c,
        {
            if self.channel_samples[c].len() > 0 {
                any_samples = true;
            }
            c = c + 1;
        }
        proof {
            let v = buffers_view(self.channel_samples@);
            if any_samples {
                let k = choose|k: int|
                    0 <= k < self.channel_samples@.len() && (#[trigger] self.channel_samples@[k])@.len() > 0;
                assert(v[k].len() > 0);
            } else {
                assert forall|k: int| 0 <= k < v.len() implies #[trigger] v[k].len() == 0 by {
                    assert(self.channel_samples@[k]@.len() == 0);
                }
            }
        }
        if self.sample_rate == 0 || !any_samples {
            return Err("no audio frames could be decoded from this file".to_string());
        }
        let decode_status = DecodeStatus::resolve(
            self.skipped_packets,
            self.stopped_early,
            self.channel_samples.as_slice(),
        );
        Ok(DecodedChannels {
            sample_rate: self.sample_rate,
            channel_samples: self.channel_samples,
            decode_status,
        })
    }
}

} // verus!
