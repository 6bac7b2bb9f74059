//! Clipping counts and the true-peak oversampling factor.
//!
//! Whether a sample sits on the top quantization step of the declared depth is a
//! floating-point comparison made before this module; here each sample arrives as that
//! reading, and the counts are kept exactly.

use vstd::prelude::*;

verus! {

/// How many consecutive full-scale samples make a plateau (a waveform with its top cut
/// off) rather than a peak that happened to land on the rail.
pub const MIN_CLIPPED_RUN: usize = 3;

/// Full-scale samples in a channel.
pub open spec fn full_scale_count(s: Seq<bool>) -> nat
    decreases s.len(),
{
    if s.len() == 0 {
        0
    } else {
        full_scale_count(s.drop_last()) + (if s.last() {
            1nat
        } else {
            0nat
        })
    }
}

/// Length of the run of full-scale samples the channel currently ends with.
pub open spec fn trailing_run(s: Seq<bool>) -> nat
    decreases s.len(),
{
    if s.len() == 0 || !s.last() {
        0
    } else {
        1 + trailing_run(s.drop_last())
    }
}

/// Plateaus in a channel: each run of full-scale samples counts once, at the sample where
/// it first becomes [`MIN_CLIPPED_RUN`] long.
pub open spec fn plateau_count(s: Seq<bool>) -> nat
    decreases s.len(),
{
    if s.len() == 0 {
        0
    } else {
        plateau_count(s.drop_last()) + (if trailing_run(s) == MIN_CLIPPED_RUN {
            1nat
        } else {
            0nat
        })
    }
}

/// The counts kept for a channel.
pub struct ClipCounts {
    pub full_scale: nat,
    pub plateaus: nat,
    pub run: nat,
}

/// The counts of a channel's full-scale readings.
pub open spec fn counts_of(s: Seq<bool>) -> ClipCounts {
    ClipCounts { full_scale: full_scale_count(s), plateaus: plateau_count(s), run: trailing_run(s) }
}

/// Running clipping counts over one channel, fed one sample reading at a time.
#[derive(Debug, Clone, Copy)]
pub struct ClipCounter {
    full_scale_sample_count: usize,
    clipped_run_count: usize,
    run: usize,
}

impl View for ClipCounter {
    type V = ClipCounts;

    closed spec fn view(&self) -> ClipCounts {
        ClipCounts {
            full_scale: self.full_scale_sample_count as nat,
            plateaus: self.clipped_run_count as nat,
            run: self.run as nat,
        }
    }
}

impl ClipCounter {
    /// A run and the plateaus are made of full-scale samples, so neither outnumbers them.
    #[verifier::type_invariant]
    spec fn counts_consistent(self) -> bool {
        self.run <= self.full_scale_sample_count && self.clipped_run_count
            <= self.full_scale_sample_count
    }
}

proof fn lemma_counts_bounded(s: Seq<bool>)
    ensures
        trailing_run(s) <= full_scale_count(s),
        plateau_count(s) <= full_scale_count(s),
        full_scale_count(s) <= s.len(),
    decreases s.len(),
{
    if s.len() > 0 {
        lemma_counts_bounded(s.drop_last());
    }
}

impl ClipCounter {
    /// Counts of a channel with no samples yet.
    pub fn new() -> (c: Self)
        ensures
            c@ == counts_of(Seq::empty()),
    {
        ClipCounter { full_scale_sample_count: 0, clipped_run_count: 0, run: 0 }
    }

    /// Samples read as sitting on the top quantization step.
    pub fn full_scale_sample_count(&self) -> (n: usize)
        ensures
            n == self@.full_scale,
    {
        self.full_scale_sample_count
    }

    /// Runs of at least [`MIN_CLIPPED_RUN`] consecutive full-scale samples: the figure that
    /// means clipping.
    pub fn clipped_run_count(&self) -> (n: usize)
        ensures
            n == self@.plateaus,
    {
        self.clipped_run_count
    }

    /// Takes the next sample's reading: whether it sits on the top quantization step.
    pub fn observe(&mut self, at_full_scale: bool)
        requires
            old(self)@.full_scale < usize::MAX,
        ensures
            forall|s: Seq<bool>|
                old(self)@ == counts_of(s) ==> final(self)@ == #[trigger] counts_of(
                    s.push(at_full_scale),
                ),
    {
        proof {
            use_type_invariant(&*self);
        }
        if at_full_scale {
            self.full_scale_sample_count = self.full_scale_sample_count + 1;
            self.run = self.run + 1;
            if self.run == MIN_CLIPPED_RUN {
                self.clipped_run_count = self.clipped_run_count + 1;
            }
        } else {
            self.run = 0;
        }
        proof {
            assert forall|s: Seq<bool>| old(self)@ == counts_of(s) implies final(self)@ == #[trigger] counts_of(
                s.push(at_full_scale),
            ) by {
                assert(s.push(at_full_scale).drop_last() =~= s);
            }
        }
    }
}

/// Counts over a whole channel's readings at once.
pub fn count_clipping(readings: &[bool]) -> (c: ClipCounter)
    ensures
        c@ == counts_of(readings@),
{
    let mut counter = ClipCounter::new();
    let mut i: usize = 0;
    while i < readings.len()
        invariant
            i <= readings@.len(),
            counter@ == counts_of(readings@.take(i as int)),
        decreases readings.len() - i,
    {
        proof {
            lemma_counts_bounded(readings@.take(i as int));
            assert(readings@.take(i + 1) =~= readings@.take(i as int).push(readings@[i as int]));
        }
        counter.observe(readings[i]);
        i = i + 1;
    }
    proof {
        assert(readings@.take(readings@.len() as int) =~= readings@);
    }
    counter
}

/// A plateau is counted once however long it lasts: after a sample below full scale, a run
/// of `n` full-scale samples adds one plateau when `n` reaches [`MIN_CLIPPED_RUN`] and
/// none otherwise, while every one of its samples counts as full scale.
pub proof fn lemma_plateau_counted_once(s: Seq<bool>, n: nat)
    ensures
        ({
            let t = s.push(false) + Seq::new(n, |i: int| true);
            &&& plateau_count(t) == plateau_count(s) + (if n >= MIN_CLIPPED_RUN {
                1nat
            } else {
                0nat
            })
            &&& full_scale_count(t) == full_scale_count(s) + n
            &&& trailing_run(t) == n
        }),
    decreases n,
{
    let t = s.push(false) + Seq::new(n, |i: int| true);
    if n == 0 {
        assert(t =~= s.push(false));
        assert(s.push(false).drop_last() =~= s);
    } else {
        lemma_plateau_counted_once(s, (n - 1) as nat);
        let u = s.push(false) + Seq::new((n - 1) as nat, |i: int| true);
        assert(t.drop_last() =~= u);
    }
}

/// The oversampling factor the true-peak meter applies at a sample rate: 4x below 96 kHz,
/// 2x from 96 kHz up to 192 kHz, and 0 at 192 kHz and above, where no oversampling is done
/// and the figure is a sampled peak.
pub fn true_peak_oversampling(sample_rate: u32) -> (factor: u32)
    ensures
        factor == (if sample_rate < 96_000 {
            4u32
        } else if sample_rate < 192_000 {
            2u32
        } else {
            0u32
        }),
{
    if sample_rate < 96_000 {
        4
    } else if sample_rate < 192_000 {
        2
    } else {
        0
    }
}

} // verus!
