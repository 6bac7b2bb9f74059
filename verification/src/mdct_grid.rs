//! Frame bookkeeping for the AAC encoder-grid sweep: which 1024-coefficient MDCT window was
//! tried, which frame starts are candidates, and how the sampled frames are spread over the
//! loud part of a track.

use vstd::prelude::*;

verus! {

/// The long-block window an AAC grid hypothesis was tested with.
#[derive(Debug, Clone, Copy, PartialEq, Eq, Structural)]
pub enum MdctWindow {
    Sine,
    KaiserBessel,
}

/// AAC long-block MDCT size: 1024 coefficients whatever the sample rate.
pub const AAC_MDCT_N: usize = 1024;
/// Frames measured per candidate offset during the sweep.
pub const SWEEP_FRAMES: usize = 12;
/// Frames measured again at the winning offset.
pub const CONFIRM_FRAMES: usize = 48;
/// Minimum samples needed to sweep at all: the offset range plus the confirming frames.
pub const MIN_SAMPLES: usize = AAC_MDCT_N * (CONFIRM_FRAMES + 4);

/// How many frame starts a channel of `len` samples offers at spacing `n`, keeping three
/// frames of headroom for the offset sweep and the 2n-sample transform.
pub open spec fn candidate_count(len: nat, n: nat) -> nat {
    if len > 3 * n {
        ((len - 3 * n) / (n as int)) as nat
    } else {
        0
    }
}

/// Every frame start that fits is a candidate, with no cap: the `k`-th multiple of `n` is a
/// candidate exactly when it leaves room for the offset sweep and the transform, that is
/// `k * n + 4 * n <= len`, however long the track.
pub proof fn lemma_every_fitting_start_is_a_candidate(len: nat, n: nat, k: int)
    requires
        n > 0,
        0 <= k,
    ensures
        k < candidate_count(len, n) <==> k * n + 4 * n <= len,
{
    let l = len as int;
    let m = n as int;
    if len > 3 * n {
        let u = l - 3 * m;
        vstd::arithmetic::div_mod::lemma_fundamental_div_mod(u, m);
        vstd::arithmetic::div_mod::lemma_mod_bound(u, m);
        let q = u / m;
        assert(candidate_count(len, n) == q);
        assert(k < q <==> k * m + 4 * m <= l) by (nonlinear_arith)
            requires
                u == m * q + u % m,
                0 <= u % m < m,
                u == l - 3 * m,
                m > 0,
                k >= 0,
        ;
    } else {
        assert(k * m + 4 * m > l) by (nonlinear_arith)
            requires
                l <= 3 * m,
                m > 0,
                k >= 0,
        ;
    }
}

/// Frame starts at multiples of `n` that leave room for every offset and a full transform.
pub fn candidate_frame_starts(channel_len: usize, n: usize) -> (starts: Vec<usize>)
    requires
        n > 0,
        3 * n <= usize::MAX,
    ensures
        starts@.len() == candidate_count(channel_len as nat, n as nat),
        forall|i: int| 0 <= i < starts@.len() ==> #[trigger] starts@[i] == i * n,
        forall|i: int| 0 <= i < starts@.len() ==> starts@[i] + 3 * n < channel_len,
{
    let mut starts: Vec<usize> = Vec::new();
    if channel_len <= 3 * n {
        return starts;
    }
    let usable = channel_len - 3 * n;
    let count = usable / n;
    proof {
        vstd::arithmetic::div_mod::lemma_fundamental_div_mod(usable as int, n as int);
        vstd::arithmetic::div_mod::lemma_mod_bound(usable as int, n as int);
    }
    let mut i: usize = 0;
    while i < count
        invariant
            count as int == (usable as int) / (n as int),
            usable == channel_len - 3 * n,
            usable as int == (n as int) * (count as int) + (usable as int) % (n as int),
            0 <= (usable as int) % (n as int) < n,
            n > 0,
            i <= count,
            starts@.len() == i,
            forall|k: int| 0 <= k < i ==> #[trigger] starts@[k] == k * n,
            forall|k: int| 0 <= k < i ==> starts@[k] + 3 * n < channel_len,
        decreases count - i,
    {
        proof {
            assert(i * n < usable) by (nonlinear_arith)
                requires
                    i < count,
                    usable as int == (n as int) * (count as int) + (usable as int) % (n as int),
                    0 <= (usable as int) % (n as int),
                    n > 0,
            ;
        }
        starts.push(i * n);
        i = i + 1;
    }
    starts
}

/// Spacing between picks: spreads `wanted` picks over `len` candidates, at least one apart.
pub open spec fn pick_step(len: nat, wanted: nat) -> nat {
    if len / wanted > 1 {
        len / wanted
    } else {
        1
    }
}

/// Picks spread over the whole list rather than the first `wanted`, so that a transcode
/// spliced into part of a track still registers: every `step`-th entry from the first, at
/// most `wanted` of them.
pub fn spread_picks(loud: &Vec<usize>, wanted: usize) -> (picks: Vec<usize>)
    requires
        wanted > 0,
    ensures
        picks@.len() <= wanted,
        picks@.len() > 0 ==> (picks@.len() - 1) * pick_step(loud@.len(), wanted as nat) < loud@.len(),
        forall|j: int|
            0 <= j < picks@.len() ==> #[trigger] picks@[j] == loud@[j * pick_step(loud@.len(), wanted as nat)],
        picks@.len() < wanted ==> picks@.len() * pick_step(loud@.len(), wanted as nat) >= loud@.len(),
{
    let quotient = loud.len() / wanted;
    let step = if quotient > 1 {
        quotient
    } else {
        1
    };
    proof {
        lemma_step_times_wanted(loud@.len(), wanted as nat);
    }
    let mut picks: Vec<usize> = Vec::new();
    let mut i: usize = 0;
    let mut at: usize = 0;
    while i < wanted && at < loud.len()
        invariant
            step == pick_step(loud@.len(), wanted as nat),
            step >= 1,
            step * wanted <= usize::MAX,
            i <= wanted,
            at == i * step,
            picks@.len() == i,
            i > 0 ==> (i - 1) * step < loud@.len(),
            forall|k: int| 0 <= k < i ==> #[trigger] picks@[k] == loud@[k * step],
        decreases wanted - i,
    {
        picks.push(loud[at]);
        proof {
            assert((i + 1) * step == at + step) by (nonlinear_arith)
                requires
                    at == i * step,
            ;
            assert((i + 1) * step <= step * wanted) by (nonlinear_arith)
                requires
                    i < wanted,
                    step >= 1,
            ;
        }
        i = i + 1;
        at = at + step;
    }
    picks
}

proof fn lemma_step_times_wanted(len: nat, wanted: nat)
    requires
        wanted > 0,
        len <= usize::MAX,
        wanted <= usize::MAX,
    ensures
        pick_step(len, wanted) >= 1,
        pick_step(len, wanted) * wanted <= usize::MAX,
{
    let l = len as int;
    let w = wanted as int;
    vstd::arithmetic::div_mod::lemma_fundamental_div_mod(l, w);
    vstd::arithmetic::div_mod::lemma_mod_bound(l, w);
    let step = pick_step(len, wanted) as int;
    assert(step * w <= (if l > w { l } else { w })) by (nonlinear_arith)
        requires
            l == w * (l / w) + l % w,
            0 <= l % w,
            step == (if l / w > 1 { l / w } else { 1 }),
            w > 0,
            l >= 0,
    ;
}

/// With at least as many candidates as wanted picks, exactly the wanted number is picked.
pub proof fn lemma_enough_candidates_give_all_picks(len: nat, wanted: nat, picked: nat)
    requires
        wanted > 0,
        len >= wanted,
        picked <= wanted,
        picked < wanted ==> picked * pick_step(len, wanted) >= len,
    ensures
        picked == wanted,
{
    let step = pick_step(len, wanted) as int;
    let l = len as int;
    let w = wanted as int;
    vstd::arithmetic::div_mod::lemma_fundamental_div_mod(l, w);
    vstd::arithmetic::div_mod::lemma_mod_bound(l, w);
    if picked < wanted {
        assert(step * w <= l) by (nonlinear_arith)
            requires
                l == w * (l / w) + l % w,
                0 <= l % w,
                step == (if l / w > 1 { l / w } else { 1 }),
                l >= w,
                w > 0,
        ;
        assert(false) by (nonlinear_arith)
            requires
                picked < w,
                picked * step >= l,
                step * w <= l,
                step >= 1,
        ;
    }
}

} // verus!
