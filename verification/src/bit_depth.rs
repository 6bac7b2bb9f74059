//! Detects a "fake hi-res" file: content whose container declares a bit depth (e.g. 24-bit)
//! its samples never use, because the real information never exceeded a narrower depth.
//!
//! If a file's information never exceeded N bits, every sample quantized back to the
//! declared depth is an exact multiple of the N-bit quantization step. This is checked
//! exactly, on the active (non-zero) samples only: digital silence sits on every grid at once
//! and says nothing about which one the file was made on. The answer is withheld rather than
//! guessed when too little of the file carries signal.
//!
//! Quantizing a decoded sample to an integer at the declared depth is a floating-point step
//! taken before this module; everything here reads those integers.

use vstd::prelude::*;
use vstd::arithmetic::div_mod::{lemma_fundamental_div_mod, lemma_fundamental_div_mod_converse};
use vstd::arithmetic::power2::{lemma_pow2_pos, lemma_pow2_unfold, pow2};

verus! {

broadcast use vstd::array::group_array_axioms;

/// Below this, "effective bit depth" is not a meaningful concept to report.
pub const MIN_CANDIDATE_BITS: u32 = 8;

/// Declared depths above this are not analyzed.
pub const MAX_DECLARED_BITS: u32 = 32;

/// Decoded samples are `f32`, whose mantissa carries 24 significant bits: beyond that the
/// low-order bits are already gone, and the file is reported as unverifiable.
pub const MAX_VERIFIABLE_BITS: u32 = 24;

/// The declared depth the grid check can run against: strictly above the candidate floor,
/// within the declared maximum, and no deeper than a decoded sample can carry.
pub open spec fn verifiable_depth(declared: Option<u32>) -> Option<u32> {
    match declared {
        Some(b) => if MIN_CANDIDATE_BITS < b && b <= MAX_DECLARED_BITS && b <= MAX_VERIFIABLE_BITS {
            Some(b)
        } else {
            None
        },
        None => None,
    }
}

/// The declared depth to check samples against, or `None` when the file is unverifiable
/// (no declared depth, an implausible one, or one deeper than decoded samples carry).
pub fn verifiable_declared_bits(declared: Option<u32>) -> (r: Option<u32>)
    ensures
        r == verifiable_depth(declared),
{
    match declared {
        Some(b) => if MIN_CANDIDATE_BITS < b && b <= MAX_DECLARED_BITS && b <= MAX_VERIFIABLE_BITS {
            Some(b)
        } else {
            None
        },
        None => None,
    }
}

/// Which declared depths are checked: every depth from 9 to 24 bits is checked as
/// declared (16-bit and 24-bit files among them); 8 bits or fewer, more than 24 bits (which
/// a decoded `f32` sample cannot carry), or no declared depth at all, are not.
pub proof fn lemma_checked_depths()
    ensures
        forall|b: u32| 9 <= b <= 24 ==> #[trigger] verifiable_depth(Some(b)) == Some(b),
        forall|b: u32| (b <= 8 || b > 24) ==> #[trigger] verifiable_depth(Some(b)) is None,
        verifiable_depth(None) is None,
{
}

/// The magnitude of a quantized sample.
pub open spec fn magnitude(v: i64) -> nat {
    if v < 0 {
        (-(v as int)) as nat
    } else {
        v as nat
    }
}

/// A sample carries evidence about the grid `2^d` when it is non-zero and an exact multiple
/// of `2^d`.
pub open spec fn on_grid(v: i64, d: nat) -> bool {
    v != 0 && magnitude(v) % pow2(d) == 0
}

/// How many times 2 divides `m` (for `m > 0`).
pub open spec fn twos(m: nat) -> nat
    decreases m,
{
    if m == 0 || m % 2 == 1 {
        0
    } else {
        1 + twos(m / 2)
    }
}

proof fn lemma_mod_double(m: int, p: int)
    requires
        m >= 0,
        p > 0,
    ensures
        (m % (2 * p) == 0) <==> (m % 2 == 0 && (m / 2) % p == 0),
{
    lemma_fundamental_div_mod(m, 2 * p);
    lemma_fundamental_div_mod(m, 2);
    lemma_fundamental_div_mod(m / 2, p);
    vstd::arithmetic::div_mod::lemma_mod_bound(m, 2);
    vstd::arithmetic::div_mod::lemma_mod_bound(m / 2, p);
    vstd::arithmetic::div_mod::lemma_mod_bound(m, 2 * p);
    if m % (2 * p) == 0 {
        let q = m / (2 * p);
        assert(m == 2 * (p * q) + 0) by (nonlinear_arith)
            requires
                m == (2 * p) * q + 0,
        ;
        lemma_fundamental_div_mod_converse(m, 2, p * q, 0);
        assert(m / 2 == q * p + 0) by (nonlinear_arith)
            requires
                m / 2 == p * q,
        ;
        lemma_fundamental_div_mod_converse(m / 2, p, q, 0);
    }
    if m % 2 == 0 && (m / 2) % p == 0 {
        let h = m / 2;
        let j = h / p;
        assert(m == j * (2 * p) + 0) by (nonlinear_arith)
            requires
                m == 2 * h + 0,
                h == p * j + 0,
        ;
        lemma_fundamental_div_mod_converse(m, 2 * p, j, 0);
    }
}

/// A positive number is a multiple of `2^d` exactly when 2 divides it at least `d` times.
pub proof fn lemma_grid_is_twos(m: nat, d: nat)
    requires
        m > 0,
    ensures
        (m % pow2(d) == 0) <==> d <= twos(m),
    decreases d,
{
    lemma_pow2_pos(d);
    if d == 0 {
        vstd::arithmetic::power2::lemma2_to64();
    } else {
        lemma_pow2_unfold(d);
        lemma_pow2_pos((d - 1) as nat);
        lemma_mod_double(m as int, pow2((d - 1) as nat) as int);
        if m % 2 == 0 {
            assert(m / 2 > 0);
            lemma_grid_is_twos(m / 2, (d - 1) as nat);
        }
    }
}

/// The number of times 2 divides a non-zero sample's magnitude, that is, the number of
/// trailing zero bits of its two's-complement form.
pub fn trailing_zero_bits(v: i64) -> (k: u32)
    requires
        v != 0,
    ensures
        k == twos(magnitude(v)),
        k < 64,
{
    let mut m: u64 = if v < 0 {
        (0i128 - v as i128) as u64
    } else {
        v as u64
    };
    let mut k: u32 = 0;
    let ghost full = magnitude(v);
    proof {
        vstd::arithmetic::power2::lemma2_to64();
    }
    while m % 2 == 0
        invariant
            m > 0,
            k < 64,
            m * pow2(k as nat) == full,
            twos(full) == k + twos(m as nat),
            full <= 0x8000_0000_0000_0000,
        decreases m,
    {
        proof {
            lemma_pow2_unfold((k + 1) as nat);
            lemma_pow2_pos(k as nat);
            assert((m / 2) * pow2((k + 1) as nat) == full) by (nonlinear_arith)
                requires
                    m * pow2(k as nat) == full,
                    pow2((k + 1) as nat) == 2 * pow2(k as nat),
                    m % 2 == 0,
            ;
            if k + 1 >= 64 {
                assert(k + 1 == 64);
                vstd::arithmetic::power2::lemma2_to64();
                assert(false) by (nonlinear_arith)
                    requires
                        (m / 2) * pow2((k + 1) as nat) == full,
                        m / 2 >= 1,
                        pow2((k + 1) as nat) == 0x10000000000000000,
                        full <= 0x8000_0000_0000_0000,
                ;
            }
        }
        m = m / 2;
        k = k + 1;
    }
    k
}

/// Samples on the grid `2^d`, among a sequence of quantized samples.
pub open spec fn count_on_grid(s: Seq<i64>, d: nat) -> nat
    decreases s.len(),
{
    if s.len() == 0 {
        0
    } else {
        count_on_grid(s.drop_last(), d) + (if on_grid(s.last(), d) {
            1nat
        } else {
            0nat
        })
    }
}

/// Samples carrying signal: the non-zero ones (every non-zero sample is on the grid `2^0`).
pub open spec fn active_count(s: Seq<i64>) -> nat {
    count_on_grid(s, 0)
}

/// The channel buffers by their contents.
pub open spec fn quantized_view(q: Seq<Vec<i64>>) -> Seq<Seq<i64>> {
    q.map_values(|c: Vec<i64>| c@)
}

/// Every sample of every channel, channel after channel.
pub open spec fn samples_in_order(q: Seq<Vec<i64>>) -> Seq<i64> {
    quantized_view(q).flatten_alt()
}

/// Enough of the file carries signal for grid alignment to mean anything: some sample is
/// active, and at least one sample in a hundred is.
pub open spec fn enough_signal(s: Seq<i64>) -> bool {
    active_count(s) > 0 && 100 * active_count(s) >= s.len()
}

/// Candidate depth `c` explains the data when at least 99.9% of the active samples sit on
/// its grid, `2^(declared - c)` at the declared depth.
pub open spec fn candidate_fits(s: Seq<i64>, declared: nat, c: nat) -> bool {
    1000 * count_on_grid(s, (declared - c) as nat) >= 999 * active_count(s)
}

/// What the grid check found.
#[derive(Debug, Clone, Copy, PartialEq, Eq, Structural)]
pub struct GridAlignment {
    /// Smallest depth whose grid explains (nearly) all active samples: a depth below the
    /// declared one means padding; the declared depth itself means none was found; `None`
    /// means too little signal to judge.
    pub effective_bit_depth: Option<u32>,
    /// Non-zero samples, the ones carrying evidence.
    pub active_samples: u64,
    /// All samples.
    pub total_samples: u64,
}

/// `r` is the grid check's answer on samples `s` at the declared depth: the counts, no
/// answer when too little of the file carries signal, and otherwise the smallest candidate
/// depth (from the candidate floor up) whose grid explains at least 99.9% of the active
/// samples, or the declared depth when none narrower does.
pub open spec fn reports_alignment(s: Seq<i64>, declared_bits: u32, r: GridAlignment) -> bool {
    &&& r.total_samples == s.len()
    &&& r.active_samples == active_count(s)
    &&& (!enough_signal(s) ==> r.effective_bit_depth is None)
    &&& (enough_signal(s) ==> (r.effective_bit_depth matches Some(e) && {
        &&& MIN_CANDIDATE_BITS <= e <= declared_bits
        &&& (e < declared_bits ==> candidate_fits(s, declared_bits as nat, e as nat))
        &&& forall|c: nat|
            MIN_CANDIDATE_BITS <= c < e ==> !#[trigger] candidate_fits(s, declared_bits as nat, c)
    }))
}

/// Sum of histogram buckets `d..`.
pub open spec fn suffix_sum(h: Seq<u64>, d: int) -> int
    decreases h.len() - d,
{
    if d < 0 || d >= h.len() {
        0
    } else {
        h[d] + suffix_sum(h, d + 1)
    }
}

proof fn lemma_suffix_sum_bump(h: Seq<u64>, t: int, d: int)
    requires
        0 <= t < h.len(),
        0 <= d <= h.len(),
        h[t] < u64::MAX,
    ensures
        suffix_sum(h.update(t, (h[t] + 1) as u64), d) == suffix_sum(h, d) + (if d <= t {
            1int
        } else {
            0int
        }),
    decreases h.len() - d,
{
    if d < h.len() {
        lemma_suffix_sum_bump(h, t, d + 1);
    }
}

proof fn lemma_suffix_sum_nonneg(h: Seq<u64>, d: int)
    ensures
        suffix_sum(h, d) >= 0,
    decreases h.len() - d,
{
    if 0 <= d < h.len() {
        lemma_suffix_sum_nonneg(h, d + 1);
    }
}

/// A suffix sum holds every later suffix sum and every bucket from its start on.
proof fn lemma_suffix_sum_covers(h: Seq<u64>, a: int, b: int)
    requires
        0 <= a <= b,
    ensures
        suffix_sum(h, b) <= suffix_sum(h, a),
        b < h.len() ==> h[b] <= suffix_sum(h, a),
    decreases b - a,
{
    lemma_suffix_sum_nonneg(h, b + 1);
    if a < b {
        lemma_suffix_sum_covers(h, a + 1, b);
        lemma_suffix_sum_nonneg(h, a + 1);
        if a >= h.len() {
            lemma_suffix_sum_nonneg(h, b);
        }
    }
}

proof fn lemma_suffix_sum_zero(h: Seq<u64>, d: int)
    requires
        forall|t: int| 0 <= t < h.len() ==> h[t] == 0,
    ensures
        suffix_sum(h, d) == 0,
    decreases h.len() - d,
{
    if 0 <= d < h.len() {
        lemma_suffix_sum_zero(h, d + 1);
    }
}

/// A coarse grid is contained in every finer one: a sample on `2^d` is on `2^e` for `e <= d`.
pub proof fn lemma_coarser_grid_implies_finer(v: i64, d: nat, e: nat)
    requires
        e <= d,
        on_grid(v, d),
    ensures
        on_grid(v, e),
{
    lemma_grid_is_twos(magnitude(v), d);
    lemma_grid_is_twos(magnitude(v), e);
}

proof fn lemma_count_monotone(s: Seq<i64>, d: nat, e: nat)
    requires
        e <= d,
    ensures
        count_on_grid(s, d) <= count_on_grid(s, e),
    decreases s.len(),
{
    if s.len() > 0 {
        lemma_count_monotone(s.drop_last(), d, e);
        if on_grid(s.last(), d) {
            lemma_coarser_grid_implies_finer(s.last(), d, e);
        }
    }
}

/// Fitting is monotone in the candidate: if a depth explains the data, every deeper
/// candidate does too.
pub proof fn lemma_fit_is_monotone(s: Seq<i64>, declared: nat, c: nat, c2: nat)
    requires
        c <= c2 <= declared,
        candidate_fits(s, declared, c),
    ensures
        candidate_fits(s, declared, c2),
{
    lemma_count_monotone(s, (declared - c) as nat, (declared - c2) as nat);
}

proof fn lemma_all_on_grid_count(s: Seq<i64>, d: nat)
    requires
        forall|i: int| 0 <= i < s.len() && s[i] != 0 ==> on_grid(#[trigger] s[i], d),
    ensures
        count_on_grid(s, d) == count_on_grid(s, 0),
    decreases s.len(),
{
    if s.len() > 0 {
        lemma_all_on_grid_count(s.drop_last(), d);
        vstd::arithmetic::power2::lemma2_to64();
        if s.last() != 0 {
            assert(on_grid(s[s.len() - 1], d));
        }
    }
}

/// Padding is caught: when every non-zero sample is an exact multiple of candidate depth
/// `c`'s quantization step at the declared depth, that candidate explains the data, so the
/// effective depth reported is at most `c`. Silent samples neither help nor hinder.
pub proof fn lemma_padded_content_fits(s: Seq<i64>, declared: nat, c: nat)
    requires
        c <= declared,
        forall|i: int| 0 <= i < s.len() && s[i] != 0 ==> on_grid(#[trigger] s[i], (declared - c) as nat),
    ensures
        candidate_fits(s, declared, c),
{
    lemma_all_on_grid_count(s, (declared - c) as nat);
}

/// Silence is no evidence: digital silence appended to the samples leaves every grid count,
/// and so the active count and every candidate's fit, as they were; only the total grows.
pub proof fn lemma_silence_is_no_evidence(s: Seq<i64>, n: nat, d: nat)
    ensures
        ({
            let padded = s + Seq::new(n, |i: int| 0i64);
            &&& count_on_grid(padded, d) == count_on_grid(s, d)
            &&& padded.len() == s.len() + n
        }),
    decreases n,
{
    let padded = s + Seq::new(n, |i: int| 0i64);
    if n == 0 {
        assert(padded =~= s);
    } else {
        lemma_silence_is_no_evidence(s, (n - 1) as nat, d);
        assert(padded.drop_last() =~= s + Seq::new((n - 1) as nat, |i: int| 0i64));
    }
}

/// Sum of the histogram buckets from `from` to the end.
fn sum_from(h: &[u64; 64], from: usize) -> (r: u64)
    requires
        from <= h@.len(),
        suffix_sum(h@, from as int) <= u64::MAX,
    ensures
        r == suffix_sum(h@, from as int),
{
    let mut r: u64 = 0;
    let mut t: usize = from;
    while t < 64
        invariant
            h@.len() == 64,
            from <= t <= h@.len(),
            suffix_sum(h@, from as int) <= u64::MAX,
            r + suffix_sum(h@, t as int) == suffix_sum(h@, from as int),
        decreases 64 - t,
    {
        proof {
            lemma_suffix_sum_nonneg(h@, t + 1);
        }
        r = r + h[t];
        t = t + 1;
    }
    r
}

/// What a tally has counted: all samples, and for each grid `2^d` with `d` up to 64, the
/// samples on it.
pub struct GridCounts {
    pub total: nat,
    pub on_grid: Seq<nat>,
}

/// The counts of a sequence of quantized samples.
pub open spec fn counts_of_samples(s: Seq<i64>) -> GridCounts {
    GridCounts { total: s.len(), on_grid: Seq::new(65, |d: int| count_on_grid(s, d as nat)) }
}

/// Running grid counts, fed one quantized sample at a time: a histogram of trailing-zero
/// counts over the active samples, which answers the grid question for every candidate at
/// once without keeping the samples.
pub struct GridTally {
    histogram: [u64; 64],
    total: u64,
}

impl View for GridTally {
    type V = GridCounts;

    closed spec fn view(&self) -> GridCounts {
        GridCounts {
            total: self.total as nat,
            on_grid: Seq::new(65, |d: int| suffix_sum(self.histogram@, d) as nat),
        }
    }
}

impl GridTally {
    /// No more active samples than samples.
    #[verifier::type_invariant]
    spec fn well_formed(self) -> bool {
        suffix_sum(self.histogram@, 0) <= self.total
    }

    /// A tally of no samples.
    pub fn new() -> (t: Self)
        ensures
            t@ == counts_of_samples(Seq::empty()),
    {
        let histogram: [u64; 64] = [0u64; 64];
        proof {
            assert forall|t: int| 0 <= t < histogram@.len() implies histogram@[t] == 0 by {
                assert(histogram@[t] == histogram[t]);
            }
            lemma_suffix_sum_zero(histogram@, 0);
        }
        let t = GridTally { histogram, total: 0 };
        proof {
            assert forall|d: int| 0 <= d < 65 implies #[trigger] t@.on_grid[d]
                == counts_of_samples(Seq::<i64>::empty()).on_grid[d] by {
                lemma_suffix_sum_zero(t.histogram@, d);
            }
            assert(t@.on_grid =~= counts_of_samples(Seq::<i64>::empty()).on_grid);
        }
        t
    }

    /// Samples counted so far.
    pub fn total_samples(&self) -> (n: u64)
        ensures
            n == self@.total,
    {
        self.total
    }

    /// Counts the next quantized sample.
    pub fn observe(&mut self, v: i64)
        requires
            old(self)@.total < u64::MAX,
        ensures
            forall|s: Seq<i64>|
                old(self)@ == counts_of_samples(s) ==> final(self)@ == #[trigger] counts_of_samples(
                    s.push(v),
                ),
    {
        proof {
            use_type_invariant(&*self);
        }
        let ghost before = self.histogram@;
        self.total = self.total + 1;
        if v != 0 {
            let tz = trailing_zero_bits(v) as usize;
            proof {
                lemma_suffix_sum_covers(before, 0, tz as int);
                lemma_suffix_sum_bump(before, tz as int, 0);
            }
            let bumped = self.histogram[tz] + 1;
            self.histogram[tz] = bumped;
            proof {
                assert forall|s: Seq<i64>| old(self)@ == counts_of_samples(s) implies self@
                    == #[trigger] counts_of_samples(s.push(v)) by {
                    assert(s.push(v).drop_last() =~= s);
                    assert forall|d: int| 0 <= d < 65 implies #[trigger] self@.on_grid[d]
                        == counts_of_samples(s.push(v)).on_grid[d] by {
                        assert(old(self)@.on_grid[d] == counts_of_samples(s).on_grid[d]);
                        lemma_suffix_sum_nonneg(before, d);
                        lemma_suffix_sum_nonneg(self.histogram@, d);
                        lemma_suffix_sum_bump(before, tz as int, d);
                        lemma_grid_is_twos(magnitude(v), d as nat);
                    }
                    assert(self@.on_grid =~= counts_of_samples(s.push(v)).on_grid);
                }
            }
        } else {
            proof {
                assert forall|s: Seq<i64>| old(self)@ == counts_of_samples(s) implies self@
                    == #[trigger] counts_of_samples(s.push(v)) by {
                    assert(s.push(v).drop_last() =~= s);
                    assert forall|d: int| 0 <= d < 65 implies #[trigger] self@.on_grid[d]
                        == counts_of_samples(s.push(v)).on_grid[d] by {
                        assert(old(self)@.on_grid[d] == counts_of_samples(s).on_grid[d]);
                    }
                    assert(self@.on_grid =~= counts_of_samples(s.push(v)).on_grid);
                }
            }
        }
    }

    /// The grid check over the samples counted: withholds the answer when too little of
    /// them carries signal, and otherwise reports the smallest candidate depth (from the
    /// candidate floor up) whose grid explains at least 99.9% of the active samples, or the
    /// declared depth when none narrower does.
    pub fn alignment(&self, declared_bits: u32) -> (r: GridAlignment)
        requires
            MIN_CANDIDATE_BITS < declared_bits <= MAX_VERIFIABLE_BITS,
        ensures
            forall|s: Seq<i64>|
                self@ == counts_of_samples(s) ==> #[trigger] reports_alignment(s, declared_bits, r),
    {
        proof {
            use_type_invariant(self);
        }
        let ghost h = self.histogram@;
        let active = sum_from(&self.histogram, 0);
        let total = self.total;
        if active == 0 || (active as u128) * 100 < (total as u128) {
            let r = GridAlignment { effective_bit_depth: None, active_samples: active, total_samples: total };
            proof {
                assert forall|s: Seq<i64>| self@ == counts_of_samples(s) implies #[trigger] reports_alignment(
                    s,
                    declared_bits,
                    r,
                ) by {
                    self.lemma_counts_agree(s);
                    assert(suffix_sum(h, 0) == count_on_grid(s, 0));
                }
            }
            return r;
        }
        let mut candidate: u32 = MIN_CANDIDATE_BITS;
        while candidate < declared_bits
            invariant
                h == self.histogram@,
                h.len() == 64,
                MIN_CANDIDATE_BITS <= candidate <= declared_bits <= MAX_VERIFIABLE_BITS,
                active as int == suffix_sum(h, 0),
                active > 0,
                total == self.total,
                100 * active >= total,
                forall|c: nat|
                    MIN_CANDIDATE_BITS <= c < candidate ==> 1000 * #[trigger] suffix_sum(
                        h,
                        declared_bits - c,
                    ) < 999 * active,
            decreases declared_bits - candidate,
        {
            let required = (declared_bits - candidate) as usize;
            proof {
                lemma_suffix_sum_covers(h, 0, required as int);
            }
            let aligned = sum_from(&self.histogram, required);
            if (aligned as u128) * 1000 >= (active as u128) * 999 {
                let r = GridAlignment {
                    effective_bit_depth: Some(candidate),
                    active_samples: active,
                    total_samples: total,
                };
                proof {
                    assert forall|s: Seq<i64>| self@ == counts_of_samples(s) implies #[trigger] reports_alignment(
                        s,
                        declared_bits,
                        r,
                    ) by {
                        self.lemma_counts_agree(s);
                        assert(suffix_sum(h, declared_bits - candidate) == count_on_grid(
                            s,
                            (declared_bits - candidate) as nat,
                        ));
                        assert forall|c: nat| MIN_CANDIDATE_BITS <= c < candidate implies !#[trigger] candidate_fits(
                            s,
                            declared_bits as nat,
                            c,
                        ) by {
                            assert(1000 * suffix_sum(h, declared_bits - c) < 999 * active);
                        }
                    }
                }
                return r;
            }
            candidate = candidate + 1;
        }
        let r = GridAlignment {
            effective_bit_depth: Some(declared_bits),
            active_samples: active,
            total_samples: total,
        };
        proof {
            assert forall|s: Seq<i64>| self@ == counts_of_samples(s) implies #[trigger] reports_alignment(
                s,
                declared_bits,
                r,
            ) by {
                self.lemma_counts_agree(s);
                assert forall|c: nat| MIN_CANDIDATE_BITS <= c < declared_bits implies !#[trigger] candidate_fits(
                    s,
                    declared_bits as nat,
                    c,
                ) by {
                    assert(1000 * suffix_sum(h, declared_bits - c) < 999 * active);
                }
            }
        }
        r
    }

    /// Under a tally that counted `s`, each histogram suffix is the number of samples of `s`
    /// on the matching grid, and the total is the length of `s`.
    proof fn lemma_counts_agree(&self, s: Seq<i64>)
        requires
            self@ == counts_of_samples(s),
        ensures
            self.total == s.len(),
            forall|d: int| 0 <= d < 65 ==> #[trigger] suffix_sum(self.histogram@, d) == count_on_grid(s, d as nat),
    {
        assert forall|d: int| 0 <= d < 65 implies #[trigger] suffix_sum(self.histogram@, d) == count_on_grid(
            s,
            d as nat,
        ) by {
            assert(self@.on_grid[d] == counts_of_samples(s).on_grid[d]);
            lemma_suffix_sum_nonneg(self.histogram@, d);
        }
    }
}

/// Checks quantized samples against the grids of narrower depths: counts every sample of
/// every channel, in order, and reports the grid check's answer on them (see
/// [`reports_alignment`]).
pub fn analyze_grid(declared_bits: u32, quantized: &Vec<Vec<i64>>) -> (r: GridAlignment)
    requires
        MIN_CANDIDATE_BITS < declared_bits <= MAX_VERIFIABLE_BITS,
        samples_in_order(quantized@).len() <= u64::MAX,
    ensures
        reports_alignment(samples_in_order(quantized@), declared_bits, r),
{
    let ghost q = quantized_view(quantized@);
    let mut tally = GridTally::new();
    let mut ch: usize = 0;
    proof {
        assert(q.take(0).flatten_alt() =~= Seq::<i64>::empty());
    }
    while ch < quantized.len()
        invariant
            q == quantized_view(quantized@),
            q.flatten_alt().len() <= u64::MAX,
            ch <= q.len(),
            tally@ == counts_of_samples(q.take(ch as int).flatten_alt()),
        decreases quantized.len() - ch,
    {
        let channel = &quantized[ch];
        let ghost prefix = q.take(ch as int).flatten_alt();
        proof {
            assert(q[ch as int] == channel@);
            assert(q.take(ch + 1).drop_last() =~= q.take(ch as int));
            assert(q.take(ch + 1).flatten_alt() == prefix + channel@);
            lemma_prefix_flat_len(q, ch + 1);
        }
        let mut k: usize = 0;
        while k < channel.len()
            invariant
                q == quantized_view(quantized@),
                q.flatten_alt().len() <= u64::MAX,
                ch < q.len(),
                q[ch as int] == channel@,
                q.take(ch + 1).flatten_alt() == prefix + channel@,
                prefix.len() + channel@.len() <= q.flatten_alt().len(),
                k <= channel@.len(),
                tally@ == counts_of_samples(prefix + channel@.take(k as int)),
            decreases channel.len() - k,
        {
            let v = channel[k];
            proof {
                assert((prefix + channel@.take(k as int)).push(v) =~= prefix + channel@.take(k + 1));
            }
            tally.observe(v);
            k = k + 1;
        }
        proof {
            assert(channel@.take(channel@.len() as int) =~= channel@);
        }
        ch = ch + 1;
    }
    proof {
        assert(q.take(q.len() as int) =~= q);
    }
    tally.alignment(declared_bits)
}

/// A prefix of the channels holds no more samples than all of them.
proof fn lemma_prefix_flat_len(q: Seq<Seq<i64>>, i: int)
    requires
        0 <= i <= q.len(),
    ensures
        q.take(i).flatten_alt().len() <= q.flatten_alt().len(),
    decreases q.len(),
{
    if i == q.len() {
        assert(q.take(i) =~= q);
    } else {
        assert(q.take(i) =~= q.drop_last().take(i));
        lemma_prefix_flat_len(q.drop_last(), i);
    }
}

} // verus!
