//! Frame and pooling bookkeeping for the spectrogram, and the encoding of its payload.
//!
//! The STFT, the dB levels and the edge sweeps are floating-point work done around this
//! module. What is fixed here: how many STFT frames a track yields, how frames and bins are
//! pooled into display cells (the same windows for the intensity image and for the
//! per-window cutoff curve, so the two line up), and how the quantized image is encoded.

use base64::Engine;
use vstd::prelude::*;

verus! {

/// STFT frame length in samples.
pub const FFT_SIZE: usize = 4096;
/// Hop between frames: 50% overlap.
pub const HOP_SIZE: usize = 2048;
/// Display width of the spectrogram, at most.
pub const TARGET_TIME_BINS: usize = 600;
/// Display height of the spectrogram, at most.
pub const TARGET_FREQUENCY_BINS: usize = 300;

/// STFT frames over `sample_len` samples: one per hop that still fits a whole frame. A track
/// shorter than one frame is too short for spectral analysis.
pub fn stft_frame_count(sample_len: usize) -> (r: Result<usize, String>)
    ensures
        sample_len < FFT_SIZE <==> r is Err,
        r is Err ==> r->Err_0@ == "file too short for spectral analysis"@,
        r matches Ok(n) ==> n == (sample_len - FFT_SIZE) / (HOP_SIZE as int) + 1 && n >= 1,
{
    if sample_len < FFT_SIZE {
        return Err("file too short for spectral analysis".to_string());
    }
    Ok((sample_len - FFT_SIZE) / HOP_SIZE + 1)
}

/// STFT frames of a decoded track: a track with no sample rate or no channel has no
/// spectrum; otherwise the frame count over its shortest channel, `sample_len` samples.
pub fn spectrum_frame_count(sample_rate: u32, channels: usize, sample_len: usize) -> (r: Result<usize, String>)
    ensures
        (sample_rate == 0 || channels == 0) ==> (r is Err && r->Err_0@
            == "cannot compute spectrum: no decoded audio"@),
        (sample_rate > 0 && channels > 0) ==> {
            &&& (sample_len < FFT_SIZE <==> r is Err)
            &&& (r is Err ==> r->Err_0@ == "file too short for spectral analysis"@)
            &&& (r matches Ok(n) ==> n == (sample_len - FFT_SIZE) / (HOP_SIZE as int) + 1)
        },
{
    if sample_rate == 0 || channels == 0 {
        return Err("cannot compute spectrum: no decoded audio".to_string());
    }
    stft_frame_count(sample_len)
}

/// Display cells along one axis: the target count, or fewer when there are fewer items.
pub fn display_bins(target: usize, available: usize) -> (n: usize)
    ensures
        n == if target < available {
            target
        } else {
            available
        },
{
    if target < available {
        target
    } else {
        available
    }
}

/// First item of pooling window `index` when `count` items are pooled into `bins` windows.
pub open spec fn window_start(index: int, count: int, bins: int) -> int {
    index * count / bins
}

/// One past the last item of pooling window `index`: the next window's start, but never
/// empty and never past the end.
pub open spec fn window_end(index: int, count: int, bins: int) -> int {
    let next = (index + 1) * count / bins;
    let at_least_one = if next > window_start(index, count, bins) + 1 {
        next
    } else {
        window_start(index, count, bins) + 1
    };
    if at_least_one < count {
        at_least_one
    } else {
        count
    }
}

/// The items pooled into display cell `index`: `[start, end)`.
pub fn pooling_window(index: usize, count: usize, bins: usize) -> (r: (usize, usize))
    requires
        0 < bins,
        index < bins,
        bins * count <= usize::MAX,
    ensures
        r.0 == window_start(index as int, count as int, bins as int),
        r.1 == window_end(index as int, count as int, bins as int),
        r.0 <= r.1 <= count,
        count > 0 ==> r.0 < r.1,
{
    proof {
        lemma_window_products(index as int, count as int, bins as int);
    }
    let start = index * count / bins;
    let next = (index + 1) * count / bins;
    let at_least_one = if next > start + 1 {
        next
    } else {
        start + 1
    };
    let end = if at_least_one < count {
        at_least_one
    } else {
        count
    };
    (start, end)
}

proof fn lemma_window_products(index: int, count: int, bins: int)
    requires
        0 < bins,
        0 <= index < bins,
        0 <= count,
    ensures
        0 <= index * count,
        index * count <= (index + 1) * count,
        (index + 1) * count <= bins * count,
        count > 0 ==> index * count / bins < count,
        0 <= index * count / bins,
{
    assert(0 <= index * count) by (nonlinear_arith)
        requires
            0 <= index,
            0 <= count,
    ;
    assert(index * count <= (index + 1) * count) by (nonlinear_arith)
        requires
            0 <= count,
    ;
    assert((index + 1) * count <= bins * count) by (nonlinear_arith)
        requires
            index + 1 <= bins,
            0 <= count,
    ;
    let s = index * count;
    vstd::arithmetic::div_mod::lemma_fundamental_div_mod(s, bins);
    vstd::arithmetic::div_mod::lemma_mod_bound(s, bins);
    vstd::arithmetic::div_mod::lemma_div_pos_is_pos(s, bins);
    assert(s + count == (index + 1) * count) by (nonlinear_arith)
        requires
            s == index * count,
    ;
    if count > 0 {
        assert(s / bins < count) by (nonlinear_arith)
            requires
                s == bins * (s / bins) + s % bins,
                0 <= s % bins,
                s + count <= bins * count,
                count > 0,
                bins > 0,
        ;
    }
}

proof fn lemma_window_bounds(index: int, count: int, bins: int)
    requires
        0 < bins,
        0 <= index < bins,
        bins <= count,
    ensures
        0 <= index * count,
        index * count <= (index + 1) * count,
        (index + 1) * count <= bins * count,
        0 <= window_start(index, count, bins) < count,
        window_start(index, count, bins) + 1 <= (index + 1) * count / bins <= count,
{
    assert(0 <= index * count) by (nonlinear_arith)
        requires
            0 <= index,
            0 <= count,
    ;
    assert(index * count <= (index + 1) * count) by (nonlinear_arith)
        requires
            0 <= count,
    ;
    assert((index + 1) * count <= bins * count) by (nonlinear_arith)
        requires
            index + 1 <= bins,
            0 <= count,
    ;
    let s = index * count;
    let q = s / bins;
    vstd::arithmetic::div_mod::lemma_fundamental_div_mod(s, bins);
    vstd::arithmetic::div_mod::lemma_mod_bound(s, bins);
    vstd::arithmetic::div_mod::lemma_div_pos_is_pos(s, bins);
    let t = (index + 1) * count;
    vstd::arithmetic::div_mod::lemma_fundamental_div_mod(t, bins);
    vstd::arithmetic::div_mod::lemma_mod_bound(t, bins);
    let q2 = t / bins;
    assert(t == s + count) by (nonlinear_arith)
        requires
            t == (index + 1) * count,
            s == index * count,
    ;
    assert(q2 >= q + 1) by (nonlinear_arith)
        requires
            s == bins * q + s % bins,
            t == bins * q2 + t % bins,
            0 <= s % bins < bins,
            0 <= t % bins < bins,
            t == s + count,
            count >= bins,
            bins > 0,
    ;
    assert(q2 <= count) by (nonlinear_arith)
        requires
            t == bins * q2 + t % bins,
            0 <= t % bins,
            t <= bins * count,
            bins > 0,
    ;
}

/// With no more windows than items, the pooling windows partition the items: they are
/// never empty, each starts where the previous one ended, the first starts at the first
/// item and the last ends at the last.
pub proof fn lemma_pooling_windows_partition(count: int, bins: int, index: int)
    requires
        0 < bins <= count,
        0 <= index < bins,
    ensures
        window_start(0, count, bins) == 0,
        window_start(index, count, bins) < window_end(index, count, bins),
        index + 1 < bins ==> window_end(index, count, bins) == window_start(index + 1, count, bins),
        window_end(bins - 1, count, bins) == count,
{
    lemma_window_bounds(index, count, bins);
    lemma_window_bounds(bins - 1, count, bins);
    assert(bins * count / bins == count) by {
        assert(bins * count == count * bins + 0) by (nonlinear_arith);
        vstd::arithmetic::div_mod::lemma_fundamental_div_mod_converse(bins * count, bins, count, 0);
    }
    assert((bins - 1 + 1) * count == bins * count) by (nonlinear_arith);
    assert(0int * count == 0) by (nonlinear_arith);
    if index + 1 < bins {
        lemma_window_bounds(index + 1, count, bins);
    }
}

/// The character of the standard base64 alphabet for a 6-bit value: `A`-`Z`, `a`-`z`,
/// `0`-`9`, `+`, `/`.
pub open spec fn base64_char(v: int) -> char {
    if v < 26 {
        (65 + v) as char
    } else if v < 52 {
        (97 + v - 26) as char
    } else if v < 62 {
        (48 + v - 52) as char
    } else if v == 62 {
        '+'
    } else {
        '/'
    }
}

/// Standard (RFC 4648, padded) base64 of a byte sequence: each group of three bytes
/// becomes four characters, six bits each, most significant first; a last group of one or
/// two bytes is filled with zero bits and padded with `=` to four characters.
pub open spec fn base64_standard(data: Seq<u8>) -> Seq<char>
    decreases data.len(),
{
    if data.len() == 0 {
        Seq::empty()
    } else if data.len() == 1 {
        let a = data[0] as int;
        seq![base64_char(a / 4), base64_char((a % 4) * 16), '=', '=']
    } else if data.len() == 2 {
        let a = data[0] as int;
        let b = data[1] as int;
        seq![base64_char(a / 4), base64_char((a % 4) * 16 + b / 16), base64_char((b % 16) * 4), '=']
    } else {
        let a = data[0] as int;
        let b = data[1] as int;
        let c = data[2] as int;
        seq![
            base64_char(a / 4),
            base64_char((a % 4) * 16 + b / 16),
            base64_char((b % 16) * 4 + c / 64),
            base64_char(c % 64),
        ] + base64_standard(data.subrange(3, data.len() as int))
    }
}

/// Four characters per started group of three bytes.
pub proof fn lemma_base64_length(data: Seq<u8>)
    ensures
        base64_standard(data).len() == 4 * ((data.len() + 2) / 3),
    decreases data.len(),
{
    if data.len() >= 3 {
        lemma_base64_length(data.subrange(3, data.len() as int));
    }
}

/// Calls `base64::engine::general_purpose::STANDARD.encode`: the result is the padded
/// standard base64 of the input, [`base64_standard`]. The length bound keeps the crate's
/// own output-size computation from overflowing, where it would panic.
#[verifier::external_body]
fn standard_base64_encode(data: &[u8]) -> (r: String)
    requires
        data@.len() / 3 * 4 + 4 <= usize::MAX,
    ensures
        r@ == base64_standard(data@),
{
    base64::engine::general_purpose::STANDARD.encode(data)
}

/// The spectrogram payload: quantized intensities as standard base64, decoded client-side
/// into bytes, never a matrix of numbers.
pub fn base64_encode(data: &[u8]) -> (r: String)
    requires
        data@.len() / 3 * 4 + 4 <= usize::MAX,
    ensures
        r@ == base64_standard(data@),
        r@.len() == 4 * ((data@.len() + 2) / 3),
{
    proof {
        lemma_base64_length(data@);
    }
    standard_base64_encode(data)
}

} // verus!
