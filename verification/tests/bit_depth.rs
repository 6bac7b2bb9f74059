use nyquist_lib::bit_depth::{
    analyze_grid, trailing_zero_bits, verifiable_declared_bits, GridAlignment, GridTally,
};

/// Integer samples at the declared depth, as the application quantizes decoded floats.
fn quantize(declared_bits: u32, channels: &[Vec<f32>]) -> Vec<Vec<i64>> {
    let scale = 2f64.powi((declared_bits - 1) as i32);
    channels
        .iter()
        .map(|c| c.iter().map(|&s| (s as f64 * scale).round() as i64).collect())
        .collect()
}

fn active_ratio(a: &GridAlignment) -> f64 {
    if a.total_samples == 0 {
        0.0
    } else {
        a.active_samples as f64 / a.total_samples as f64
    }
}

#[test]
fn a_mostly_silent_24_bit_file_is_not_called_padded() {
    let step = 1.0 / 8_388_608.0;
    let mut samples = vec![0.0f32; 200_000];
    for (i, slot) in samples.iter_mut().take(1_000).enumerate() {
        *slot = step * (i as f32 * 7.0 + 3.0);
    }
    let declared = verifiable_declared_bits(Some(24)).unwrap();
    let analysis = analyze_grid(declared, &quantize(declared, &[samples]));
    assert_eq!(
        analysis.effective_bit_depth, None,
        "too little active signal to judge; the answer must be withheld, not guessed"
    );
    assert!(active_ratio(&analysis) < 0.01);
}

#[test]
fn genuine_24_bit_content_is_not_reduced() {
    let step = 1.0 / 8_388_608.0;
    let samples: Vec<f32> = (0..100_000)
        .map(|i| step * ((i % 4096) as f32 * 7.0 + 3.0))
        .collect();
    let declared = verifiable_declared_bits(Some(24)).unwrap();
    let analysis = analyze_grid(declared, &quantize(declared, &[samples]));
    assert_eq!(analysis.effective_bit_depth, Some(24));
    assert!(active_ratio(&analysis) > 0.99);
}

#[test]
fn zero_padded_16_bit_content_is_still_detected() {
    let step = 1.0 / 32_768.0;
    let samples: Vec<f32> = (0..100_000)
        .map(|i| step * ((i % 4096) as f32 - 2048.0))
        .collect();
    let declared = verifiable_declared_bits(Some(24)).unwrap();
    let analysis = analyze_grid(declared, &quantize(declared, &[samples]));
    assert_eq!(analysis.effective_bit_depth, Some(16));
}

#[test]
fn declared_depths_outside_the_checkable_range_are_refused() {
    assert_eq!(verifiable_declared_bits(None), None);
    assert_eq!(verifiable_declared_bits(Some(8)), None);
    assert_eq!(verifiable_declared_bits(Some(9)), Some(9));
    assert_eq!(verifiable_declared_bits(Some(24)), Some(24));
    assert_eq!(verifiable_declared_bits(Some(32)), None);
    assert_eq!(verifiable_declared_bits(Some(33)), None);
}

#[test]
fn trailing_zeros_count_the_grid_a_sample_sits_on() {
    assert_eq!(trailing_zero_bits(1), 0);
    assert_eq!(trailing_zero_bits(256), 8);
    assert_eq!(trailing_zero_bits(-256), 8);
    assert_eq!(trailing_zero_bits(12), 2);
    assert_eq!(trailing_zero_bits(i64::MIN), 63);
}

#[test]
fn all_silence_withholds_the_answer() {
    let q = vec![vec![0i64; 1000], vec![0i64; 1000]];
    let a = analyze_grid(24, &q);
    assert_eq!(a.effective_bit_depth, None);
    assert_eq!(a.active_samples, 0);
    assert_eq!(a.total_samples, 2000);
}

#[test]
fn coarse_grid_content_reports_the_coarsest_fitting_depth() {
    // Every sample a multiple of 2^16 at 24 bits: the 8-bit grid fits.
    let q = vec![(1..=500).map(|i| (i as i64) << 16).collect::<Vec<i64>>()];
    assert_eq!(analyze_grid(24, &q).effective_bit_depth, Some(8));
    // Odd samples fit no narrower grid: the declared depth comes back.
    let odd = vec![(0..500).map(|i| 2 * i as i64 + 1).collect::<Vec<i64>>()];
    assert_eq!(analyze_grid(20, &odd).effective_bit_depth, Some(20));
}

#[test]
fn one_stray_sample_in_a_thousand_still_fits() {
    // 999 of 1000 active samples on the 16-bit grid (multiples of 256 at 24 bits) meets 99.9%.
    let mut s: Vec<i64> = (1..=999).map(|i| (i as i64) * 256).collect();
    s.push(3);
    assert_eq!(analyze_grid(24, &vec![s.clone()]).effective_bit_depth, Some(16));
    // Two strays in a thousand do not.
    s[0] = 5;
    assert_eq!(analyze_grid(24, &vec![s]).effective_bit_depth, Some(24));
}

#[test]
fn counting_sample_by_sample_gives_the_same_answer() {
    let samples: Vec<i64> = (1..=500).map(|i| (i as i64) << 8).collect();
    let mut tally = GridTally::new();
    for &v in &samples {
        tally.observe(v);
    }
    assert_eq!(tally.total_samples(), 500);
    let streamed = tally.alignment(24);
    assert_eq!(streamed.effective_bit_depth, Some(16));
    assert_eq!(streamed, analyze_grid(24, &vec![samples]));
}

#[test]
fn added_silence_changes_nothing_but_the_total() {
    let signal: Vec<i64> = (1..=500).map(|i| (i as i64) << 8).collect();
    let mut padded = signal.clone();
    padded.extend(std::iter::repeat(0i64).take(10_000));
    let plain = analyze_grid(24, &vec![signal]);
    let quiet = analyze_grid(24, &vec![padded]);
    assert_eq!(plain.effective_bit_depth, Some(16));
    assert_eq!(quiet.effective_bit_depth, plain.effective_bit_depth);
    assert_eq!(quiet.active_samples, plain.active_samples);
    assert_eq!(quiet.total_samples, plain.total_samples + 10_000);
}
