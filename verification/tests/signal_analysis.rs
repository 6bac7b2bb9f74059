use nyquist_lib::signal_analysis::{count_clipping, true_peak_oversampling, ClipCounter};

#[test]
fn a_plateau_counts_once_however_long() {
    let mut r = vec![false; 3];
    r.extend(vec![true; 10]);
    r.push(false);
    let c = count_clipping(&r);
    assert_eq!(c.full_scale_sample_count(), 10);
    assert_eq!(c.clipped_run_count(), 1);
}

#[test]
fn runs_shorter_than_three_are_not_clipping() {
    let r = [true, true, false, true, false, true, true, false];
    let c = count_clipping(&r);
    assert_eq!(c.full_scale_sample_count(), 5);
    assert_eq!(c.clipped_run_count(), 0);
    let three = [true, true, true, false, true, true, true];
    assert_eq!(count_clipping(&three).clipped_run_count(), 2);
}

#[test]
fn readings_can_be_fed_one_at_a_time() {
    let mut c = ClipCounter::new();
    for &b in &[true, true, true, true, false, true] {
        c.observe(b);
    }
    assert_eq!(c.full_scale_sample_count(), 5);
    assert_eq!(c.clipped_run_count(), 1);
}

#[test]
fn true_peak_oversampling_drops_with_the_rate() {
    assert_eq!(true_peak_oversampling(44_100), 4);
    assert_eq!(true_peak_oversampling(95_999), 4);
    assert_eq!(true_peak_oversampling(96_000), 2);
    assert_eq!(true_peak_oversampling(191_999), 2);
    assert_eq!(true_peak_oversampling(192_000), 0);
    assert_eq!(true_peak_oversampling(384_000), 0);
}
