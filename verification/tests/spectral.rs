use nyquist_lib::spectral::{
    base64_encode, display_bins, pooling_window, spectrum_frame_count, stft_frame_count, FFT_SIZE,
    TARGET_TIME_BINS,
};

#[test]
fn short_files_have_no_spectrogram() {
    assert_eq!(
        stft_frame_count(FFT_SIZE - 1),
        Err("file too short for spectral analysis".to_string())
    );
    assert_eq!(stft_frame_count(FFT_SIZE), Ok(1));
    assert_eq!(stft_frame_count(FFT_SIZE + 2047), Ok(1));
    assert_eq!(stft_frame_count(FFT_SIZE + 2048), Ok(2));
    assert_eq!(stft_frame_count(44_100 * 60), Ok(1290));
}

#[test]
fn display_is_capped_at_its_target() {
    assert_eq!(display_bins(TARGET_TIME_BINS, 1290), 600);
    assert_eq!(display_bins(TARGET_TIME_BINS, 12), 12);
}

#[test]
fn pooling_windows_tile_the_items() {
    let (count, bins) = (1291usize, 600usize);
    let mut previous_start = 0;
    for i in 0..bins {
        let (start, end) = pooling_window(i, count, bins);
        assert!(start < end && end <= count);
        assert_eq!(start, i * count / bins);
        assert!(start >= previous_start);
        previous_start = start;
    }
    assert_eq!(pooling_window(bins - 1, count, bins).1, count);
    assert_eq!(pooling_window(0, 10, 4), (0, 2));
    assert_eq!(pooling_window(3, 10, 4), (7, 10));
    // Fewer items than cells: every cell still gets one.
    assert_eq!(pooling_window(2, 3, 5), (1, 2));
}

#[test]
fn the_payload_is_standard_base64() {
    assert_eq!(base64_encode(b"Man"), "TWFu");
    assert_eq!(base64_encode(b"Ma"), "TWE=");
    assert_eq!(base64_encode(b"M"), "TQ==");
    assert_eq!(base64_encode(b"Many hands"), "TWFueSBoYW5kcw==");
    assert_eq!(base64_encode(&[0u8, 255, 128, 7]), "AP+ABw==");
    assert_eq!(base64_encode(&[]), "");
}

#[test]
fn a_track_without_rate_or_channels_has_no_spectrum() {
    let none = Err("cannot compute spectrum: no decoded audio".to_string());
    assert_eq!(spectrum_frame_count(0, 2, 100_000), none);
    assert_eq!(spectrum_frame_count(44_100, 0, 100_000), none);
    assert_eq!(
        spectrum_frame_count(44_100, 2, FFT_SIZE - 1),
        Err("file too short for spectral analysis".to_string())
    );
    assert_eq!(spectrum_frame_count(44_100, 2, FFT_SIZE + 2048), Ok(2));
}
