use nyquist_lib::decode::DecodeStatus;
use nyquist_lib::mdct_grid::MdctWindow;
use nyquist_lib::tags::EncoderTagMatch;
use nyquist_lib::transcode_detect::{
    assess_transcode_risk, is_declared_lossy, EvidenceStrength, GridEvidence, IndicatorDetail,
    SpectralEvidence, TranscodeAssessment, Verdict,
};

/// The readings the application takes from a spectral measurement: steepness against the
/// 40 dB/kHz transcode threshold, the CD-ceiling band against -30 dB.
fn spectral(encoder_edge_hz: Option<f64>, steepness: f64, above_cd_ceiling_db: Option<f64>) -> SpectralEvidence {
    SpectralEvidence {
        nyquist_valid: true,
        has_signal: true,
        edge_found: encoder_edge_hz.is_some(),
        rolloff_sharp: steepness >= 40.0,
        above_cd_ceiling: above_cd_ceiling_db.map_or(false, |db| db >= -30.0),
    }
}

fn clear_grid() -> GridEvidence {
    GridEvidence {
        analyzed: true,
        grid_detected: false,
        window: Some(MdctWindow::Sine),
        frame_offset: 0,
    }
}

fn detected_grid() -> GridEvidence {
    GridEvidence {
        analyzed: true,
        grid_detected: true,
        window: Some(MdctWindow::KaiserBessel),
        frame_offset: 960,
    }
}

fn complete() -> DecodeStatus {
    DecodeStatus {
        complete: true,
        skipped_packets: 0,
        stopped_early: false,
        channels_unequal: false,
    }
}

#[test]
fn a_checksum_failure_withdraws_even_a_structural_verdict() {
    let mut assessment = TranscodeAssessment {
        verdict: Verdict::ProbablyTranscoded,
        confidence: Some(EvidenceStrength::GridOnly),
        indicators: Vec::new(),
    };
    assessment.withhold_on_integrity_failure();
    assert_eq!(assessment.verdict, Verdict::Indeterminate);
    assert_eq!(assessment.confidence, Some(EvidenceStrength::NoEvidence));
    assert!(matches!(assessment.indicators[0], IndicatorDetail::IntegrityMismatch));
}

#[test]
fn a_clean_sweep_alone_no_longer_vouches_for_a_file() {
    let assessment = assess_transcode_risk(
        &spectral(None, 0.0, None),
        &[],
        &clear_grid(),
        "flac",
        &complete(),
    );
    assert_eq!(assessment.verdict, Verdict::Indeterminate);
    assert!(assessment
        .indicators
        .iter()
        .any(|i| matches!(i, IndicatorDetail::NoEncoderLowpass)));
}

#[test]
fn ultrasonic_content_does_not_establish_authenticity() {
    let sp = spectral(None, 0.0, Some(-5.0));
    let assessment = assess_transcode_risk(&sp, &[], &clear_grid(), "flac", &complete());
    assert_eq!(assessment.verdict, Verdict::Indeterminate);
    assert!(assessment
        .indicators
        .iter()
        .any(|i| matches!(i, IndicatorDetail::ContentAboveCdCeiling)));
}

#[test]
fn upsampled_ringing_does_not_support_an_authentic_verdict() {
    let sp = spectral(None, 0.0, Some(-47.7));
    let assessment = assess_transcode_risk(&sp, &[], &clear_grid(), "flac", &complete());
    assert_eq!(assessment.verdict, Verdict::Indeterminate);
}

#[test]
fn encoder_metadata_alone_never_accuses_a_file() {
    let tags = [EncoderTagMatch {
        tag_key: "ENCODER".into(),
        tag_value: "LAME 3.100".into(),
        matched_pattern: "lame".into(),
    }];
    let assessment = assess_transcode_risk(
        &spectral(None, 0.0, None),
        &tags,
        &clear_grid(),
        "flac",
        &complete(),
    );
    assert_eq!(assessment.verdict, Verdict::Indeterminate);
    assert_eq!(assessment.confidence, Some(EvidenceStrength::NoEvidence));
    assert!(assessment
        .indicators
        .iter()
        .any(|i| matches!(i, IndicatorDetail::TagIsOnlyEvidence)));
}

#[test]
fn repeated_patterns_in_one_tag_count_once() {
    let tags = [
        EncoderTagMatch {
            tag_key: "ENCODER".into(),
            tag_value: "LAME 3.100 (lame)".into(),
            matched_pattern: "lame".into(),
        },
        EncoderTagMatch {
            tag_key: "ENCODER".into(),
            tag_value: "LAME 3.100 (lame)".into(),
            matched_pattern: "lame3".into(),
        },
    ];
    let assessment = assess_transcode_risk(
        &spectral(Some(16_000.0), 90.0, None),
        &tags,
        &clear_grid(),
        "flac",
        &complete(),
    );
    let additional = assessment.indicators.iter().find_map(|i| match i {
        IndicatorDetail::EncoderTagMatched { additional_tags, .. } => Some(*additional_tags),
        _ => None,
    });
    assert_eq!(additional, Some(0), "two patterns in one tag is still one tag");
}

#[test]
fn an_incomplete_decode_withholds_the_verdict() {
    let damaged = DecodeStatus {
        complete: false,
        skipped_packets: 12,
        stopped_early: false,
        channels_unequal: false,
    };
    let assessment = assess_transcode_risk(
        &spectral(Some(16_000.0), 95.0, None),
        &[],
        &clear_grid(),
        "flac",
        &damaged,
    );
    assert_eq!(assessment.verdict, Verdict::Indeterminate);
    assert!(matches!(
        assessment.indicators.first(),
        Some(IndicatorDetail::DecodeIncomplete { skipped_packets: 12, .. })
    ));
    assert!(assessment
        .indicators
        .iter()
        .any(|i| matches!(i, IndicatorDetail::SharpRolloff)));
}

#[test]
fn unequal_channel_lengths_withhold_the_verdict() {
    let ragged = DecodeStatus {
        complete: false,
        skipped_packets: 0,
        stopped_early: false,
        channels_unequal: true,
    };
    let assessment = assess_transcode_risk(
        &spectral(Some(16_000.0), 95.0, None),
        &[],
        &clear_grid(),
        "flac",
        &ragged,
    );
    assert_eq!(assessment.verdict, Verdict::Indeterminate);
    assert!(assessment
        .indicators
        .iter()
        .any(|i| matches!(i, IndicatorDetail::DecodeIncomplete { .. })));
}

#[test]
fn a_declared_lossy_file_carries_no_confidence_score() {
    let assessment = assess_transcode_risk(
        &spectral(Some(16_000.0), 95.0, None),
        &[],
        &clear_grid(),
        "mp3",
        &complete(),
    );
    assert_eq!(assessment.verdict, Verdict::DeclaredLossy);
    assert_eq!(assessment.confidence, None);
}

#[test]
fn a_confirmed_grid_is_the_only_accusation() {
    let sharp = assess_transcode_risk(
        &spectral(Some(16_000.0), 95.0, None),
        &[],
        &detected_grid(),
        "flac",
        &complete(),
    );
    assert_eq!(sharp.verdict, Verdict::ProbablyTranscoded);
    assert_eq!(sharp.confidence, Some(EvidenceStrength::GridCorroborated));
    assert!(sharp.indicators.iter().any(|i| matches!(
        i,
        IndicatorDetail::MdctGridAligned { window: MdctWindow::KaiserBessel, frame_offset: 960 }
    )));

    let gradual = assess_transcode_risk(
        &spectral(Some(16_000.0), 10.0, None),
        &[],
        &detected_grid(),
        "flac",
        &complete(),
    );
    assert_eq!(gradual.verdict, Verdict::ProbablyTranscoded);
    assert_eq!(gradual.confidence, Some(EvidenceStrength::GridOnly));
    assert!(gradual.indicators.iter().any(|i| matches!(i, IndicatorDetail::GradualRolloff)));

    // A detection without a named window is not a confirmed hypothesis.
    let unnamed = GridEvidence { window: None, ..detected_grid() };
    let assessment = assess_transcode_risk(&spectral(None, 0.0, None), &[], &unnamed, "flac", &complete());
    assert_eq!(assessment.verdict, Verdict::Indeterminate);
}

#[test]
fn a_checksum_failure_leaves_a_declared_lossy_file_alone() {
    let mut assessment = assess_transcode_risk(
        &spectral(None, 0.0, None),
        &[],
        &detected_grid(),
        "aac",
        &complete(),
    );
    assessment.withhold_on_integrity_failure();
    assert_eq!(assessment.verdict, Verdict::DeclaredLossy);
    assert_eq!(assessment.indicators.len(), 1);
    assert!(matches!(&assessment.indicators[0], IndicatorDetail::DeclaredLossyCodec { codec } if codec == "aac"));
}

#[test]
fn invalid_rate_and_silence_make_no_spectral_claim() {
    let mut sp = spectral(Some(16_000.0), 95.0, Some(-5.0));
    sp.nyquist_valid = false;
    let a = assess_transcode_risk(&sp, &[], &clear_grid(), "flac", &complete());
    assert!(matches!(a.indicators[0], IndicatorDetail::InvalidSampleRate));
    assert!(!a.indicators.iter().any(|i| matches!(i, IndicatorDetail::SharpRolloff)));

    let mut quiet = spectral(Some(16_000.0), 95.0, Some(-5.0));
    quiet.has_signal = false;
    let a = assess_transcode_risk(&quiet, &[], &clear_grid(), "flac", &complete());
    assert!(matches!(a.indicators[0], IndicatorDetail::InsufficientSignal));
    assert_eq!(a.indicators.len(), 3);
}

#[test]
fn distinct_tags_are_counted_beyond_the_first() {
    let tags = [
        EncoderTagMatch { tag_key: "ENCODER".into(), tag_value: "LAME".into(), matched_pattern: "lame".into() },
        EncoderTagMatch { tag_key: "ENCODED_BY".into(), tag_value: "FAAC".into(), matched_pattern: "faac".into() },
        EncoderTagMatch { tag_key: "ENCODER".into(), tag_value: "LAME".into(), matched_pattern: "lame".into() },
    ];
    let a = assess_transcode_risk(&spectral(None, 0.0, None), &tags, &detected_grid(), "flac", &complete());
    assert!(a.indicators.iter().any(|i| matches!(
        i,
        IndicatorDetail::EncoderTagMatched { additional_tags: 1, tag_key, .. } if tag_key == "ENCODER"
    )));
    // With a confirmed grid the tag is no longer the only evidence.
    assert!(!a.indicators.iter().any(|i| matches!(i, IndicatorDetail::TagIsOnlyEvidence)));
}

#[test]
fn lossy_codecs_are_named_explicitly() {
    for codec in ["mp3", "mp2", "mp1", "aac", "vorbis", "opus"] {
        assert!(is_declared_lossy(codec), "{codec}");
    }
    for codec in ["flac", "alac", "pcm_s16le", "MP3", "", "aac "] {
        assert!(!is_declared_lossy(codec), "{codec}");
    }
}

#[test]
fn only_a_failed_checksum_withdraws_the_inference() {
    let structural = || TranscodeAssessment {
        verdict: Verdict::ProbablyTranscoded,
        confidence: Some(EvidenceStrength::GridOnly),
        indicators: Vec::new(),
    };
    for passed in [Some(true), None] {
        let mut a = structural();
        a.apply_integrity_check(passed);
        assert_eq!(a.verdict, Verdict::ProbablyTranscoded);
        assert_eq!(a.confidence, Some(EvidenceStrength::GridOnly));
        assert!(a.indicators.is_empty());
    }
    let mut failed = structural();
    failed.apply_integrity_check(Some(false));
    assert_eq!(failed.verdict, Verdict::Indeterminate);
    assert_eq!(failed.confidence, Some(EvidenceStrength::NoEvidence));
    assert!(matches!(failed.indicators[0], IndicatorDetail::IntegrityMismatch));
}
