use std::sync::atomic::{AtomicUsize, Ordering};

use nyquist_lib::commands::AnalysisRequests;

#[test]
fn an_obsolete_analysis_cannot_replace_the_latest_playback() {
    let mut requests = AnalysisRequests::default();
    let resets = AtomicUsize::new(0);
    requests.begin_playback("first".into(), || {
        resets.fetch_add(1, Ordering::Relaxed);
    });
    requests.begin_playback("second".into(), || {
        resets.fetch_add(1, Ordering::Relaxed);
    });
    assert!(!requests.is_current("first"));
    assert!(requests.is_current("second"));
    assert!(requests
        .publish_playback("first", || panic!("stale samples published"))
        .is_err());
    let published = AtomicUsize::new(0);
    requests
        .publish_playback("second", || {
            published.fetch_add(1, Ordering::Relaxed);
        })
        .unwrap();
    assert_eq!(published.load(Ordering::Relaxed), 1);
    assert_eq!(resets.load(Ordering::Relaxed), 2);
}

#[test]
fn nothing_is_current_before_a_request() {
    let requests = AnalysisRequests::new();
    assert!(!requests.is_current(""));
    assert_eq!(
        requests.publish_playback("x", || panic!("published without a request")),
        Err("analysis superseded by a newer file".to_string())
    );
}

#[test]
fn an_obsolete_playback_request_is_dropped_before_it_starts() {
    let mut requests = AnalysisRequests::new();
    requests.begin_playback("first".into(), || {});
    requests.begin_playback("second".into(), || {});
    assert_eq!(
        requests.admit_analysis("first", true),
        Err("analysis superseded by a newer file".to_string())
    );
    assert_eq!(requests.admit_analysis("second", true), Ok(()));
    // A comparison request never touches playback and always runs.
    assert_eq!(requests.admit_analysis("first", false), Ok(()));
}
