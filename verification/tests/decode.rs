use nyquist_lib::decode::{push_interleaved, DecodeSession, DecodeStatus};

#[test]
fn unequal_channel_lengths_mark_the_decode_incomplete() {
    let ragged = DecodeStatus::resolve(0, false, &[vec![0.0; 100], vec![0.0; 99]]);
    assert!(ragged.channels_unequal);
    assert!(!ragged.complete);

    let even = DecodeStatus::resolve(0, false, &[vec![0.0; 100], vec![0.0; 100]]);
    assert!(!even.channels_unequal);
    assert!(even.complete);

    assert!(!DecodeStatus::resolve(0, false, &[vec![0.0; 100]]).channels_unequal);
    assert!(!DecodeStatus::resolve::<f32>(0, false, &[]).channels_unequal);
}

#[test]
fn skipped_packets_or_an_early_stop_make_a_decode_incomplete() {
    let skipped = DecodeStatus::resolve(3, false, &[vec![0i32; 4]]);
    assert!(!skipped.complete);
    assert_eq!(skipped.skipped_packets, 3);
    let stopped = DecodeStatus::resolve(0, true, &[vec![0i32; 4]]);
    assert!(!stopped.complete);
    assert!(stopped.stopped_early);
}

#[test]
fn interleaved_samples_are_dealt_round_robin() {
    let mut channels: Vec<Vec<i32>> = vec![vec![], vec![]];
    push_interleaved(&mut channels, &[1, 10, 2, 20, 3, 30]);
    assert_eq!(channels, vec![vec![1, 2, 3], vec![10, 20, 30]]);
    // A trailing partial frame still lands on the channels in order.
    push_interleaved(&mut channels, &[4, 40, 5]);
    assert_eq!(channels, vec![vec![1, 2, 3, 4, 5], vec![10, 20, 30, 40]]);
}

#[test]
fn a_session_collects_channels_and_status() {
    let mut session: DecodeSession<i32> = DecodeSession::new();
    session.record_skipped_packet();
    assert_eq!(session.skipped_packets(), 1);
    session.accept_buffer(2, 44_100, &[1, -1, 2, -2]).unwrap();
    session.accept_buffer(7, 48_000, &[3, -3]).unwrap();
    let done = session.finish().unwrap();
    assert_eq!(done.sample_rate, 44_100);
    assert_eq!(done.channel_samples, vec![vec![1, 2, 3], vec![-1, -2, -3]]);
    assert!(!done.decode_status.complete);
    assert_eq!(done.decode_status.skipped_packets, 1);
}

#[test]
fn a_first_buffer_without_channels_is_refused() {
    let mut session: DecodeSession<f32> = DecodeSession::new();
    assert_eq!(
        session.accept_buffer(0, 44_100, &[]),
        Err("decoded audio reports zero channels".to_string())
    );
}

#[test]
fn a_decode_without_samples_fails() {
    let session: DecodeSession<f32> = DecodeSession::new();
    assert_eq!(
        session.finish().err(),
        Some("no audio frames could be decoded from this file".to_string())
    );
    let mut empty: DecodeSession<f32> = DecodeSession::new();
    empty.accept_buffer(2, 44_100, &[]).unwrap();
    assert!(empty.finish().is_err());
    let mut stopped: DecodeSession<f32> = DecodeSession::new();
    stopped.accept_buffer(1, 8_000, &[0.5]).unwrap();
    stopped.record_stopped_early();
    let done = stopped.finish().unwrap();
    assert!(done.decode_status.stopped_early);
    assert!(!done.decode_status.complete);
}
