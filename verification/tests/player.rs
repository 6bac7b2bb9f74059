use nyquist_lib::player::{playable_frames, TrackSource};

fn source(channels: u16, frames: usize) -> TrackSource<f32> {
    let channel_samples: Vec<Vec<f32>> = (0..channels)
        .map(|c| (0..frames).map(|f| (c as f32) * 1000.0 + f as f32).collect())
        .collect();
    TrackSource::prepare(channels as usize, 44_100, channel_samples, 0.0).unwrap()
}

fn take(src: &TrackSource<f32>, cursor: &mut usize, n: usize) -> Vec<f32> {
    (0..n).map(|_| src.next_sample(cursor)).collect()
}

#[test]
fn planar_channels_are_interleaved_in_order() {
    let src = source(2, 3);
    let mut cursor = 0usize;
    let got = take(&src, &mut cursor, 6);
    assert_eq!(got, vec![0.0, 1000.0, 1.0, 1001.0, 2.0, 1002.0]);
}

#[test]
fn the_source_never_ends_and_the_cursor_stops_at_the_end() {
    let src = source(1, 4);
    let mut cursor = 0usize;
    let got = take(&src, &mut cursor, 8);
    assert_eq!(got, vec![0.0, 1.0, 2.0, 3.0, 0.0, 0.0, 0.0, 0.0]);
    assert_eq!(cursor, 4, "the cursor must not run past the end");
}

#[test]
fn moving_the_cursor_moves_the_next_sample_exactly() {
    let src = source(2, 100);
    let mut cursor = 50 * 2;
    assert_eq!(src.next_sample(&mut cursor), 50.0, "left channel of frame 50");
    assert_eq!(src.next_sample(&mut cursor), 1050.0, "right channel of frame 50");

    cursor = usize::MAX;
    assert_eq!(src.next_sample(&mut cursor), 0.0, "silence past the end");
    cursor = 0;
    assert_eq!(src.next_sample(&mut cursor), 0.0, "frame 0, left");
    assert_eq!(src.next_sample(&mut cursor), 1000.0, "frame 0, right");
}

#[test]
fn tracks_without_audio_are_refused() {
    assert_eq!(
        TrackSource::prepare(0, 44_100, Vec::<Vec<f32>>::new(), 0.0).err(),
        Some("this file has no playable audio".to_string())
    );
    assert_eq!(
        TrackSource::prepare(1, 0, vec![vec![0.5f32]], 0.0).err(),
        Some("this file has no playable audio".to_string())
    );
    assert_eq!(
        TrackSource::prepare(2, 44_100, vec![vec![0.5f32], vec![]], 0.0).err(),
        Some("this file decoded to no audio frames".to_string())
    );
    let many: Vec<Vec<i8>> = (0..65_536).map(|_| vec![1i8]).collect();
    assert_eq!(
        TrackSource::prepare(65_536, 44_100, many, 0).err(),
        Some("too many channels to play".to_string())
    );
}

#[test]
fn the_shortest_channel_bounds_the_track() {
    let ragged = vec![vec![1i32, 2, 3], vec![10, 20]];
    assert_eq!(playable_frames(&ragged), 2);
    let src = TrackSource::prepare(2, 8_000, ragged, 0).unwrap();
    assert_eq!(src.total_samples(), 4);
    assert_eq!(src.duration_frames(), 2);
    assert_eq!(src.channels(), 2);
    assert_eq!(src.sample_at(3), Some(20));
    assert_eq!(src.sample_at(4), None);
}

#[test]
fn seeking_positions_and_restarts() {
    let src = source(2, 100);
    assert_eq!(src.seek_target(10), 20);
    assert_eq!(src.seek_target(100), 200);
    assert_eq!(src.seek_target(5_000), 200);
    assert_eq!(src.position_frames(21), 10);
    assert!(src.ended(200));
    assert!(!src.ended(199));
    assert_eq!(src.restart_from(200), 0);
    assert_eq!(src.restart_from(57), 57);
}
