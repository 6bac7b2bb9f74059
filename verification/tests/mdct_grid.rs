use nyquist_lib::mdct_grid::{candidate_frame_starts, spread_picks, AAC_MDCT_N, MIN_SAMPLES};

#[test]
fn frame_starts_leave_room_for_the_sweep() {
    let starts = candidate_frame_starts(10 * AAC_MDCT_N + 5, AAC_MDCT_N);
    assert_eq!(starts, (0..7).map(|i| i * AAC_MDCT_N).collect::<Vec<_>>());
    assert!(candidate_frame_starts(3 * AAC_MDCT_N, AAC_MDCT_N).is_empty());
    assert_eq!(candidate_frame_starts(3 * AAC_MDCT_N + 1, AAC_MDCT_N), Vec::<usize>::new());
    assert_eq!(candidate_frame_starts(4 * AAC_MDCT_N, AAC_MDCT_N), vec![0]);
    assert_eq!(MIN_SAMPLES, 1024 * 52);
}

#[test]
fn picks_are_spread_over_the_whole_list() {
    let loud: Vec<usize> = (0..100).collect();
    assert_eq!(spread_picks(&loud, 12), vec![0, 8, 16, 24, 32, 40, 48, 56, 64, 72, 80, 88]);
    let few: Vec<usize> = vec![5, 9, 13];
    assert_eq!(spread_picks(&few, 12), vec![5, 9, 13]);
    assert!(spread_picks(&Vec::new(), 12).is_empty());
    let just: Vec<usize> = (0..23).collect();
    assert_eq!(spread_picks(&just, 12).len(), 12);
}
