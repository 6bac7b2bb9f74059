use nyquist_lib::dynamic_range::{block_count, block_samples, reference_blocks, ReferenceBlocks};

#[test]
fn blocks_are_three_seconds_with_a_short_last_one() {
    assert_eq!(block_samples(44_100), 132_300);
    assert_eq!(block_count(132_300, 132_300), 1);
    assert_eq!(block_count(132_301, 132_300), 2);
    assert_eq!(block_count(0, 132_300), 0);
}

#[test]
fn the_reference_is_the_second_peak_and_the_loudest_fifth() {
    assert_eq!(reference_blocks(1), ReferenceBlocks { peak_index: 0, loudest_count: 1 });
    assert_eq!(reference_blocks(2), ReferenceBlocks { peak_index: 0, loudest_count: 1 });
    assert_eq!(reference_blocks(10), ReferenceBlocks { peak_index: 8, loudest_count: 2 });
    assert_eq!(reference_blocks(100), ReferenceBlocks { peak_index: 98, loudest_count: 20 });
}
