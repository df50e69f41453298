use nephos::reduce::{dispatch_count, reduce_pass_sizes, wrap_add, ReducePair};

#[test]
fn reduce_sums_a_small_power_of_two_buffer() {
    // 64 elements of value 1 reduce to the scalar 64
    let mut pair = ReducePair::new(vec![1u32; 64]);
    let score = pair.reduce_to_score();
    assert_eq!(score, 64);
}

#[test]
fn reduce_matches_naive_summation() {
    let values: Vec<u32> = (0..256u32).map(|i| i * 3 + 1).collect();
    let expected: u32 = values.iter().sum();
    let mut pair = ReducePair::new(values);
    assert_eq!(pair.reduce_to_score(), expected);
}

#[test]
fn reduce_handles_an_odd_length() {
    let mut pair = ReducePair::new(vec![2u32, 3, 5, 7, 11]);
    assert_eq!(pair.reduce_to_score(), 28);
}

#[test]
fn reduce_of_a_single_element_is_the_element() {
    let mut pair = ReducePair::new(vec![99u32]);
    assert_eq!(pair.reduce_to_score(), 99);
}

#[test]
fn reduce_wraps_like_the_device_words() {
    let mut pair = ReducePair::new(vec![u32::MAX, 1]);
    assert_eq!(pair.reduce_to_score(), 0);
}

#[test]
fn pass_counts_follow_the_halving_ceiling() {
    // five elements leave ceil(5/2) = 3, then 2, then 1 live partial sums
    let mut pair = ReducePair::new(vec![1u32; 5]);
    assert_eq!(pair.live_count(), 5);
    pair.pass();
    assert_eq!(pair.live_count(), 3);
    pair.pass();
    assert_eq!(pair.live_count(), 2);
    pair.pass();
    assert_eq!(pair.live_count(), 1);
}

#[test]
fn wrap_add_wraps_at_the_word_size() {
    assert_eq!(wrap_add(3, 4), 7);
    assert_eq!(wrap_add(u32::MAX, 1), 0);
    assert_eq!(wrap_add(u32::MAX, 5), 4);
}

#[test]
fn pass_sizes_halve_down_to_one() {
    assert_eq!(reduce_pass_sizes(64), vec![32, 16, 8, 4, 2, 1]);
    // 256 * 256 pixels take sixteen passes
    assert_eq!(reduce_pass_sizes(256 * 256).len(), 16);
}

#[test]
fn pass_sizes_of_a_single_element_are_empty() {
    assert!(reduce_pass_sizes(1).is_empty());
    assert!(reduce_pass_sizes(0).is_empty());
}

#[test]
fn dispatch_count_covers_the_threads() {
    assert_eq!(dispatch_count(0, 64), 0);
    assert_eq!(dispatch_count(1, 64), 1);
    assert_eq!(dispatch_count(64, 64), 1);
    assert_eq!(dispatch_count(65, 64), 2);
    assert_eq!(dispatch_count(32768, 64), 512);
}
