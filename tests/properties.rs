use aggregated_stats::{AggregatedStats, Ratio};

#[test]
fn count_matches_additions_beyond_capacity() {
    let mut stats = AggregatedStats::with_capacity(4);
    for v in 0..25usize {
        stats.add(v * 7 % 11);
        assert_eq!(stats.count(), v + 1);
    }
}

#[test]
fn max_and_min_are_added_values() {
    let values = [7usize, 3, 19, 3, 12, 0, 19, 5];
    let mut stats = AggregatedStats::with_capacity(3);
    for v in values {
        stats.add(v);
    }
    assert_eq!(stats.max(), Some(19));
    assert_eq!(stats.min(), Some(0));
}

#[test]
fn empty_has_no_max_min_or_average() {
    let stats = AggregatedStats::new();
    assert_eq!(stats.max(), None);
    assert_eq!(stats.min(), None);
    assert_eq!(stats.average(), None);
    assert_eq!(stats.count(), 0);
}

#[test]
fn average_is_exact_sum_over_count() {
    let mut stats = AggregatedStats::with_capacity(2);
    stats.add(1);
    stats.add(2);
    stats.add(4);
    assert_eq!(stats.average(), Some(Ratio { numer: 7, denom: 3 }));
}

#[test]
fn average_ignores_capacity() {
    let mut small = AggregatedStats::with_capacity(1);
    let mut large = AggregatedStats::new();
    for v in [5usize, 9, 1, 30, 2] {
        small.add(v);
        large.add(v);
    }
    assert_eq!(small.average(), large.average());
    assert_eq!(small.average(), Some(Ratio { numer: 47, denom: 5 }));
}

#[test]
fn average_of_largest_values_does_not_overflow() {
    let mut stats = AggregatedStats::with_capacity(2);
    stats.add(usize::MAX);
    stats.add(usize::MAX);
    stats.add(usize::MAX);
    let a = stats.average().unwrap();
    assert_eq!(a.numer, 3 * usize::MAX as u128);
    assert_eq!(a.denom, 3);
}

#[test]
fn sample_never_exceeds_capacity() {
    let mut stats = AggregatedStats::with_capacity(5);
    for v in 0..40usize {
        stats.add(v * 13 % 17);
        assert!(stats.sample_len() <= 5);
    }
    assert_eq!(stats.sample_len(), 5);
}

#[test]
fn quantile_one_is_max_after_eviction() {
    let mut stats = AggregatedStats::with_capacity(2);
    for v in [10usize, 11, 12, 1, 100] {
        stats.add(v);
    }
    assert_eq!(stats.quantile(1, 1), Some(Ratio { numer: 100, denom: 1 }));
    assert_eq!(stats.max(), Some(100));
}

#[test]
fn median_of_one_to_four() {
    let mut stats = AggregatedStats::with_capacity(4);
    for v in [1usize, 2, 3, 4] {
        stats.add(v);
    }
    assert_eq!(stats.quantile(1, 2), Some(Ratio { numer: 5, denom: 2 }));
}

#[test]
fn median_of_nine_to_eleven() {
    let mut stats = AggregatedStats::new();
    for v in [9usize, 10, 11] {
        stats.add(v);
    }
    assert_eq!(stats.quantile(1, 2), Some(Ratio { numer: 10, denom: 1 }));
}

#[test]
fn replacement_evicts_next_larger_neighbour() {
    let mut stats = AggregatedStats::with_capacity(3);
    for v in [2usize, 4, 6, 3] {
        stats.add(v);
    }
    assert_eq!(stats.sample_len(), 3);
    assert_eq!(stats.median(), Some(Ratio { numer: 3, denom: 1 }));
    assert_eq!(stats.quantile(2, 3), Some(Ratio { numer: 9, denom: 2 }));
}

#[test]
fn value_above_every_sample_is_not_retained() {
    let mut stats = AggregatedStats::with_capacity(2);
    stats.add(1);
    stats.add(2);
    stats.add(50);
    // the sample is still {1, 2}: the midpoint at rank one is 3/2
    assert_eq!(stats.median(), Some(Ratio { numer: 3, denom: 2 }));
    assert_eq!(stats.max(), Some(50));
}

#[test]
fn value_equal_to_a_sample_leaves_it_unchanged() {
    let mut stats = AggregatedStats::with_capacity(2);
    stats.add(4);
    stats.add(8);
    stats.add(4);
    assert_eq!(stats.quantile(1, 2), Some(Ratio { numer: 12, denom: 2 }));
}

#[test]
fn quantile_zero_gives_smallest_sample() {
    let mut stats = AggregatedStats::new();
    for v in [8usize, 3, 5] {
        stats.add(v);
    }
    assert_eq!(stats.quantile(0, 1), Some(Ratio { numer: 3, denom: 1 }));
}

#[test]
fn fresh_aggregator_has_no_quantiles() {
    let mut stats = AggregatedStats::new();
    assert_eq!(stats.quantile(1, 2), None);
    assert_eq!(stats.quantile(1, 1), None);
    assert_eq!(stats.median(), None);
}
