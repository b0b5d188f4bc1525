use lib::Histogram;
use std::time::Duration;

fn bucket_contains(index: usize, t: u64) -> bool {
    match Histogram::bucket_range(index) {
        Some((lower, upper)) => lower <= t && t <= upper,
        None => false,
    }
}

#[test]
fn buckets_partition_times() {
    let samples = [
        0u64,
        1,
        2,
        3,
        4,
        5,
        127,
        128,
        1_000_000,
        (1u64 << 40) - 1,
        1u64 << 40,
        (1u64 << 63) - 1,
        1u64 << 63,
        u64::MAX,
    ];
    for &t in &samples {
        let index = Histogram::bucket_index(t);
        assert!(index < 64);
        assert!(bucket_contains(index, t));
        for other in 0..64 {
            if other != index {
                assert!(!bucket_contains(other, t));
            }
        }
    }
}

#[test]
fn buckets_are_adjacent() {
    for i in 1..64 {
        let (_, previous_upper) = Histogram::bucket_range(i - 1).unwrap();
        let (lower, _) = Histogram::bucket_range(i).unwrap();
        assert_eq!(previous_upper + 1, lower);
    }
    assert_eq!(None, Histogram::bucket_range(usize::MAX));
}

#[test]
fn pushes_are_recorded() {
    let mut h = Histogram::default();
    assert!(h.push_event_time_ns(5));
    assert!(h.push_event_time_ns(3));
    assert!(h.push_event_time_ns(9));

    assert_eq!(3, h.event_count());
    assert_eq!(Some(17), h.event_time_total());
    assert_eq!(Some(3), h.min_event_time());
    assert_eq!(Some(9), h.max_event_time());
    assert_eq!(Some(1), h.bucket_value(1));
    assert_eq!(Some(1), h.bucket_value(2));
    assert_eq!(Some(1), h.bucket_value(3));
    let total: u64 = h.buckets().iter().sum();
    assert_eq!(3, total);
}

#[test]
fn zero_time_events_are_counted() {
    let mut h = Histogram::default();
    assert!(h.push_event_time_ns(0));
    assert!(h.push_event_time_ns(0));
    assert_eq!(2, h.event_count());
    assert_eq!(Some(0), h.event_time_total());
    assert_eq!(Some(2), h.bucket_value(0));
    assert_eq!(Some(0), h.min_event_time());
    assert_eq!(Some(0), h.max_event_time());
}

#[test]
fn overflow_is_sticky() {
    let mut h = Histogram::default();
    assert!(h.push_event_time_ns(u64::MAX - 10));
    assert!(!h.push_event_time_ns(11));
    assert!(h.has_overflowed());
    assert_eq!(None, h.event_time_total());

    // once overflowed, even an event of zero is refused and nothing changes
    assert!(!h.push_event_time_ns(0));
    assert!(!h.push_event_time_us(0));
    assert!(!h.push_event_time_ms(1));
    assert!(!h.push_event_time_s(1));
    assert!(!h.push_event_duration(Duration::from_nanos(1)));
    assert_eq!(1, h.event_count());
    assert_eq!(u64::MAX - 10, h.event_time_total_raw());
    assert_eq!(Some(u64::MAX - 10), h.min_event_time());
    assert_eq!(Some(1), h.bucket_value(63));
}

#[test]
fn unit_conversion_overflow_sets_flag() {
    let mut h = Histogram::default();
    assert!(!h.push_event_time_us(u64::MAX / 1_000 + 1));
    assert!(h.has_overflowed());
    assert_eq!(0, h.event_count());
    assert_eq!(0, h.event_time_total_raw());

    let mut h = Histogram::default();
    assert!(!h.push_event_time_ms(u64::MAX / 1_000_000 + 1));
    assert!(h.has_overflowed());

    let mut h = Histogram::default();
    assert!(!h.push_event_time_s(u64::MAX / 1_000_000_000 + 1));
    assert!(h.has_overflowed());
    assert_eq!(None, h.min_event_time());

    let mut h = Histogram::default();
    assert!(h.push_event_time_s(u64::MAX / 1_000_000_000));
    assert_eq!(Some(u64::MAX / 1_000_000_000 * 1_000_000_000), h.event_time_total());
}

#[test]
fn duration_is_taken_in_nanoseconds() {
    let mut h = Histogram::default();
    assert!(h.push_event_duration(Duration::from_micros(5)));
    assert!(h.push_event_duration(Duration::from_secs(3)));
    assert_eq!(Some(3_000_005_000), h.event_time_total());
    assert_eq!(Some(5_000), h.min_event_time());
    assert_eq!(Some(1), h.bucket_value(12));
    assert_eq!(Some(1), h.bucket_value(31));
}

#[test]
fn duration_nanoseconds_are_truncated() {
    let mut h = Histogram::default();
    let duration = Duration::from_secs(u64::MAX);
    let truncated = duration.as_nanos() as u64;
    assert!(h.push_event_duration(duration));
    assert_eq!(Some(truncated), h.max_event_time());
}

#[test]
fn clear_restores_default() {
    let mut h = Histogram::default();
    assert!(h.push_event_time_ms(7));
    assert!(!h.push_event_time_ns(u64::MAX));
    h.clear();
    let fresh = Histogram::default();
    assert_eq!(fresh.to_debug_string(false), h.to_debug_string(false));
    assert_eq!(fresh.to_debug_string(true), h.to_debug_string(true));
    assert!(!h.has_overflowed());
    assert!(h.push_event_time_ns(1));
}

#[test]
fn percentiles_of_empty_histogram() {
    let h = Histogram::default();
    assert_eq!(None, h.value_at_p50());
    assert_eq!(None, h.value_at_p75());
    assert_eq!(None, h.value_at_p90());
    assert_eq!(None, h.value_at_p95());
    assert_eq!(None, h.value_at_p99());
    assert_eq!(None, h.value_at_p99_5());
    assert_eq!(None, h.value_at_p99_9());
    assert_eq!(None, h.value_at_p99_99());
    assert_eq!(None, h.value_at_p99_999());
    assert_eq!(None, h.value_at_p99_999_9());
}

#[test]
fn percentiles_of_single_event() {
    let mut h = Histogram::default();
    assert!(h.push_event_time_ns(100));

    assert_eq!(Some(100), h.value_at_p50());
    assert_eq!(Some(100), h.value_at_p75());
    assert_eq!(Some(100), h.value_at_p90());
    assert_eq!(Some(100), h.value_at_p99());
    assert_eq!(Some(100), h.value_at_p99_999_9());
}

#[test]
fn percentiles_interpolate_within_bucket() {
    let mut h = Histogram::default();
    assert!(h.push_event_time_ns(100)); // bucket 6 [64, 127]
    assert!(h.push_event_time_ns(200)); // bucket 7 [128, 255]

    // rank 1 falls in bucket 6 with offset 1 of 1: 64 + 63 * 1 / 1
    assert_eq!(Some(127), h.value_at_p50());
    assert_eq!(Some(127), h.value_at_p99());
    // rank 1 of 2 is still below the second event
    assert_eq!(Some(127), h.value_at_p99_999_9());
}

#[test]
fn percentiles_follow_linear_interpolation() {
    let mut h = Histogram::default();
    for t in 64..128u64 {
        assert!(h.push_event_time_ns(t)); // all in bucket 6 [64, 127]
    }
    // rank 32 of 64: 64 + 63 * 32 / 64
    assert_eq!(Some(95), h.value_at_p50());
    // rank 48 of 64: 64 + 63 * 48 / 64
    assert_eq!(Some(111), h.value_at_p75());
    // rank 57 of 64: 64 + 63 * 57 / 64
    assert_eq!(Some(120), h.value_at_p90());
    // rank 63 of 64: 64 + 63 * 63 / 64
    assert_eq!(Some(126), h.value_at_p99());
}

#[test]
fn percentiles_are_clamped_to_extremes() {
    let mut h = Histogram::default();
    assert!(h.push_event_time_ns(1_000)); // bucket 9 [512, 1023]
    assert!(h.push_event_time_ns(1_001));
    assert!(h.push_event_time_ns(1_002));
    assert!(h.push_event_time_ns(1_003));
    // rank 2 of 4: 512 + 511 * 2 / 4 = 767, raised to the minimum
    assert_eq!(Some(1_000), h.value_at_p50());
    // rank 3 of 4: 512 + 511 * 3 / 4 = 895, raised to the minimum
    assert_eq!(Some(1_000), h.value_at_p99());
}

#[test]
fn debug_text_after_overflow() {
    let mut h = Histogram::default();
    assert!(h.push_event_time_ns(u64::MAX));
    assert!(!h.push_event_time_ns(1));
    let expected = format!(
        "Histogram {{ n: 1, ∑: None, ∞: true, ↓: Some({0}), ↑: Some({0}), b: {{63: 1}} }}",
        u64::MAX
    );
    assert_eq!(expected, h.to_debug_string(false));

    let expected_pretty = format!(
        "Histogram {{\n    event_count: 1,\n    event_time_total: None,\n    has_overflowed: true,\n    min_event_time: Some(\n        {0},\n    ),\n    max_event_time: Some(\n        {0},\n    ),\n    buckets: {{\n        \"2^63\": 1,\n    }},\n}}",
        u64::MAX
    );
    assert_eq!(expected_pretty, h.to_debug_string(true));
}
