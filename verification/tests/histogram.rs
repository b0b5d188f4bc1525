#![allow(non_snake_case)]

use lib::Histogram;
use std::time::Duration;

#[test]
fn TEST_Histogram_Debug() {
    // empty
    {
        let h = Histogram::default();

        let expected = "Histogram { n: 0, ∑: Some(0), ∞: false, ↓: None, ↑: None, b: {} }";
        assert_eq!(expected, h.to_debug_string(false));
    }

    // populated
    {
        let mut h = Histogram::default();

        let expected = "Histogram { n: 3, ∑: Some(500), ∞: false, ↓: Some(100), ↑: Some(200), b: {6: 1, 7: 2} }";

        assert!(h.push_event_time_ns(100)); // bucket 6
        assert!(h.push_event_time_ns(200)); // bucket 7
        assert!(h.push_event_time_ns(200)); // bucket 7

        assert_eq!(expected, h.to_debug_string(false));
    }
}

#[test]
fn TEST_Histogram_Debug_alternate() {
    // empty
    {
        let h = Histogram::default();

        let expected = r#"Histogram {
    event_count: 0,
    event_time_total: Some(
        0,
    ),
    has_overflowed: false,
    min_event_time: None,
    max_event_time: None,
    buckets: {},
}"#;
        assert_eq!(expected, h.to_debug_string(true));
    }

    // populated
    {
        let mut h = Histogram::default();

        assert!(h.push_event_time_ns(100)); // bucket 6
        assert!(h.push_event_time_ns(10_000)); // bucket 13
        assert!(h.push_event_time_ns(10_001)); // bucket 13

        let expected = r#"Histogram {
    event_count: 3,
    event_time_total: Some(
        20101,
    ),
    has_overflowed: false,
    min_event_time: Some(
        100,
    ),
    max_event_time: Some(
        10001,
    ),
    buckets: {
        "2^6": 1,
        "2^13": 2,
    },
}"#;
        assert_eq!(expected, h.to_debug_string(true));
    }
}

#[test]
fn TEST_Histogram_Default() {
    let h = Histogram::default();

    assert_eq!(0, h.event_count());
    assert_eq!(Some(0), h.event_time_total());
    assert_eq!(0, h.event_time_total_raw());
    assert!(!h.has_overflowed());
    assert_eq!(None, h.min_event_time());
    assert_eq!(None, h.max_event_time());

    for i in 0..64 {
        assert_eq!(0, h.buckets()[i]);
        assert_eq!(Some(0), h.bucket_value(i));
    }

    assert_eq!(None, h.bucket_value(64));
}

#[test]
fn TEST_Histogram_bucket_index() {
    assert_eq!(0, Histogram::bucket_index(0));
    assert_eq!(0, Histogram::bucket_index(1));

    assert_eq!(1, Histogram::bucket_index(2));
    assert_eq!(1, Histogram::bucket_index(3));

    assert_eq!(2, Histogram::bucket_index(4));
    assert_eq!(2, Histogram::bucket_index(7));

    assert_eq!(3, Histogram::bucket_index(8));
    assert_eq!(3, Histogram::bucket_index(15));

    assert_eq!(4, Histogram::bucket_index(16));
    assert_eq!(4, Histogram::bucket_index(31));

    assert_eq!(10, Histogram::bucket_index(1024));
    assert_eq!(10, Histogram::bucket_index(2047));

    assert_eq!(63, Histogram::bucket_index(1u64 << 63));
    assert_eq!(63, Histogram::bucket_index(u64::MAX));
}

#[test]
fn TEST_Histogram_bucket_range() {
    assert_eq!(Some((0, 1)), Histogram::bucket_range(0));
    assert_eq!(Some((2, 3)), Histogram::bucket_range(1));
    assert_eq!(Some((4, 7)), Histogram::bucket_range(2));
    assert_eq!(Some((8, 15)), Histogram::bucket_range(3));
    assert_eq!(Some((16, 31)), Histogram::bucket_range(4));
    assert_eq!(Some((1024, 2047)), Histogram::bucket_range(10));
    assert_eq!(Some((1u64 << 63, u64::MAX)), Histogram::bucket_range(63));

    assert_eq!(None, Histogram::bucket_range(64));
}

#[test]
fn TEST_Histogram_PUSH_EVENTS() {
    let mut h = Histogram::default();

    assert!(h.push_event_time_ns(1));
    assert!(h.push_event_time_ns(3));
    assert!(h.push_event_time_us(10));
    assert!(h.push_event_time_ms(5));
    assert!(h.push_event_time_s(2));
    assert!(h.push_event_duration(Duration::from_nanos(100)));

    assert_eq!(6, h.event_count());
    assert!(!h.has_overflowed());
    assert_eq!(Some(1), h.min_event_time());
    assert_eq!(Some(2_000_000_000), h.max_event_time());
    assert_eq!(Some(2_005_010_104), h.event_time_total());

    assert_eq!(1, h.buckets()[0]);
    assert_eq!(1, h.buckets()[1]);
    assert_eq!(1, h.buckets()[6]);
    assert_eq!(1, h.buckets()[13]);
    assert_eq!(1, h.buckets()[22]);
    assert_eq!(1, h.buckets()[30]);

    h.clear();

    assert_eq!(0, h.event_count());
    assert_eq!(Some(0), h.event_time_total());
}

#[test]
fn TEST_Histogram_OVERFLOW() {
    let mut h = Histogram::default();
    assert!(h.push_event_time_ns(u64::MAX));
    assert_eq!(Some(u64::MAX), h.event_time_total());
    assert!(!h.has_overflowed());

    assert!(!h.push_event_time_ns(1));
    assert!(h.has_overflowed());
    assert_eq!(None, h.event_time_total());
    assert_eq!(u64::MAX, h.event_time_total_raw());
}

#[test]
fn TEST_Histogram_PERCENTILES_WIDE_RANGE() {
    let mut h = Histogram::default();

    // Push events spanning a vast range of magnitudes
    let values = [
        1,              // 1 ns (Bucket 0)
        10,             // 10 ns (Bucket 3)
        100,            // 100 ns (Bucket 6)
        1_000,          // 1 us (Bucket 9)
        10_000,         // 10 us (Bucket 13)
        100_000,        // 100 us (Bucket 16)
        1_000_000,      // 1 ms (Bucket 19)
        10_000_000,     // 10 ms (Bucket 23)
        100_000_000,    // 100 ms (Bucket 26)
        1_000_000_000,  // 1 s (Bucket 29)
        10_000_000_000, // 10 s (Bucket 33)
    ];

    for &v in &values {
        assert!(h.push_event_time_ns(v));
    }

    assert_eq!(values.len(), h.event_count());
    assert_eq!(Some(1), h.min_event_time());
    assert_eq!(Some(10_000_000_000), h.max_event_time());

    // Percentiles never decrease
    let p50 = h.value_at_p50().unwrap();
    let p75 = h.value_at_p75().unwrap();
    let p90 = h.value_at_p90().unwrap();
    let p95 = h.value_at_p95().unwrap();
    let p99 = h.value_at_p99().unwrap();
    let p99_5 = h.value_at_p99_5().unwrap();
    let p99_9 = h.value_at_p99_9().unwrap();
    let p99_99 = h.value_at_p99_99().unwrap();
    let p99_999 = h.value_at_p99_999().unwrap();
    let p99_999_9 = h.value_at_p99_999_9().unwrap();

    assert!(p50 <= p75);
    assert!(p75 <= p90);
    assert!(p90 <= p95);
    assert!(p95 <= p99);
    assert!(p99 <= p99_5);
    assert!(p99_5 <= p99_9);
    assert!(p99_9 <= p99_99);
    assert!(p99_99 <= p99_999);
    assert!(p99_999 <= p99_999_9);

    // Bounds
    assert!(p50 >= 1);
    assert!(p99_999_9 <= 10_000_000_000);
}

#[test]
fn TEST_Histogram_PERCENTILES_MANY_EVENTS() {
    let mut h = Histogram::default();
    let count = 100_000;

    // Push 100,000 linear events from 1 to 100,000 ns
    for i in 1..=count {
        assert!(h.push_event_time_ns(i as u64));
    }

    assert_eq!(count, h.event_count());
    assert_eq!(Some(1), h.min_event_time());
    assert_eq!(Some(count as u64), h.max_event_time());

    let p50 = h.value_at_p50().unwrap();
    let p90 = h.value_at_p90().unwrap();
    let p99 = h.value_at_p99().unwrap();
    let p99_9 = h.value_at_p99_9().unwrap();

    // p50 theoretical = 50,000. Bucket 15 is [32768, 65535] (width 32768).
    assert_eq!(50_000, p50, "p50 was {}, expected exactly 50000", p50);

    // p90 theoretical = 90,000, interpolated within the partly filled
    // bucket 16 and clamped to the largest event time.
    assert_eq!(100_000, p90, "p90 was {}, expected clamped to 100000", p90);

    // p99 theoretical = 99,000. Also in bucket 16, also clamped to max.
    assert_eq!(100_000, p99, "p99 was {}, expected clamped to 100000", p99);

    // p99.9 theoretical = 99,900. Also in bucket 16, also clamped to max.
    assert_eq!(100_000, p99_9, "p99.9 was {}, expected clamped to 100000", p99_9);

    // All integer percentiles are ordered
    let p75 = h.value_at_p75().unwrap();
    let p95 = h.value_at_p95().unwrap();
    let p99_5 = h.value_at_p99_5().unwrap();
    let p99_99 = h.value_at_p99_99().unwrap();
    let p99_999 = h.value_at_p99_999().unwrap();
    let p99_999_9 = h.value_at_p99_999_9().unwrap();

    assert!(p50 <= p75);
    assert!(p75 <= p90);
    assert!(p90 <= p95);
    assert!(p95 <= p99);
    assert!(p99 <= p99_5);
    assert!(p99_5 <= p99_9);
    assert!(p99_9 <= p99_99);
    assert!(p99_99 <= p99_999);
    assert!(p99_999 <= p99_999_9);
}
