# Verified percentile histogram

A low-cost histogram of event durations in nanoseconds, with 64
power-of-two buckets (bucket `0` holds `[0, 1]`, bucket `i` holds
`[2^i, 2^(i+1) - 1]`), and integer percentile queries (p50 to p99.9999)
computed by linear interpolation within a bucket, clamped to the smallest and
largest event seen. The library is written in Verus and its contracts are
proved.

- `src/buckets.rs`: the bucket layout (`bucket_index`, `bucket_range`) and the
  proof that the buckets partition the `u64` times.
- `src/histogram.rs`: the `Histogram` type, its abstract view and
  well-formedness, the push operations and the accessors.
- `src/percentile.rs`: the percentile queries, with the laws that results lie
  between the extremes and grow with the percentile.
- `src/history.rs`: what a series of pushes leaves in a histogram, and the
  stickiness of overflow.
- `src/debug_text.rs`: the one-line and multi-line debug texts.
- `app/lib.rs`: the floating-point `value_at_percentile` query and a `Debug`
  wrapper type.
- `tests/`: the tests.
