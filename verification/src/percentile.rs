//! Percentile queries: the bucket in which a target rank falls, linear
//! interpolation within it, and clamping to the observed extremes.
use vstd::prelude::*;
use crate::buckets::{bucket_lower, bucket_upper, lemma_bucket_bounds, lemma_bucket_order};
use crate::histogram::{Histogram, HistogramView, events_below, lemma_events_below_monotone};

verus! {

/// Bucket `i` is non-empty and the events in the buckets up to and
/// including it number at least `rank`.
pub open spec fn reaches_rank(buckets: Seq<u64>, rank: int, i: int) -> bool {
    &&& 0 <= i < 64
    &&& buckets[i] > 0
    &&& events_below(buckets, i + 1) >= rank
}

/// Bucket `i` is the first bucket that reaches `rank`.
pub open spec fn is_rank_bucket(buckets: Seq<u64>, rank: int, i: int) -> bool {
    &&& reaches_rank(buckets, rank, i)
    &&& forall|j: int| 0 <= j < i ==> !reaches_rank(buckets, rank, j)
}

/// Linear interpolation within bucket `i`: `offset` of its `count` events
/// lie at or below the value, spread evenly over the bucket's width.
pub open spec fn interpolation(i: int, offset: int, count: int) -> int {
    bucket_lower(i) + (bucket_upper(i) - bucket_lower(i)) * offset / count
}

/// `v` raised to `low` and then lowered to `high`, where they are known.
pub open spec fn clamped(v: int, low: Option<u64>, high: Option<u64>) -> int {
    let raised_to_low = match low {
        Some(m) => if v < m { m as int } else { v },
        None => v,
    };
    match high {
        Some(m) => if raised_to_low > m { m as int } else { raised_to_low },
        None => raised_to_low,
    }
}

/// The rank of the `num / den` fraction of `count` events, rounded down.
pub open spec fn rank_of(count: int, num: int, den: int) -> int {
    count * num / den
}

impl HistogramView {
    /// The approximated time at `rank`: `None` for an empty histogram;
    /// otherwise the value interpolated within the first non-empty bucket
    /// whose cumulative count reaches `rank`, clamped to the observed
    /// minimum and maximum; the maximum if no bucket reaches `rank`.
    pub open spec fn value_at_rank(self, rank: int) -> Option<u64> {
        if self.event_count == 0 {
            None
        } else if exists|i: int| is_rank_bucket(self.buckets, rank, i) {
            let i = choose|i: int| is_rank_bucket(self.buckets, rank, i);
            Some(
                clamped(
                    interpolation(i, rank - events_below(self.buckets, i), self.buckets[i] as int),
                    self.min_event_time,
                    self.max_event_time,
                ) as u64,
            )
        } else {
            self.max_event_time
        }
    }

    /// The approximated time at the `num / den` percentile.
    pub open spec fn value_at_fraction(self, num: int, den: int) -> Option<u64> {
        self.value_at_rank(rank_of(self.event_count as int, num, den))
    }
}

/// There is at most one first bucket reaching a rank.
pub proof fn lemma_rank_bucket_unique(buckets: Seq<u64>, rank: int, i: int, j: int)
    requires
        is_rank_bucket(buckets, rank, i),
        is_rank_bucket(buckets, rank, j),
    ensures
        i == j,
{
}

/// The events below the first bucket reaching a rank number fewer than the
/// rank, or none at all.
pub proof fn lemma_below_rank_bucket(buckets: Seq<u64>, rank: int, i: int, k: int)
    requires
        buckets.len() == 64,
        is_rank_bucket(buckets, rank, i),
        0 <= k <= i,
    ensures
        events_below(buckets, k) == 0 || events_below(buckets, k) < rank,
    decreases k,
{
    if k > 0 {
        lemma_below_rank_bucket(buckets, rank, i, k - 1);
        assert(!reaches_rank(buckets, rank, k - 1));
    }
}

/// Interpolation over `offset` of `count` events stays within the width.
pub proof fn lemma_scaled_offset_bounds(width: int, offset: int, count: int)
    requires
        0 <= width,
        0 <= offset <= count,
        0 < count,
    ensures
        0 <= width * offset / count <= width,
{
    assert(0 <= width * offset) by (nonlinear_arith)
        requires
            0 <= width,
            0 <= offset,
    ;
    assert(width * offset <= width * count) by (nonlinear_arith)
        requires
            0 <= width,
            offset <= count,
    ;
    vstd::arithmetic::div_mod::lemma_div_is_ordered(width * offset, width * count, count);
    vstd::arithmetic::div_mod::lemma_div_multiples_vanish(width, count);
    vstd::arithmetic::div_mod::lemma_div_pos_is_pos(width * offset, count);
}

impl Histogram {
    /// The approximated time at `target_rank`: see
    /// `HistogramView::value_at_rank`.
    fn value_at_target_rank_impl(&self, target_rank: u64) -> (value: Option<u64>)
        requires
            self@.wf(),
        ensures
            value == self@.value_at_rank(target_rank as int),
    {
        proof {
            self.lemma_view_fields();
        }
        if self.event_count == 0 {
            return None;
        }
        let mut accumulated = 0u64;
        for i in 0usize..64usize
            invariant
                self@.wf(),
                self@.event_count > 0,
                accumulated == events_below(self@.buckets, i as int),
                accumulated == 0 || accumulated < target_rank,
                forall|j: int| 0 <= j < i ==> !reaches_rank(self@.buckets, target_rank as int, j),
        {
            proof {
                self.lemma_view_fields();
            }
            let count = self.buckets[i];
            if count > 0 {
                let prev_accumulated = accumulated;
                proof {
                    lemma_events_below_monotone(self@.buckets, (i + 1) as int, 64);
                }
                accumulated += count;
                if accumulated >= target_rank {
                    let ghost b = self@.buckets;
                    let ghost rank = target_rank as int;
                    assert(is_rank_bucket(b, rank, i as int));
                    let (lower, upper): (u64, u64) = Self::bucket_range(i).unwrap_or((0, u64::MAX));
                    let target_offset = target_rank - prev_accumulated;
                    let ghost width = bucket_upper(i as int) - bucket_lower(i as int);
                    proof {
                        lemma_bucket_bounds(i as int);
                        lemma_scaled_offset_bounds(width, target_offset as int, count as int);
                    }
                    let interpolated = if target_offset == 0 {
                        lower
                    } else {
                        let range_width = if i == 63 {
                            u64::MAX - lower
                        } else {
                            upper - lower
                        };
                        if let Some(prod) = range_width.checked_mul(target_offset) {
                            lower + prod / count
                        } else {
                            assert(range_width * target_offset <= u64::MAX * u64::MAX) by (nonlinear_arith)
                                requires
                                    range_width <= u64::MAX,
                                    target_offset <= u64::MAX,
                            ;
                            let val_u128 = lower as u128 + (range_width as u128 * target_offset as u128)
                                / count as u128;
                            assert(val_u128 <= u64::MAX);
                            val_u128 as u64
                        }
                    };
                    assert(interpolated == interpolation(i as int, rank - events_below(b, i as int), count as int));
                    let mut value = interpolated;
                    if let Some(min) = self.min_event_time {
                        if value < min {
                            value = min;
                        }
                    }
                    if let Some(max) = self.max_event_time {
                        if value > max {
                            value = max;
                        }
                    }
                    proof {
                        assert(exists|k: int| is_rank_bucket(b, rank, k));
                        let k = choose|k: int| is_rank_bucket(b, rank, k);
                        lemma_rank_bucket_unique(b, rank, i as int, k);
                    }
                    let r = Some(value);
                    return r;
                }
            }
        }
        let r = self.max_event_time;
        r
    }
}

/// The rank of a fraction no larger than one lies within the count.
pub proof fn lemma_rank_within_count(count: int, num: int, den: int)
    requires
        0 <= count,
        0 <= num <= den,
        0 < den,
    ensures
        0 <= rank_of(count, num, den) <= count,
{
    lemma_scaled_offset_bounds(count, num, den);
}

impl Histogram {
    /// Returns the approximated duration (in nanoseconds) at the 50th
    /// percentile (p50): `Some(value_in_ns)` if the histogram contains
    /// one or more events; otherwise, `None`.
    pub fn value_at_p50(&self) -> (value: Option<u64>)
        requires
            self@.wf(),
        ensures
            value == self@.value_at_fraction(1, 2),
    {
        proof {
            self.lemma_view_fields();
            lemma_rank_within_count(self.event_count as int, 1, 2);
        }
        let target_rank = (self.event_count as u128 * 1) / 2;
        let r = self.value_at_target_rank_impl(target_rank as u64);
        r
    }

    /// Returns the approximated duration (in nanoseconds) at the 75th
    /// percentile (p75): `Some(value_in_ns)` if the histogram contains
    /// one or more events; otherwise, `None`.
    pub fn value_at_p75(&self) -> (value: Option<u64>)
        requires
            self@.wf(),
        ensures
            value == self@.value_at_fraction(3, 4),
    {
        proof {
            self.lemma_view_fields();
            lemma_rank_within_count(self.event_count as int, 3, 4);
        }
        let target_rank = (self.event_count as u128 * 3) / 4;
        let r = self.value_at_target_rank_impl(target_rank as u64);
        r
    }

    /// Returns the approximated duration (in nanoseconds) at the 90th
    /// percentile (p90): `Some(value_in_ns)` if the histogram contains
    /// one or more events; otherwise, `None`.
    pub fn value_at_p90(&self) -> (value: Option<u64>)
        requires
            self@.wf(),
        ensures
            value == self@.value_at_fraction(90, 100),
    {
        proof {
            self.lemma_view_fields();
            lemma_rank_within_count(self.event_count as int, 90, 100);
        }
        let target_rank = (self.event_count as u128 * 90) / 100;
        let r = self.value_at_target_rank_impl(target_rank as u64);
        r
    }

    /// Returns the approximated duration (in nanoseconds) at the 95th
    /// percentile (p95): `Some(value_in_ns)` if the histogram contains
    /// one or more events; otherwise, `None`.
    pub fn value_at_p95(&self) -> (value: Option<u64>)
        requires
            self@.wf(),
        ensures
            value == self@.value_at_fraction(95, 100),
    {
        proof {
            self.lemma_view_fields();
            lemma_rank_within_count(self.event_count as int, 95, 100);
        }
        let target_rank = (self.event_count as u128 * 95) / 100;
        let r = self.value_at_target_rank_impl(target_rank as u64);
        r
    }

    /// Returns the approximated duration (in nanoseconds) at the 99th
    /// percentile (p99): `Some(value_in_ns)` if the histogram contains
    /// one or more events; otherwise, `None`.
    pub fn value_at_p99(&self) -> (value: Option<u64>)
        requires
            self@.wf(),
        ensures
            value == self@.value_at_fraction(99, 100),
    {
        proof {
            self.lemma_view_fields();
            lemma_rank_within_count(self.event_count as int, 99, 100);
        }
        let target_rank = (self.event_count as u128 * 99) / 100;
        let r = self.value_at_target_rank_impl(target_rank as u64);
        r
    }

    /// Returns the approximated duration (in nanoseconds) at the 99.5th
    /// percentile (p99.5): `Some(value_in_ns)` if the histogram contains
    /// one or more events; otherwise, `None`.
    pub fn value_at_p99_5(&self) -> (value: Option<u64>)
        requires
            self@.wf(),
        ensures
            value == self@.value_at_fraction(995, 1000),
    {
        proof {
            self.lemma_view_fields();
            lemma_rank_within_count(self.event_count as int, 995, 1000);
        }
        let target_rank = (self.event_count as u128 * 995) / 1_000;
        let r = self.value_at_target_rank_impl(target_rank as u64);
        r
    }

    /// Returns the approximated duration (in nanoseconds) at the 99.9th
    /// percentile (p99.9): `Some(value_in_ns)` if the histogram contains
    /// one or more events; otherwise, `None`.
    pub fn value_at_p99_9(&self) -> (value: Option<u64>)
        requires
            self@.wf(),
        ensures
            value == self@.value_at_fraction(999, 1000),
    {
        proof {
            self.lemma_view_fields();
            lemma_rank_within_count(self.event_count as int, 999, 1000);
        }
        let target_rank = (self.event_count as u128 * 999) / 1_000;
        let r = self.value_at_target_rank_impl(target_rank as u64);
        r
    }

    /// Returns the approximated duration (in nanoseconds) at the 99.99th
    /// percentile (p99.99): `Some(value_in_ns)` if the histogram contains
    /// one or more events; otherwise, `None`.
    pub fn value_at_p99_99(&self) -> (value: Option<u64>)
        requires
            self@.wf(),
        ensures
            value == self@.value_at_fraction(9999, 10000),
    {
        proof {
            self.lemma_view_fields();
            lemma_rank_within_count(self.event_count as int, 9999, 10000);
        }
        let target_rank = (self.event_count as u128 * 9_999) / 10_000;
        let r = self.value_at_target_rank_impl(target_rank as u64);
        r
    }

    /// Returns the approximated duration (in nanoseconds) at the 99.999th
    /// percentile (p99.999): `Some(value_in_ns)` if the histogram contains
    /// one or more events; otherwise, `None`.
    pub fn value_at_p99_999(&self) -> (value: Option<u64>)
        requires
            self@.wf(),
        ensures
            value == self@.value_at_fraction(99999, 100000),
    {
        proof {
            self.lemma_view_fields();
            lemma_rank_within_count(self.event_count as int, 99999, 100000);
        }
        let target_rank = (self.event_count as u128 * 99_999) / 100_000;
        let r = self.value_at_target_rank_impl(target_rank as u64);
        r
    }

    /// Returns the approximated duration (in nanoseconds) at the 99.9999th
    /// percentile (p99.9999): `Some(value_in_ns)` if the histogram contains
    /// one or more events; otherwise, `None`.
    pub fn value_at_p99_999_9(&self) -> (value: Option<u64>)
        requires
            self@.wf(),
        ensures
            value == self@.value_at_fraction(999999, 1000000),
    {
        proof {
            self.lemma_view_fields();
            lemma_rank_within_count(self.event_count as int, 999999, 1000000);
        }
        let target_rank = (self.event_count as u128 * 999_999) / 1_000_000;
        let r = self.value_at_target_rank_impl(target_rank as u64);
        r
    }
}

/// Within the first bucket reaching a non-negative rank, the offset of the
/// rank lies between none and all of the bucket's events, and the
/// interpolated value lies within the bucket.
pub proof fn lemma_rank_bucket_offset(buckets: Seq<u64>, rank: int, i: int)
    requires
        buckets.len() == 64,
        0 <= rank,
        is_rank_bucket(buckets, rank, i),
    ensures
        0 <= rank - events_below(buckets, i) <= buckets[i],
        bucket_lower(i) <= interpolation(i, rank - events_below(buckets, i), buckets[i] as int)
            <= bucket_upper(i),
{
    lemma_below_rank_bucket(buckets, rank, i, i);
    lemma_bucket_bounds(i);
    lemma_scaled_offset_bounds(
        bucket_upper(i) - bucket_lower(i),
        rank - events_below(buckets, i),
        buckets[i] as int,
    );
}

/// Law: a percentile query on a histogram with events gives a value
/// between the smallest and the largest event time recorded, and on an
/// empty histogram gives `None`.
pub proof fn law_value_at_rank_within_extremes(h: HistogramView, rank: int)
    requires
        h.wf(),
    ensures
        h.value_at_rank(rank) is None <==> h.event_count == 0,
        h.event_count > 0 ==> h.min_event_time->0 <= h.value_at_rank(rank)->0
            <= h.max_event_time->0,
{
}

/// Law: percentile queries are monotone in the rank: a larger rank never
/// gives a smaller value.
pub proof fn law_value_at_rank_monotone(h: HistogramView, rank1: int, rank2: int)
    requires
        h.wf(),
        0 <= rank1 <= rank2,
        h.event_count > 0,
    ensures
        h.value_at_rank(rank1)->0 <= h.value_at_rank(rank2)->0,
{
    let b = h.buckets;
    law_value_at_rank_within_extremes(h, rank1);
    if exists|i: int| is_rank_bucket(b, rank2, i) {
        let i2 = choose|i: int| is_rank_bucket(b, rank2, i);
        assert(reaches_rank(b, rank1, i2));
        assert(exists|i: int| is_rank_bucket(b, rank1, i)) by {
            lemma_first_reaching(b, rank1, i2);
        }
        let i1 = choose|i: int| is_rank_bucket(b, rank1, i);
        assert(i1 <= i2);
        lemma_rank_bucket_offset(b, rank1, i1);
        lemma_rank_bucket_offset(b, rank2, i2);
        let v1 = interpolation(i1, rank1 - events_below(b, i1), b[i1] as int);
        let v2 = interpolation(i2, rank2 - events_below(b, i2), b[i2] as int);
        if i1 < i2 {
            lemma_bucket_order(i1, i2);
        } else {
            let w = bucket_upper(i1) - bucket_lower(i1);
            lemma_bucket_bounds(i1);
            vstd::arithmetic::mul::lemma_mul_inequality(
                rank1 - events_below(b, i1),
                rank2 - events_below(b, i1),
                w,
            );
            vstd::arithmetic::mul::lemma_mul_is_commutative(w, rank1 - events_below(b, i1));
            vstd::arithmetic::mul::lemma_mul_is_commutative(w, rank2 - events_below(b, i1));
            vstd::arithmetic::div_mod::lemma_div_is_ordered(
                w * (rank1 - events_below(b, i1)),
                w * (rank2 - events_below(b, i1)),
                b[i1] as int,
            );
        }
        assert(v1 <= v2);
    }
}

/// When some bucket reaches a rank, a first such bucket exists.
pub proof fn lemma_first_reaching(buckets: Seq<u64>, rank: int, i: int)
    requires
        reaches_rank(buckets, rank, i),
    ensures
        exists|k: int| is_rank_bucket(buckets, rank, k),
    decreases i,
{
    if exists|j: int| 0 <= j < i && reaches_rank(buckets, rank, j) {
        let j = choose|j: int| 0 <= j < i && reaches_rank(buckets, rank, j);
        lemma_first_reaching(buckets, rank, j);
    } else {
        assert(is_rank_bucket(buckets, rank, i));
    }
}

/// Ranks of larger fractions are no smaller.
pub proof fn lemma_rank_ordered(count: int, num1: int, den1: int, num2: int, den2: int)
    requires
        0 <= count,
        0 <= num1,
        0 < den1,
        0 < den2,
        num1 * den2 <= num2 * den1,
    ensures
        rank_of(count, num1, den1) <= rank_of(count, num2, den2),
{
    let q = count * num1 / den1;
    vstd::arithmetic::div_mod::lemma_fundamental_div_mod(count * num1, den1);
    vstd::arithmetic::div_mod::lemma_mod_bound(count * num1, den1);
    assert(q * den1 <= count * num1);
    assert(q * den2 <= count * num2) by (nonlinear_arith)
        requires
            q * den1 <= count * num1,
            num1 * den2 <= num2 * den1,
            0 <= count,
            0 < den1,
            0 < den2,
    ;
    vstd::arithmetic::div_mod::lemma_div_is_ordered(q * den2, count * num2, den2);
    vstd::arithmetic::div_mod::lemma_div_multiples_vanish(q, den2);
    vstd::arithmetic::mul::lemma_mul_is_commutative(q, den2);
}

/// A query at a larger fraction gives no smaller value.
pub proof fn lemma_fractions_ordered(h: HistogramView, num1: int, den1: int, num2: int, den2: int)
    requires
        h.wf(),
        h.event_count > 0,
        0 <= num1,
        0 < den1,
        0 < den2,
        num1 * den2 <= num2 * den1,
    ensures
        h.value_at_fraction(num1, den1)->0 <= h.value_at_fraction(num2, den2)->0,
{
    let c = h.event_count as int;
    lemma_rank_ordered(c, num1, den1, num2, den2);
    assert(0 <= c * num1) by (nonlinear_arith)
        requires
            0 <= c,
            0 <= num1,
    ;
    vstd::arithmetic::div_mod::lemma_div_pos_is_pos(c * num1, den1);
    law_value_at_rank_monotone(h, rank_of(c, num1, den1), rank_of(c, num2, den2));
}

/// Law: the fixed percentile queries are ordered:
/// p50 <= p75 <= p90 <= p95 <= p99 <= p99.5 <= p99.9 <= p99.99 <= p99.999
/// <= p99.9999.
pub proof fn law_percentiles_ordered(h: HistogramView)
    requires
        h.wf(),
        h.event_count > 0,
    ensures
        h.value_at_fraction(1, 2)->0 <= h.value_at_fraction(3, 4)->0,
        h.value_at_fraction(3, 4)->0 <= h.value_at_fraction(90, 100)->0,
        h.value_at_fraction(90, 100)->0 <= h.value_at_fraction(95, 100)->0,
        h.value_at_fraction(95, 100)->0 <= h.value_at_fraction(99, 100)->0,
        h.value_at_fraction(99, 100)->0 <= h.value_at_fraction(995, 1000)->0,
        h.value_at_fraction(995, 1000)->0 <= h.value_at_fraction(999, 1000)->0,
        h.value_at_fraction(999, 1000)->0 <= h.value_at_fraction(9999, 10000)->0,
        h.value_at_fraction(9999, 10000)->0 <= h.value_at_fraction(99999, 100000)->0,
        h.value_at_fraction(99999, 100000)->0 <= h.value_at_fraction(999999, 1000000)->0,
{
    lemma_fractions_ordered(h, 1, 2, 3, 4);
    lemma_fractions_ordered(h, 3, 4, 90, 100);
    lemma_fractions_ordered(h, 90, 100, 95, 100);
    lemma_fractions_ordered(h, 95, 100, 99, 100);
    lemma_fractions_ordered(h, 99, 100, 995, 1000);
    lemma_fractions_ordered(h, 995, 1000, 999, 1000);
    lemma_fractions_ordered(h, 999, 1000, 9999, 10000);
    lemma_fractions_ordered(h, 9999, 10000, 99999, 100000);
    lemma_fractions_ordered(h, 99999, 100000, 999999, 1000000);
}

} // verus!
