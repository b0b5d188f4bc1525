//! What a histogram holds after a series of pushes: the laws that tie the
//! counters to the events pushed.
use vstd::prelude::*;
use crate::buckets::bucket_of;
use crate::histogram::{HistogramView, duration_nanos, lemma_events_below_update};
use std::time::Duration;

verus! {

/// The state after pushing each time of `times` (in nanoseconds) in turn
/// onto `h`.
pub open spec fn pushed_all(h: HistogramView, times: Seq<u64>) -> HistogramView
    decreases times.len(),
{
    if times.len() == 0 {
        h
    } else {
        pushed_all(h, times.drop_last()).after_push_ns(times.last())
    }
}

/// The sum of `times`.
pub open spec fn total_of(times: Seq<u64>) -> int
    decreases times.len(),
{
    if times.len() == 0 {
        0
    } else {
        total_of(times.drop_last()) + times.last()
    }
}

/// The number of `times` that fall into bucket `k`.
pub open spec fn count_in_bucket(times: Seq<u64>, k: int) -> int
    decreases times.len(),
{
    if times.len() == 0 {
        0
    } else {
        count_in_bucket(times.drop_last(), k) + if bucket_of(times.last() as nat) == k {
            1int
        } else {
            0int
        }
    }
}

/// Law: once a histogram has overflowed, every push is refused and leaves
/// it unchanged.
pub proof fn law_overflow_is_sticky(h: HistogramView, t: u64, unit: nat)
    requires
        h.has_overflowed,
    ensures
        !h.accepts(t),
        h.after_push_ns(t) == h,
        !h.accepts_scaled(t, unit),
        h.after_push_scaled(t, unit) == h,
{
    assert(h.overflowed() == h);
}

/// Law: every push keeps a well-formed histogram well-formed.
pub proof fn law_push_keeps_wf(h: HistogramView, t: u64)
    requires
        h.wf(),
        h.can_push(t),
    ensures
        h.after_push_ns(t).wf(),
{
    if h.accepts(t) {
        let b = bucket_of(t as nat) as int;
        crate::buckets::lemma_bucket_of_covers(t as nat);
        crate::buckets::law_buckets_partition_times(t, 0);
        lemma_events_below_update(h.buckets, b, (h.buckets[b] + 1) as u64, 64);
        crate::histogram::lemma_events_below_monotone(h.buckets, b, 64);
        crate::histogram::lemma_events_below_monotone(h.buckets, 0, b);
    }
}

/// Law: pushing a series of times whose sum fits in `u64` onto an empty
/// histogram records every one of them: the count is the number of times,
/// the total their sum, the minimum and maximum the smallest and largest of
/// them, and each bucket holds the number of times that fall into it.
pub proof fn law_pushes_are_recorded(times: Seq<u64>)
    requires
        total_of(times) <= u64::MAX,
        times.len() <= usize::MAX,
    ensures
        ({
            let h = pushed_all(HistogramView::empty(), times);
            &&& h.wf()
            &&& !h.has_overflowed
            &&& h.event_count == times.len()
            &&& h.event_time_total == total_of(times)
            &&& forall|k: int| 0 <= k < 64 ==> h.buckets[k] == count_in_bucket(times, k)
            &&& times.len() > 0 ==> (forall|i: int| 0 <= i < times.len() ==> h.min_event_time->0 <= times[i])
            &&& times.len() > 0 ==> (exists|i: int| 0 <= i < times.len() && h.min_event_time->0 == times[i])
            &&& times.len() > 0 ==> (forall|i: int| 0 <= i < times.len() ==> times[i] <= h.max_event_time->0)
            &&& times.len() > 0 ==> (exists|i: int| 0 <= i < times.len() && h.max_event_time->0 == times[i])
        }),
    decreases times.len(),
{
    let h = pushed_all(HistogramView::empty(), times);
    if times.len() == 0 {
        crate::histogram::lemma_events_below_zero(HistogramView::empty().buckets, 64);
    } else {
        let prefix = times.drop_last();
        let t = times.last();
        let n = times.len() - 1;
        law_pushes_are_recorded(prefix);
        let p = pushed_all(HistogramView::empty(), prefix);
        assert(p.accepts(t));
        law_push_keeps_wf(p, t);
        crate::buckets::law_buckets_partition_times(t, 0);
        assert forall|k: int| 0 <= k < 64 implies h.buckets[k] == count_in_bucket(times, k) by {
            assert(p.buckets[k] == count_in_bucket(prefix, k));
            assert(h == p.recorded(t));
            assert(p.buckets.len() == 64);
            if k == bucket_of(t as nat) {
                crate::histogram::lemma_events_below_monotone(p.buckets, k, 64);
                crate::histogram::lemma_events_below_monotone(p.buckets, 0, k);
                assert(h.buckets[k] == p.buckets[k] + 1);
            } else {
                assert(h.buckets[k] == p.buckets[k]);
            }
        }
        assert forall|i: int| 0 <= i < times.len() implies h.min_event_time->0 <= times[i] by {
            if i < n {
                assert(times[i] == prefix[i]);
            }
        }
        assert forall|i: int| 0 <= i < times.len() implies times[i] <= h.max_event_time->0 by {
            if i < n {
                assert(times[i] == prefix[i]);
            }
        }
        if n > 0 {
            let i = choose|i: int| 0 <= i < prefix.len() && p.min_event_time->0 == prefix[i];
            let j = choose|j: int| 0 <= j < prefix.len() && p.max_event_time->0 == prefix[j];
            assert(times[i] == prefix[i]);
            assert(times[j] == prefix[j]);
            assert(times[n] == t);
        } else {
            assert(times[0] == t);
        }
    }
}

/// Law: pushing a `Duration` records its whole nanoseconds, as
/// `Duration::as_nanos` gives them, reduced modulo 2^64. When the push is
/// accepted the count grows by one, the total by exactly those nanoseconds,
/// the bucket of that time by one, and the time lies between the new
/// minimum and maximum; when refused, only the overflow flag is set.
pub proof fn law_duration_push_records_its_nanoseconds(h: HistogramView, d: Duration)
    requires
        h.wf(),
        h.can_push(duration_nanos(d) as u64),
    ensures
        ({
            let t = duration_nanos(d) as u64;
            let g = h.after_push_ns(t);
            &&& t == duration_nanos(d) % 0x1_0000_0000_0000_0000
            &&& h.accepts(t) ==> g.event_count == h.event_count + 1
            &&& h.accepts(t) ==> g.event_time_total == h.event_time_total + t
            &&& h.accepts(t) ==> g.buckets[bucket_of(t as nat) as int] == h.buckets[bucket_of(
                t as nat,
            ) as int] + 1
            &&& h.accepts(t) ==> g.min_event_time->0 <= t <= g.max_event_time->0
            &&& !h.accepts(t) ==> g == h.overflowed()
            &&& g.wf()
        }),
{
    let n = duration_nanos(d);
    assert((n as u64) as int == n % 0x1_0000_0000_0000_0000) by (bit_vector);
    let t = n as u64;
    law_push_keeps_wf(h, t);
    crate::buckets::law_buckets_partition_times(t, 0);
    if h.accepts(t) {
        let b = bucket_of(t as nat) as int;
        crate::histogram::lemma_events_below_monotone(h.buckets, b, 64);
        crate::histogram::lemma_events_below_monotone(h.buckets, 0, b);
    }
}

} // verus!
