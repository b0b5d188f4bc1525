//! The `Histogram` type, its abstract view and its recording operations.
use vstd::prelude::*;
use std::time::Duration;
use crate::buckets::{bucket_of, bucket_lower, bucket_upper, lemma_bucket_of_covers};

verus! {

/// Low-cost performance percentile histogram using 64 buckets.
///
/// Event durations are tracked with nanosecond precision across 64
/// logarithmic power-of-two buckets.
#[derive(Clone)]
pub struct Histogram {
    pub(crate) event_count: usize,
    pub(crate) event_time_total: u64,
    pub(crate) has_overflowed: bool,
    pub(crate) min_event_time: Option<u64>,
    pub(crate) max_event_time: Option<u64>,
    pub(crate) buckets: [u64; 64],
}

/// The abstract state of a `Histogram`: the same counters, with the
/// buckets as a sequence.
pub struct HistogramView {
    pub event_count: usize,
    pub event_time_total: u64,
    pub has_overflowed: bool,
    pub min_event_time: Option<u64>,
    pub max_event_time: Option<u64>,
    pub buckets: Seq<u64>,
}

/// The number of events in the buckets with an index below `n`.
pub open spec fn events_below(buckets: Seq<u64>, n: int) -> int
    decreases n,
{
    if n <= 0 {
        0
    } else {
        events_below(buckets, n - 1) + buckets[n - 1]
    }
}

/// The smaller of a recorded minimum (if any) and a new time.
pub open spec fn lowered(current: Option<u64>, t: u64) -> Option<u64> {
    match current {
        Some(m) => if t < m { Some(t) } else { Some(m) },
        None => Some(t),
    }
}

/// The larger of a recorded maximum (if any) and a new time.
pub open spec fn raised(current: Option<u64>, t: u64) -> Option<u64> {
    match current {
        Some(m) => if t > m { Some(t) } else { Some(m) },
        None => Some(t),
    }
}

impl HistogramView {
    /// A histogram with no events.
    pub open spec fn empty() -> HistogramView {
        HistogramView {
            event_count: 0,
            event_time_total: 0,
            has_overflowed: false,
            min_event_time: None,
            max_event_time: None,
            buckets: Seq::new(64, |i: int| 0u64),
        }
    }

    /// The counters agree with each other: the buckets hold `event_count`
    /// events, and the minimum and maximum are known exactly when there is
    /// an event, the minimum being no larger than the maximum.
    pub open spec fn wf(self) -> bool {
        &&& self.buckets.len() == 64
        &&& events_below(self.buckets, 64) == self.event_count
        &&& (self.event_count == 0 <==> self.min_event_time is None)
        &&& (self.event_count == 0 <==> self.max_event_time is None)
        &&& (self.min_event_time is Some && self.max_event_time is Some)
            ==> self.min_event_time->0 <= self.max_event_time->0
    }

    /// The total as reported: `None` once an overflow has occurred.
    pub open spec fn reported_total(self) -> Option<u64> {
        if self.has_overflowed {
            None
        } else {
            Some(self.event_time_total)
        }
    }

    /// Whether an event of `t` nanoseconds is recorded: no overflow has
    /// happened and the total stays within `u64`.
    pub open spec fn accepts(self, t: u64) -> bool {
        !self.has_overflowed && self.event_time_total + t <= u64::MAX
    }

    /// The state after recording an event of `t` nanoseconds.
    pub open spec fn recorded(self, t: u64) -> HistogramView {
        let b = bucket_of(t as nat) as int;
        HistogramView {
            event_count: (self.event_count + 1) as usize,
            event_time_total: (self.event_time_total + t) as u64,
            has_overflowed: self.has_overflowed,
            min_event_time: lowered(self.min_event_time, t),
            max_event_time: raised(self.max_event_time, t),
            buckets: self.buckets.update(b, (self.buckets[b] + 1) as u64),
        }
    }

    /// The state with `t` added to the total and taken into the minimum and
    /// maximum, the event count and the buckets unchanged.
    pub open spec fn with_time_added(self, t: u64) -> HistogramView {
        HistogramView {
            event_time_total: (self.event_time_total + t) as u64,
            min_event_time: lowered(self.min_event_time, t),
            max_event_time: raised(self.max_event_time, t),
            ..self
        }
    }

    /// The state with the overflow flag set and nothing else changed.
    pub open spec fn overflowed(self) -> HistogramView {
        HistogramView { has_overflowed: true, ..self }
    }

    /// The state after pushing an event of `t` nanoseconds: recorded when
    /// accepted, otherwise only the overflow flag is set.
    pub open spec fn after_push_ns(self, t: u64) -> HistogramView {
        if self.accepts(t) {
            self.recorded(t)
        } else {
            self.overflowed()
        }
    }

    /// Whether an event of `t` units of `unit` nanoseconds is recorded.
    pub open spec fn accepts_scaled(self, t: u64, unit: nat) -> bool {
        t * unit <= u64::MAX && self.accepts((t * unit) as u64)
    }

    /// The state after pushing an event of `t` units of `unit` nanoseconds:
    /// a conversion that overflows `u64` sets the overflow flag.
    pub open spec fn after_push_scaled(self, t: u64, unit: nat) -> HistogramView {
        if t * unit <= u64::MAX {
            self.after_push_ns((t * unit) as u64)
        } else {
            self.overflowed()
        }
    }

    /// Whether a push of `t` nanoseconds can be made without the event
    /// counter passing `usize::MAX`.
    pub open spec fn can_push(self, t: u64) -> bool {
        self.accepts(t) ==> self.event_count < usize::MAX
    }

    /// Whether a push of `t` units of `unit` nanoseconds can be made
    /// without the event counter passing `usize::MAX`.
    pub open spec fn can_push_scaled(self, t: u64, unit: nat) -> bool {
        self.accepts_scaled(t, unit) ==> self.event_count < usize::MAX
    }
}

/// The number of nanoseconds that a `Duration` holds.
pub uninterp spec fn duration_nanos(duration: Duration) -> u128;

/// `Duration::as_nanos` returns the total number of whole nanoseconds of
/// the duration (its seconds times 10^9 plus its sub-second nanoseconds);
/// the contract names that result, a function of the duration alone.
pub assume_specification[Duration::as_nanos](duration: &Duration) -> (nanos: u128)
    ensures
        nanos == duration_nanos(*duration),
;

/// The total number of whole nanoseconds of `duration`.
fn duration_as_nanos(duration: &Duration) -> (nanos: u128)
    ensures
        nanos == duration_nanos(*duration),
{
    duration.as_nanos()
}

/// Updating one bucket changes the count below `n` by the difference.
pub proof fn lemma_events_below_update(buckets: Seq<u64>, k: int, v: u64, n: int)
    requires
        0 <= k < buckets.len(),
        n <= buckets.len(),
    ensures
        events_below(buckets.update(k, v), n) == events_below(buckets, n) + if k < n {
            v - buckets[k]
        } else {
            0
        },
    decreases n,
{
    if n > 0 {
        lemma_events_below_update(buckets, k, v, n - 1);
    }
}

/// Counts below a bound grow with the bound, and every bucket below the
/// bound holds at most that many events.
pub proof fn lemma_events_below_monotone(buckets: Seq<u64>, i: int, n: int)
    requires
        0 <= i <= n <= buckets.len(),
    ensures
        events_below(buckets, i) <= events_below(buckets, n),
        i < n ==> buckets[i] <= events_below(buckets, n) - events_below(buckets, i),
    decreases n - i,
{
    if i < n {
        lemma_events_below_monotone(buckets, i + 1, n);
    }
}

/// A histogram with no events has no events in any range of buckets.
pub proof fn lemma_events_below_zero(buckets: Seq<u64>, n: int)
    requires
        n <= buckets.len(),
        forall|i: int| 0 <= i < buckets.len() ==> buckets[i] == 0,
    ensures
        events_below(buckets, n) == 0,
    decreases n,
{
    if n > 0 {
        lemma_events_below_zero(buckets, n - 1);
    }
}

impl View for Histogram {
    type V = HistogramView;

    open spec fn view(&self) -> HistogramView {
        self.abstraction()
    }
}

impl Histogram {
    /// The abstract state of this histogram.
    pub closed spec fn abstraction(&self) -> HistogramView {
        HistogramView {
            event_count: self.event_count,
            event_time_total: self.event_time_total,
            has_overflowed: self.has_overflowed,
            min_event_time: self.min_event_time,
            max_event_time: self.max_event_time,
            buckets: self.buckets@,
        }
    }
}

impl Histogram {
    /// The abstract state holds the fields as they are.
    pub(crate) proof fn lemma_view_fields(&self)
        ensures
            self@.event_count == self.event_count,
            self@.event_time_total == self.event_time_total,
            self@.has_overflowed == self.has_overflowed,
            self@.min_event_time == self.min_event_time,
            self@.max_event_time == self.max_event_time,
            self@.buckets == self.buckets@,
    {
    }
}

impl Default for Histogram {
    /// A histogram with no events.
    fn default() -> (histogram: Self)
        ensures
            histogram@ == HistogramView::empty(),
            histogram@.wf(),
    {
        let histogram = Histogram {
            event_count: 0,
            event_time_total: 0,
            has_overflowed: false,
            min_event_time: None,
            max_event_time: None,
            buckets: [0u64; 64],
        };
        proof {
            assert(histogram@.buckets =~= HistogramView::empty().buckets);
            lemma_events_below_zero(histogram@.buckets, 64);
        }
        histogram
    }
}

impl Histogram {
    /// Clears the instance, resetting all values to the equivalent of a
    /// newly constructed instance.
    pub fn clear(&mut self)
        ensures
            final(self)@ == HistogramView::empty(),
            final(self)@.wf(),
    {
        *self = Histogram::default();
    }

    /// Pushes an event with the given `Duration`; the value obtained from
    /// `Duration::as_nanos` is truncated to `u64`.
    pub fn push_event_duration(&mut self, duration: Duration) -> (accepted: bool)
        requires
            old(self)@.wf(),
            old(self)@.can_push(duration_nanos(duration) as u64),
        ensures
            accepted == old(self)@.accepts(duration_nanos(duration) as u64),
            final(self)@ == old(self)@.after_push_ns(duration_nanos(duration) as u64),
            final(self)@.wf(),
    {
        let nanos = duration_as_nanos(&duration);
        self.push_event_time_ns(nanos as u64)
    }

    /// Pushes an event with the given number of nanoseconds. Returns `true`
    /// when the event is recorded; when the histogram has overflowed, or
    /// the event would overflow the total, nothing is recorded, the
    /// overflow flag is set and `false` is returned.
    pub fn push_event_time_ns(&mut self, time_in_ns: u64) -> (accepted: bool)
        requires
            old(self)@.wf(),
            old(self)@.can_push(time_in_ns),
        ensures
            accepted == old(self)@.accepts(time_in_ns),
            final(self)@ == old(self)@.after_push_ns(time_in_ns),
            final(self)@.wf(),
    {
        let ghost pre = self@;
        if self.try_add_ns_to_total_and_update_minmax_and_count_(time_in_ns) {
            self.event_count += 1;
            let bucket = Self::bucket_index(time_in_ns);
            proof {
                lemma_events_below_monotone(pre.buckets, bucket as int, 64);
                lemma_events_below_monotone(pre.buckets, 0, bucket as int);
                lemma_events_below_update(pre.buckets, bucket as int, (pre.buckets[bucket as int] + 1) as u64, 64);
            }
            self.buckets[bucket] = self.buckets[bucket] + 1;
            proof {
                assert(self@.buckets =~= pre.recorded(time_in_ns).buckets);
            }
            true
        } else {
            false
        }
    }

    /// Pushes an event with the given number of microseconds.
    pub fn push_event_time_us(&mut self, time_in_us: u64) -> (accepted: bool)
        requires
            old(self)@.wf(),
            old(self)@.can_push_scaled(time_in_us, 1_000),
        ensures
            accepted == old(self)@.accepts_scaled(time_in_us, 1_000),
            final(self)@ == old(self)@.after_push_scaled(time_in_us, 1_000),
            final(self)@.wf(),
    {
        if let Some(time_in_ns) = time_in_us.checked_mul(1_000) {
            self.push_event_time_ns(time_in_ns)
        } else {
            self.has_overflowed = true;
            false
        }
    }

    /// Pushes an event with the given number of milliseconds.
    pub fn push_event_time_ms(&mut self, time_in_ms: u64) -> (accepted: bool)
        requires
            old(self)@.wf(),
            old(self)@.can_push_scaled(time_in_ms, 1_000_000),
        ensures
            accepted == old(self)@.accepts_scaled(time_in_ms, 1_000_000),
            final(self)@ == old(self)@.after_push_scaled(time_in_ms, 1_000_000),
            final(self)@.wf(),
    {
        if let Some(time_in_ns) = time_in_ms.checked_mul(1_000_000) {
            self.push_event_time_ns(time_in_ns)
        } else {
            self.has_overflowed = true;
            false
        }
    }

    /// Pushes an event with the given number of seconds.
    pub fn push_event_time_s(&mut self, time_in_s: u64) -> (accepted: bool)
        requires
            old(self)@.wf(),
            old(self)@.can_push_scaled(time_in_s, 1_000_000_000),
        ensures
            accepted == old(self)@.accepts_scaled(time_in_s, 1_000_000_000),
            final(self)@ == old(self)@.after_push_scaled(time_in_s, 1_000_000_000),
            final(self)@.wf(),
    {
        if let Some(time_in_ns) = time_in_s.checked_mul(1_000_000_000) {
            self.push_event_time_ns(time_in_ns)
        } else {
            self.has_overflowed = true;
            false
        }
    }

    /// Adds an event time to the total and the minimum and maximum, unless
    /// the histogram has overflowed or the total would overflow; in the
    /// latter case the overflow flag is set. The event count and the
    /// buckets are left to the caller.
    fn try_add_ns_to_total_and_update_minmax_and_count_(&mut self, time_in_ns: u64) -> (added: bool)
        ensures
            added == old(self)@.accepts(time_in_ns),
            added ==> final(self)@ == old(self)@.with_time_added(time_in_ns),
            !added ==> final(self)@ == old(self)@.overflowed(),
    {
        if self.has_overflowed {
            return false;
        }
        match self.event_time_total.checked_add(time_in_ns) {
            Some(new_total) => {
                self.event_time_total = new_total;
                match self.min_event_time {
                    Some(min_event_time) => {
                        if time_in_ns < min_event_time {
                            self.min_event_time = Some(time_in_ns);
                        }
                    },
                    None => {
                        self.min_event_time = Some(time_in_ns);
                    },
                }
                match self.max_event_time {
                    Some(max_event_time) => {
                        if time_in_ns > max_event_time {
                            self.max_event_time = Some(time_in_ns);
                        }
                    },
                    None => {
                        self.max_event_time = Some(time_in_ns);
                    },
                }
                true
            },
            None => {
                self.has_overflowed = true;
                false
            },
        }
    }
}

impl Histogram {
    /// Returns the count of events in a specific bucket, or `None` for an
    /// index of 64 or more.
    pub fn bucket_value(&self, index: usize) -> (count: Option<u64>)
        ensures
            index < 64 ==> count == Some(self@.buckets[index as int]),
            index >= 64 ==> count is None,
    {
        if index < 64 {
            Some(self.buckets[index])
        } else {
            None
        }
    }

    /// Returns a reference to all 64 buckets.
    pub fn buckets(&self) -> (buckets: &[u64; 64])
        ensures
            buckets@ == self@.buckets,
    {
        &self.buckets
    }

    /// Number of events counted.
    pub fn event_count(&self) -> (count: usize)
        ensures
            count == self@.event_count,
    {
        self.event_count
    }

    /// Returns the total event time in nanoseconds, if no overflow occurred.
    pub fn event_time_total(&self) -> (total: Option<u64>)
        ensures
            total == self@.reported_total(),
    {
        if self.has_overflowed {
            None
        } else {
            Some(self.event_time_total)
        }
    }

    /// Returns the total event time in nanoseconds, regardless of whether
    /// overflow has occurred.
    pub fn event_time_total_raw(&self) -> (total: u64)
        ensures
            total == self@.event_time_total,
    {
        self.event_time_total
    }

    /// Indicates whether overflow has occurred.
    pub fn has_overflowed(&self) -> (overflowed: bool)
        ensures
            overflowed == self@.has_overflowed,
    {
        self.has_overflowed
    }

    /// Returns the minimum event time observed, if any.
    pub fn min_event_time(&self) -> (min: Option<u64>)
        ensures
            min == self@.min_event_time,
    {
        self.min_event_time
    }

    /// Returns the maximum event time observed, if any.
    pub fn max_event_time(&self) -> (max: Option<u64>)
        ensures
            max == self@.max_event_time,
    {
        self.max_event_time
    }
}

} // verus!
