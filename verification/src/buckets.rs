//! Power-of-two bucket layout: which bucket an event time falls into, and
//! which times a bucket covers.
use vstd::prelude::*;
use vstd::arithmetic::power2::{pow2, lemma2_to64, lemma2_to64_rest, lemma_pow2_unfold, lemma_pow2_pos, lemma_pow2_strictly_increases};
use vstd::bits::{lemma_u64_shr_is_div, lemma_u64_shl_is_mul, lemma_u64_pow2_no_overflow};
use vstd::std_specs::bits::{u64_leading_zeros, axiom_u64_leading_zeros};
use crate::histogram::Histogram;

verus! {

/// The smallest time (in nanoseconds) that bucket `i` covers.
pub open spec fn bucket_lower(i: int) -> int {
    if i <= 0 {
        0
    } else {
        pow2(i as nat) as int
    }
}

/// The largest time (in nanoseconds) that bucket `i` covers.
pub open spec fn bucket_upper(i: int) -> int {
    pow2((i + 1) as nat) - 1
}

/// Each bucket's bounds lie within `u64`, and each bucket starts right
/// after the one before it ends.
pub proof fn lemma_bucket_bounds(i: int)
    requires
        0 <= i < 64,
    ensures
        0 <= bucket_lower(i) <= bucket_upper(i) <= u64::MAX,
        i > 0 ==> bucket_upper(i - 1) + 1 == bucket_lower(i),
        i == 63 ==> bucket_upper(i) == u64::MAX,
{
    lemma2_to64();
    lemma2_to64_rest();
    lemma_pow2_unfold((i + 1) as nat);
    lemma_pow2_pos(i as nat);
    if i < 63 {
        lemma_u64_pow2_no_overflow((i + 1) as nat);
    }
}

/// Later buckets start no earlier than earlier ones, and every bucket
/// ends before any later bucket starts.
pub proof fn lemma_bucket_order(i: int, j: int)
    requires
        0 <= i < j < 64,
    ensures
        bucket_lower(i) <= bucket_lower(j),
        bucket_upper(i) < bucket_lower(j),
{
    lemma_bucket_bounds(i + 1);
    lemma_bucket_bounds(j);
    if i + 1 < j {
        lemma_pow2_strictly_increases((i + 1) as nat, j as nat);
    }
    lemma_bucket_bounds(i);
}

/// The bucket of a time: the integer base-2 logarithm, with 0 and 1 both in
/// bucket 0.
pub open spec fn bucket_of(t: nat) -> nat
    decreases t,
{
    if t < 2 {
        0
    } else {
        1 + bucket_of(t / 2)
    }
}

/// The bucket that `t` falls into covers `t`.
pub proof fn lemma_bucket_of_covers(t: nat)
    ensures
        bucket_lower(bucket_of(t) as int) <= t <= bucket_upper(bucket_of(t) as int),
    decreases t,
{
    if t < 2 {
        lemma_pow2_unfold(1);
        lemma2_to64();
    } else {
        lemma_bucket_of_covers(t / 2);
        let k = bucket_of(t / 2);
        lemma_pow2_unfold(k + 1);
        lemma_pow2_unfold(k + 2);
        lemma_pow2_pos(k);
        if k == 0 {
            lemma2_to64();
        }
    }
}

/// A time within the bounds of bucket `i` has bucket `i`.
pub proof fn lemma_bucket_of_unique(t: nat, i: nat)
    requires
        bucket_lower(i as int) <= t <= bucket_upper(i as int),
    ensures
        bucket_of(t) == i,
    decreases i,
{
    lemma_pow2_unfold(i + 1);
    lemma_pow2_pos(i);
    if i == 0 {
        lemma2_to64();
    } else {
        lemma_pow2_unfold(i);
        if i == 1 {
            lemma2_to64();
        }
        lemma_bucket_of_unique(t / 2, (i - 1) as nat);
    }
}

/// Law: the 64 buckets partition the times of `u64`: every time falls
/// within the bounds of the bucket `bucket_of` gives, which is below 64, and
/// of no other bucket.
pub proof fn law_buckets_partition_times(t: u64, i: int)
    ensures
        bucket_of(t as nat) < 64,
        bucket_lower(bucket_of(t as nat) as int) <= t <= bucket_upper(bucket_of(t as nat) as int),
        0 <= i < 64 && bucket_lower(i) <= t <= bucket_upper(i) ==> i == bucket_of(t as nat),
{
    lemma_bucket_of_covers(t as nat);
    let k = bucket_of(t as nat);
    if k >= 64 {
        lemma2_to64_rest();
        if k > 64 {
            lemma_pow2_strictly_increases(64, k);
        }
    }
    if 0 <= i < 64 && bucket_lower(i) <= t <= bucket_upper(i) {
        lemma_bucket_of_unique(t as nat, i as nat);
    }
}

impl Histogram {
    /// Calculates the bucket index for a given elapsed time in nanoseconds:
    /// `0` and `1` map to bucket `0`, and any larger time `t` maps to the
    /// bucket `i` with `2^i <= t < 2^(i+1)`.
    pub fn bucket_index(time_in_ns: u64) -> (index: usize)
        ensures
            index < 64,
            index == bucket_of(time_in_ns as nat),
            bucket_lower(index as int) <= time_in_ns <= bucket_upper(index as int),
    {
        proof {
            lemma_bucket_of_covers(time_in_ns as nat);
        }
        if time_in_ns <= 1 {
            0
        } else {
            let lz = time_in_ns.leading_zeros();
            proof {
                axiom_u64_leading_zeros(time_in_ns);
                assert(lz < 63) by {
                    if lz >= 63 {
                        assert(lz == 63 || lz == 64);
                        assert(time_in_ns >> 1u64 == time_in_ns / 2) by (bit_vector);
                    }
                }
                let k: u64 = (63 - lz) as u64;
                assert((time_in_ns >> k) & 1u64 != 0u64);
                assert(time_in_ns >> k != 0) by (bit_vector)
                    requires
                        (time_in_ns >> k) & 1u64 != 0u64;
                lemma_u64_shr_is_div(time_in_ns, k);
                lemma_pow2_pos(k as nat);
                lemma_pow2_pos((k + 1) as nat);
                assert(time_in_ns as nat / pow2(k as nat) >= 1);
                assert(time_in_ns >= pow2(k as nat)) by {
                    vstd::arithmetic::div_mod::lemma_fundamental_div_mod(time_in_ns as int, pow2(k as nat) as int);
                    vstd::arithmetic::mul::lemma_mul_inequality(1, time_in_ns as int / pow2(k as nat) as int, pow2(k as nat) as int);
                }
                assert(time_in_ns < pow2((k + 1) as nat)) by {
                    if k < 63 {
                        assert(time_in_ns >> ((k + 1) as u64) == 0u64);
                        lemma_u64_shr_is_div(time_in_ns, (k + 1) as u64);
                        vstd::arithmetic::div_mod::lemma_fundamental_div_mod(time_in_ns as int, pow2((k + 1) as nat) as int);
                    } else {
                        lemma2_to64_rest();
                    }
                }
                lemma_bucket_of_unique(time_in_ns as nat, k as nat);
            }
            (64 - lz - 1) as usize
        }
    }

    /// Returns the inclusive range `(lower_bound, upper_bound)` of
    /// nanoseconds represented by the given bucket index: `[0, 1]` for
    /// index `0`, `[2^i, 2^(i+1) - 1]` for any index `i` from `1` to `63`,
    /// and `None` for any index of `64` or more.
    pub fn bucket_range(index: usize) -> (range: Option<(u64, u64)>)
        ensures
            index >= 64 ==> range is None,
            index < 64 ==> range == Some(
                (bucket_lower(index as int) as u64, bucket_upper(index as int) as u64),
            ),
            index < 64 ==> bucket_upper(index as int) <= u64::MAX,
    {
        if index >= 64 {
            None
        } else if index == 0 {
            proof {
                lemma2_to64();
            }
            Some((0, 1))
        } else {
            proof {
                lemma_u64_pow2_no_overflow(index as nat);
                lemma_u64_shl_is_mul(1, index as u64);
            }
            let lower = 1u64 << index;
            let upper = if index == 63 {
                proof {
                    lemma2_to64_rest();
                }
                u64::MAX
            } else {
                proof {
                    lemma_u64_pow2_no_overflow((index + 1) as nat);
                    lemma_u64_shl_is_mul(1, (index + 1) as u64);
                }
                (1u64 << (index + 1)) - 1
            };
            Some((lower, upper))
        }
    }
}

} // verus!
