use vstd::arithmetic::power2::{lemma2_to64, lemma2_to64_rest, lemma_pow2_strictly_increases, lemma_pow2_unfold, pow2};
use vstd::bits::{lemma_u64_pow2_no_overflow, lemma_u64_shl_is_mul};
use vstd::prelude::*;
use vstd::std_specs::bits::{axiom_u64_leading_zeros, u64_leading_zeros};

use crate::duration::Duration;
use crate::quantile::Quantile;

verus! {

/// Number of one-nanosecond buckets, for the values `0..1024`.
pub const LINEAR_BUCKETS: usize = 1024;

/// Number of power-of-two buckets, for the values from `1024` up.
pub const LOG_BUCKETS: usize = 64;

/// `floor(log2(v))` for `v >= 1`.
pub open spec fn log2(v: nat) -> nat
    decreases v,
{
    if v <= 1 {
        0
    } else {
        1 + log2(v / 2)
    }
}

/// The bucket that holds `v`, counting the linear buckets first:
/// `v` itself below `1024`, else `1024 + floor(log2(v))`.
pub open spec fn bucket_of(v: u64) -> int {
    if v < 1024 {
        v as int
    } else {
        (1024 + log2(v as nat)) as int
    }
}

/// How many samples of `s` fall in bucket `k`.
pub open spec fn in_bucket(s: Seq<u64>, k: int) -> nat
    decreases s.len(),
{
    if s.len() == 0 {
        0
    } else {
        in_bucket(s.drop_last(), k) + if bucket_of(s.last()) == k {
            1nat
        } else {
            0nat
        }
    }
}

/// How many samples of `s` fall in a bucket below `k`.
pub open spec fn below_bucket(s: Seq<u64>, k: int) -> nat
    decreases s.len(),
{
    if s.len() == 0 {
        0
    } else {
        below_bucket(s.drop_last(), k) + if bucket_of(s.last()) < k {
            1nat
        } else {
            0nat
        }
    }
}

/// The least sample of `s`; `u64::MAX` when `s` is empty.
pub open spec fn seq_min(s: Seq<u64>) -> u64
    decreases s.len(),
{
    if s.len() == 0 {
        u64::MAX
    } else {
        let m = seq_min(s.drop_last());
        if s.last() < m {
            s.last()
        } else {
            m
        }
    }
}

/// The greatest sample of `s`; `0` when `s` is empty.
pub open spec fn seq_max(s: Seq<u64>) -> u64
    decreases s.len(),
{
    if s.len() == 0 {
        0
    } else {
        let m = seq_max(s.drop_last());
        if s.last() > m {
            s.last()
        } else {
            m
        }
    }
}

/// The exact sum of the samples of `s`.
pub open spec fn seq_total(s: Seq<u64>) -> int
    decreases s.len(),
{
    if s.len() == 0 {
        0
    } else {
        seq_total(s.drop_last()) + s.last()
    }
}

/// `x` saturated at `u64::MAX`.
pub open spec fn saturate(x: int) -> u64 {
    if x >= u64::MAX {
        u64::MAX
    } else {
        x as u64
    }
}

/// The least sample, if any.
pub open spec fn min_of(s: Seq<u64>) -> Option<u64> {
    if s.len() == 0 {
        None
    } else {
        Some(seq_min(s))
    }
}

/// The greatest sample, if any.
pub open spec fn max_of(s: Seq<u64>) -> Option<u64> {
    if s.len() == 0 {
        None
    } else {
        Some(seq_max(s))
    }
}

fn copy_counts(v: &Vec<u64>) -> (r: Vec<u64>)
    ensures
        r@ == v@,
{
    let mut r: Vec<u64> = Vec::with_capacity(v.len());
    let mut i: usize = 0;
    while i < v.len()
        invariant
            i <= v@.len(),
            r@ == v@.subrange(0, i as int),
        decreases v@.len() - i,
    {
        r.push(v[i]);
        i = i + 1;
    }
    assert(r@ =~= v@);
    r
}

/// A fixed-memory histogram of nanosecond samples.
///
/// Recording takes `&mut self`: to share one histogram among threads, put
/// it behind a lock, as `Watch` does.
///
/// Values below `1024` each have a bucket of their own; a value `v` from
/// `1024` up goes to the power-of-two bucket `floor(log2(v))`. Besides the
/// buckets it keeps the least and greatest sample, the count and the sum
/// (saturated at `u64::MAX`).
///
/// Its view is the sequence of samples recorded since it was made or last
/// reset.
pub struct FastHistogram {
    linear_buckets: Vec<u64>,
    log_buckets: Vec<u64>,
    min_value: u64,
    max_value: u64,
    total_count: u64,
    sum: u64,
    samples: Ghost<Seq<u64>>,
}

impl View for FastHistogram {
    type V = Seq<u64>;

    closed spec fn view(&self) -> Seq<u64> {
        self.samples@
    }
}

pub proof fn lemma_in_bucket_push(s: Seq<u64>, v: u64, k: int)
    ensures
        in_bucket(s.push(v), k) == in_bucket(s, k) + if bucket_of(v) == k {
            1nat
        } else {
            0nat
        },
        below_bucket(s.push(v), k) == below_bucket(s, k) + if bucket_of(v) < k {
            1nat
        } else {
            0nat
        },
        seq_min(s.push(v)) == if v < seq_min(s) {
            v
        } else {
            seq_min(s)
        },
        seq_max(s.push(v)) == if v > seq_max(s) {
            v
        } else {
            seq_max(s)
        },
        seq_total(s.push(v)) == seq_total(s) + v,
{
    assert(s.push(v).drop_last() =~= s);
}

pub proof fn lemma_in_bucket_bounded(s: Seq<u64>, k: int)
    ensures
        in_bucket(s, k) <= s.len(),
        below_bucket(s, k) <= s.len(),
        seq_total(s) >= 0,
    decreases s.len(),
{
    if s.len() > 0 {
        lemma_in_bucket_bounded(s.drop_last(), k);
    }
}

/// `63 - leading_zeros(v)` is `floor(log2(v))`.
pub proof fn lemma_leading_zeros_log2(v: u64)
    requires
        v >= 1,
    ensures
        63 - u64_leading_zeros(v) == log2(v as nat),
    decreases v,
{
    reveal(u64_leading_zeros);
    if v > 1 {
        lemma_leading_zeros_log2(v / 2);
    } else {
        assert(u64_leading_zeros(0) == 64);
    }
}

/// Every sample lies in one of the `LINEAR_BUCKETS + LOG_BUCKETS` buckets.
pub proof fn lemma_bucket_of_range(v: u64)
    ensures
        0 <= bucket_of(v) < LINEAR_BUCKETS + LOG_BUCKETS,
{
    if v >= 1024 {
        lemma_leading_zeros_log2(v);
        broadcast use axiom_u64_leading_zeros;
    }
}

/// The least value that power-of-two bucket `i` estimates: `max(2^i, 1024)`.
pub open spec fn bucket_start(i: int) -> int {
    if pow2(i as nat) < 1024 {
        1024
    } else {
        pow2(i as nat) as int
    }
}

/// The end of power-of-two bucket `i`: `2^(i+1)`, and `u64::MAX` for the last one.
pub open spec fn bucket_end(i: int) -> int {
    if i >= 63 {
        u64::MAX as int
    } else {
        pow2((i + 1) as nat) as int
    }
}

/// The bucket count up to bucket `k + 1` adds the count of bucket `k`.
pub proof fn lemma_below_step(s: Seq<u64>, k: int)
    ensures
        below_bucket(s, k + 1) == below_bucket(s, k) + in_bucket(s, k),
    decreases s.len(),
{
    if s.len() > 0 {
        lemma_below_step(s.drop_last(), k);
    }
}

pub proof fn lemma_below_mono(s: Seq<u64>, k1: int, k2: int)
    requires
        k1 <= k2,
    ensures
        below_bucket(s, k1) <= below_bucket(s, k2),
    decreases s.len(),
{
    if s.len() > 0 {
        lemma_below_mono(s.drop_last(), k1, k2);
    }
}

/// No sample lies below bucket `0`, and every sample lies below the last.
pub proof fn lemma_below_ends(s: Seq<u64>)
    ensures
        below_bucket(s, 0) == 0,
        below_bucket(s, LINEAR_BUCKETS + LOG_BUCKETS) == s.len(),
    decreases s.len(),
{
    if s.len() > 0 {
        lemma_below_ends(s.drop_last());
        lemma_bucket_of_range(s.last());
    }
}

/// The least and greatest samples are samples, and bound all the others.
pub proof fn lemma_min_max(s: Seq<u64>)
    requires
        s.len() > 0,
    ensures
        s.contains(seq_min(s)),
        s.contains(seq_max(s)),
        forall|j: int| 0 <= j < s.len() ==> seq_min(s) <= #[trigger] s[j] <= seq_max(s),
    decreases s.len(),
{
    let t = s.drop_last();
    let l = s.len() - 1;
    assert(s[l] == s.last());
    if t.len() > 0 {
        lemma_min_max(t);
        assert(forall|j: int| 0 <= j < t.len() ==> #[trigger] t[j] == s[j]);
        let a = choose|j: int| 0 <= j < t.len() && t[j] == seq_min(t);
        let b = choose|j: int| 0 <= j < t.len() && t[j] == seq_max(t);
        assert(s[a] == seq_min(t));
        assert(s[b] == seq_max(t));
        if s.last() < seq_min(t) {
            assert(s[l] == seq_min(s));
        } else {
            assert(s[a] == seq_min(s));
        }
        if s.last() > seq_max(t) {
            assert(s[l] == seq_max(s));
        } else {
            assert(s[b] == seq_max(s));
        }
        assert forall|j: int| 0 <= j < s.len() implies seq_min(s) <= #[trigger] s[j] <= seq_max(
            s,
        ) by {
            if j < l {
                assert(t[j] == s[j]);
            }
        }
    } else {
        assert(s[l] == seq_min(s));
        assert(s[l] == seq_max(s));
    }
}

/// `v` clamped to `[lo, hi]`.
pub open spec fn clamp(v: int, lo: int, hi: int) -> int {
    if v < lo {
        lo
    } else if v > hi {
        hi
    } else {
        v
    }
}

/// Bucket `k` holds the sample of rank `r` (1-based, in bucket order).
pub open spec fn is_rank_bucket(s: Seq<u64>, r: int, k: int) -> bool {
    0 <= k < LINEAR_BUCKETS + LOG_BUCKETS && below_bucket(s, k) < r <= below_bucket(s, k + 1)
}

/// The bucket that holds the sample of rank `r`.
pub open spec fn rank_bucket(s: Seq<u64>, r: int) -> int {
    choose|k: int| is_rank_bucket(s, r, k)
}

/// What bucket `k` answers for the sample of rank `r`: a linear bucket its
/// own value; a power-of-two bucket a point of its span, interpolated by the
/// position of rank `r` among the bucket's samples.
pub open spec fn bucket_estimate(s: Seq<u64>, r: int, k: int) -> int {
    if k < LINEAR_BUCKETS {
        k
    } else {
        let i = k - LINEAR_BUCKETS;
        let start = bucket_start(i);
        let width = bucket_end(i) - start;
        if width > 0 {
            start + (r - 1 - below_bucket(s, k)) * width / (in_bucket(s, k) as int)
        } else {
            start
        }
    }
}

/// The estimate of the sample of rank `r`, clamped to the observed range.
pub open spec fn value_at_rank(s: Seq<u64>, r: int) -> u64 {
    clamp(bucket_estimate(s, r, rank_bucket(s, r)), seq_min(s) as int, seq_max(s) as int) as u64
}

/// The nearest rank of quantile `q` among `n` samples: `ceil(q * n)`.
pub open spec fn rank_of(q: (nat, nat), n: nat) -> int {
    (q.0 * n + q.1 - 1) / (q.1 as int)
}

/// The `q` percentile of `s`: none when `s` is empty; the least sample at
/// `0`, the greatest at `1`; else the estimate of the sample of rank
/// `ceil(q * n)`.
pub open spec fn percentile_of(s: Seq<u64>, q: (nat, nat)) -> Option<u64> {
    if s.len() == 0 {
        None
    } else if q.0 == 0 {
        Some(seq_min(s))
    } else if q.0 == q.1 {
        Some(seq_max(s))
    } else {
        Some(value_at_rank(s, rank_of(q, s.len())))
    }
}

pub proof fn lemma_rank_bucket(s: Seq<u64>, r: int, k: int)
    requires
        is_rank_bucket(s, r, k),
    ensures
        rank_bucket(s, r) == k,
{
    let j = rank_bucket(s, r);
    assert(is_rank_bucket(s, r, j));
    if j < k {
        lemma_below_mono(s, j + 1, k);
    } else if k < j {
        lemma_below_mono(s, k + 1, j);
    }
}

/// The rank `ceil(q * n)` of a quantile strictly inside `(0, 1)` is in `[1, n]`.
pub proof fn lemma_rank_range(q: (nat, nat), n: nat)
    requires
        0 < q.0 < q.1,
        n >= 1,
    ensures
        1 <= rank_of(q, n) <= n,
{
    let a = q.0 as int;
    let d = q.1 as int;
    let n = n as int;
    assert(a * n >= 1) by (nonlinear_arith)
        requires
            a >= 1,
            n >= 1,
    ;
    assert(a * n + d - 1 >= d);
    assert((a * n + d - 1) / d >= 1) by (nonlinear_arith)
        requires
            a * n + d - 1 >= d,
            d > 0,
    ;
    assert(a * n + d - 1 < d * (n + 1)) by (nonlinear_arith)
        requires
            a < d,
            n >= 1,
    ;
    assert((a * n + d - 1) / d <= n) by (nonlinear_arith)
        requires
            a * n + d - 1 < d * (n + 1),
            d > 0,
    ;
}

fn clamp_u64(v: u64, lo: u64, hi: u64) -> (r: u64)
    ensures
        r == clamp(v as int, lo as int, hi as int),
{
    if v < lo {
        lo
    } else if v > hi {
        hi
    } else {
        v
    }
}

/// `ceil(q * n)` for a quantile strictly inside `(0, 1)`.
pub(crate) fn rank_target(q: Quantile, n: u64) -> (r: u64)
    requires
        q.wf(),
        0 < q@.0 < q@.1,
        n >= 1,
    ensures
        r == rank_of(q@, n as nat),
        1 <= r <= n,
{
    proof {
        q.lemma_wf();
        lemma_rank_range(q@, n as nat);
    }
    let num = q.num() as u128;
    let den = q.den() as u128;
    let n128 = n as u128;
    proof {
        assert(num * n128 <= 0xffff_ffff_ffff_ffffu128 * 0xffff_ffff_ffff_ffffu128) by (nonlinear_arith)
            requires
                num <= 0xffff_ffff_ffff_ffffu128,
                n128 <= 0xffff_ffff_ffff_ffffu128,
        ;
    }
    let r = (num * n128 + den - 1) / den;
    r as u64
}

/// A bucket that holds the sample of each rank exists.
pub proof fn lemma_rank_bucket_exists(s: Seq<u64>, r: int)
    requires
        1 <= r <= s.len(),
    ensures
        is_rank_bucket(s, r, rank_bucket(s, r)),
{
    lemma_below_ends(s);
    lemma_rank_bucket_from(s, r, 0);
}

proof fn lemma_rank_bucket_from(s: Seq<u64>, r: int, k: int)
    requires
        0 <= k < LINEAR_BUCKETS + LOG_BUCKETS,
        below_bucket(s, k) < r <= s.len(),
        below_bucket(s, LINEAR_BUCKETS + LOG_BUCKETS) == s.len(),
    ensures
        is_rank_bucket(s, r, rank_bucket(s, r)),
    decreases LINEAR_BUCKETS + LOG_BUCKETS - k,
{
    if r <= below_bucket(s, k + 1) {
        assert(is_rank_bucket(s, r, k));
    } else {
        lemma_rank_bucket_from(s, r, k + 1);
    }
}

/// The estimate of a bucket for a rank it holds lies within the bucket's
/// span: at least its start, and below its end.
proof fn lemma_estimate_in_span(s: Seq<u64>, r: int, k: int)
    requires
        is_rank_bucket(s, r, k),
        k >= LINEAR_BUCKETS,
    ensures
        bucket_start(k - LINEAR_BUCKETS) <= bucket_estimate(s, r, k),
        bucket_estimate(s, r, k) == bucket_start(k - LINEAR_BUCKETS) || bucket_estimate(s, r, k)
            < bucket_end(k - LINEAR_BUCKETS),
{
    let i = k - LINEAR_BUCKETS;
    let start = bucket_start(i);
    let width = bucket_end(i) - start;
    lemma_below_step(s, k);
    if width > 0 {
        let a = r - 1 - below_bucket(s, k);
        let c = in_bucket(s, k) as int;
        assert(0 <= a < c);
        assert(a * width >= 0) by (nonlinear_arith)
            requires
                a >= 0,
                width > 0,
        ;
        assert(a * width < c * width) by (nonlinear_arith)
            requires
                a < c,
                width > 0,
        ;
        assert(a * width / c < width) by (nonlinear_arith)
            requires
                a * width < c * width,
                c > 0,
        ;
        assert(a * width / c >= 0) by (nonlinear_arith)
            requires
                a * width >= 0,
                c > 0,
        ;
    }
}

/// The bucket estimate does not decrease with the rank.
pub proof fn lemma_value_at_rank_mono(s: Seq<u64>, r1: int, r2: int)
    requires
        1 <= r1 <= r2 <= s.len(),
    ensures
        value_at_rank(s, r1) <= value_at_rank(s, r2),
{
    lemma_rank_bucket_exists(s, r1);
    lemma_rank_bucket_exists(s, r2);
    lemma_min_max(s);
    let k1 = rank_bucket(s, r1);
    let k2 = rank_bucket(s, r2);
    if k2 < k1 {
        lemma_below_mono(s, k2 + 1, k1);
    }
    assert(k1 <= k2);
    let e1 = bucket_estimate(s, r1, k1);
    let e2 = bucket_estimate(s, r2, k2);
    if k1 == k2 {
        if k1 >= LINEAR_BUCKETS {
            let i = k1 - LINEAR_BUCKETS;
            let start = bucket_start(i);
            let width = bucket_end(i) - start;
            if width > 0 {
                let b = below_bucket(s, k1);
                let c = in_bucket(s, k1) as int;
                lemma_below_step(s, k1);
                assert((r1 - 1 - b) * width <= (r2 - 1 - b) * width) by (nonlinear_arith)
                    requires
                        r1 <= r2,
                        width > 0,
                ;
                assert((r1 - 1 - b) * width / c <= (r2 - 1 - b) * width / c) by (nonlinear_arith)
                    requires
                        (r1 - 1 - b) * width <= (r2 - 1 - b) * width,
                        c > 0,
                ;
            }
        }
    } else if k2 >= LINEAR_BUCKETS {
        lemma_estimate_in_span(s, r2, k2);
        let i2 = k2 - LINEAR_BUCKETS;
        if k1 >= LINEAR_BUCKETS {
            lemma_estimate_in_span(s, r1, k1);
            let i1 = k1 - LINEAR_BUCKETS;
            lemma_pow2_strictly_increases(i1 as nat, i2 as nat);
            if i1 + 1 < i2 {
                lemma_pow2_strictly_increases((i1 + 1) as nat, i2 as nat);
            }
        }
    }
    assert(e1 <= e2);
}

/// `ceil(q1 * n) <= ceil(q2 * n)` when `q1 <= q2`.
pub proof fn lemma_rank_mono(q1: (nat, nat), q2: (nat, nat), n: nat)
    requires
        q1.1 > 0,
        q2.1 > 0,
        q1.0 * q2.1 <= q2.0 * q1.1,
    ensures
        rank_of(q1, n) <= rank_of(q2, n),
{
    let a1 = q1.0 as int;
    let d1 = q1.1 as int;
    let a2 = q2.0 as int;
    let d2 = q2.1 as int;
    let n = n as int;
    let r2 = (a2 * n + d2 - 1) / d2;
    assert(r2 * d2 >= a2 * n) by (nonlinear_arith)
        requires
            r2 == (a2 * n + d2 - 1) / d2,
            d2 > 0,
    ;
    assert(a1 * n * d2 <= a2 * n * d1) by (nonlinear_arith)
        requires
            a1 * d2 <= a2 * d1,
            n >= 0,
    ;
    assert(a2 * n * d1 <= r2 * d2 * d1) by (nonlinear_arith)
        requires
            r2 * d2 >= a2 * n,
            d1 > 0,
    ;
    assert(a1 * n <= r2 * d1) by (nonlinear_arith)
        requires
            a1 * n * d2 <= r2 * d2 * d1,
            d2 > 0,
    ;
    assert((a1 * n + d1 - 1) / d1 <= r2) by (nonlinear_arith)
        requires
            a1 * n <= r2 * d1,
            d1 > 0,
    ;
}

/// Every percentile lies between the least and the greatest sample; the
/// percentile at `0` is the least sample and the one at `1` the greatest.
pub proof fn law_percentile_within_range(s: Seq<u64>, q: (nat, nat))
    requires
        s.len() > 0,
        q.1 > 0,
        q.0 <= q.1,
    ensures
        percentile_of(s, q).is_some(),
        seq_min(s) <= percentile_of(s, q).unwrap() <= seq_max(s),
        percentile_of(s, (0nat, q.1)) == Some(seq_min(s)),
        percentile_of(s, (q.1, q.1)) == Some(seq_max(s)),
{
    lemma_min_max(s);
}

/// Percentiles do not decrease as the quantile grows.
pub proof fn law_percentile_monotone(s: Seq<u64>, q1: (nat, nat), q2: (nat, nat))
    requires
        s.len() > 0,
        q1.1 > 0,
        q2.1 > 0,
        q1.0 <= q1.1,
        q2.0 <= q2.1,
        q1.0 * q2.1 <= q2.0 * q1.1,
    ensures
        percentile_of(s, q1).unwrap() <= percentile_of(s, q2).unwrap(),
{
    law_percentile_within_range(s, q1);
    law_percentile_within_range(s, q2);
    if q1.0 == q1.1 && q2.0 != q2.1 {
        assert(q1.1 * q2.1 <= q2.0 * q1.1);
        assert(q2.1 <= q2.0) by (nonlinear_arith)
            requires
                q1.1 * q2.1 <= q2.0 * q1.1,
                q1.1 > 0,
        ;
    }
    if q2.0 == 0 && q1.0 != 0 {
        assert(q1.0 * q2.1 > 0) by (nonlinear_arith)
            requires
                q1.0 > 0,
                q2.1 > 0,
        ;
    }
    if 0 < q1.0 < q1.1 && 0 < q2.0 < q2.1 {
        lemma_rank_mono(q1, q2, s.len());
        lemma_rank_range(q1, s.len());
        lemma_rank_range(q2, s.len());
        lemma_value_at_rank_mono(s, rank_of(q1, s.len()), rank_of(q2, s.len()));
    }
}

/// An empty histogram has no least or greatest sample and no percentile.
pub proof fn law_empty_has_no_statistics(s: Seq<u64>, q: (nat, nat))
    requires
        s.len() == 0,
    ensures
        min_of(s).is_none(),
        max_of(s).is_none(),
        percentile_of(s, q).is_none(),
{
}

/// After a single sample `v`, every percentile is `v`.
pub proof fn law_single_sample(v: u64, q: (nat, nat))
    requires
        q.1 > 0,
        q.0 <= q.1,
    ensures
        percentile_of(seq![v], q) == Some(v),
{
    let s = seq![v];
    assert(s.drop_last() =~= Seq::<u64>::empty());
    assert(s.last() == v);
    assert(seq_min(s.drop_last()) == u64::MAX);
    assert(seq_max(s.drop_last()) == 0);
    assert(seq_min(s) == v);
    assert(seq_max(s) == v);
    law_percentile_within_range(s, q);
}

/// How many samples of `s` are below `t`.
pub open spec fn count_below(s: Seq<u64>, t: int) -> nat
    decreases s.len(),
{
    if s.len() == 0 {
        0
    } else {
        count_below(s.drop_last(), t) + if s.last() < t {
            1nat
        } else {
            0nat
        }
    }
}

/// Taking one sample out of a sequence takes it out of every statistic.
pub proof fn lemma_remove_sample(s: Seq<u64>, i: int, k: int)
    requires
        0 <= i < s.len(),
    ensures
        in_bucket(s, k) == in_bucket(s.remove(i), k) + if bucket_of(s[i]) == k {
            1nat
        } else {
            0nat
        },
        below_bucket(s, k) == below_bucket(s.remove(i), k) + if bucket_of(s[i]) < k {
            1nat
        } else {
            0nat
        },
        seq_total(s) == seq_total(s.remove(i)) + s[i],
        seq_min(s) == if s[i] < seq_min(s.remove(i)) {
            s[i]
        } else {
            seq_min(s.remove(i))
        },
        seq_max(s) == if s[i] > seq_max(s.remove(i)) {
            s[i]
        } else {
            seq_max(s.remove(i))
        },
    decreases s.len(),
{
    let t = s.remove(i);
    if i == s.len() - 1 {
        assert(t =~= s.drop_last());
    } else {
        lemma_remove_sample(s.drop_last(), i, k);
        assert(t.drop_last() =~= s.drop_last().remove(i));
        assert(t.last() == s.last());
        assert(s.drop_last()[i] == s[i]);
    }
}

/// Two sequences with the same bucket counts and range have the same
/// percentiles.
proof fn lemma_same_buckets_same_percentile(s1: Seq<u64>, s2: Seq<u64>, q: (nat, nat))
    requires
        q.1 > 0,
        q.0 <= q.1,
        s1.len() == s2.len(),
        seq_min(s1) == seq_min(s2),
        seq_max(s1) == seq_max(s2),
        forall|k: int| #[trigger] in_bucket(s1, k) == in_bucket(s2, k),
        forall|k: int| #[trigger] below_bucket(s1, k) == below_bucket(s2, k),
    ensures
        percentile_of(s1, q) == percentile_of(s2, q),
{
    if s1.len() > 0 && 0 < q.0 < q.1 {
        let r = rank_of(q, s1.len());
        lemma_rank_range(q, s1.len());
        lemma_rank_bucket_exists(s1, r);
        let k = rank_bucket(s1, r);
        assert(below_bucket(s1, k + 1) == below_bucket(s2, k + 1));
        assert(is_rank_bucket(s2, r, k));
        lemma_rank_bucket(s2, r, k);
    }
}

/// Recording the same samples in any order gives the same count, least and
/// greatest sample, sum, bucket counts and percentiles.
pub proof fn law_order_independent(s1: Seq<u64>, s2: Seq<u64>)
    requires
        s1.to_multiset() == s2.to_multiset(),
    ensures
        s1.len() == s2.len(),
        seq_min(s1) == seq_min(s2),
        seq_max(s1) == seq_max(s2),
        saturate(seq_total(s1)) == saturate(seq_total(s2)),
        forall|k: int| #[trigger] in_bucket(s1, k) == in_bucket(s2, k),
        forall|q: (nat, nat)|
            q.1 > 0 && q.0 <= q.1 ==> #[trigger] percentile_of(s1, q) == percentile_of(s2, q),
    decreases s1.len(),
{
    broadcast use vstd::seq_lib::group_to_multiset_ensures;

    law_order_independent_rec(s1, s2);
    assert forall|q: (nat, nat)| q.1 > 0 && q.0 <= q.1 implies #[trigger] percentile_of(s1, q)
        == percentile_of(s2, q) by {
        lemma_same_buckets_same_percentile(s1, s2, q);
    }
}

proof fn law_order_independent_rec(s1: Seq<u64>, s2: Seq<u64>)
    requires
        s1.to_multiset() == s2.to_multiset(),
    ensures
        s1.len() == s2.len(),
        seq_min(s1) == seq_min(s2),
        seq_max(s1) == seq_max(s2),
        seq_total(s1) == seq_total(s2),
        forall|k: int| #[trigger] in_bucket(s1, k) == in_bucket(s2, k),
        forall|k: int| #[trigger] below_bucket(s1, k) == below_bucket(s2, k),
    decreases s1.len(),
{
    broadcast use vstd::seq_lib::group_to_multiset_ensures;
    broadcast use vstd::multiset::group_multiset_axioms;

    if s1.len() == 0 {
        assert(s2.to_multiset().len() == 0);
        assert(s1 =~= s2);
    } else {
        let x = s1.last();
        let t1 = s1.drop_last();
        assert(s1 =~= t1.push(x));
        assert(s1.to_multiset() =~= t1.to_multiset().insert(x));
        assert(s2.to_multiset().count(x) > 0);
        assert(s2.contains(x));
        let i = choose|i: int| 0 <= i < s2.len() && s2[i] == x;
        let t2 = s2.remove(i);
        assert(t2.to_multiset() =~= s2.to_multiset().remove(x));
        assert(t2.to_multiset() =~= t1.to_multiset());
        law_order_independent_rec(t1, t2);
        lemma_remove_sample(s2, i, 0);
        assert forall|k: int| #[trigger] in_bucket(s1, k) == in_bucket(s2, k) by {
            lemma_remove_sample(s2, i, k);
            assert(in_bucket(t1, k) == in_bucket(t2, k));
            assert(in_bucket(s1, k) == in_bucket(t1, k) + if bucket_of(x) == k {
                1nat
            } else {
                0nat
            });
        }
        assert forall|k: int| #[trigger] below_bucket(s1, k) == below_bucket(s2, k) by {
            lemma_remove_sample(s2, i, k);
            assert(below_bucket(t1, k) == below_bucket(t2, k));
            assert(below_bucket(s1, k) == below_bucket(t1, k) + if bucket_of(x) < k {
                1nat
            } else {
                0nat
            });
        }
    }
}

/// Below the first power-of-two bucket, counting by bucket is counting by value.
pub proof fn lemma_count_below_linear(s: Seq<u64>, t: int)
    requires
        t <= LINEAR_BUCKETS,
    ensures
        count_below(s, t) == below_bucket(s, t),
    decreases s.len(),
{
    if s.len() > 0 {
        lemma_count_below_linear(s.drop_last(), t);
    }
}

proof fn lemma_count_below_all(s: Seq<u64>, t: int)
    requires
        forall|j: int| 0 <= j < s.len() ==> #[trigger] s[j] < t,
    ensures
        count_below(s, t) == s.len(),
    decreases s.len(),
{
    if s.len() > 0 {
        let u = s.drop_last();
        assert(forall|j: int| 0 <= j < u.len() ==> #[trigger] u[j] == s[j]);
        assert(s[s.len() - 1] == s.last());
        lemma_count_below_all(u, t);
    }
}

proof fn lemma_nonempty_bucket_has_sample(s: Seq<u64>, k: int)
    requires
        in_bucket(s, k) > 0,
    ensures
        exists|j: int| 0 <= j < s.len() && bucket_of(#[trigger] s[j]) == k,
    decreases s.len(),
{
    let u = s.drop_last();
    assert(s[s.len() - 1] == s.last());
    if bucket_of(s.last()) != k {
        lemma_nonempty_bucket_has_sample(u, k);
        let j = choose|j: int| 0 <= j < u.len() && bucket_of(#[trigger] u[j]) == k;
        assert(s[j] == u[j]);
    }
}

/// When every sample is below `1024`, a percentile strictly inside `(0, 1)`
/// is exactly the sample of rank `ceil(q * n)`: fewer than that many
/// samples are below it, and at least that many are at or below it.
pub proof fn law_linear_range_exact(s: Seq<u64>, q: (nat, nat))
    requires
        s.len() > 0,
        0 < q.0 < q.1,
        forall|j: int| 0 <= j < s.len() ==> #[trigger] s[j] < LINEAR_BUCKETS,
    ensures
        count_below(s, percentile_of(s, q).unwrap() as int) < rank_of(q, s.len()),
        rank_of(q, s.len()) <= count_below(s, percentile_of(s, q).unwrap() + 1),
{
    let n = s.len();
    let r = rank_of(q, n);
    lemma_rank_range(q, n);
    lemma_rank_bucket_exists(s, r);
    let k = rank_bucket(s, r);
    lemma_count_below_all(s, LINEAR_BUCKETS as int);
    lemma_count_below_linear(s, LINEAR_BUCKETS as int);
    if k >= LINEAR_BUCKETS {
        lemma_below_mono(s, LINEAR_BUCKETS as int, k);
    }
    assert(k < LINEAR_BUCKETS);
    lemma_below_step(s, k);
    lemma_nonempty_bucket_has_sample(s, k);
    let j = choose|j: int| 0 <= j < s.len() && bucket_of(#[trigger] s[j]) == k;
    lemma_min_max(s);
    assert(s[j] == k);
    assert(value_at_rank(s, r) == k);
    lemma_count_below_linear(s, k);
    lemma_count_below_linear(s, k + 1);
}

/// The samples `1, 2, ..., n`.
pub open spec fn first_n(n: nat) -> Seq<u64> {
    Seq::new(n, |i: int| (i + 1) as u64)
}

/// `2^log2(v) <= v < 2^(log2(v) + 1)`.
pub proof fn lemma_log2_bounds(v: nat)
    requires
        v >= 1,
    ensures
        pow2(log2(v)) <= v < pow2(log2(v) + 1),
    decreases v,
{
    if v > 1 {
        lemma_log2_bounds(v / 2);
        lemma_pow2_unfold(log2(v));
        lemma_pow2_unfold(log2(v) + 1);
    } else {
        lemma2_to64();
    }
}

/// For `i >= 10`, a sample lies below power-of-two bucket `i` exactly when
/// it is below `2^i`.
proof fn lemma_below_log_bucket(v: u64, i: nat)
    requires
        pow2(i) >= 1024,
    ensures
        (bucket_of(v) < LINEAR_BUCKETS + i) == (v < pow2(i)),
{
    if v >= 1024 {
        let l = log2(v as nat);
        lemma_log2_bounds(v as nat);
        if l < i {
            if l + 1 < i {
                lemma_pow2_strictly_increases(l + 1, i);
            }
        } else if l > i {
            lemma_pow2_strictly_increases(i, l);
        }
    }
}

/// Counting the samples of `1..=n` below a bucket that splits the values at `t`.
proof fn lemma_first_n_below(n: nat, k: int, t: int)
    requires
        t >= 1,
        n < u64::MAX,
        forall|v: u64| #[trigger] bucket_of(v) < k <==> v < t,
    ensures
        below_bucket(first_n(n), k) == if n < t - 1 {
            n as int
        } else {
            t - 1
        },
    decreases n,
{
    if n > 0 {
        let s = first_n(n);
        assert(s.drop_last() =~= first_n((n - 1) as nat));
        assert(s.last() == n as u64);
        lemma_first_n_below((n - 1) as nat, k, t);
        assert(bucket_of(n as u64) < k <==> (n as u64) < t);
    }
}

proof fn lemma_first_n_range(n: nat)
    requires
        1 <= n < u64::MAX,
    ensures
        seq_min(first_n(n)) == 1,
        seq_max(first_n(n)) == n,
    decreases n,
{
    let s = first_n(n);
    assert(s.drop_last() =~= first_n((n - 1) as nat));
    assert(s.last() == n as u64);
    if n > 1 {
        lemma_first_n_range((n - 1) as nat);
    } else {
        assert(seq_min(s.drop_last()) == u64::MAX);
        assert(seq_max(s.drop_last()) == 0);
    }
}

/// After recording `1, 2, ..., n`, the median is `ceil(n / 2)`, the exact
/// sample of that rank: below `1024` every value has its own bucket, and
/// above it the power-of-two bucket holding the median rank is full, so the
/// interpolation lands on the sample itself.
pub proof fn law_median_of_first_n(n: nat)
    requires
        1 <= n < u64::MAX,
    ensures
        percentile_of(first_n(n), (1nat, 2nat)) == Some(((n + 1) / 2) as u64),
{
    let s = first_n(n);
    let m = (n + 1) / 2;
    let r = rank_of((1nat, 2nat), n);
    assert(r == m);
    lemma_first_n_range(n);
    if m < LINEAR_BUCKETS {
        assert forall|v: u64| #[trigger] bucket_of(v) < m <==> v < m by {}
        assert forall|v: u64| #[trigger] bucket_of(v) < m + 1 <==> v < m + 1 by {}
        lemma_first_n_below(n, m as int, m as int);
        lemma_first_n_below(n, m + 1 as int, m + 1 as int);
        assert(is_rank_bucket(s, r, m as int));
        lemma_rank_bucket(s, r, m as int);
    } else {
        let i = log2(m as nat);
        lemma_log2_bounds(m as nat);
        lemma_leading_zeros_log2(m as u64);
        broadcast use axiom_u64_leading_zeros;

        lemma2_to64();
        lemma2_to64_rest();
        assert(m < pow2(63));
        if i >= 63 {
            if i > 63 {
                lemma_pow2_strictly_increases(63, i);
            }
            assert(false);
        }
        lemma_pow2_strictly_increases(i, i + 1);
        assert(pow2(10) == 1024);
        if i < 10 {
            lemma_pow2_strictly_increases(i + 1, 10);
            assert(false);
        }
        if i > 10 {
            lemma_pow2_strictly_increases(10, i);
        }
        lemma_pow2_unfold(i + 1);
        let k = LINEAR_BUCKETS + i;
        assert forall|v: u64| #[trigger] bucket_of(v) < k <==> v < pow2(i) by {
            lemma_below_log_bucket(v, i);
        }
        assert forall|v: u64| #[trigger] bucket_of(v) < k + 1 <==> v < pow2(i + 1) by {
            lemma_below_log_bucket(v, i + 1);
        }
        lemma_first_n_below(n, k, pow2(i) as int);
        lemma_first_n_below(n, k + 1, pow2(i + 1) as int);
        assert(n + 1 >= 2 * pow2(i));
        assert(below_bucket(s, k) == pow2(i) - 1);
        assert(below_bucket(s, k + 1) == pow2(i + 1) - 1);
        assert(is_rank_bucket(s, r, k));
        lemma_rank_bucket(s, r, k);
        lemma_below_step(s, k);
        assert(in_bucket(s, k) == pow2(i));
        assert(bucket_start(i as int) == pow2(i));
        assert(bucket_end(i as int) == pow2(i + 1));
        let w = pow2(i) as int;
        let x = r - w;
        assert(x * w / w == x) by (nonlinear_arith)
            requires
                w > 0,
                x >= 0,
        ;
        assert(r - 1 - below_bucket(s, k) == x);
        assert(bucket_estimate(s, r, k) == m);
    }
}

/// The mean lies between the least and the greatest sample:
/// `min * n <= total <= max * n`.
pub proof fn law_mean_within_range(s: Seq<u64>)
    requires
        s.len() > 0,
    ensures
        seq_min(s) * s.len() <= seq_total(s) <= seq_max(s) * s.len(),
    decreases s.len(),
{
    let t = s.drop_last();
    let x = s.last() as int;
    let n = s.len() as int;
    if t.len() == 0 {
        assert(seq_min(t) == u64::MAX);
        assert(seq_max(t) == 0);
        assert(seq_total(t) == 0);
    } else {
        law_mean_within_range(t);
        let lo = seq_min(s) as int;
        let hi = seq_max(s) as int;
        let lo_t = seq_min(t) as int;
        let hi_t = seq_max(t) as int;
        let tot_t = seq_total(t);
        let m = t.len() as int;
        assert(lo <= lo_t && lo <= x);
        assert(hi >= hi_t && hi >= x);
        assert(lo * m <= lo_t * m) by (nonlinear_arith)
            requires
                lo <= lo_t,
                m >= 0,
        ;
        assert(hi_t * m <= hi * m) by (nonlinear_arith)
            requires
                hi_t <= hi,
                m >= 0,
        ;
        assert(lo * n == lo * m + lo) by (nonlinear_arith)
            requires
                n == m + 1,
        ;
        assert(hi * n == hi * m + hi) by (nonlinear_arith)
            requires
                n == m + 1,
        ;
    }
}

impl FastHistogram {
    /// The index of the power-of-two bucket of `value`: `floor(log2(value))`.
    fn log_bucket_index(value: u64) -> (r: usize)
        requires
            value >= 1024,
        ensures
            r == log2(value as nat),
            r < LOG_BUCKETS,
            r + LINEAR_BUCKETS == bucket_of(value),
    {
        proof {
            lemma_leading_zeros_log2(value);
            broadcast use axiom_u64_leading_zeros;
        }
        (63 - value.leading_zeros()) as usize
    }

    /// The start of power-of-two bucket `i`, as `bucket_start` says.
    fn bucket_start(i: usize) -> (r: u64)
        requires
            i < LOG_BUCKETS,
        ensures
            r == bucket_start(i as int),
    {
        proof {
            lemma_u64_pow2_no_overflow(i as nat);
            lemma_u64_shl_is_mul(1, i as u64);
        }
        let p = 1u64 << (i as u64);
        if p < 1024 {
            1024
        } else {
            p
        }
    }

    /// The end of power-of-two bucket `i`, as `bucket_end` says.
    fn bucket_end(i: usize) -> (r: u64)
        requires
            i < LOG_BUCKETS,
        ensures
            r == bucket_end(i as int),
    {
        if i >= 63 {
            u64::MAX
        } else {
            proof {
                lemma_u64_pow2_no_overflow((i + 1) as nat);
                lemma_u64_shl_is_mul(1, (i + 1) as u64);
            }
            1u64 << ((i + 1) as u64)
        }
    }

    /// The fields agree with the recorded samples.
    pub closed spec fn wf(&self) -> bool {
        &&& self.linear_buckets@.len() == LINEAR_BUCKETS
        &&& self.log_buckets@.len() == LOG_BUCKETS
        &&& self.samples@.len() <= u64::MAX
        &&& self.total_count == self.samples@.len()
        &&& self.min_value == seq_min(self.samples@)
        &&& self.max_value == seq_max(self.samples@)
        &&& self.sum == saturate(seq_total(self.samples@))
        &&& forall|i: int|
            0 <= i < LINEAR_BUCKETS ==> #[trigger] self.linear_buckets@[i] == in_bucket(
                self.samples@,
                i,
            )
        &&& forall|i: int|
            0 <= i < LOG_BUCKETS ==> #[trigger] self.log_buckets@[i] == in_bucket(
                self.samples@,
                LINEAR_BUCKETS + i,
            )
    }

    /// An empty histogram.
    pub fn new() -> (h: FastHistogram)
        ensures
            h.wf(),
            h@ == Seq::<u64>::empty(),
    {
        let h = FastHistogram {
            linear_buckets: vec![0u64; LINEAR_BUCKETS],
            log_buckets: vec![0u64; LOG_BUCKETS],
            min_value: u64::MAX,
            max_value: 0,
            total_count: 0,
            sum: 0,
            samples: Ghost(Seq::empty()),
        };
        assert(forall|i: int| 0 <= i < LINEAR_BUCKETS ==> #[trigger] h.linear_buckets@[i] == 0);
        assert(forall|i: int| 0 <= i < LOG_BUCKETS ==> #[trigger] h.log_buckets@[i] == 0);
        h
    }

    /// Records one sample. Once the count has reached `u64::MAX` the
    /// histogram is full and further samples are dropped.
    pub fn record(&mut self, value_ns: u64)
        requires
            old(self).wf(),
        ensures
            final(self).wf(),
            old(self)@.len() < u64::MAX ==> final(self)@ == old(self)@.push(value_ns),
            old(self)@.len() == u64::MAX ==> final(self)@ == old(self)@,
    {
        if self.total_count == u64::MAX {
            return;
        }
        let ghost s = self.samples@;
        proof {
            lemma_in_bucket_push(s, value_ns, 0);
            assert forall|k: int| #[trigger] in_bucket(s.push(value_ns), k) == in_bucket(s, k) + if bucket_of(value_ns) == k {
                1nat
            } else {
                0nat
            } by {
                lemma_in_bucket_push(s, value_ns, k);
                lemma_in_bucket_bounded(s, k);
            }
        }
        if value_ns < self.min_value {
            self.min_value = value_ns;
        }
        if value_ns > self.max_value {
            self.max_value = value_ns;
        }
        self.total_count = self.total_count + 1;
        self.sum = self.sum.saturating_add(value_ns);
        if value_ns < LINEAR_BUCKETS as u64 {
            let i = value_ns as usize;
            proof {
                lemma_in_bucket_bounded(s, i as int);
            }
            let c = self.linear_buckets[i];
            self.linear_buckets.set(i, c + 1);
        } else {
            let i = FastHistogram::log_bucket_index(value_ns);
            proof {
                lemma_in_bucket_bounded(s, LINEAR_BUCKETS + i);
            }
            let c = self.log_buckets[i];
            self.log_buckets.set(i, c + 1);
        }
        self.samples = Ghost(s.push(value_ns));
    }

    /// Records a `Duration`, saturated at `u64::MAX` nanoseconds.
    pub fn record_duration(&mut self, duration: Duration)
        requires
            old(self).wf(),
        ensures
            final(self).wf(),
            old(self)@.len() < u64::MAX ==> final(self)@ == old(self)@.push(
                saturate(duration.nanos as int),
            ),
            old(self)@.len() == u64::MAX ==> final(self)@ == old(self)@,
    {
        let nanos = duration.as_nanos();
        let v: u64 = if nanos > u64::MAX as u128 {
            u64::MAX
        } else {
            nanos as u64
        };
        self.record(v);
    }

    /// The least sample, or `None` when empty.
    pub fn min(&self) -> (r: Option<u64>)
        requires
            self.wf(),
        ensures
            r == min_of(self@),
    {
        if self.total_count == 0 {
            None
        } else {
            Some(self.min_value)
        }
    }

    /// The greatest sample, or `None` when empty.
    pub fn max(&self) -> (r: Option<u64>)
        requires
            self.wf(),
        ensures
            r == max_of(self@),
    {
        if self.total_count == 0 {
            None
        } else {
            Some(self.max_value)
        }
    }

    /// The number of samples.
    pub fn count(&self) -> (r: u64)
        requires
            self.wf(),
        ensures
            r == self@.len(),
    {
        self.total_count
    }

    /// Whether no sample has been recorded.
    pub fn is_empty(&self) -> (r: bool)
        requires
            self.wf(),
        ensures
            r == (self@.len() == 0),
    {
        self.total_count == 0
    }

    /// The sum of the samples, saturated at `u64::MAX`.
    pub fn sum(&self) -> (r: u64)
        requires
            self.wf(),
        ensures
            r == saturate(seq_total(self@)),
    {
        self.sum
    }

    /// The estimate of the sample of rank `target`, which bucket `k` holds;
    /// `below` samples lie in the buckets before it and `c` in it.
    fn value_in_bucket(&self, k: usize, target: u64, below: u64, c: u64) -> (v: u64)
        requires
            self.wf(),
            is_rank_bucket(self@, target as int, k as int),
            rank_bucket(self@, target as int) == k,
            below == below_bucket(self@, k as int),
            c == in_bucket(self@, k as int),
        ensures
            v == value_at_rank(self@, target as int),
    {
        proof {
            lemma_below_step(self@, k as int);
        }
        if k < LINEAR_BUCKETS {
            return clamp_u64(k as u64, self.min_value, self.max_value);
        }
        let i = k - LINEAR_BUCKETS;
        let start = FastHistogram::bucket_start(i);
        let end = FastHistogram::bucket_end(i);
        let pos = target - below;
        let width = end.saturating_sub(start);
        let estimate = if width > 0 {
            let a = (pos - 1) as u128;
            let w = width as u128;
            let cc = c as u128;
            proof {
                assert(a * w < cc * w) by (nonlinear_arith)
                    requires
                        a < cc,
                        w > 0,
                ;
                assert(a * w / (cc as int) < w) by (nonlinear_arith)
                    requires
                        a * w < cc * w,
                        cc > 0,
                ;
                assert(a * w <= 0xffff_ffff_ffff_ffffu128 * 0xffff_ffff_ffff_ffffu128) by (nonlinear_arith)
                    requires
                        a <= 0xffff_ffff_ffff_ffffu128,
                        w <= 0xffff_ffff_ffff_ffffu128,
                ;
            }
            let offset = (a * w) / cc;
            start + offset as u64
        } else {
            start
        };
        clamp_u64(estimate, self.min_value, self.max_value)
    }

    /// The running bucket counts: entry `k` is the number of samples in
    /// buckets `0..=k`. One pass over the buckets.
    fn cumulative_counts(&self) -> (cum: Vec<u64>)
        requires
            self.wf(),
        ensures
            cum@.len() == LINEAR_BUCKETS + LOG_BUCKETS,
            forall|k: int|
                0 <= k < LINEAR_BUCKETS + LOG_BUCKETS ==> #[trigger] cum@[k] == below_bucket(
                    self@,
                    k + 1,
                ),
    {
        let ghost s = self@;
        proof {
            lemma_below_ends(s);
        }
        let mut cum: Vec<u64> = Vec::with_capacity(LINEAR_BUCKETS + LOG_BUCKETS);
        let mut current: u64 = 0;
        let mut k: usize = 0;
        while k < LINEAR_BUCKETS + LOG_BUCKETS
            invariant
                self.wf(),
                s == self@,
                k <= LINEAR_BUCKETS + LOG_BUCKETS,
                current == below_bucket(s, k as int),
                cum@.len() == k,
                forall|j: int| 0 <= j < k ==> #[trigger] cum@[j] == below_bucket(s, j + 1),
                below_bucket(s, LINEAR_BUCKETS + LOG_BUCKETS) == s.len(),
                s.len() <= u64::MAX,
            decreases LINEAR_BUCKETS + LOG_BUCKETS - k,
        {
            let c = if k < LINEAR_BUCKETS {
                self.linear_buckets[k]
            } else {
                self.log_buckets[k - LINEAR_BUCKETS]
            };
            proof {
                lemma_below_step(s, k as int);
                lemma_below_mono(s, k as int + 1, LINEAR_BUCKETS + LOG_BUCKETS);
            }
            current = current + c;
            cum.push(current);
            k = k + 1;
        }
        cum
    }

    /// The bucket that holds the sample of rank `target`, by binary search
    /// over the running counts.
    fn find_rank_bucket(&self, cum: &Vec<u64>, target: u64) -> (k: usize)
        requires
            self.wf(),
            1 <= target <= self@.len(),
            cum@.len() == LINEAR_BUCKETS + LOG_BUCKETS,
            forall|j: int|
                0 <= j < LINEAR_BUCKETS + LOG_BUCKETS ==> #[trigger] cum@[j] == below_bucket(
                    self@,
                    j + 1,
                ),
        ensures
            k < LINEAR_BUCKETS + LOG_BUCKETS,
            is_rank_bucket(self@, target as int, k as int),
            rank_bucket(self@, target as int) == k,
    {
        let ghost s = self@;
        proof {
            lemma_below_ends(s);
        }
        let mut lo: usize = 0;
        let mut hi: usize = LINEAR_BUCKETS + LOG_BUCKETS - 1;
        while lo < hi
            invariant
                lo <= hi < LINEAR_BUCKETS + LOG_BUCKETS,
                cum@.len() == LINEAR_BUCKETS + LOG_BUCKETS,
                forall|j: int|
                    0 <= j < LINEAR_BUCKETS + LOG_BUCKETS ==> #[trigger] cum@[j] == below_bucket(
                        s,
                        j + 1,
                    ),
                below_bucket(s, lo as int) < target,
                target <= below_bucket(s, hi as int + 1),
            decreases hi - lo,
        {
            let mid = lo + (hi - lo) / 2;
            if cum[mid] >= target {
                hi = mid;
            } else {
                lo = mid + 1;
            }
        }
        proof {
            lemma_rank_bucket(s, target as int, lo as int);
        }
        lo
    }

    /// The estimate of the sample of rank `target`: the buckets are scanned
    /// in order until their running count reaches `target`.
    fn value_at_rank(&self, target: u64) -> (v: u64)
        requires
            self.wf(),
            1 <= target <= self@.len(),
        ensures
            v == value_at_rank(self@, target as int),
    {
        let ghost s = self@;
        proof {
            lemma_below_ends(s);
        }
        let mut current: u64 = 0;
        let mut k: usize = 0;
        while k < LINEAR_BUCKETS
            invariant
                self.wf(),
                s == self@,
                1 <= target <= s.len(),
                k <= LINEAR_BUCKETS,
                current == below_bucket(s, k as int),
                current < target,
                below_bucket(s, LINEAR_BUCKETS + LOG_BUCKETS) == s.len(),
            decreases LINEAR_BUCKETS - k,
        {
            let c = self.linear_buckets[k];
            proof {
                lemma_below_step(s, k as int);
                lemma_below_mono(s, k as int + 1, LINEAR_BUCKETS + LOG_BUCKETS);
            }
            if c > 0 {
                current = current + c;
                if current >= target {
                    proof {
                        lemma_rank_bucket(s, target as int, k as int);
                    }
                    return self.value_in_bucket(k, target, current - c, c);
                }
            }
            k = k + 1;
        }
        let mut i: usize = 0;
        while i < LOG_BUCKETS
            invariant
                self.wf(),
                s == self@,
                1 <= target <= s.len(),
                i <= LOG_BUCKETS,
                current == below_bucket(s, LINEAR_BUCKETS + i),
                current < target,
                below_bucket(s, LINEAR_BUCKETS + LOG_BUCKETS) == s.len(),
            decreases LOG_BUCKETS - i,
        {
            let c = self.log_buckets[i];
            let ghost k = LINEAR_BUCKETS + i;
            proof {
                lemma_below_step(s, k);
                lemma_below_mono(s, k + 1, LINEAR_BUCKETS + LOG_BUCKETS);
            }
            if c > 0 && current + c >= target {
                proof {
                    lemma_rank_bucket(s, target as int, k);
                }
                return self.value_in_bucket(LINEAR_BUCKETS + i, target, current, c);
            }
            current = current + c;
            i = i + 1;
        }
        proof {
            assert(false);
        }
        self.max_value
    }

    /// The `q` percentile by the nearest-rank method: `None` when empty; the
    /// least sample at `0` and the greatest at `1`; else the bucket estimate
    /// of the sample of rank `ceil(q * count)`, clamped to `[min, max]`.
    pub fn percentile(&self, q: Quantile) -> (r: Option<u64>)
        requires
            self.wf(),
            q.wf(),
        ensures
            r == percentile_of(self@, q@),
    {
        let n = self.total_count;
        if n == 0 {
            return None;
        }
        if q.num() == 0 {
            return Some(self.min_value);
        }
        if q.num() == q.den() {
            return Some(self.max_value);
        }
        proof {
            q.lemma_wf();
        }
        let target = rank_target(q, n);
        Some(self.value_at_rank(target))
    }

    /// The median: the percentile at `1/2`.
    pub fn median(&self) -> (r: Option<u64>)
        requires
            self.wf(),
        ensures
            r == percentile_of(self@, (1nat, 2nat)),
    {
        let q = Quantile::new(1, 2);
        self.percentile(q)
    }

    /// The median as a `Duration`.
    pub fn median_duration(&self) -> (r: Option<Duration>)
        requires
            self.wf(),
        ensures
            r.is_none() == percentile_of(self@, (1nat, 2nat)).is_none(),
            r.is_some() ==> r.unwrap().nanos == percentile_of(self@, (1nat, 2nat)).unwrap(),
    {
        match self.median() {
            Some(v) => Some(Duration::from_nanos(v as u128)),
            None => None,
        }
    }

    /// The `q` percentile as a `Duration`.
    pub fn percentile_duration(&self, q: Quantile) -> (r: Option<Duration>)
        requires
            self.wf(),
            q.wf(),
        ensures
            r.is_none() == percentile_of(self@, q@).is_none(),
            r.is_some() ==> r.unwrap().nanos == percentile_of(self@, q@).unwrap(),
    {
        match self.percentile(q) {
            Some(v) => Some(Duration::from_nanos(v as u128)),
            None => None,
        }
    }

    /// Several percentiles at once; entry `i` of the result is the
    /// percentile at `qs[i]`. The buckets are scanned once, whatever the
    /// number of quantiles asked for.
    pub fn percentiles(&self, qs: &[Quantile]) -> (r: Vec<Option<u64>>)
        requires
            self.wf(),
            forall|i: int| 0 <= i < qs@.len() ==> (#[trigger] qs@[i]).wf(),
        ensures
            r@.len() == qs@.len(),
            forall|i: int| 0 <= i < qs@.len() ==> #[trigger] r@[i] == percentile_of(self@, qs@[i]@),
    {
        let mut out: Vec<Option<u64>> = Vec::new();
        let n = self.total_count;
        if n == 0 {
            let mut i: usize = 0;
            while i < qs.len()
                invariant
                    self.wf(),
                    n == self@.len(),
                    n == 0,
                    i <= qs@.len(),
                    out@.len() == i,
                    forall|j: int| 0 <= j < i ==> #[trigger] out@[j] == percentile_of(self@, qs@[j]@),
                decreases qs@.len() - i,
            {
                out.push(None);
                i = i + 1;
            }
            return out;
        }
        let cum = self.cumulative_counts();
        let mut i: usize = 0;
        while i < qs.len()
            invariant
                self.wf(),
                n == self@.len(),
                n > 0,
                cum@.len() == LINEAR_BUCKETS + LOG_BUCKETS,
                forall|j: int|
                    0 <= j < LINEAR_BUCKETS + LOG_BUCKETS ==> #[trigger] cum@[j] == below_bucket(
                        self@,
                        j + 1,
                    ),
                forall|j: int| 0 <= j < qs@.len() ==> (#[trigger] qs@[j]).wf(),
                i <= qs@.len(),
                out@.len() == i,
                forall|j: int| 0 <= j < i ==> #[trigger] out@[j] == percentile_of(self@, qs@[j]@),
            decreases qs@.len() - i,
        {
            let q = qs[i];
            let v = if q.num() == 0 {
                self.min_value
            } else if q.num() == q.den() {
                self.max_value
            } else {
                proof {
                    q.lemma_wf();
                }
                let target = rank_target(q, n);
                let k = self.find_rank_bucket(&cum, target);
                let below = if k == 0 {
                    0
                } else {
                    cum[k - 1]
                };
                proof {
                    lemma_below_ends(self@);
                    lemma_below_step(self@, k as int);
                }
                let c = cum[k] - below;
                self.value_in_bucket(k, target, below, c)
            };
            out.push(Some(v));
            i = i + 1;
        }
        out
    }

    /// A well-formed histogram holds at most `u64::MAX` samples.
    pub proof fn lemma_len_bounded(&self)
        requires
            self.wf(),
        ensures
            self@.len() <= u64::MAX,
    {
    }

    /// A copy of this histogram.
    pub fn copy(&self) -> (r: FastHistogram)
        requires
            self.wf(),
        ensures
            r.wf(),
            r@ == self@,
            r@.len() <= u64::MAX,
    {
        FastHistogram {
            linear_buckets: copy_counts(&self.linear_buckets),
            log_buckets: copy_counts(&self.log_buckets),
            min_value: self.min_value,
            max_value: self.max_value,
            total_count: self.total_count,
            sum: self.sum,
            samples: Ghost(self.samples@),
        }
    }

    /// Forgets every sample.
    pub fn reset(&mut self)
        ensures
            final(self).wf(),
            final(self)@ == Seq::<u64>::empty(),
    {
        *self = FastHistogram::new();
    }
}

impl Default for FastHistogram {
    fn default() -> (h: FastHistogram)
        ensures
            h.wf(),
            h@ == Seq::<u64>::empty(),
    {
        FastHistogram::new()
    }
}

/// The histogram the library uses by default: the fast backend.
pub type Histogram = FastHistogram;

} // verus!
