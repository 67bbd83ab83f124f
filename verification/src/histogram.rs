//! Histograms of spans of time.
//!
//! Spans are counted in buckets: one for nothing, and for every power of two
//! buckets of equal width up to the next one.

use vstd::arithmetic::power2::*;
use vstd::prelude::*;

use crate::duration::Duration;

verus! {

/// How many buckets there are from a power of two to the next.
pub const HISTOGRAM_SUB_BUCKETS: usize = 64;

/// How many buckets there are.
pub const HISTOGRAM_BUCKETS: usize = 4097;

/// The greatest number whose power of two a positive number reaches.
pub open spec fn exponent_of(value: nat) -> nat
    decreases value,
{
    if value <= 1 {
        0
    } else {
        1 + exponent_of(value / 2)
    }
}

/// The bucket that counts a span.
pub open spec fn bucket_of(nanos: nat) -> nat {
    if nanos == 0 {
        0
    } else {
        let base = pow2(exponent_of(nanos));
        1 + exponent_of(nanos) * 64 + ((nanos - base) * 64) as nat / base
    }
}

/// `dividend / divisor` rounded up.
pub open spec fn ceiling(dividend: int, divisor: int) -> int {
    (dividend + divisor - 1) / divisor
}

/// The greatest span that a bucket may count.
pub open spec fn bound_of(index: int) -> int {
    if index <= 0 {
        0
    } else {
        let base = pow2(((index - 1) / 64) as nat);
        let bound = base + ceiling(base * ((index - 1) % 64 + 1), 64) - 1;
        if bound > u64::MAX {
            u64::MAX as int
        } else {
            bound
        }
    }
}

proof fn lemma_exponent(value: nat)
    requires
        value > 0,
    ensures
        pow2(exponent_of(value)) <= value < 2 * pow2(exponent_of(value)),
    decreases value,
{
    if value <= 1 {
        lemma2_to64();
    } else {
        lemma_exponent(value / 2);
        lemma_pow2_unfold(exponent_of(value));
    }
}

proof fn lemma_exponent_is(value: nat, exponent: nat)
    requires
        pow2(exponent) <= value < 2 * pow2(exponent),
    ensures
        exponent_of(value) == exponent,
{
    lemma_pow2_pos(exponent);
    lemma_exponent(value);
    let found = exponent_of(value);
    if found < exponent {
        lemma_pow2_unfold(found + 1);
        if found + 1 < exponent {
            lemma_pow2_strictly_increases(found + 1, exponent);
        }
    } else if exponent < found {
        lemma_pow2_unfold(exponent + 1);
        if exponent + 1 < found {
            lemma_pow2_strictly_increases(exponent + 1, found);
        }
    }
}

fn power_of_two(exponent: usize) -> (power: u64)
    requires
        exponent < 64,
    ensures
        power == pow2(exponent as nat),
{
    let mut power: u64 = 1;
    let mut done: usize = 0;
    proof {
        lemma2_to64();
    }
    while done < exponent
        invariant
            done <= exponent < 64,
            power == pow2(done as nat),
        decreases exponent - done,
    {
        proof {
            lemma2_to64_rest();
            lemma_pow2_unfold((done + 1) as nat);
            if done + 1 < 63 {
                lemma_pow2_strictly_increases((done + 1) as nat, 63);
            }
        }
        power = 2 * power;
        done += 1;
    }
    power
}

/// The bucket that counts a span of so many nanoseconds.
pub fn histogram_index(nanos: u64) -> (index: usize)
    ensures
        index == bucket_of(nanos as nat),
        index < HISTOGRAM_BUCKETS,
{
    if nanos == 0 {
        return 0;
    }
    let mut exponent: usize = 0;
    let mut base: u64 = 1;
    proof {
        lemma2_to64();
    }
    while nanos - base >= base
        invariant
            base == pow2(exponent as nat),
            1 <= base <= nanos,
            exponent < 64,
        decreases nanos - base,
    {
        proof {
            lemma2_to64_rest();
            lemma_pow2_unfold((exponent + 1) as nat);
            if exponent == 63 {
                assert(pow2(64) > u64::MAX);
            }
        }
        base = 2 * base;
        exponent += 1;
    }
    proof {
        lemma_exponent_is(nanos as nat, exponent as nat);
        let part = (nanos - base) * 64;
        assert(part / (base as int) < 64) by (nonlinear_arith)
            requires
                0 <= part < 64 * base,
                base > 0,
        ;
    }
    let part: u128 = (nanos - base) as u128 * 64 / base as u128;
    1 + exponent * 64 + part as usize
}

/// The greatest span that a bucket may count, in nanoseconds.
pub fn histogram_upper_bound(index: usize) -> (nanos: u64)
    requires
        index < HISTOGRAM_BUCKETS,
    ensures
        nanos == bound_of(index as int),
{
    if index == 0 {
        return 0;
    }
    let exponent: usize = (index - 1) / 64;
    let part: usize = (index - 1) % 64;
    let base: u64 = power_of_two(exponent);
    proof {
        let count = part + 1;
        lemma_pow2_pos(exponent as nat);
        assert(1 <= base * count <= u64::MAX * 64) by (nonlinear_arith)
            requires
                1 <= base <= u64::MAX,
                1 <= count <= 64,
        ;
    }
    let width: u128 = (base as u128 * (part + 1) as u128 + 63) / 64;
    let bound: u128 = base as u128 + width - 1;
    if bound > u64::MAX as u128 {
        u64::MAX
    } else {
        bound as u64
    }
}

/// A span is no greater than the bound of its bucket.
pub proof fn law_bucket_bounds(nanos: u64)
    ensures
        nanos <= bound_of(bucket_of(nanos as nat) as int),
        bound_of(bucket_of(nanos as nat) as int) * 64 <= nanos * 65,
        bucket_of(nanos as nat) < HISTOGRAM_BUCKETS,
{
    if nanos > 0 {
        let n = nanos as int;
        let exponent = exponent_of(nanos as nat);
        let base = pow2(exponent) as int;
        lemma_exponent(nanos as nat);
        lemma_exponent_small(nanos);
        let part = ((n - base) * 64) / base;
        let left = ((n - base) * 64) % base;
        vstd::arithmetic::div_mod::lemma_fundamental_div_mod((n - base) * 64, base);
        assert(0 <= part < 64) by (nonlinear_arith)
            requires
                (n - base) * 64 == base * part + left,
                0 <= left < base,
                base <= n < 2 * base,
        ;
        let index = bucket_of(nanos as nat) as int;
        assert((index - 1) / 64 == exponent && (index - 1) % 64 == part);
        let width = ceiling(base * (part + 1), 64);
        assert(base * (part + 1) == base * part + base) by (nonlinear_arith);
        assert(64 * width >= base * (part + 1));
        assert(64 * width <= base * (part + 1) + 63);
    } else {
        assert(bucket_of(0) == 0);
    }
}

proof fn lemma_exponent_small(nanos: u64)
    requires
        nanos > 0,
    ensures
        exponent_of(nanos as nat) < 64,
{
    lemma_exponent(nanos as nat);
    lemma2_to64();
    lemma2_to64_rest();
    let exponent = exponent_of(nanos as nat);
    if exponent > 64 {
        lemma_pow2_strictly_increases(64, exponent);
    }
}

/// The bounds of buckets grow.
pub proof fn law_bounds_grow(first: int, second: int)
    requires
        0 <= first <= second,
    ensures
        bound_of(first) <= bound_of(second),
{
    if first > 0 && first < second {
        let low = ((first - 1) / 64) as nat;
        let high = ((second - 1) / 64) as nat;
        let a = pow2(low) as int;
        let b = pow2(high) as int;
        let s = (first - 1) % 64 + 1;
        let t = (second - 1) % 64 + 1;
        lemma_pow2_pos(low);
        lemma_pow2_pos(high);
        if low == high {
            assert(a * s <= a * t) by (nonlinear_arith)
                requires
                    s <= t,
                    a > 0,
            ;
        } else {
            lemma_pow2_unfold(low + 1);
            if low + 1 < high {
                lemma_pow2_strictly_increases(low + 1, high);
            }
            assert(a * s <= a * 64) by (nonlinear_arith)
                requires
                    s <= 64,
                    a > 0,
            ;
            assert(b * t >= 1) by (nonlinear_arith)
                requires
                    t >= 1,
                    b > 0,
            ;
            assert(2 * a <= b);
        }
    } else if second > 0 {
        let high = ((second - 1) / 64) as nat;
        let b = pow2(high) as int;
        let t = (second - 1) % 64 + 1;
        lemma_pow2_pos(high);
        assert(b * t >= 1) by (nonlinear_arith)
            requires
                t >= 1,
                b > 0,
        ;
    }
}

// ---------------------------------------------------------------------------
// Histograms

/// What a histogram holds.
pub struct HistogramModel {
    pub buckets: Seq<u64>,
    pub count: nat,
    pub sum: nat,
    pub min: Option<Duration>,
    pub max: Duration,
}

/// The nanoseconds of a span, as far as they are counted.
pub open spec fn clipped(duration: Duration) -> nat {
    if duration.nanos > u64::MAX {
        u64::MAX as nat
    } else {
        duration.nanos as nat
    }
}

/// How many spans the buckets before `until` count.
pub open spec fn total(buckets: Seq<u64>, until: int) -> nat
    decreases until,
{
    if until <= 0 {
        0
    } else {
        total(buckets, until - 1) + buckets[until - 1] as nat
    }
}

/// The first bucket from `from` on with which `rank` spans are reached.
pub open spec fn reach(buckets: Seq<u64>, rank: nat, from: int, seen: nat) -> Option<int>
    decreases buckets.len() - from,
{
    if from < 0 || from >= buckets.len() {
        None
    } else if seen + buckets[from] >= rank {
        Some(from)
    } else {
        reach(buckets, rank, from + 1, seen + buckets[from] as nat)
    }
}

impl HistogramModel {
    pub open spec fn empty() -> HistogramModel {
        HistogramModel {
            buckets: Seq::new(HISTOGRAM_BUCKETS as nat, |i: int| 0),
            count: 0,
            sum: 0,
            min: None,
            max: Duration { nanos: 0 },
        }
    }

    /// The histogram with one more span.
    pub open spec fn noted(self, duration: Duration) -> HistogramModel {
        let index = bucket_of(clipped(duration)) as int;
        HistogramModel {
            buckets: self.buckets.update(index, (self.buckets[index] + 1) as u64),
            count: self.count + 1,
            sum: self.sum + clipped(duration),
            min: match self.min {
                Some(least) => if least.nanos <= duration.nanos {
                    Some(least)
                } else {
                    Some(duration)
                },
                None => Some(duration),
            },
            max: if self.max.nanos <= duration.nanos {
                duration
            } else {
                self.max
            },
        }
    }

    /// How many spans a percentile has to reach.
    pub open spec fn rank(self, percentile: u64) -> nat {
        let product = self.count * percentile;
        ceiling(
            if product > u64::MAX {
                u64::MAX as int
            } else {
                product as int
            },
            100,
        ) as nat
    }

    /// The bound of the bucket with which a share of the spans is reached.
    pub open spec fn percentile(self, percentile: u64) -> Duration {
        if self.count == 0 {
            Duration { nanos: 0 }
        } else {
            match reach(self.buckets, self.rank(percentile), 0, 0) {
                Some(index) => Duration { nanos: bound_of(index) as u128 },
                None => self.max,
            }
        }
    }

    pub open spec fn mean(self) -> Duration {
        if self.count == 0 {
            Duration { nanos: 0 }
        } else {
            Duration { nanos: (self.sum / self.count) as u128 }
        }
    }

    pub open spec fn well_formed(self) -> bool {
        &&& self.buckets.len() == HISTOGRAM_BUCKETS
        &&& total(self.buckets, HISTOGRAM_BUCKETS as int) == self.count
        &&& self.sum <= self.count * u64::MAX
    }
}

/// A histogram of spans of time.
pub struct DurationHistogram {
    buckets: Vec<u64>,
    count: u64,
    sum_nanos: u128,
    min: Option<Duration>,
    max: Duration,
}

proof fn lemma_total_part(buckets: Seq<u64>, index: int, until: int)
    requires
        0 <= index < until <= buckets.len(),
    ensures
        total(buckets, index + 1) <= total(buckets, until),
        buckets[index] <= total(buckets, until),
    decreases until,
{
    if index + 1 < until {
        lemma_total_part(buckets, index, until - 1);
    }
}

proof fn lemma_total_update(buckets: Seq<u64>, index: int, value: u64, until: int)
    requires
        0 <= index < buckets.len(),
        0 <= until <= buckets.len(),
    ensures
        total(buckets.update(index, value), until) == total(buckets, until) + (if index < until {
            value - buckets[index]
        } else {
            0
        }),
    decreases until,
{
    if until > 0 {
        lemma_total_update(buckets, index, value, until - 1);
    }
}

proof fn lemma_total_zero(until: int)
    requires
        0 <= until <= HISTOGRAM_BUCKETS,
    ensures
        total(HistogramModel::empty().buckets, until) == 0,
    decreases until,
{
    if until > 0 {
        lemma_total_zero(until - 1);
    }
}

impl DurationHistogram {
    pub closed spec fn model(self) -> HistogramModel {
        HistogramModel {
            buckets: self.buckets@,
            count: self.count as nat,
            sum: self.sum_nanos as nat,
            min: self.min,
            max: self.max,
        }
    }

    /// A histogram of nothing.
    pub fn new() -> (histogram: DurationHistogram)
        ensures
            histogram.model() == HistogramModel::empty(),
            histogram.model().well_formed(),
    {
        let mut buckets: Vec<u64> = Vec::new();
        while buckets.len() < HISTOGRAM_BUCKETS
            invariant
                buckets@.len() <= HISTOGRAM_BUCKETS,
                forall|i: int| 0 <= i < buckets@.len() ==> buckets@[i] == 0,
            decreases HISTOGRAM_BUCKETS - buckets@.len(),
        {
            buckets.push(0);
        }
        let histogram: DurationHistogram = DurationHistogram {
            buckets,
            count: 0,
            sum_nanos: 0,
            min: None,
            max: Duration { nanos: 0 },
        };
        proof {
            assert(histogram.model().buckets =~= HistogramModel::empty().buckets);
            lemma_total_zero(HISTOGRAM_BUCKETS as int);
        }
        histogram
    }

    pub fn len(&self) -> (count: u64)
        ensures
            count == self.model().count,
    {
        self.count
    }

    /// Counts a span.
    pub fn record(&mut self, duration: Duration)
        requires
            old(self).model().well_formed(),
            old(self).model().count < u64::MAX,
        ensures
            final(self).model() == old(self).model().noted(duration),
            final(self).model().well_formed(),
    {
        let nanos: u64 = if duration.nanos > u64::MAX as u128 {
            u64::MAX
        } else {
            duration.nanos as u64
        };
        let index: usize = histogram_index(nanos);
        let held: u64 = self.buckets[index];
        proof {
            lemma_total_part(self.buckets@, index as int, HISTOGRAM_BUCKETS as int);
            lemma_total_update(
                self.buckets@,
                index as int,
                (held + 1) as u64,
                HISTOGRAM_BUCKETS as int,
            );
            let count = self.count;
            assert(count * u64::MAX + u64::MAX <= u128::MAX && (count + 1) * u64::MAX == count
                * u64::MAX + u64::MAX) by (nonlinear_arith)
                requires
                    count < u64::MAX,
            ;
        }
        self.buckets.set(index, held + 1);
        self.count = self.count + 1;
        self.sum_nanos = self.sum_nanos + nanos as u128;
        self.min = match self.min {
            Some(least) => if least.nanos <= duration.nanos {
                Some(least)
            } else {
                Some(duration)
            },
            None => Some(duration),
        };
        if self.max.nanos <= duration.nanos {
            self.max = duration;
        }
    }

    /// A span that a share of the spans, in hundredths, does not exceed.
    pub fn percentile(&self, percentile: u64) -> (duration: Duration)
        requires
            self.model().well_formed(),
        ensures
            duration == self.model().percentile(percentile),
    {
        if self.count == 0 {
            return Duration { nanos: 0 };
        }
        let product: u64 = match self.count.checked_mul(percentile) {
            Some(product) => product,
            None => u64::MAX,
        };
        let rank: u64 = product / 100 + (if product % 100 == 0 {
            0
        } else {
            1
        });
        proof {
            assert(rank == self.model().rank(percentile));
        }
        let mut seen: u64 = 0;
        let mut at: usize = 0;
        while at < self.buckets.len()
            invariant
                self.model().well_formed(),
                at <= self.buckets@.len(),
                seen == total(self.buckets@, at as int),
                reach(self.buckets@, rank as nat, 0, 0) == reach(
                    self.buckets@,
                    rank as nat,
                    at as int,
                    seen as nat,
                ),
                self.count > 0,
                rank == self.model().rank(percentile),
            decreases self.buckets@.len() - at,
        {
            proof {
                lemma_total_part(self.buckets@, at as int, HISTOGRAM_BUCKETS as int);
            }
            seen = seen + self.buckets[at];
            if seen >= rank {
                return Duration::from_nanos(histogram_upper_bound(at));
            }
            at += 1;
        }
        self.max
    }

    /// The arithmetic mean of the spans.
    pub fn mean(&self) -> (duration: Duration)
        requires
            self.model().well_formed(),
        ensures
            duration == self.model().mean(),
    {
        if self.count == 0 {
            Duration { nanos: 0 }
        } else {
            Duration { nanos: self.sum_nanos / self.count as u128 }
        }
    }

    pub fn least(&self) -> (duration: Option<Duration>)
        ensures
            duration == self.model().min,
    {
        self.min
    }

    pub fn greatest(&self) -> (duration: Duration)
        ensures
            duration == self.model().max,
    {
        self.max
    }
}

// ---------------------------------------------------------------------------
// Laws

/// The histogram of spans that were counted one after the other.
pub open spec fn histogram_of(durations: Seq<Duration>) -> HistogramModel
    decreases durations.len(),
{
    if durations.len() == 0 {
        HistogramModel::empty()
    } else {
        histogram_of(durations.drop_last()).noted(durations.last())
    }
}

/// How many spans are no greater than `limit`.
pub open spec fn at_most(durations: Seq<Duration>, limit: int) -> nat
    decreases durations.len(),
{
    if durations.len() == 0 {
        0
    } else {
        at_most(durations.drop_last(), limit) + (if clipped(durations.last()) <= limit {
            1nat
        } else {
            0
        })
    }
}

proof fn lemma_histogram(durations: Seq<Duration>, until: int)
    requires
        0 <= until <= HISTOGRAM_BUCKETS,
        durations.len() <= u64::MAX,
    ensures
        histogram_of(durations).buckets.len() == HISTOGRAM_BUCKETS,
        histogram_of(durations).count == durations.len(),
        total(histogram_of(durations).buckets, HISTOGRAM_BUCKETS as int) == durations.len(),
        until > 0 ==> total(histogram_of(durations).buckets, until) <= at_most(
            durations,
            bound_of(until - 1),
        ),
    decreases durations.len(),
{
    if durations.len() == 0 {
        lemma_total_zero(until);
        lemma_total_zero(HISTOGRAM_BUCKETS as int);
    } else {
        let before = histogram_of(durations.drop_last());
        let nanos = clipped(durations.last());
        let index = bucket_of(nanos) as int;
        lemma_histogram(durations.drop_last(), until);
        law_bucket_bounds(nanos as u64);
        let value = (before.buckets[index] + 1) as u64;
        lemma_total_part(before.buckets, index, HISTOGRAM_BUCKETS as int);
        lemma_total_update(before.buckets, index, value, until);
        lemma_total_update(before.buckets, index, value, HISTOGRAM_BUCKETS as int);
        if index < until {
            law_bounds_grow(index, until - 1);
        }
    }
}

proof fn lemma_reach(buckets: Seq<u64>, rank: nat, from: int)
    requires
        0 <= from <= buckets.len(),
        total(buckets, buckets.len() as int) >= rank,
        total(buckets, from) < rank,
    ensures
        reach(buckets, rank, from, total(buckets, from)) matches Some(index) && from <= index
            < buckets.len() && total(buckets, index) < rank <= total(buckets, index + 1),
    decreases buckets.len() - from,
{
    if from < buckets.len() && total(buckets, from) + buckets[from] < rank {
        lemma_reach(buckets, rank, from + 1);
    }
}

/// At least the share of the spans that a percentile speaks of is no greater
/// than it.
pub proof fn law_percentile_covers(durations: Seq<Duration>, percentile: u64)
    requires
        0 < durations.len(),
        durations.len() * 100 <= u64::MAX,
        1 <= percentile <= 100,
    ensures
        100 * at_most(durations, histogram_of(durations).percentile(percentile).nanos as int)
            >= percentile * durations.len(),
{
    let histogram = histogram_of(durations);
    lemma_histogram(durations, 0);
    let count = durations.len() as int;
    let product = count * percentile;
    assert(1 <= product <= 100 * count) by (nonlinear_arith)
        requires
            product == count * percentile,
            1 <= percentile <= 100,
            1 <= count,
    ;
    assert(percentile * count == product) by (nonlinear_arith)
        requires
            product == count * percentile,
    ;
    let rank = histogram.rank(percentile);
    assert(100 * rank >= product && rank <= count && rank >= 1);
    lemma_reach(histogram.buckets, rank, 0);
    let index = reach(histogram.buckets, rank, 0, 0)->0;
    lemma_histogram(durations, index + 1);
    law_bounds_grow(0, index);
}

/// A greater span does not come before a smaller one.
pub proof fn law_buckets_keep_the_order(low: u64, high: u64)
    requires
        low <= high,
    ensures
        bucket_of(low as nat) <= bucket_of(high as nat),
{
    if low > 0 {
        let a = exponent_of(low as nat);
        let b = exponent_of(high as nat);
        lemma_exponent(low as nat);
        lemma_exponent(high as nat);
        lemma_pow2_pos(a);
        lemma_pow2_pos(b);
        let first = pow2(a) as int;
        let second = pow2(b) as int;
        let part = ((low - first) * 64) / first;
        if a == b {
            vstd::arithmetic::div_mod::lemma_div_is_ordered(
                (low - first) * 64,
                (high - first) * 64,
                first,
            );
        } else if a < b {
            assert(part < 64) by (nonlinear_arith)
                requires
                    part == ((low - first) * 64) / first,
                    0 <= low - first < first,
            ;
            assert(((high - second) * 64) / second >= 0) by (nonlinear_arith)
                requires
                    0 <= high - second,
                    second > 0,
            ;
        } else {
            lemma_pow2_unfold(b + 1);
            if b + 1 < a {
                lemma_pow2_strictly_increases(b + 1, a);
            }
        }
    }
}

/// How many spans buckets before `until` count.
spec fn before(durations: Seq<Duration>, until: int) -> nat
    decreases durations.len(),
{
    if durations.len() == 0 {
        0
    } else {
        before(durations.drop_last(), until) + (if bucket_of(clipped(durations.last())) < until {
            1nat
        } else {
            0
        })
    }
}

proof fn lemma_before(durations: Seq<Duration>, until: int)
    requires
        0 <= until <= HISTOGRAM_BUCKETS,
        durations.len() <= u64::MAX,
    ensures
        total(histogram_of(durations).buckets, until) == before(durations, until),
    decreases durations.len(),
{
    if durations.len() == 0 {
        lemma_total_zero(until);
    } else {
        let held = histogram_of(durations.drop_last());
        let nanos = clipped(durations.last());
        let index = bucket_of(nanos) as int;
        lemma_before(durations.drop_last(), until);
        lemma_histogram(durations.drop_last(), 0);
        law_bucket_bounds(nanos as u64);
        lemma_total_part(held.buckets, index, HISTOGRAM_BUCKETS as int);
        lemma_total_update(held.buckets, index, (held.buckets[index] + 1) as u64, until);
    }
}

/// The spans up to a limit are in its bucket or before it, and those before its
/// bucket are below the limit.
proof fn lemma_at_most(durations: Seq<Duration>, limit: u64)
    ensures
        at_most(durations, limit as int) <= before(durations, bucket_of(limit as nat) as int + 1),
        before(durations, bucket_of(limit as nat) as int) <= at_most(durations, limit - 1),
    decreases durations.len(),
{
    if durations.len() > 0 {
        lemma_at_most(durations.drop_last(), limit);
        let nanos = clipped(durations.last()) as u64;
        if nanos <= limit {
            law_buckets_keep_the_order(nanos, limit);
        }
        if limit <= nanos {
            law_buckets_keep_the_order(limit, nanos);
        }
    }
}

/// A percentile is no smaller than the span of its rank, and at most a 64th of
/// that span above it. The span of a rank is the one that `rank` spans do not
/// exceed, while fewer are below it.
pub proof fn law_percentile_is_close(durations: Seq<Duration>, percentile: u64, ranked: u64)
    requires
        0 < durations.len(),
        durations.len() * 100 <= u64::MAX,
        1 <= percentile <= 100,
        at_most(durations, ranked as int) >= ceiling(durations.len() * percentile, 100),
        at_most(durations, ranked - 1) < ceiling(durations.len() * percentile, 100),
    ensures
        ranked <= histogram_of(durations).percentile(percentile).nanos,
        histogram_of(durations).percentile(percentile).nanos - ranked <= ranked / 64,
{
    let histogram = histogram_of(durations);
    let count = durations.len() as int;
    let product = count * percentile;
    lemma_histogram(durations, 0);
    assert(1 <= product <= 100 * count) by (nonlinear_arith)
        requires
            product == count * percentile,
            1 <= percentile <= 100,
            1 <= count,
    ;
    let rank = histogram.rank(percentile);
    assert(rank == ceiling(product, 100));
    assert(1 <= rank <= count);
    lemma_reach(histogram.buckets, rank, 0);
    let index = reach(histogram.buckets, rank, 0, 0)->0;
    let bucket = bucket_of(ranked as nat) as int;
    law_bucket_bounds(ranked);
    lemma_at_most(durations, ranked);
    lemma_before(durations, bucket + 1);
    lemma_before(durations, bucket);
    if index < bucket {
        lemma_total_part(histogram.buckets, index, bucket);
    }
    if bucket < index {
        lemma_total_part(histogram.buckets, bucket, index);
    }
    assert(index == bucket);
    law_bounds_grow(0, bucket);
}

/// Of nothing every percentile is nothing.
pub proof fn law_percentile_of_nothing(percentile: u64)
    ensures
        histogram_of(Seq::empty()).percentile(percentile).nanos == 0,
{
}

} // verus!
