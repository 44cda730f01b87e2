//! Histograms over powers of two.

use vstd::prelude::*;

verus! {

/// How many buckets a histogram has: one for zero and one for each number of
/// binary digits.
pub const BUCKETS: usize = 65;

/// How often values of each size were seen, and the largest of them. Counts
/// stop at their maximum.
#[derive(Clone, Copy, Debug, PartialEq)]
pub struct Log2Histogram {
    pub buckets: [u64; 65],
    pub count: u64,
    pub maximum: u64,
}

/// The value of a [`Log2Histogram`].
#[verifier::ext_equal]
pub struct HistogramView {
    pub buckets: Seq<u64>,
    pub count: u64,
    pub maximum: u64,
}

impl View for Log2Histogram {
    type V = HistogramView;

    open spec fn view(&self) -> HistogramView {
        HistogramView { buckets: self.buckets@, count: self.count, maximum: self.maximum }
    }
}

/// How many binary digits a value has: the bucket that it falls into.
pub open spec fn bucket_of(value: nat) -> nat
    decreases value,
{
    if value == 0 {
        0
    } else {
        1 + bucket_of(value / 2)
    }
}

/// The largest value of a bucket.
pub open spec fn bucket_limit(bucket: nat) -> nat
    decreases bucket,
{
    if bucket == 0 {
        0
    } else {
        2 * bucket_limit((bucket - 1) as nat) + 1
    }
}

/// The larger of two counts.
pub open spec fn larger(left: u64, right: u64) -> u64 {
    if left >= right {
        left
    } else {
        right
    }
}

/// The smaller of two counts.
pub open spec fn smaller(left: u64, right: u64) -> u64 {
    if left <= right {
        left
    } else {
        right
    }
}

/// The larger of two counts.
pub fn max_of(left: u64, right: u64) -> (result: u64)
    ensures
        result == larger(left, right),
{
    if left >= right {
        left
    } else {
        right
    }
}

/// The smaller of two counts.
pub fn min_of(left: u64, right: u64) -> (result: u64)
    ensures
        result == smaller(left, right),
{
    if left <= right {
        left
    } else {
        right
    }
}

impl HistogramView {
    /// A histogram of nothing.
    pub open spec fn empty() -> HistogramView {
        HistogramView { buckets: Seq::new(65, |i: int| 0u64), count: 0, maximum: 0 }
    }

    /// A histogram after one value was seen a number of times.
    pub open spec fn recorded(self, value: u64, times: u64) -> HistogramView {
        let bucket = bucket_of(value as nat) as int;
        HistogramView {
            buckets: self.buckets.update(bucket, self.buckets[bucket].saturating_add(times)),
            count: self.count.saturating_add(times),
            maximum: larger(self.maximum, value),
        }
    }

    /// A histogram of what two histograms saw.
    pub open spec fn merged(self, other: HistogramView) -> HistogramView {
        HistogramView {
            buckets: Seq::new(65, |i: int| self.buckets[i].saturating_add(other.buckets[i])),
            count: self.count.saturating_add(other.count),
            maximum: larger(self.maximum, other.maximum),
        }
    }

    /// The upper bound of a quantile, in hundredths: the largest value of the
    /// first bucket at which enough values were seen, and no more than the
    /// largest value of all.
    pub open spec fn quantile(self, percent: u64) -> u64 {
        if self.count == 0 {
            0
        } else {
            smaller(
                bucket_limit(
                    quantile_bucket(self.buckets, rank_of(self.count as nat, percent as nat), 0),
                ) as u64,
                self.maximum,
            )
        }
    }
}

/// How many of the values, in order, a quantile covers: at least one.
pub open spec fn rank_of(count: nat, percent: nat) -> nat {
    let rank = (count * percent + 99) / 100;
    if rank == 0 {
        1
    } else {
        rank
    }
}

/// How many values the first buckets hold.
pub open spec fn running(buckets: Seq<u64>, length: nat) -> nat
    decreases length,
{
    if length == 0 {
        0
    } else {
        running(buckets, (length - 1) as nat) + buckets[length - 1] as nat
    }
}

/// The first bucket at which enough values were seen, the last one where there
/// is none.
pub open spec fn quantile_bucket(buckets: Seq<u64>, rank: nat, from: nat) -> nat
    decreases 64 - from,
{
    if from >= 64 {
        64
    } else if running(buckets, from + 1) >= rank {
        from
    } else {
        quantile_bucket(buckets, rank, from + 1)
    }
}

pub proof fn lemma_limits_grow(low: nat, high: nat)
    requires
        low <= high,
    ensures
        bucket_limit(low) <= bucket_limit(high),
    decreases high,
{
    if low < high {
        lemma_limits_grow(low, (high - 1) as nat);
    }
}

pub proof fn lemma_last_limit()
    ensures
        bucket_limit(64) == u64::MAX,
{
    reveal_with_fuel(bucket_limit, 66);
}

/// A value is in the bucket of its own limit: no more than it, and more than
/// the limit of the bucket before.
pub proof fn lemma_bucket_brackets(value: nat)
    ensures
        value <= bucket_limit(bucket_of(value)),
        value > 0 ==> bucket_of(value) > 0 && bucket_limit((bucket_of(value) - 1) as nat) < value,
    decreases value,
{
    if value > 0 {
        lemma_bucket_brackets(value / 2);
    }
}

pub proof fn lemma_bucket_fits(value: nat, bucket: nat)
    requires
        value <= bucket_limit(bucket),
    ensures
        bucket_of(value) <= bucket,
{
    lemma_bucket_brackets(value);
    if bucket_of(value) > bucket {
        lemma_limits_grow(bucket, (bucket_of(value) - 1) as nat);
    }
}

fn bucket(value: u64) -> (bucket: usize)
    ensures
        bucket == bucket_of(value as nat),
        bucket < 65,
{
    let mut rest: u64 = value;
    let mut digits: usize = 0;
    proof {
        lemma_last_limit();
        lemma_bucket_fits(value as nat, 64);
    }
    while rest > 0
        invariant
            digits + bucket_of(rest as nat) == bucket_of(value as nat),
            bucket_of(value as nat) <= 64,
        decreases rest,
    {
        rest = rest / 2;
        digits += 1;
    }
    digits
}

fn limit(bucket: usize) -> (limit: u64)
    requires
        bucket <= 64,
    ensures
        limit == bucket_limit(bucket as nat),
{
    let mut limit: u64 = 0;
    let mut i: usize = 0;
    while i < bucket
        invariant
            i <= bucket <= 64,
            limit == bucket_limit(i as nat),
        decreases bucket - i,
    {
        proof {
            lemma_last_limit();
            lemma_limits_grow((i + 1) as nat, 64);
        }
        limit = limit * 2 + 1;
        i += 1;
    }
    limit
}

impl Default for Log2Histogram {
    fn default() -> (histogram: Log2Histogram)
        ensures
            histogram@ == HistogramView::empty(),
    {
        let histogram = Log2Histogram { buckets: [0u64; 65], count: 0, maximum: 0 };
        assert(histogram@ =~= HistogramView::empty());
        histogram
    }
}

impl Log2Histogram {
    /// Records one value.
    pub fn record(&mut self, value: u64)
        ensures
            final(self)@ == old(self)@.recorded(value, 1),
    {
        self.record_many(value, 1);
    }

    /// Records one value a number of times.
    pub fn record_many(&mut self, value: u64, times: u64)
        ensures
            final(self)@ == old(self)@.recorded(value, times),
    {
        let place: usize = bucket(value);
        let next: u64 = self.buckets[place].saturating_add(times);
        self.buckets[place] = next;
        self.count = self.count.saturating_add(times);
        self.maximum = max_of(self.maximum, value);
        assert(self@ =~= old(self)@.recorded(value, times));
    }

    /// Adds what another histogram saw.
    pub fn merge(&mut self, other: &Log2Histogram)
        ensures
            final(self)@ == old(self)@.merged(other@),
    {
        let ghost before = self@;
        let mut i: usize = 0;
        while i < 65
            invariant
                i <= 65,
                before.buckets.len() == 65,
                self.count == before.count,
                self.maximum == before.maximum,
                forall|k: int|
                    0 <= k < i ==> self.buckets@[k] == before.buckets[k].saturating_add(
                        other.buckets@[k],
                    ),
                forall|k: int| i <= k < 65 ==> self.buckets@[k] == before.buckets[k],
            decreases 65 - i,
        {
            let next: u64 = self.buckets[i].saturating_add(other.buckets[i]);
            self.buckets[i] = next;
            i += 1;
        }
        self.count = self.count.saturating_add(other.count);
        self.maximum = max_of(self.maximum, other.maximum);
        assert(self@ =~= before.merged(other@));
    }

    /// How many values were seen.
    pub fn count(&self) -> (count: u64)
        ensures
            count == self@.count,
    {
        self.count
    }

    /// The largest value that was seen.
    pub fn maximum(&self) -> (maximum: u64)
        ensures
            maximum == self@.maximum,
    {
        self.maximum
    }

    /// The upper bound of a quantile, in hundredths.
    pub fn quantile_upper_bound(&self, percent: u64) -> (bound: u64)
        ensures
            bound == self@.quantile(percent),
    {
        if self.count == 0 {
            return 0;
        }
        assert(self.count * percent <= 0xffff_ffff_ffff_ffff * 0xffff_ffff_ffff_ffff)
            by (nonlinear_arith)
            requires
                self.count <= 0xffff_ffff_ffff_ffff,
                percent <= 0xffff_ffff_ffff_ffff,
        ;
        let product: u128 = self.count as u128 * percent as u128;
        let mut rank: u128 = (product + 99) / 100;
        if rank == 0 {
            rank = 1;
        }
        let mut i: usize = 0;
        let mut seen: u128 = self.buckets[0] as u128;
        assert(running(self.buckets@, 0) == 0);
        while i < 64 && seen < rank
            invariant
                i <= 64,
                seen == running(self.buckets@, (i + 1) as nat),
                seen <= (i + 1) * u64::MAX,
                quantile_bucket(self.buckets@, rank as nat, 0) == quantile_bucket(
                    self.buckets@,
                    rank as nat,
                    i as nat,
                ),
            decreases 64 - i,
        {
            i += 1;
            seen = seen + self.buckets[i] as u128;
        }
        proof {
            lemma_last_limit();
            lemma_limits_grow(i as nat, 64);
        }
        min_of(limit(i), self.maximum)
    }
}

// ---- what histograms promise ----

/// The histogram of a run of values.
pub open spec fn gathered(values: Seq<u64>) -> HistogramView
    decreases values.len(),
{
    if values.len() == 0 {
        HistogramView::empty()
    } else {
        gathered(values.drop_last()).recorded(values.last(), 1)
    }
}

/// How many of a run of values are no larger than a bound.
pub open spec fn at_most(values: Seq<u64>, bound: u64) -> nat
    decreases values.len(),
{
    if values.len() == 0 {
        0
    } else {
        at_most(values.drop_last(), bound) + (if values.last() <= bound {
            1nat
        } else {
            0nat
        })
    }
}

/// How many of a run of values fall into the first buckets.
pub open spec fn falling(values: Seq<u64>, length: nat) -> nat
    decreases values.len(),
{
    if values.len() == 0 {
        0
    } else {
        falling(values.drop_last(), length) + (if bucket_of(values.last() as nat) < length {
            1nat
        } else {
            0nat
        })
    }
}

proof fn lemma_running_update(buckets: Seq<u64>, place: int, value: u64, length: nat)
    requires
        0 <= place < buckets.len(),
        length <= buckets.len(),
    ensures
        running(buckets.update(place, value), length) == running(buckets, length) + (if place
            < length {
            value as int - buckets[place] as int
        } else {
            0int
        }),
    decreases length,
{
    if length > 0 {
        lemma_running_update(buckets, place, value, (length - 1) as nat);
    }
}

proof fn lemma_running_zero(length: nat)
    requires
        length <= 65,
    ensures
        running(HistogramView::empty().buckets, length) == 0,
    decreases length,
{
    if length > 0 {
        lemma_running_zero((length - 1) as nat);
    }
}

proof fn lemma_one_bucket(buckets: Seq<u64>, place: nat, length: nat)
    requires
        place < length <= buckets.len(),
    ensures
        buckets[place as int] <= running(buckets, length),
    decreases length,
{
    if place < length - 1 {
        lemma_one_bucket(buckets, place, (length - 1) as nat);
    }
}

pub proof fn lemma_gathered(values: Seq<u64>)
    requires
        values.len() <= u64::MAX,
    ensures
        gathered(values).buckets.len() == 65,
        gathered(values).count == values.len(),
        forall|length: nat|
            length <= 65 ==> #[trigger] running(gathered(values).buckets, length) == falling(
                values,
                length,
            ),
        forall|i: int| 0 <= i < values.len() ==> #[trigger] values[i] <= gathered(values).maximum,
    decreases values.len(),
{
    if values.len() == 0 {
        assert forall|length: nat| length <= 65 implies #[trigger] running(
            gathered(values).buckets,
            length,
        ) == falling(values, length) by {
            lemma_running_zero(length);
        }
    } else {
        let shorter = values.drop_last();
        lemma_gathered(shorter);
        let before = gathered(shorter);
        let value = values.last();
        let place = bucket_of(value as nat);
        lemma_last_limit();
        lemma_bucket_fits(value as nat, 64);
        lemma_falling_fits(shorter, 65);
        lemma_one_bucket(before.buckets, place, 65);
        assert(running(before.buckets, 65) == falling(shorter, 65));
        assert forall|length: nat| length <= 65 implies #[trigger] running(
            gathered(values).buckets,
            length,
        ) == falling(values, length) by {
            lemma_running_update(
                before.buckets,
                place as int,
                before.buckets[place as int].saturating_add(1),
                length,
            );
            assert(running(before.buckets, length) == falling(shorter, length));
        }
        assert forall|i: int| 0 <= i < values.len() implies #[trigger] values[i] <= gathered(
            values,
        ).maximum by {
            if i < values.len() - 1 {
                assert(shorter[i] <= before.maximum);
            }
        }
    }
}

proof fn lemma_falling_fits(values: Seq<u64>, length: nat)
    ensures
        falling(values, length) <= values.len(),
    decreases values.len(),
{
    if values.len() > 0 {
        lemma_falling_fits(values.drop_last(), length);
    }
}

proof fn lemma_falling_all(values: Seq<u64>)
    ensures
        falling(values, 65) == values.len(),
    decreases values.len(),
{
    if values.len() > 0 {
        lemma_falling_all(values.drop_last());
        lemma_last_limit();
        lemma_bucket_fits(values.last() as nat, 64);
    }
}

proof fn lemma_falling_bound(values: Seq<u64>, bucket: nat, maximum: u64)
    requires
        bucket <= 64,
        forall|i: int| 0 <= i < values.len() ==> #[trigger] values[i] <= maximum,
    ensures
        falling(values, bucket + 1) <= at_most(
            values,
            smaller(bucket_limit(bucket) as u64, maximum),
        ),
    decreases values.len(),
{
    if values.len() > 0 {
        let shorter = values.drop_last();
        assert forall|i: int| 0 <= i < shorter.len() implies #[trigger] shorter[i] <= maximum by {
            assert(values[i] <= maximum);
        }
        lemma_falling_bound(shorter, bucket, maximum);
        let value = values.last() as nat;
        if bucket_of(value) <= bucket {
            lemma_bucket_brackets(value);
            lemma_limits_grow(bucket_of(value), bucket);
            lemma_last_limit();
            lemma_limits_grow(bucket, 64);
        }
        assert(values[values.len() - 1] <= maximum);
    }
}

proof fn lemma_quantile_reached(buckets: Seq<u64>, rank: nat, from: nat)
    requires
        buckets.len() == 65,
        running(buckets, 65) >= rank,
        from <= 64,
    ensures
        quantile_bucket(buckets, rank, from) <= 64,
        running(buckets, quantile_bucket(buckets, rank, from) + 1) >= rank,
    decreases 64 - from,
{
    if from < 64 && running(buckets, from + 1) < rank {
        lemma_quantile_reached(buckets, rank, from + 1);
    }
}

/// A quantile's upper bound covers at least its share of the values that were
/// recorded.
pub proof fn quantiles_cover_their_share(values: Seq<u64>, percent: u64)
    requires
        0 < values.len() <= u64::MAX,
        percent <= 100,
    ensures
        at_most(values, gathered(values).quantile(percent)) >= rank_of(
            values.len(),
            percent as nat,
        ),
{
    lemma_gathered(values);
    lemma_falling_all(values);
    let histogram = gathered(values);
    let rank = rank_of(values.len(), percent as nat);
    assert(values.len() * percent <= values.len() * 100) by (nonlinear_arith)
        requires
            percent <= 100,
    ;
    assert(rank <= values.len());
    assert(running(histogram.buckets, 65) == falling(values, 65));
    lemma_quantile_reached(histogram.buckets, rank, 0);
    let bucket = quantile_bucket(histogram.buckets, rank, 0);
    assert(running(histogram.buckets, bucket + 1) == falling(values, bucket + 1));
    lemma_falling_bound(values, bucket, histogram.maximum);
}

/// No quantile is above the largest value that was recorded.
pub proof fn quantiles_stay_below_the_maximum(histogram: HistogramView, percent: u64)
    ensures
        histogram.quantile(percent) <= histogram.maximum,
{
}

/// Merging is recording: what one histogram recorded before a merge is the
/// same as if it were recorded after it.
pub proof fn merging_is_recording(left: HistogramView, right: HistogramView, value: u64, times: u64)
    requires
        left.buckets.len() == 65,
        right.buckets.len() == 65,
    ensures
        left.merged(right.recorded(value, times)) == left.merged(right).recorded(value, times),
        left.recorded(value, times).merged(right) == left.merged(right).recorded(value, times),
{
    lemma_last_limit();
    lemma_bucket_fits(value as nat, 64);
    assert(left.merged(right.recorded(value, times)) =~= left.merged(right).recorded(value, times));
    assert(left.recorded(value, times).merged(right) =~= left.merged(right).recorded(value, times));
}

/// Recording keeps the buckets.
pub broadcast proof fn recording_keeps_buckets(histogram: HistogramView, value: u64, times: u64)
    requires
        histogram.buckets.len() == 65,
    ensures
        (#[trigger] histogram.recorded(value, times)).buckets.len() == 65,
{
    lemma_last_limit();
    lemma_bucket_fits(value as nat, 64);
}

/// Merging with nothing changes nothing.
pub proof fn merging_nothing_changes_nothing(histogram: HistogramView)
    requires
        histogram.buckets.len() == 65,
    ensures
        histogram.merged(HistogramView::empty()) == histogram,
        HistogramView::empty().merged(histogram) == histogram,
{
    assert(histogram.merged(HistogramView::empty()) =~= histogram);
    assert(HistogramView::empty().merged(histogram) =~= histogram);
}

/// The order of merging does not matter.
pub proof fn merging_commutes(left: HistogramView, right: HistogramView)
    ensures
        left.merged(right) == right.merged(left),
{
    assert(left.merged(right) =~= right.merged(left));
}

} // verus!
