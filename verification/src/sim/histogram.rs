//! Duration histograms of a calibration profile.
//!
//! Sample counts are in millionths of a sample and bucket bounds in nanoseconds.

use vstd::prelude::*;
use rand_xoshiro::Xoshiro256PlusPlus;
use crate::chance::draw_between;
pub use crate::pairs::{has_label, label, label_of, label_views, labelled};

verus! {

/// One sample, in the unit of sample counts.
pub const SAMPLE: u64 = 1_000_000;

/// The largest total of the counts of a histogram: two hundred times as many, by a
/// span in nanoseconds, is what 128 bits hold.
pub const MAX_COUNT: u64 = 92_233_720_368_547_758;

/// A bucket: how many samples lie above the bound before it and at or below its
/// own. The last bucket has no bound.
#[derive(Clone, Copy, Debug, PartialEq, Eq, Structural)]
pub struct CalibrationBucket {
    pub upper_bound: Option<u64>,
    pub count: u64,
}

/// The samples of one combination of labels.
#[derive(Debug)]
pub struct CalibrationSeries {
    /// Names of labels with their values.
    pub labels: Vec<(String, String)>,
    pub sample_count: u64,
    pub buckets: Vec<CalibrationBucket>,
}

/// A family of series.
#[derive(Debug)]
pub struct CalibrationHistogram {
    pub metric: String,
    pub series: Vec<CalibrationSeries>,
}

/// The total of bucket counts.
pub open spec fn bucket_sum(buckets: Seq<CalibrationBucket>) -> nat
    decreases buckets.len(),
{
    if buckets.len() == 0 {
        0
    } else {
        bucket_sum(buckets.drop_last()) + buckets.last().count as nat
    }
}

/// The total of all counts of a family: of its series and of their buckets.
pub open spec fn all_counts(series: Seq<CalibrationSeries>) -> nat
    decreases series.len(),
{
    if series.len() == 0 {
        0
    } else {
        all_counts(series.drop_last()) + series.last().sample_count as nat + bucket_sum(
            series.last().buckets@,
        )
    }
}

impl CalibrationHistogram {
    /// The counts add up to no more than a count can hold.
    pub open spec fn fits(&self) -> bool {
        all_counts(self.series@) <= MAX_COUNT
    }

    /// Whether the counts add up to no more than a count can hold.
    pub fn counts_fit(&self) -> (r: bool)
        ensures
            r == self.fits(),
    {
        let mut total: u64 = 0;
        let mut i: usize = 0;
        assert(self.series@.take(0) =~= Seq::<CalibrationSeries>::empty());
        while i < self.series.len()
            invariant
                i <= self.series@.len(),
                total == all_counts(self.series@.take(i as int)),
                total <= MAX_COUNT,
            decreases self.series.len() - i,
        {
            let series = &self.series[i];
            let ghost done = self.series@.take(i as int);
            assert(self.series@.take(i + 1).drop_last() =~= done);
            assert(self.series@.take(i + 1).last() == *series);
            let ghost before = total;
            let mut k: usize = 0;
            assert(series.buckets@.take(0) =~= Seq::<CalibrationBucket>::empty());
            if series.sample_count > MAX_COUNT - total {
                proof {
                    lemma_all_counts_grow(self.series@, i + 1);
                }
                return false;
            }
            total = total + series.sample_count;
            while k < series.buckets.len()
                invariant
                    i < self.series@.len(),
                    *series == self.series@[i as int],
                    self.series@.take(i + 1).drop_last() == self.series@.take(i as int),
                    self.series@.take(i + 1).last() == *series,
                    k <= series.buckets@.len(),
                    before == all_counts(self.series@.take(i as int)),
                    total == before + series.sample_count + bucket_sum(
                        series.buckets@.take(k as int),
                    ),
                    total <= MAX_COUNT,
                decreases series.buckets.len() - k,
            {
                assert(series.buckets@.take(k + 1).drop_last() =~= series.buckets@.take(k as int));
                if series.buckets[k].count > MAX_COUNT - total {
                    proof {
                        lemma_bucket_sum_grows(series.buckets@, k + 1);
                        lemma_all_counts_grow(self.series@, i + 1);
                    }
                    return false;
                }
                total = total + series.buckets[k].count;
                k += 1;
            }
            assert(series.buckets@.take(k as int) =~= series.buckets@);
            i += 1;
        }
        assert(self.series@.take(i as int) =~= self.series@);
        true
    }
}

proof fn lemma_bucket_sum_grows(buckets: Seq<CalibrationBucket>, n: int)
    requires
        0 <= n <= buckets.len(),
    ensures
        bucket_sum(buckets.take(n)) <= bucket_sum(buckets),
    decreases buckets.len() - n,
{
    if n < buckets.len() {
        assert(buckets.take(n + 1).drop_last() =~= buckets.take(n));
        lemma_bucket_sum_grows(buckets, n + 1);
    } else {
        assert(buckets.take(n) =~= buckets);
    }
}

proof fn lemma_all_counts_grow(series: Seq<CalibrationSeries>, n: int)
    requires
        0 <= n <= series.len(),
    ensures
        all_counts(series.take(n)) <= all_counts(series),
    decreases series.len() - n,
{
    if n < series.len() {
        assert(series.take(n + 1).drop_last() =~= series.take(n));
        lemma_all_counts_grow(series, n + 1);
    } else {
        assert(series.take(n) =~= series);
    }
}

/// Samples by their upper bounds. What the buckets do not hold of the count lies
/// above the last bound.
#[derive(Debug)]
pub struct MergedHistogram {
    pub count: u64,
    /// Bounds with the samples in their buckets, in ascending order of bounds.
    pub buckets: Vec<(u64, u64)>,
}

/// The model of a merged histogram.
#[verifier::ext_equal]
pub struct MergedView {
    pub count: nat,
    pub buckets: Seq<(nat, nat)>,
}

pub open spec fn bucket_views(buckets: Seq<(u64, u64)>) -> Seq<(nat, nat)> {
    Seq::new(buckets.len(), |i: int| (buckets[i].0 as nat, buckets[i].1 as nat))
}

impl View for MergedHistogram {
    type V = MergedView;

    open spec fn view(&self) -> MergedView {
        MergedView { count: self.count as nat, buckets: bucket_views(self.buckets@) }
    }
}

/// The total of the counts in buckets.
pub open spec fn counts_sum(buckets: Seq<(nat, nat)>) -> nat
    decreases buckets.len(),
{
    if buckets.len() == 0 {
        0
    } else {
        buckets[0].1 + counts_sum(buckets.skip(1))
    }
}

impl MergedView {
    /// The bounds ascend, and the counts add up to no more than a count can hold.
    pub open spec fn wf(self) -> bool {
        &&& self.count <= MAX_COUNT
        &&& counts_sum(self.buckets) <= MAX_COUNT
        &&& ascending(self.buckets)
    }
}

/// The bounds do not descend.
pub open spec fn ascending(buckets: Seq<(nat, nat)>) -> bool {
    forall|i: int, j: int|
        0 <= i <= j < buckets.len() ==> (#[trigger] buckets[i]).0 <= (#[trigger] buckets[j]).0
}

/// The buckets with `n` more samples at a bound.
pub open spec fn add_at(buckets: Seq<(nat, nat)>, bound: nat, n: nat) -> Seq<(nat, nat)>
    decreases buckets.len(),
{
    if buckets.len() == 0 || bound < buckets[0].0 {
        seq![(bound, n)] + buckets
    } else if buckets[0].0 == bound {
        seq![(bound, buckets[0].1 + n)] + buckets.skip(1)
    } else {
        seq![buckets[0]] + add_at(buckets.skip(1), bound, n)
    }
}

/// The samples at a bound.
pub open spec fn samples_at(buckets: Seq<(nat, nat)>, bound: nat) -> nat
    decreases buckets.len(),
{
    if buckets.len() == 0 {
        0
    } else {
        samples_at(buckets.skip(1), bound) + if buckets[0].0 == bound {
            buckets[0].1
        } else {
            0
        }
    }
}

pub(crate) proof fn lemma_add_at(buckets: Seq<(nat, nat)>, bound: nat, n: nat)
    requires
        ascending(buckets),
    ensures
        ascending(add_at(buckets, bound, n)),
        counts_sum(add_at(buckets, bound, n)) == counts_sum(buckets) + n,
        add_at(buckets, bound, n).len() > 0,
        add_at(buckets, bound, n)[0].0 == if buckets.len() == 0 || bound < buckets[0].0 {
            bound
        } else {
            buckets[0].0
        },
    decreases buckets.len(),
{
    let r = add_at(buckets, bound, n);
    if buckets.len() == 0 || bound < buckets[0].0 {
        assert(r.skip(1) =~= buckets);
        assert forall|i: int, j: int| 0 <= i <= j < r.len() implies (#[trigger] r[i]).0 <= (
        #[trigger] r[j]).0 by {
            if i > 0 {
                assert(r[i] == buckets[i - 1] && r[j] == buckets[j - 1]);
            } else if j > 0 {
                assert(r[j] == buckets[j - 1]);
                assert(buckets[0].0 <= buckets[j - 1].0);
            }
        }
    } else if buckets[0].0 == bound {
        assert(r.skip(1) =~= buckets.skip(1));
        assert forall|i: int, j: int| 0 <= i <= j < r.len() implies (#[trigger] r[i]).0 <= (
        #[trigger] r[j]).0 by {
            assert(r[i].0 == buckets[i].0 && r[j].0 == buckets[j].0);
        }
    } else {
        let rest = buckets.skip(1);
        assert forall|i: int, j: int| 0 <= i <= j < rest.len() implies (#[trigger] rest[i]).0 <= (
        #[trigger] rest[j]).0 by {
            assert(rest[i] == buckets[i + 1] && rest[j] == buckets[j + 1]);
        }
        lemma_add_at(rest, bound, n);
        let tail = add_at(rest, bound, n);
        assert(r.skip(1) =~= tail);
        assert(rest.len() > 0 ==> buckets[0].0 <= buckets[1].0 && rest[0] == buckets[1]);
        assert(buckets[0].0 <= tail[0].0);
        assert forall|i: int, j: int| 0 <= i <= j < r.len() implies (#[trigger] r[i]).0 <= (
        #[trigger] r[j]).0 by {
            if i > 0 {
                assert(r[i] == tail[i - 1] && r[j] == tail[j - 1]);
            } else if j > 0 {
                assert(r[j] == tail[j - 1]);
                assert(tail[0].0 <= tail[j - 1].0);
            }
        }
    }
}

/// Adding samples at a bound counts them there and nowhere else.
pub proof fn law_added_samples_are_counted(buckets: Seq<(nat, nat)>, bound: nat, n: nat, at: nat)
    requires
        ascending(buckets),
    ensures
        samples_at(add_at(buckets, bound, n), at) == samples_at(buckets, at) + if at == bound {
            n
        } else {
            0
        },
    decreases buckets.len(),
{
    let r = add_at(buckets, bound, n);
    if buckets.len() == 0 || bound < buckets[0].0 {
        assert(r.skip(1) =~= buckets);
    } else if buckets[0].0 == bound {
        assert(r.skip(1) =~= buckets.skip(1));
    } else {
        let rest = buckets.skip(1);
        assert forall|i: int, j: int| 0 <= i <= j < rest.len() implies (#[trigger] rest[i]).0 <= (
        #[trigger] rest[j]).0 by {
            assert(rest[i] == buckets[i + 1] && rest[j] == buckets[j + 1]);
        }
        law_added_samples_are_counted(rest, bound, n, at);
        assert(r.skip(1) =~= add_at(rest, bound, n));
    }
}

proof fn lemma_add_at_from(buckets: Seq<(nat, nat)>, bound: nat, n: nat, i: int)
    requires
        0 <= i <= buckets.len(),
        forall|j: int| 0 <= j < i ==> (#[trigger] buckets[j]).0 < bound,
    ensures
        add_at(buckets, bound, n) == buckets.take(i) + add_at(buckets.skip(i), bound, n),
    decreases i,
{
    if i == 0 {
        assert(buckets.skip(0) =~= buckets);
        assert(buckets.take(0) + add_at(buckets, bound, n) =~= add_at(buckets, bound, n));
    } else {
        let rest = buckets.skip(1);
        assert(buckets[0].0 < bound);
        assert forall|j: int| 0 <= j < i - 1 implies (#[trigger] rest[j]).0 < bound by {
            assert(rest[j] == buckets[j + 1]);
        }
        lemma_add_at_from(rest, bound, n, i - 1);
        assert(rest.skip(i - 1) =~= buckets.skip(i));
        assert(seq![buckets[0]] + (rest.take(i - 1) + add_at(buckets.skip(i), bound, n)) =~=
            buckets.take(i) + add_at(buckets.skip(i), bound, n));
    }
}

proof fn lemma_count_in_sum(buckets: Seq<(nat, nat)>, i: int)
    requires
        0 <= i < buckets.len(),
    ensures
        buckets[i].1 <= counts_sum(buckets),
    decreases buckets.len(),
{
    if i > 0 {
        assert(buckets.skip(1)[i - 1] == buckets[i]);
        lemma_count_in_sum(buckets.skip(1), i - 1);
    }
}

/// Adds samples at a bound.
pub(crate) fn add_samples(buckets: &mut Vec<(u64, u64)>, bound: u64, n: u64)
    requires
        ascending(bucket_views(old(buckets)@)),
        counts_sum(bucket_views(old(buckets)@)) + n <= MAX_COUNT,
    ensures
        bucket_views(final(buckets)@) == add_at(
            bucket_views(old(buckets)@),
            bound as nat,
            n as nat,
        ),
        ascending(bucket_views(final(buckets)@)),
        counts_sum(bucket_views(final(buckets)@)) == counts_sum(bucket_views(old(buckets)@)) + n,
{
    let ghost before = bucket_views(buckets@);
    let mut i: usize = 0;
    while i < buckets.len() && buckets[i].0 < bound
        invariant
            i <= buckets@.len(),
            before == bucket_views(buckets@),
            forall|j: int| 0 <= j < i ==> (#[trigger] before[j]).0 < bound,
        decreases buckets.len() - i,
    {
        assert(before[i as int].0 == buckets@[i as int].0);
        i += 1;
    }
    proof {
        lemma_add_at_from(before, bound as nat, n as nat, i as int);
        lemma_add_at(before, bound as nat, n as nat);
        if i < before.len() {
            assert(before.skip(i as int)[0] == before[i as int]);
            lemma_count_in_sum(before, i as int);
        }
    }
    if i < buckets.len() && buckets[i].0 == bound {
        let sum: u64 = buckets[i].1 + n;
        buckets.set(i, (bound, sum));
        assert(bucket_views(buckets@) =~= before.take(i as int) + (seq![(bound as nat, sum as nat)]
            + before.skip(i as int).skip(1)));
    } else {
        buckets.insert(i, (bound, n));
        assert(bucket_views(buckets@) =~= before.take(i as int) + (seq![(bound as nat, n as nat)]
            + before.skip(i as int)));
    }
}

/// The buckets with those of a series added. What has no bound is left out.
pub open spec fn add_buckets(
    buckets: Seq<(nat, nat)>,
    more: Seq<CalibrationBucket>,
) -> Seq<(nat, nat)>
    decreases more.len(),
{
    if more.len() == 0 {
        buckets
    } else {
        let before = add_buckets(buckets, more.drop_last());
        match more.last().upper_bound {
            Some(bound) => add_at(before, bound as nat, more.last().count as nat),
            None => before,
        }
    }
}

/// What a series adds to a merged histogram.
pub open spec fn add_series(merged: MergedView, series: CalibrationSeries) -> MergedView {
    MergedView {
        count: merged.count + series.sample_count as nat,
        buckets: add_buckets(merged.buckets, series.buckets@),
    }
}

/// The histogram of no samples.
pub open spec fn no_samples() -> MergedView {
    MergedView { count: 0, buckets: Seq::empty() }
}

/// The series that pass a test, merged.
pub open spec fn merged(
    series: Seq<CalibrationSeries>,
    keep: spec_fn(Seq<(Seq<char>, Seq<char>)>) -> bool,
) -> MergedView
    decreases series.len(),
{
    if series.len() == 0 {
        no_samples()
    } else {
        let before = merged(series.drop_last(), keep);
        if keep(label_views(series.last().labels@)) {
            add_series(before, series.last())
        } else {
            before
        }
    }
}

proof fn lemma_add_buckets(buckets: Seq<(nat, nat)>, more: Seq<CalibrationBucket>)
    requires
        ascending(buckets),
    ensures
        ascending(add_buckets(buckets, more)),
        counts_sum(add_buckets(buckets, more)) <= counts_sum(buckets) + bucket_sum(more),
    decreases more.len(),
{
    if more.len() > 0 {
        lemma_add_buckets(buckets, more.drop_last());
        let before = add_buckets(buckets, more.drop_last());
        match more.last().upper_bound {
            Some(bound) => {
                lemma_add_at(before, bound as nat, more.last().count as nat);
            },
            None => {},
        }
    }
}

/// A merged histogram is in order, and holds no more than its family counts.
pub proof fn law_merged_is_well_formed(
    series: Seq<CalibrationSeries>,
    keep: spec_fn(Seq<(Seq<char>, Seq<char>)>) -> bool,
)
    ensures
        ascending(merged(series, keep).buckets),
        merged(series, keep).count + counts_sum(merged(series, keep).buckets) <= all_counts(series),
        all_counts(series) <= MAX_COUNT ==> merged(series, keep).wf(),
    decreases series.len(),
{
    if series.len() > 0 {
        law_merged_is_well_formed(series.drop_last(), keep);
        lemma_add_buckets(merged(series.drop_last(), keep).buckets, series.last().buckets@);
    }
}

impl MergedHistogram {
    /// The histogram of no samples.
    pub fn empty() -> (r: MergedHistogram)
        ensures
            r@ == no_samples(),
            r@.wf(),
    {
        let r = MergedHistogram { count: 0, buckets: Vec::new() };
        assert(r@.buckets =~= Seq::<(nat, nat)>::empty());
        r
    }

    /// Adds the samples of a series.
    pub(crate) fn add(&mut self, series: &CalibrationSeries)
        requires
            old(self)@.wf(),
            old(self)@.count + series.sample_count <= MAX_COUNT,
            counts_sum(old(self)@.buckets) + bucket_sum(series.buckets@) <= MAX_COUNT,
        ensures
            final(self)@ == add_series(old(self)@, *series),
            final(self)@.wf(),
    {
        let ghost before = self@;
        self.count = self.count + series.sample_count;
        let mut k: usize = 0;
        assert(series.buckets@.take(0) =~= Seq::<CalibrationBucket>::empty());
        while k < series.buckets.len()
            invariant
                k <= series.buckets@.len(),
                ascending(before.buckets),
                counts_sum(before.buckets) + bucket_sum(series.buckets@) <= MAX_COUNT,
                self.count == before.count + series.sample_count,
                bucket_views(self.buckets@) == add_buckets(
                    before.buckets,
                    series.buckets@.take(k as int),
                ),
            decreases series.buckets.len() - k,
        {
            let bucket = series.buckets[k];
            proof {
                let done = series.buckets@.take(k as int);
                assert(series.buckets@.take(k + 1).drop_last() =~= done);
                assert(series.buckets@.take(k + 1).last() == bucket);
                lemma_add_buckets(before.buckets, done);
                lemma_bucket_sum_grows(series.buckets@, k + 1);
            }
            if let Some(bound) = bucket.upper_bound {
                add_samples(&mut self.buckets, bound, bucket.count);
            }
            k += 1;
        }
        proof {
            assert(series.buckets@.take(k as int) =~= series.buckets@);
            lemma_add_buckets(before.buckets, series.buckets@);
            assert(self@ =~= add_series(before, *series));
        }
    }

    /// The histogram of one series.
    pub fn from_series(series: &CalibrationSeries) -> (r: MergedHistogram)
        requires
            series.sample_count <= MAX_COUNT,
            bucket_sum(series.buckets@) <= MAX_COUNT,
        ensures
            r@ == series_histogram(*series),
            r@.wf(),
    {
        let mut buckets: Vec<(u64, u64)> = Vec::new();
        let mut k: usize = 0;
        assert(series.buckets@.take(0) =~= Seq::<CalibrationBucket>::empty());
        assert(bucket_views(buckets@) =~= Seq::<(nat, nat)>::empty());
        while k < series.buckets.len()
            invariant
                k <= series.buckets@.len(),
                bucket_views(buckets@) == bounded_buckets(series.buckets@.take(k as int)),
            decreases series.buckets.len() - k,
        {
            let bucket = series.buckets[k];
            proof {
                assert(series.buckets@.take(k + 1).drop_last() =~= series.buckets@.take(k as int));
                assert(series.buckets@.take(k + 1).last() == bucket);
            }
            if let Some(bound) = bucket.upper_bound {
                place_samples(&mut buckets, bound, bucket.count);
            }
            k += 1;
        }
        proof {
            assert(series.buckets@.take(k as int) =~= series.buckets@);
            lemma_bounded_buckets(series.buckets@);
        }
        MergedHistogram { count: series.sample_count, buckets }
    }
}

/// The buckets with one more, in the order of bounds and behind equal ones.
pub open spec fn placed(buckets: Seq<(nat, nat)>, bound: nat, n: nat) -> Seq<(nat, nat)>
    decreases buckets.len(),
{
    if buckets.len() == 0 || bound < buckets[0].0 {
        seq![(bound, n)] + buckets
    } else {
        seq![buckets[0]] + placed(buckets.skip(1), bound, n)
    }
}

/// The buckets that have a bound, in the order of bounds.
pub open spec fn bounded_buckets(buckets: Seq<CalibrationBucket>) -> Seq<(nat, nat)>
    decreases buckets.len(),
{
    if buckets.len() == 0 {
        Seq::empty()
    } else {
        let before = bounded_buckets(buckets.drop_last());
        match buckets.last().upper_bound {
            Some(bound) => placed(before, bound as nat, buckets.last().count as nat),
            None => before,
        }
    }
}

/// The histogram of one series.
pub open spec fn series_histogram(series: CalibrationSeries) -> MergedView {
    MergedView {
        count: series.sample_count as nat,
        buckets: bounded_buckets(series.buckets@),
    }
}

proof fn lemma_placed(buckets: Seq<(nat, nat)>, bound: nat, n: nat)
    requires
        ascending(buckets),
    ensures
        ascending(placed(buckets, bound, n)),
        counts_sum(placed(buckets, bound, n)) == counts_sum(buckets) + n,
        placed(buckets, bound, n).len() > 0,
        placed(buckets, bound, n)[0].0 == if buckets.len() == 0 || bound < buckets[0].0 {
            bound
        } else {
            buckets[0].0
        },
    decreases buckets.len(),
{
    let r = placed(buckets, bound, n);
    if buckets.len() == 0 || bound < buckets[0].0 {
        assert(r.skip(1) =~= buckets);
        assert forall|i: int, j: int| 0 <= i <= j < r.len() implies (#[trigger] r[i]).0 <= (
        #[trigger] r[j]).0 by {
            if i > 0 {
                assert(r[i] == buckets[i - 1] && r[j] == buckets[j - 1]);
            } else if j > 0 {
                assert(r[j] == buckets[j - 1]);
                assert(buckets[0].0 <= buckets[j - 1].0);
            }
        }
    } else {
        let rest = buckets.skip(1);
        assert forall|i: int, j: int| 0 <= i <= j < rest.len() implies (#[trigger] rest[i]).0 <= (
        #[trigger] rest[j]).0 by {
            assert(rest[i] == buckets[i + 1] && rest[j] == buckets[j + 1]);
        }
        lemma_placed(rest, bound, n);
        let tail = placed(rest, bound, n);
        assert(r.skip(1) =~= tail);
        assert(rest.len() > 0 ==> buckets[0].0 <= buckets[1].0 && rest[0] == buckets[1]);
        assert(buckets[0].0 <= tail[0].0);
        assert forall|i: int, j: int| 0 <= i <= j < r.len() implies (#[trigger] r[i]).0 <= (
        #[trigger] r[j]).0 by {
            if i > 0 {
                assert(r[i] == tail[i - 1] && r[j] == tail[j - 1]);
            } else if j > 0 {
                assert(r[j] == tail[j - 1]);
                assert(tail[0].0 <= tail[j - 1].0);
            }
        }
    }
}

proof fn lemma_bounded_buckets(buckets: Seq<CalibrationBucket>)
    ensures
        ascending(bounded_buckets(buckets)),
        counts_sum(bounded_buckets(buckets)) <= bucket_sum(buckets),
    decreases buckets.len(),
{
    if buckets.len() > 0 {
        lemma_bounded_buckets(buckets.drop_last());
        match buckets.last().upper_bound {
            Some(bound) => {
                lemma_placed(
                    bounded_buckets(buckets.drop_last()),
                    bound as nat,
                    buckets.last().count as nat,
                );
            },
            None => {},
        }
    }
}

proof fn lemma_placed_from(buckets: Seq<(nat, nat)>, bound: nat, n: nat, i: int)
    requires
        0 <= i <= buckets.len(),
        forall|j: int| 0 <= j < i ==> (#[trigger] buckets[j]).0 <= bound,
        i < buckets.len() ==> bound < buckets[i].0,
    ensures
        placed(buckets, bound, n) == buckets.take(i) + (seq![(bound, n)] + buckets.skip(i)),
    decreases i,
{
    if i == 0 {
        assert(placed(buckets, bound, n) =~= buckets.take(i) + (seq![(bound, n)] + buckets.skip(
            i,
        )));
    } else {
        let rest = buckets.skip(1);
        assert(buckets[0].0 <= bound);
        assert forall|j: int| 0 <= j < i - 1 implies (#[trigger] rest[j]).0 <= bound by {
            assert(rest[j] == buckets[j + 1]);
        }
        lemma_placed_from(rest, bound, n, i - 1);
        assert(placed(buckets, bound, n) =~= buckets.take(i) + (seq![(bound, n)] + buckets.skip(
            i,
        )));
    }
}

fn place_samples(buckets: &mut Vec<(u64, u64)>, bound: u64, n: u64)
    ensures
        bucket_views(final(buckets)@) == placed(
            bucket_views(old(buckets)@),
            bound as nat,
            n as nat,
        ),
{
    let ghost before = bucket_views(buckets@);
    let mut i: usize = 0;
    while i < buckets.len() && buckets[i].0 <= bound
        invariant
            i <= buckets@.len(),
            before == bucket_views(buckets@),
            forall|j: int| 0 <= j < i ==> (#[trigger] before[j]).0 <= bound,
        decreases buckets.len() - i,
    {
        assert(before[i as int].0 == buckets@[i as int].0);
        i += 1;
    }
    proof {
        lemma_placed_from(before, bound as nat, n as nat, i as int);
    }
    buckets.insert(i, (bound, n));
    assert(bucket_views(buckets@) =~= before.take(i as int) + (seq![(bound as nat, n as nat)]
        + before.skip(i as int)));
}

/// Where a share of the samples ends: `target` is in hundredths of the count's
/// unit. Within a bucket the samples are spread evenly; the result is rounded to
/// the nearest nanosecond. Samples above the last bound count as at it.
pub open spec fn interpolated(
    buckets: Seq<(nat, nat)>,
    previous: nat,
    cumulative: nat,
    target: nat,
) -> nat
    decreases buckets.len(),
{
    if buckets.len() == 0 {
        previous
    } else {
        let (bound, n) = buckets[0];
        let next = cumulative + n;
        if 100 * next >= target {
            if n == 0 {
                bound
            } else {
                previous + rounded(
                    ((bound - previous) * (target - 100 * cumulative)) as nat,
                    100 * n,
                )
            }
        } else {
            interpolated(buckets.skip(1), bound, next, target)
        }
    }
}

/// The quotient, rounded to the nearest integer, and up from the middle.
pub open spec fn rounded(a: nat, b: nat) -> nat {
    (2 * a + b) / (2 * b)
}

/// The rank that a percentage of the samples asks for, in hundredths of the
/// count's unit: at least that of one sample.
pub open spec fn rank(count: nat, percent: nat) -> nat {
    let p = if percent > 100 {
        100
    } else {
        percent
    };
    let asked = p * count;
    if asked < 100 * SAMPLE as nat {
        100 * SAMPLE as nat
    } else {
        asked
    }
}

/// The quantile at a percentage, in nanoseconds.
pub open spec fn quantile_of(m: MergedView, percent: nat) -> Option<nat> {
    if m.count == 0 || m.buckets.len() == 0 {
        None
    } else {
        Some(interpolated(m.buckets, 0, 0, rank(m.count, percent)))
    }
}

proof fn lemma_rounded(a: nat, b: nat, w: nat)
    requires
        b > 0,
        a <= w * b,
    ensures
        rounded(a, b) <= w,
{
    assert(2 * a + b < (w + 1) * (2 * b)) by (nonlinear_arith)
        requires
            b > 0,
            a <= w * b,
    ;
    assert((2 * a + b) / (2 * b) <= w) by (nonlinear_arith)
        requires
            b > 0,
            2 * a + b < (w + 1) * (2 * b),
    ;
}

proof fn lemma_share(width: nat, part: nat, whole: nat)
    requires
        whole > 0,
        part <= whole,
    ensures
        width * part <= width * whole,
        rounded(width * part, whole) <= width,
{
    assert(width * part <= width * whole) by (nonlinear_arith)
        requires
            part <= whole,
    ;
    lemma_rounded(width * part, whole, width);
}

impl MergedHistogram {
    /// The interpolated quantile at a percentage, in nanoseconds. An unbounded
    /// tail cannot be interpolated: it counts as at the largest bound.
    pub fn quantile(&self, percent: u64) -> (r: Option<u64>)
        requires
            self@.wf(),
        ensures
            match r {
                Some(ns) => quantile_of(self@, percent as nat) == Some(ns as nat),
                None => quantile_of(self@, percent as nat) is None,
            },
    {
        if self.count == 0 || self.buckets.len() == 0 {
            return None;
        }
        let p: u64 = if percent > 100 {
            100
        } else {
            percent
        };
        assert(p * self.count <= 100 * MAX_COUNT) by (nonlinear_arith)
            requires
                p <= 100,
                self.count <= MAX_COUNT,
        ;
        let asked: u128 = p as u128 * self.count as u128;
        let target: u128 = if asked < 100_000_000 {
            100_000_000
        } else {
            asked
        };
        let ghost all = self@.buckets;
        let mut previous: u64 = 0;
        let mut cumulative: u128 = 0;
        let mut i: usize = 0;
        assert(all.skip(0) =~= all);
        while i < self.buckets.len()
            invariant
                i <= self.buckets@.len(),
                all == bucket_views(self.buckets@),
                ascending(all),
                counts_sum(all) <= MAX_COUNT,
                target <= 100 * MAX_COUNT,
                cumulative + counts_sum(all.skip(i as int)) == counts_sum(all),
                100 * cumulative < target,
                forall|j: int| i <= j < all.len() ==> previous <= (#[trigger] all[j]).0,
                quantile_of(self@, percent as nat) == Some(
                    interpolated(all.skip(i as int), previous as nat, cumulative as nat, target as nat),
                ),
            decreases self.buckets.len() - i,
        {
            let bound: u64 = self.buckets[i].0;
            let n: u64 = self.buckets[i].1;
            let ghost rest = all.skip(i as int);
            assert(rest[0] == all[i as int]);
            assert(rest.skip(1) =~= all.skip(i + 1));
            let next: u128 = cumulative + n as u128;
            if 100 * next >= target {
                assert(n > 0);
                assert(previous <= all[i as int].0);
                let width: u128 = (bound - previous) as u128;
                let part: u128 = target - 100 * cumulative;
                let whole: u128 = 100 * n as u128;
                proof {
                    lemma_share(width as nat, part as nat, whole as nat);
                    assert(width * part <= width * whole);
                    assert(width * whole <= 0xffff_ffff_ffff_ffff * (100 * MAX_COUNT))
                        by (nonlinear_arith)
                        requires
                            width <= 0xffff_ffff_ffff_ffff,
                            whole <= 100 * MAX_COUNT,
                    ;
                }
                let share: u128 = (2 * (width * part) + whole) / (2 * whole);
                return Some(previous + share as u64);
            }
            previous = bound;
            cumulative = next;
            i += 1;
        }
        assert(all.skip(i as int).len() == 0);
        Some(previous)
    }
}

proof fn lemma_rounded_monotone(a: nat, b: nat, d: nat)
    requires
        a <= b,
        d > 0,
    ensures
        rounded(a, d) <= rounded(b, d),
{
    assert((2 * a + d) / (2 * d) <= (2 * b + d) / (2 * d)) by (nonlinear_arith)
        requires
            a <= b,
            d > 0,
    ;
}

proof fn lemma_interpolated_bounds(
    buckets: Seq<(nat, nat)>,
    previous: nat,
    cumulative: nat,
    target: nat,
)
    requires
        ascending(buckets),
        buckets.len() > 0 ==> previous <= buckets[0].0,
        100 * cumulative <= target,
    ensures
        previous <= interpolated(buckets, previous, cumulative, target),
        interpolated(buckets, previous, cumulative, target) <= if buckets.len() == 0 {
            previous
        } else {
            buckets.last().0
        },
    decreases buckets.len(),
{
    if buckets.len() > 0 {
        let (bound, n) = buckets[0];
        let next = cumulative + n;
        if 100 * next >= target {
            assert(bound <= buckets.last().0);
            if n > 0 {
                lemma_share(
                    (bound - previous) as nat,
                    (target - 100 * cumulative) as nat,
                    100 * n,
                );
            }
        } else {
            let rest = buckets.skip(1);
            assert forall|i: int, j: int| 0 <= i <= j < rest.len() implies (#[trigger] rest[i]).0
                <= (#[trigger] rest[j]).0 by {
                assert(rest[i] == buckets[i + 1] && rest[j] == buckets[j + 1]);
            }
            if rest.len() > 0 {
                assert(rest[0] == buckets[1]);
                assert(buckets[0].0 <= buckets[1].0);
                assert(rest.last() == buckets.last());
            }
            lemma_interpolated_bounds(rest, bound, next, target);
        }
    }
}

proof fn lemma_interpolated_monotone(
    buckets: Seq<(nat, nat)>,
    previous: nat,
    cumulative: nat,
    low: nat,
    high: nat,
)
    requires
        ascending(buckets),
        buckets.len() > 0 ==> previous <= buckets[0].0,
        100 * cumulative < low <= high,
    ensures
        interpolated(buckets, previous, cumulative, low) <= interpolated(
            buckets,
            previous,
            cumulative,
            high,
        ),
    decreases buckets.len(),
{
    if buckets.len() > 0 {
        let (bound, n) = buckets[0];
        let next = cumulative + n;
        let rest = buckets.skip(1);
        assert forall|i: int, j: int| 0 <= i <= j < rest.len() implies (#[trigger] rest[i]).0 <= (
        #[trigger] rest[j]).0 by {
            assert(rest[i] == buckets[i + 1] && rest[j] == buckets[j + 1]);
        }
        if rest.len() > 0 {
            assert(rest[0] == buckets[1]);
            assert(buckets[0].0 <= buckets[1].0);
        }
        if 100 * next >= high {
            let width = (bound - previous) as nat;
            assert(width * ((low - 100 * cumulative) as nat) <= width * ((high - 100
                * cumulative) as nat)) by (nonlinear_arith)
                requires
                    100 * cumulative < low <= high,
            ;
            lemma_rounded_monotone(
                width * ((low - 100 * cumulative) as nat),
                width * ((high - 100 * cumulative) as nat),
                100 * n,
            );
        } else if 100 * next >= low {
            lemma_share((bound - previous) as nat, (low - 100 * cumulative) as nat, 100 * n);
            lemma_interpolated_bounds(rest, bound, next, high);
        } else {
            lemma_interpolated_monotone(rest, bound, next, low, high);
        }
    }
}

/// Higher percentages have no lower quantiles, and no quantile lies above the
/// largest bound.
pub proof fn law_quantiles_ascend(m: MergedView, low: nat, high: nat)
    requires
        m.wf(),
        low <= high,
        m.count > 0,
        m.buckets.len() > 0,
    ensures
        quantile_of(m, low) is Some,
        quantile_of(m, high) is Some,
        quantile_of(m, low)->0 <= quantile_of(m, high)->0 <= m.buckets.last().0,
{
    let a = rank(m.count, low);
    let b = rank(m.count, high);
    assert(a <= b) by {
        let p = if low > 100 {
            100
        } else {
            low
        };
        let q = if high > 100 {
            100
        } else {
            high
        };
        assert(p * m.count <= q * m.count) by (nonlinear_arith)
            requires
                p <= q,
        ;
    }
    lemma_interpolated_monotone(m.buckets, 0, 0, a, b);
    lemma_interpolated_bounds(m.buckets, 0, 0, b);
}

/// Between two bounds, below the upper one; at them where they are the same.
pub open spec fn within(bounds: (nat, nat), ns: nat) -> bool {
    bounds.0 <= ns && (ns < bounds.1 || ns == bounds.0 && bounds.0 == bounds.1)
}

/// The bounds of the bucket in which the sample of a rank lies. `target` is in
/// the unit of counts.
pub open spec fn selected(
    buckets: Seq<(nat, nat)>,
    previous: nat,
    cumulative: nat,
    target: nat,
) -> (nat, nat)
    decreases buckets.len(),
{
    if buckets.len() == 0 {
        (previous, previous)
    } else {
        let (bound, n) = buckets[0];
        if target < cumulative + n {
            (
                if bound <= previous {
                    bound
                } else {
                    previous
                },
                bound,
            )
        } else {
            selected(buckets.skip(1), bound, cumulative + n, target)
        }
    }
}

impl MergedHistogram {
    /// The bounds of the bucket in which the sample of a rank lies. Samples above
    /// the last bound count as at it.
    pub fn bucket_of(&self, target: u64) -> (r: (u64, u64))
        requires
            self@.wf(),
        ensures
            (r.0 as nat, r.1 as nat) == selected(self@.buckets, 0, 0, target as nat),
            r.0 <= r.1,
    {
        let ghost all = self@.buckets;
        let mut previous: u64 = 0;
        let mut cumulative: u64 = 0;
        let mut i: usize = 0;
        assert(all.skip(0) =~= all);
        while i < self.buckets.len()
            invariant
                i <= self.buckets@.len(),
                all == bucket_views(self.buckets@),
                counts_sum(all) <= MAX_COUNT,
                cumulative + counts_sum(all.skip(i as int)) == counts_sum(all),
                selected(all, 0, 0, target as nat) == selected(
                    all.skip(i as int),
                    previous as nat,
                    cumulative as nat,
                    target as nat,
                ),
            decreases self.buckets.len() - i,
        {
            let bound: u64 = self.buckets[i].0;
            let n: u64 = self.buckets[i].1;
            let ghost rest = all.skip(i as int);
            assert(rest[0] == all[i as int]);
            assert(rest.skip(1) =~= all.skip(i + 1));
            let next: u64 = cumulative + n;
            if target < next {
                return (
                    if bound <= previous {
                        bound
                    } else {
                        previous
                    },
                    bound,
                );
            }
            previous = bound;
            cumulative = next;
            i += 1;
        }
        assert(all.skip(i as int).len() == 0);
        (previous, previous)
    }

    /// A duration drawn from the histogram, in nanoseconds: a bucket by its share
    /// of the samples, and a place within it by chance.
    pub fn sample(&self, rng: &mut Xoshiro256PlusPlus) -> (r: Option<u64>)
        requires
            self@.wf(),
        ensures
            r is Some <==> self.count > 0 && self.buckets@.len() > 0,
            r matches Some(ns) ==> exists|target: nat|
                target < self.count && within(
                    #[trigger] selected(self@.buckets, 0, 0, target),
                    ns as nat,
                ),
    {
        if self.count == 0 || self.buckets.len() == 0 {
            return None;
        }
        let target: u64 = draw_between(rng, 0, self.count - 1);
        let (low, high) = self.bucket_of(target);
        let ns: u64 = if low < high {
            draw_between(rng, low, high - 1)
        } else {
            low
        };
        assert(within(selected(self@.buckets, 0, 0, target as nat), ns as nat));
        Some(ns)
    }
}

/// Samples are added up: those of the first bucket and those of the others.
pub proof fn law_samples_add_up(a: Seq<(nat, nat)>, b: Seq<(nat, nat)>, bound: nat, n: nat)
    ensures
        counts_sum(a + b) == counts_sum(a) + counts_sum(b),
        counts_sum(seq![(bound, n)]) == n,
    decreases a.len(),
{
    assert(seq![(bound, n)].skip(1) =~= Seq::<(nat, nat)>::empty());
    assert(counts_sum(Seq::<(nat, nat)>::empty()) == 0);
    if a.len() == 0 {
        assert(a + b =~= b);
    } else {
        law_samples_add_up(a.skip(1), b, bound, n);
        assert((a + b).skip(1) =~= a.skip(1) + b);
    }
}

proof fn lemma_first_sum(buckets: Seq<(nat, nat)>, i: int)
    requires
        0 < i <= buckets.len(),
    ensures
        counts_sum(buckets.take(i)) == buckets[0].1 + counts_sum(buckets.skip(1).take(i - 1)),
{
    assert(buckets.take(i).skip(1) =~= buckets.skip(1).take(i - 1));
}

proof fn lemma_interpolated_in(
    buckets: Seq<(nat, nat)>,
    previous: nat,
    cumulative: nat,
    target: nat,
    i: int,
)
    requires
        0 <= i < buckets.len(),
        buckets[i].1 > 0,
        100 * (cumulative + counts_sum(buckets.take(i))) < target <= 100 * (cumulative + counts_sum(
            buckets.take(i),
        ) + buckets[i].1),
    ensures
        ({
            let start = if i == 0 {
                previous
            } else {
                buckets[i - 1].0
            };
            let below = cumulative + counts_sum(buckets.take(i));
            interpolated(buckets, previous, cumulative, target) == start + rounded(
                ((buckets[i].0 - start) * (target - 100 * below)) as nat,
                100 * buckets[i].1,
            )
        }),
    decreases i,
{
    if i == 0 {
        assert(buckets.take(0) =~= Seq::<(nat, nat)>::empty());
        assert(counts_sum(buckets.take(0)) == 0);
    } else {
        let rest = buckets.skip(1);
        lemma_first_sum(buckets, i);
        assert(rest[i - 1] == buckets[i]);
        lemma_interpolated_in(rest, buckets[0].0, cumulative + buckets[0].1, target, i - 1);
        if i > 1 {
            assert(rest[i - 2] == buckets[i - 1]);
        }
    }
}

/// A quantile lies in the bucket that holds its rank, between the bound below and its own,
/// as far along as the rank is among the bucket's samples, to the nearest.
pub proof fn law_quantiles_lie_in_their_bucket(m: MergedView, percent: nat, start: nat, i: int)
    requires
        ascending(m.buckets),
        0 <= i < m.buckets.len(),
        m.buckets[i].1 > 0,
        percent <= 100,
        percent * m.count >= 100_000_000,
        start == if i == 0 {
            0
        } else {
            m.buckets[i - 1].0
        },
        100 * counts_sum(m.buckets.take(i)) < percent * m.count <= 100 * (counts_sum(
            m.buckets.take(i),
        ) + m.buckets[i].1),
    ensures
        quantile_of(m, percent) is Some,
        start <= quantile_of(m, percent)->0 <= m.buckets[i].0,
        ({
            let along = quantile_of(m, percent)->0 - start;
            let exact = (m.buckets[i].0 - start) * (percent * m.count - 100 * counts_sum(
                m.buckets.take(i),
            ));
            &&& 200 * m.buckets[i].1 * along <= 2 * exact + 100 * m.buckets[i].1
            &&& 2 * exact < 200 * m.buckets[i].1 * along + 100 * m.buckets[i].1
        }),
{
    let target = percent * m.count;
    let below = counts_sum(m.buckets.take(i));
    let n = m.buckets[i].1;
    let bound = m.buckets[i].0;
    assert(m.count > 0) by {
        if m.count == 0 {
            assert(percent * 0 == 0);
        }
    }
    assert(rank(m.count, percent) == target);
    lemma_interpolated_in(m.buckets, 0, 0, target, i);
    if i > 0 {
        assert(m.buckets[i - 1].0 <= m.buckets[i].0);
    }
    let width = (bound - start) as nat;
    let part = (target - 100 * below) as nat;
    lemma_share(width, part, 100 * n);
    let exact = width * part;
    let d = 100 * n;
    let along = rounded(exact, d);
    assert(2 * d * along <= 2 * exact + d < 2 * d * (along + 1)) by (nonlinear_arith)
        requires
            along == (2 * exact + d) / (2 * d),
            d > 0,
    ;
    assert(2 * d * along == 200 * n * along) by (nonlinear_arith)
        requires
            d == 100 * n,
    ;
    assert(2 * d * (along + 1) == 200 * n * along + 200 * n) by (nonlinear_arith)
        requires
            d == 100 * n,
    ;
}

/// The rank of a percentage is its share of the samples, but at least one sample and at
/// most all.
pub proof fn law_ranks_are_shares(count: nat, percent: nat)
    ensures
        percent <= 100 && percent * count >= 100_000_000 ==> rank(count, percent) == percent
            * count,
        percent * count < 100_000_000 && percent <= 100 ==> rank(count, percent) == 100_000_000,
        percent > 100 ==> rank(count, percent) == rank(count, 100),
{
}

proof fn lemma_selected_in(
    buckets: Seq<(nat, nat)>,
    previous: nat,
    cumulative: nat,
    target: nat,
    i: int,
)
    requires
        0 <= i < buckets.len(),
        cumulative + counts_sum(buckets.take(i)) <= target < cumulative + counts_sum(
            buckets.take(i),
        ) + buckets[i].1,
    ensures
        ({
            let start = if i == 0 {
                previous
            } else {
                buckets[i - 1].0
            };
            let r = selected(buckets, previous, cumulative, target);
            r.1 == buckets[i].0 && r.0 == if buckets[i].0 <= start {
                buckets[i].0
            } else {
                start
            }
        }),
    decreases i,
{
    if i == 0 {
        assert(buckets.take(0) =~= Seq::<(nat, nat)>::empty());
        assert(counts_sum(buckets.take(0)) == 0);
    } else {
        let rest = buckets.skip(1);
        lemma_first_sum(buckets, i);
        assert(rest[i - 1] == buckets[i]);
        lemma_selected_in(rest, buckets[0].0, cumulative + buckets[0].1, target, i - 1);
        if i > 1 {
            assert(rest[i - 2] == buckets[i - 1]);
        }
    }
}

/// A sample is drawn from the bucket that holds it: from the bound below up to the
/// bucket's own.
pub proof fn law_samples_are_drawn_from_their_bucket(m: MergedView, target: nat, start: nat, i: int)
    requires
        ascending(m.buckets),
        0 <= i < m.buckets.len(),
        start == if i == 0 {
            0
        } else {
            m.buckets[i - 1].0
        },
        counts_sum(m.buckets.take(i)) <= target < counts_sum(m.buckets.take(i)) + m.buckets[i].1,
    ensures
        selected(m.buckets, 0, 0, target) == (start, m.buckets[i].0),
{
    lemma_selected_in(m.buckets, 0, 0, target, i);
    if i > 0 {
        assert(m.buckets[i - 1].0 <= m.buckets[i].0);
    }
}

/// Merging one more series adds its samples, bucket by bucket, if it is to be kept, and
/// nothing if it is not.
pub proof fn law_kept_series_are_added(
    series: Seq<CalibrationSeries>,
    one: CalibrationSeries,
    keep: spec_fn(Seq<(Seq<char>, Seq<char>)>) -> bool,
)
    ensures
        keep(label_views(one.labels@)) ==> merged(series.push(one), keep).count == merged(
            series,
            keep,
        ).count + one.sample_count,
        keep(label_views(one.labels@)) ==> merged(series.push(one), keep).buckets == add_buckets(
            merged(series, keep).buckets,
            one.buckets@,
        ),
        !keep(label_views(one.labels@)) ==> merged(series.push(one), keep) == merged(series, keep),
        merged(Seq::empty(), keep).count == 0,
        merged(Seq::empty(), keep).buckets.len() == 0,
{
    assert(series.push(one).drop_last() =~= series);
}

/// The samples of a bucket are counted at its bound, and a bucket without a bound at none.
pub proof fn law_buckets_count_at_their_bound(
    buckets: Seq<(nat, nat)>,
    more: Seq<CalibrationBucket>,
    bucket: CalibrationBucket,
    at: nat,
)
    requires
        ascending(buckets),
    ensures
        samples_at(add_buckets(buckets, more.push(bucket)), at) == samples_at(
            add_buckets(buckets, more),
            at,
        ) + (if bucket.upper_bound matches Some(bound) && bound == at {
            bucket.count as int
        } else {
            0
        }),
        add_buckets(buckets, Seq::empty()) == buckets,
{
    assert(more.push(bucket).drop_last() =~= more);
    lemma_add_buckets(buckets, more);
    if let Some(bound) = bucket.upper_bound {
        law_added_samples_are_counted(
            add_buckets(buckets, more),
            bound as nat,
            bucket.count as nat,
            at,
        );
    }
}

proof fn lemma_placed_counts(buckets: Seq<(nat, nat)>, bound: nat, n: nat, at: nat)
    ensures
        samples_at(placed(buckets, bound, n), at) == samples_at(buckets, at) + if at == bound {
            n
        } else {
            0
        },
    decreases buckets.len(),
{
    let r = placed(buckets, bound, n);
    if buckets.len() == 0 || bound < buckets[0].0 {
        assert(r.skip(1) =~= buckets);
    } else {
        lemma_placed_counts(buckets.skip(1), bound, n, at);
        assert(r.skip(1) =~= placed(buckets.skip(1), bound, n));
    }
}

/// A series alone is a histogram of its own samples.
pub proof fn law_a_series_is_a_histogram(series: CalibrationSeries, front: Seq<CalibrationBucket>, bucket: CalibrationBucket, at: nat)
    ensures
        series_histogram(series).count == series.sample_count,
        series_histogram(series).buckets == bounded_buckets(series.buckets@),
        samples_at(bounded_buckets(front.push(bucket)), at) == samples_at(
            bounded_buckets(front),
            at,
        ) + (if bucket.upper_bound matches Some(bound) && bound == at {
            bucket.count as int
        } else {
            0
        }),
        bounded_buckets(Seq::empty()).len() == 0,
{
    assert(front.push(bucket).drop_last() =~= front);
    if let Some(bound) = bucket.upper_bound {
        lemma_placed_counts(bounded_buckets(front), bound as nat, bucket.count as nat, at);
    }
}

/// What a histogram shows is what it holds, and the samples at a bound are those of its
/// buckets with that bound.
pub proof fn law_histograms_show_their_buckets(m: MergedHistogram, i: int, bound: nat, n: nat)
    requires
        0 <= i < m.buckets@.len(),
    ensures
        m@.count == m.count,
        m@.buckets.len() == m.buckets@.len(),
        m@.buckets[i].0 == m.buckets@[i].0,
        m@.buckets[i].1 == m.buckets@[i].1,
        samples_at(seq![(bound, n)], bound) == n,
        samples_at(seq![(bound, n)], bound + 1) == 0,
{
    assert(seq![(bound, n)].skip(1) =~= Seq::<(nat, nat)>::empty());
    assert(samples_at(Seq::<(nat, nat)>::empty(), bound) == 0);
    assert(samples_at(Seq::<(nat, nat)>::empty(), bound + 1) == 0);
}

/// The counts of a family are those of its series and of their buckets, added up.
pub proof fn law_counts_add_up(
    buckets: Seq<CalibrationBucket>,
    bucket: CalibrationBucket,
    series: Seq<CalibrationSeries>,
    last: CalibrationSeries,
)
    ensures
        bucket_sum(Seq::<CalibrationBucket>::empty()) == 0,
        bucket_sum(buckets.push(bucket)) == bucket_sum(buckets) + bucket.count,
        all_counts(Seq::<CalibrationSeries>::empty()) == 0,
        all_counts(series.push(last)) == all_counts(series) + last.sample_count + bucket_sum(
            last.buckets@,
        ),
{
    assert(buckets.push(bucket).drop_last() =~= buckets);
    assert(series.push(last).drop_last() =~= series);
}

} // verus!
