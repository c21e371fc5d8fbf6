//! Sorted times, and how many intervals overlap.

use vstd::prelude::*;

verus! {

/// How many numbers are at most `x`.
pub open spec fn count_le(s: Seq<u64>, x: int) -> nat
    decreases s.len(),
{
    if s.len() == 0 {
        0
    } else {
        count_le(s.drop_last(), x) + if s.last() <= x {
            1nat
        } else {
            0
        }
    }
}

/// How many numbers are below `x`.
pub open spec fn count_lt(s: Seq<u64>, x: int) -> nat {
    count_le(s, x - 1)
}

/// The numbers ascend.
pub open spec fn sorted(s: Seq<u64>) -> bool {
    forall|i: int, j: int| 0 <= i <= j < s.len() ==> s[i] <= s[j]
}

/// One list holds the numbers of another, in ascending order.
pub open spec fn sorts(r: Seq<u64>, s: Seq<u64>) -> bool {
    &&& sorted(r)
    &&& r.len() == s.len()
    &&& forall|x: int| #[trigger] count_le(r, x) == count_le(s, x)
}

proof fn lemma_count_concat(a: Seq<u64>, b: Seq<u64>, x: int)
    ensures
        count_le(a + b, x) == count_le(a, x) + count_le(b, x),
    decreases b.len(),
{
    if b.len() == 0 {
        assert(a + b =~= a);
    } else {
        assert((a + b).drop_last() =~= a + b.drop_last());
        lemma_count_concat(a, b.drop_last(), x);
    }
}

fn merge(a: &Vec<u64>, b: &Vec<u64>) -> (r: Vec<u64>)
    requires
        sorted(a@),
        sorted(b@),
    ensures
        sorted(r@),
        r@.len() == a@.len() + b@.len(),
        forall|x: int| #[trigger] count_le(r@, x) == count_le(a@, x) + count_le(b@, x),
{
    let mut out: Vec<u64> = Vec::new();
    let mut i: usize = 0;
    let mut j: usize = 0;
    proof {
        assert(a@.take(0) =~= Seq::<u64>::empty());
        assert(b@.take(0) =~= Seq::<u64>::empty());
    }
    while i < a.len() || j < b.len()
        invariant
            i <= a@.len(),
            j <= b@.len(),
            sorted(a@),
            sorted(b@),
            sorted(out@),
            out@.len() == i + j,
            forall|k: int, m: int|
                0 <= k < out@.len() && i <= m < a@.len() ==> #[trigger] out@[k] <= #[trigger] a@[m],
            forall|k: int, m: int|
                0 <= k < out@.len() && j <= m < b@.len() ==> #[trigger] out@[k] <= #[trigger] b@[m],
            forall|x: int| #[trigger]
                count_le(out@, x) == count_le(a@.take(i as int), x) + count_le(
                    b@.take(j as int),
                    x,
                ),
        decreases a.len() - i + b.len() - j,
    {
        let ghost before = out@;
        let first = if i >= a.len() {
            false
        } else if j >= b.len() {
            true
        } else {
            a[i] <= b[j]
        };
        if first {
            out.push(a[i]);
            proof {
                assert(a@.take(i + 1).drop_last() =~= a@.take(i as int));
                assert(out@.drop_last() =~= before);
                assert forall|x: int| #[trigger]
                    count_le(out@, x) == count_le(a@.take(i + 1), x) + count_le(
                        b@.take(j as int),
                        x,
                    ) by {
                    assert(count_le(before, x) == count_le(a@.take(i as int), x) + count_le(
                        b@.take(j as int),
                        x,
                    ));
                }
            }
            i += 1;
        } else {
            out.push(b[j]);
            proof {
                assert(b@.take(j + 1).drop_last() =~= b@.take(j as int));
                assert(out@.drop_last() =~= before);
                assert forall|x: int| #[trigger]
                    count_le(out@, x) == count_le(a@.take(i as int), x) + count_le(
                        b@.take(j + 1),
                        x,
                    ) by {
                    assert(count_le(before, x) == count_le(a@.take(i as int), x) + count_le(
                        b@.take(j as int),
                        x,
                    ));
                }
            }
            j += 1;
        }
    }
    proof {
        assert(a@.take(i as int) =~= a@);
        assert(b@.take(j as int) =~= b@);
    }
    out
}

fn part(v: &Vec<u64>, from: usize, to: usize) -> (r: Vec<u64>)
    requires
        from <= to <= v@.len(),
    ensures
        r@ == v@.subrange(from as int, to as int),
{
    let mut out: Vec<u64> = Vec::new();
    let mut i: usize = from;
    while i < to
        invariant
            from <= i <= to <= v@.len(),
            out@ == v@.subrange(from as int, i as int),
        decreases to - i,
    {
        out.push(v[i]);
        i += 1;
        assert(out@ =~= v@.subrange(from as int, i as int));
    }
    out
}

/// The numbers in ascending order.
pub fn sort(v: &Vec<u64>) -> (r: Vec<u64>)
    ensures
        sorts(r@, v@),
    decreases v@.len(),
{
    if v.len() <= 1 {
        let r = part(v, 0, v.len());
        assert(r@ =~= v@);
        return r;
    }
    let half: usize = v.len() / 2;
    let a = part(v, 0, half);
    let b = part(v, half, v.len());
    let x = sort(&a);
    let y = sort(&b);
    let r = merge(&x, &y);
    proof {
        assert(v@ =~= a@ + b@);
        assert forall|n: int| #[trigger] count_le(r@, n) == count_le(v@, n) by {
            lemma_count_concat(a@, b@, n);
            assert(count_le(x@, n) == count_le(a@, n));
            assert(count_le(y@, n) == count_le(b@, n));
        }
    }
    r
}

/// The numbers up to the count of those at most `x` are at most `x`, and the
/// others are not.
proof fn lemma_sorted_count(s: Seq<u64>, x: int)
    requires
        sorted(s),
    ensures
        count_le(s, x) <= s.len(),
        forall|i: int| 0 <= i < count_le(s, x) ==> s[i] <= x,
        forall|i: int| count_le(s, x) <= i < s.len() ==> s[i] > x,
    decreases s.len(),
{
    if s.len() > 0 {
        let front = s.drop_last();
        assert(sorted(front));
        lemma_sorted_count(front, x);
        if s.last() <= x {
            assert forall|i: int| 0 <= i < s.len() implies s[i] <= x by {
                assert(s[i] <= s[s.len() - 1]);
            }
            if count_le(front, x) < front.len() {
                assert(front[count_le(front, x) as int] > x);
                assert(s[count_le(front, x) as int] <= x);
            }
        } else {
            assert forall|i: int| 0 <= i < count_le(s, x) implies s[i] <= x by {
                assert(front[i] == s[i]);
            }
            assert forall|i: int| count_le(s, x) <= i < s.len() implies s[i] > x by {
                if i < front.len() {
                    assert(front[i] == s[i]);
                }
            }
        }
    }
}

/// The place of a number in ascending order: so many are below it at most, and
/// more are at most it.
pub open spec fn ranked(s: Seq<u64>, k: int, v: u64) -> bool {
    count_lt(s, v as int) <= k < count_le(s, v as int)
}

/// The number at a place in ascending order.
pub proof fn lemma_ranked(r: Seq<u64>, s: Seq<u64>, k: int)
    requires
        sorts(r, s),
        0 <= k < s.len(),
    ensures
        ranked(s, k, r[k]),
{
    let v = r[k] as int;
    lemma_sorted_count(r, v);
    lemma_sorted_count(r, v - 1);
    assert(count_le(r, v) == count_le(s, v));
    assert(count_le(r, v - 1) == count_le(s, v - 1));
}

/// At most one number has a place.
pub proof fn law_one_number_has_a_rank(s: Seq<u64>, k: int, v: u64, w: u64)
    requires
        ranked(s, k, v),
        ranked(s, k, w),
    ensures
        v == w,
{
    if v < w {
        lemma_count_monotone(s, v as int, w - 1);
    } else if w < v {
        lemma_count_monotone(s, w as int, v - 1);
    }
}

pub proof fn lemma_count_monotone(s: Seq<u64>, x: int, y: int)
    requires
        x <= y,
    ensures
        count_le(s, x) <= count_le(s, y),
    decreases s.len(),
{
    if s.len() > 0 {
        lemma_count_monotone(s.drop_last(), x, y);
    }
}

/// How many intervals a point in time lies in.
pub open spec fn active(intervals: Seq<(u64, u64)>, t: int) -> nat
    decreases intervals.len(),
{
    if intervals.len() == 0 {
        0
    } else {
        active(intervals.drop_last(), t) + if intervals.last().0 <= t <= intervals.last().1 {
            1nat
        } else {
            0
        }
    }
}

/// The most intervals that overlap: there are so many at the start of one, and
/// no more at the start of any.
pub open spec fn is_peak(intervals: Seq<(u64, u64)>, peak: nat) -> bool {
    &&& forall|i: int| 0 <= i < intervals.len() ==> active(
        intervals,
        (#[trigger] intervals[i]).0 as int,
    ) <= peak
    &&& peak > 0 ==> exists|i: int|
        0 <= i < intervals.len() && peak == active(intervals, (#[trigger] intervals[i]).0 as int)
}

pub open spec fn starts_of(intervals: Seq<(u64, u64)>) -> Seq<u64> {
    Seq::new(intervals.len(), |i: int| intervals[i].0)
}

pub open spec fn ends_of(intervals: Seq<(u64, u64)>) -> Seq<u64> {
    Seq::new(intervals.len(), |i: int| intervals[i].1)
}

/// No interval ends before it starts.
pub open spec fn proper(intervals: Seq<(u64, u64)>) -> bool {
    forall|i: int| 0 <= i < intervals.len() ==> (#[trigger] intervals[i]).0 <= intervals[i].1
}

proof fn lemma_active(intervals: Seq<(u64, u64)>, t: int)
    requires
        proper(intervals),
    ensures
        active(intervals, t) + count_lt(ends_of(intervals), t) == count_le(starts_of(intervals), t),
    decreases intervals.len(),
{
    if intervals.len() > 0 {
        let front = intervals.drop_last();
        assert forall|i: int| 0 <= i < front.len() implies (#[trigger] front[i]).0 <= front[i].1 by {
            assert(front[i] == intervals[i]);
        }
        lemma_active(front, t);
        assert(starts_of(intervals).drop_last() =~= starts_of(front));
        assert(ends_of(intervals).drop_last() =~= ends_of(front));
        assert(intervals[intervals.len() - 1].0 <= intervals[intervals.len() - 1].1);
    }
}

proof fn lemma_counted_is_listed(s: Seq<u64>, v: u64)
    requires
        count_lt(s, v as int) < count_le(s, v as int),
    ensures
        exists|i: int| 0 <= i < s.len() && s[i] == v,
    decreases s.len(),
{
    if s.last() == v {
        assert(s[s.len() - 1] == v);
    } else {
        lemma_counted_is_listed(s.drop_last(), v);
        let i = choose|i: int| 0 <= i < s.drop_last().len() && s.drop_last()[i] == v;
        assert(s[i] == v);
    }
}

proof fn lemma_listed_is_counted(s: Seq<u64>, i: int)
    requires
        0 <= i < s.len(),
    ensures
        count_le(s, s[i] as int) > 0,
    decreases s.len(),
{
    if i < s.len() - 1 {
        assert(s.drop_last()[i] == s[i]);
        lemma_listed_is_counted(s.drop_last(), i);
    }
}

/// The most intervals that overlap.
pub fn peak_overlap(intervals: &Vec<(u64, u64)>) -> (r: usize)
    requires
        proper(intervals@),
    ensures
        is_peak(intervals@, r as nat),
{
    let mut starts: Vec<u64> = Vec::new();
    let mut ends: Vec<u64> = Vec::new();
    let mut k: usize = 0;
    while k < intervals.len()
        invariant
            k <= intervals@.len(),
            starts@ == starts_of(intervals@).take(k as int),
            ends@ == ends_of(intervals@).take(k as int),
        decreases intervals.len() - k,
    {
        starts.push(intervals[k].0);
        ends.push(intervals[k].1);
        k += 1;
        assert(starts@ =~= starts_of(intervals@).take(k as int));
        assert(ends@ =~= ends_of(intervals@).take(k as int));
    }
    assert(starts@ =~= starts_of(intervals@));
    assert(ends@ =~= ends_of(intervals@));
    let s = sort(&starts);
    let e = sort(&ends);
    let ghost all = intervals@;
    let mut j: usize = 0;
    let mut peak: usize = 0;
    let mut i: usize = 0;
    while i < s.len()
        invariant
            i <= s@.len(),
            j <= i,
            j <= e@.len(),
            all == intervals@,
            proper(all),
            sorts(s@, starts_of(all)),
            sorts(e@, ends_of(all)),
            s@.len() == e@.len(),
            i > 0 ==> j == count_lt(e@, s@[i - 1] as int),
            i == 0 ==> j == 0,
            forall|m: int| 0 <= m < i ==> m + 1 - count_lt(e@, #[trigger] s@[m] as int) <= peak,
            peak > 0 ==> exists|m: int|
                0 <= m < i && m + 1 - count_lt(e@, #[trigger] s@[m] as int) == peak,
            peak <= i,
        decreases s.len() - i,
    {
        let t: u64 = s[i];
        proof {
            lemma_sorted_count(e@, t - 1);
            lemma_sorted_count(s@, t as int);
            if i > 0 {
                assert(s@[i - 1] <= s@[i as int]);
                lemma_count_monotone(e@, s@[i - 1] - 1, t - 1);
            }
            lemma_active(all, t as int);
            assert(count_le(s@, t as int) == count_le(starts_of(all), t as int));
            assert(count_lt(e@, t as int) == count_lt(ends_of(all), t as int));
            lemma_listed_before(all, s@, e@, i as int);
        }
        while j < e.len() && e[j] < t
            invariant
                j <= e@.len(),
                sorted(e@),
                j <= count_lt(e@, t as int) <= e@.len(),
                forall|m: int| 0 <= m < count_lt(e@, t as int) ==> e@[m] <= t - 1,
                forall|m: int| count_lt(e@, t as int) <= m < e@.len() ==> e@[m] > t - 1,
            decreases e.len() - j,
        {
            j += 1;
        }
        assert(j == count_lt(e@, t as int)) by {
            if j < count_lt(e@, t as int) {
                assert(e@[j as int] <= t - 1);
            }
        }
        let now: usize = i + 1 - j;
        if now > peak {
            peak = now;
            assert(i + 1 - count_lt(e@, s@[i as int] as int) == peak);
        }
        i += 1;
    }
    proof {
        assert forall|m: int| 0 <= m < all.len() implies active(
            all,
            (#[trigger] all[m]).0 as int,
        ) <= peak by {
            let t = all[m].0 as int;
            let starts = starts_of(all);
            assert(starts[m] == all[m].0);
            lemma_listed_is_counted(starts, m);
            let c = count_le(s@, t) as int;
            assert(c == count_le(starts, t));
            lemma_sorted_count(s@, t);
            lemma_active(all, t);
            assert(s@[c - 1] <= t);
            lemma_count_monotone(e@, s@[c - 1] - 1, t - 1);
            assert(count_le(e@, t - 1) == count_le(ends_of(all), t - 1));
            assert(c - 1 + 1 - count_lt(e@, s@[c - 1] as int) <= peak);
        }
        if peak > 0 {
            let m = choose|m: int|
                0 <= m < s@.len() && m + 1 - count_lt(e@, #[trigger] s@[m] as int) == peak;
            let v = s@[m];
            lemma_ranked(s@, starts_of(all), m);
            lemma_counted_is_listed(starts_of(all), v);
            let i0 = choose|i0: int| 0 <= i0 < starts_of(all).len() && starts_of(all)[i0] == v;
            assert(all[i0].0 == v);
            lemma_active(all, v as int);
            lemma_sorted_count(s@, v as int);
            assert(count_le(s@, v as int) == count_le(starts_of(all), v as int));
            assert(count_le(e@, v - 1) == count_le(ends_of(all), v - 1));
            assert(m < count_le(s@, v as int));
            assert(peak <= active(all, v as int));
            assert(active(all, all[i0].0 as int) <= peak);
        }
    }
    peak
}

/// Of the first starts, no more intervals than that have ended before the next.
proof fn lemma_listed_before(all: Seq<(u64, u64)>, s: Seq<u64>, e: Seq<u64>, i: int)
    requires
        proper(all),
        sorts(s, starts_of(all)),
        sorts(e, ends_of(all)),
        0 <= i < s.len(),
    ensures
        count_lt(e, s[i] as int) <= i,
{
    let t = s[i] as int;
    lemma_active(all, t - 1);
    lemma_sorted_count(s, t - 1);
    assert(count_le(s, t - 1) == count_le(starts_of(all), t - 1));
    assert(count_le(e, t - 1) == count_le(ends_of(all), t - 1));
    lemma_ended_have_started(all, t - 1);
    assert(count_le(s, t - 1) <= i) by {
        if count_le(s, t - 1) > i {
            assert(s[i] <= t - 1);
        }
    }
}

proof fn lemma_ended_have_started(all: Seq<(u64, u64)>, t: int)
    requires
        proper(all),
    ensures
        count_le(ends_of(all), t) <= count_le(starts_of(all), t),
    decreases all.len(),
{
    if all.len() > 0 {
        let front = all.drop_last();
        assert forall|i: int| 0 <= i < front.len() implies (#[trigger] front[i]).0 <= front[i].1 by {
            assert(front[i] == all[i]);
        }
        lemma_ended_have_started(front, t);
        assert(starts_of(all).drop_last() =~= starts_of(front));
        assert(ends_of(all).drop_last() =~= ends_of(front));
        assert(all[all.len() - 1].0 <= all[all.len() - 1].1);
    }
}

/// The numbers up to a bound, and those below it, are counted.
pub proof fn law_numbers_up_to_a_bound_are_counted(
    s: Seq<u64>,
    x: int,
    up_to: spec_fn(u64) -> bool,
    below: spec_fn(u64) -> bool,
)
    requires
        forall|v: u64| #[trigger] up_to(v) == (v <= x),
        forall|v: u64| #[trigger] below(v) == (v < x),
    ensures
        count_le(s, x) == s.filter(up_to).len(),
        count_lt(s, x) == s.filter(below).len(),
    decreases s.len(),
{
    reveal(Seq::filter);
    if s.len() > 0 {
        law_numbers_up_to_a_bound_are_counted(s.drop_last(), x, up_to, below);
        assert(up_to(s.last()) == (s.last() <= x));
        assert(below(s.last()) == (s.last() < x));
    }
}

/// A sorted list holds every number as often as the list that was sorted, in rising order.
pub proof fn law_sorting_keeps_the_numbers(
    r: Seq<u64>,
    s: Seq<u64>,
    v: u64,
    is_v: spec_fn(u64) -> bool,
)
    requires
        sorts(r, s),
        forall|w: u64| #[trigger] is_v(w) == (w == v),
    ensures
        r.filter(is_v).len() == s.filter(is_v).len(),
        forall|i: int, j: int| 0 <= i <= j < r.len() ==> r[i] <= r[j],
        r.len() == s.len(),
{
    lemma_equal_counted(r, v, is_v);
    lemma_equal_counted(s, v, is_v);
    assert(count_le(r, v as int) == count_le(s, v as int));
    assert(count_le(r, v - 1) == count_le(s, v - 1));
}

proof fn lemma_equal_counted(s: Seq<u64>, v: u64, is_v: spec_fn(u64) -> bool)
    requires
        forall|w: u64| #[trigger] is_v(w) == (w == v),
    ensures
        s.filter(is_v).len() == count_le(s, v as int) - count_le(s, v - 1),
    decreases s.len(),
{
    reveal(Seq::filter);
    if s.len() > 0 {
        lemma_equal_counted(s.drop_last(), v, is_v);
        assert(is_v(s.last()) == (s.last() == v));
    }
}

/// At a moment those intervals are active that have begun and not ended before it.
pub proof fn law_intervals_are_active_from_start_to_end(
    intervals: Seq<(u64, u64)>,
    t: int,
    runs: spec_fn((u64, u64)) -> bool,
)
    requires
        forall|i: (u64, u64)| #[trigger] runs(i) == (i.0 <= t && t <= i.1),
    ensures
        active(intervals, t) == intervals.filter(runs).len(),
    decreases intervals.len(),
{
    reveal(Seq::filter);
    if intervals.len() > 0 {
        law_intervals_are_active_from_start_to_end(intervals.drop_last(), t, runs);
        assert(runs(intervals.last()) == (intervals.last().0 <= t && t <= intervals.last().1));
    }
}

} // verus!
