//! What a simulation run amounts to.
//!
//! Points in time and spans are in nanoseconds.

use vstd::prelude::*;
use crate::sim::sorting::{
    active, count_le, is_peak, law_one_number_has_a_rank, lemma_count_monotone, lemma_ranked,
    peak_overlap, proper, ranked, sort, sorts,
};
use crate::text::same_text;
use crate::time::{MAX_NANOS, monus};
use crate::types::{RejectionReason, RouteTier, TaskOutcome, TaskResult};

verus! {

/// What is kept of a task that ended.
#[derive(Debug)]
pub struct TaskRecord {
    pub arrived_at: u64,
    pub completed_at: Option<u64>,
    pub cpu_started_at: Option<u64>,
    pub cpu_completed_at: Option<u64>,
    pub route_tier: Option<RouteTier>,
    pub style_swap: bool,
    pub cold_start: bool,
    pub had_source: bool,
    pub source_loaded: bool,
    pub admitted_at_overflow: bool,
    pub rejection_reason: Option<RejectionReason>,
    pub failure_error: Option<String>,
}

/// What is kept of an outcome.
pub open spec fn is_record(outcome: TaskOutcome, r: TaskRecord) -> bool {
    &&& r.arrived_at == outcome.arrived_at
    &&& r.had_source == outcome.had_source
    &&& match outcome.result {
        TaskResult::Completed { info, .. } => {
            &&& r.completed_at == Some(info.completed_at)
            &&& r.cpu_started_at == Some(info.cpu_started_at)
            &&& r.cpu_completed_at == Some(info.cpu_completed_at)
            &&& r.route_tier == Some(info.route_tier)
            &&& r.style_swap == info.style_swap
            &&& r.cold_start == info.cold_start
            &&& r.source_loaded == info.source_loaded
            &&& r.admitted_at_overflow == info.admitted_at_overflow
            &&& r.rejection_reason is None
            &&& r.failure_error is None
        },
        TaskResult::Rejected { reason } => {
            &&& nothing_completed(r)
            &&& r.rejection_reason == Some(reason)
            &&& r.failure_error is None
        },
        TaskResult::Failed { error, .. } => {
            &&& nothing_completed(r)
            &&& r.rejection_reason is None
            &&& r.failure_error == Some(error)
        },
    }
}

/// The record of a task that was not completed.
pub open spec fn nothing_completed(r: TaskRecord) -> bool {
    &&& r.completed_at is None
    &&& r.cpu_started_at is None
    &&& r.cpu_completed_at is None
    &&& r.route_tier is None
    &&& !r.style_swap
    &&& !r.cold_start
    &&& !r.source_loaded
    &&& !r.admitted_at_overflow
}

/// How many records pass a test.
pub open spec fn count_where(records: Seq<TaskRecord>, test: spec_fn(TaskRecord) -> bool) -> nat
    decreases records.len(),
{
    if records.len() == 0 {
        0
    } else {
        count_where(records.drop_last(), test) + if test(records.last()) {
            1nat
        } else {
            0
        }
    }
}

pub open spec fn done(r: TaskRecord) -> bool {
    r.completed_at is Some
}

pub open spec fn is_completed() -> spec_fn(TaskRecord) -> bool {
    |r: TaskRecord| done(r)
}

pub open spec fn is_rejected() -> spec_fn(TaskRecord) -> bool {
    |r: TaskRecord| r.rejection_reason is Some
}

pub open spec fn is_failed() -> spec_fn(TaskRecord) -> bool {
    |r: TaskRecord| r.failure_error is Some
}

pub open spec fn is_cold_start() -> spec_fn(TaskRecord) -> bool {
    |r: TaskRecord| done(r) && r.cold_start
}

pub open spec fn is_style_swap() -> spec_fn(TaskRecord) -> bool {
    |r: TaskRecord| done(r) && r.style_swap
}

pub open spec fn is_overflow() -> spec_fn(TaskRecord) -> bool {
    |r: TaskRecord| done(r) && r.admitted_at_overflow
}

pub open spec fn has_source() -> spec_fn(TaskRecord) -> bool {
    |r: TaskRecord| done(r) && r.had_source
}

pub open spec fn loaded_source() -> spec_fn(TaskRecord) -> bool {
    |r: TaskRecord| done(r) && r.source_loaded
}

pub open spec fn has_tier(tier: RouteTier) -> spec_fn(TaskRecord) -> bool {
    |r: TaskRecord| r.route_tier == Some(tier)
}

pub open spec fn has_reason(reason: RejectionReason) -> spec_fn(TaskRecord) -> bool {
    |r: TaskRecord| r.rejection_reason == Some(reason)
}

/// The latencies of completed tasks.
pub open spec fn latencies_of(records: Seq<TaskRecord>) -> Seq<u64>
    decreases records.len(),
{
    if records.len() == 0 {
        Seq::empty()
    } else {
        let before = latencies_of(records.drop_last());
        match records.last().completed_at {
            Some(at) => before.push(
                monus(at as nat, records.last().arrived_at as nat) as u64,
            ),
            None => before,
        }
    }
}

/// How many latencies are longer than a span.
pub open spec fn longer_than(latencies: Seq<u64>, limit: u64) -> nat
    decreases latencies.len(),
{
    if latencies.len() == 0 {
        0
    } else {
        longer_than(latencies.drop_last(), limit) + if latencies.last() > limit {
            1nat
        } else {
            0
        }
    }
}

/// The times that completed tasks spent on a processor.
pub open spec fn cpu_intervals(records: Seq<TaskRecord>) -> Seq<(u64, u64)>
    decreases records.len(),
{
    if records.len() == 0 {
        Seq::empty()
    } else {
        let before = cpu_intervals(records.drop_last());
        let last = records.last();
        if done(last) {
            match (last.cpu_started_at, last.cpu_completed_at) {
                (Some(start), Some(end)) => if end >= start {
                    before.push((start, end))
                } else {
                    before
                },
                _ => before,
            }
        } else {
            before
        }
    }
}

/// The lengths of intervals, added up.
pub open spec fn busy_sum(intervals: Seq<(u64, u64)>) -> nat
    decreases intervals.len(),
{
    if intervals.len() == 0 {
        0
    } else {
        busy_sum(intervals.drop_last()) + monus(
            intervals.last().1 as nat,
            intervals.last().0 as nat,
        )
    }
}

/// The earliest arrival.
pub open spec fn first_arrival(records: Seq<TaskRecord>) -> Option<u64>
    decreases records.len(),
{
    if records.len() == 0 {
        None
    } else {
        match first_arrival(records.drop_last()) {
            None => Some(records.last().arrived_at),
            Some(t) => Some(
                if records.last().arrived_at < t {
                    records.last().arrived_at
                } else {
                    t
                },
            ),
        }
    }
}

/// The latest completion.
pub open spec fn last_completion(records: Seq<TaskRecord>) -> Option<u64>
    decreases records.len(),
{
    if records.len() == 0 {
        None
    } else {
        let before = last_completion(records.drop_last());
        match records.last().completed_at {
            None => before,
            Some(at) => match before {
                None => Some(at),
                Some(t) => Some(
                    if at > t {
                        at
                    } else {
                        t
                    },
                ),
            },
        }
    }
}

/// The time from the first arrival to the last completion.
pub open spec fn elapsed_of(records: Seq<TaskRecord>) -> nat {
    match (first_arrival(records), last_completion(records)) {
        (Some(a), Some(b)) => monus(b as nat, a as nat),
        _ => 0,
    }
}

/// A list of names with one more count of one; new names come last.
pub open spec fn bumped(list: Seq<(Seq<char>, nat)>, name: Seq<char>) -> Seq<(Seq<char>, nat)>
    decreases list.len(),
{
    if list.len() == 0 {
        seq![(name, 1nat)]
    } else if list[0].0 == name {
        seq![(name, list[0].1 + 1)] + list.skip(1)
    } else {
        seq![list[0]] + bumped(list.skip(1), name)
    }
}

/// The errors of failed tasks, with how often each came.
pub open spec fn failures_of(records: Seq<TaskRecord>) -> Seq<(Seq<char>, nat)>
    decreases records.len(),
{
    if records.len() == 0 {
        Seq::empty()
    } else {
        let before = failures_of(records.drop_last());
        match records.last().failure_error {
            Some(error) => bumped(before, error@),
            None => before,
        }
    }
}

pub open spec fn tally_views(list: Seq<(String, usize)>) -> Seq<(Seq<char>, nat)> {
    Seq::new(list.len(), |i: int| (list[i].0@, list[i].1 as nat))
}

/// All counts of a tally, added up.
pub open spec fn tally_sum(list: Seq<(Seq<char>, nat)>) -> nat
    decreases list.len(),
{
    if list.len() == 0 {
        0
    } else {
        list[0].1 + tally_sum(list.skip(1))
    }
}

proof fn lemma_bumped_sum(list: Seq<(Seq<char>, nat)>, name: Seq<char>)
    ensures
        tally_sum(bumped(list, name)) == tally_sum(list) + 1,
    decreases list.len(),
{
    let r = bumped(list, name);
    if list.len() == 0 {
        assert(r.skip(1) =~= list);
    } else if list[0].0 == name {
        assert(r.skip(1) =~= list.skip(1));
    } else {
        lemma_bumped_sum(list.skip(1), name);
        assert(r.skip(1) =~= bumped(list.skip(1), name));
    }
}

proof fn lemma_bumped_from(list: Seq<(Seq<char>, nat)>, name: Seq<char>, i: int)
    requires
        0 <= i <= list.len(),
        forall|j: int| 0 <= j < i ==> (#[trigger] list[j]).0 != name,
    ensures
        bumped(list, name) == list.take(i) + bumped(list.skip(i), name),
    decreases i,
{
    if i == 0 {
        assert(list.skip(0) =~= list);
        assert(list.take(0) + bumped(list, name) =~= bumped(list, name));
    } else {
        let rest = list.skip(1);
        assert(list[0].0 != name);
        assert forall|j: int| 0 <= j < i - 1 implies (#[trigger] rest[j]).0 != name by {
            assert(rest[j] == list[j + 1]);
        }
        lemma_bumped_from(rest, name, i - 1);
        assert(rest.skip(i - 1) =~= list.skip(i));
        assert(bumped(list, name) =~= list.take(i) + bumped(list.skip(i), name));
    }
}

proof fn lemma_tally_entry(list: Seq<(Seq<char>, nat)>, i: int)
    requires
        0 <= i < list.len(),
    ensures
        list[i].1 <= tally_sum(list),
    decreases list.len(),
{
    if i > 0 {
        assert(list.skip(1)[i - 1] == list[i]);
        lemma_tally_entry(list.skip(1), i - 1);
    }
}

fn bump(list: &mut Vec<(String, usize)>, name: &String)
    requires
        tally_sum(tally_views(old(list)@)) < usize::MAX,
    ensures
        tally_views(final(list)@) == bumped(tally_views(old(list)@), name@),
{
    let ghost before = tally_views(list@);
    let mut i: usize = 0;
    while i < list.len() && !same_text(list[i].0.as_str(), name.as_str())
        invariant
            i <= list@.len(),
            before == tally_views(list@),
            forall|j: int| 0 <= j < i ==> (#[trigger] before[j]).0 != name@,
        decreases list.len() - i,
    {
        assert(before[i as int].0 == list@[i as int].0@);
        i += 1;
    }
    proof {
        lemma_bumped_from(before, name@, i as int);
    }
    if i < list.len() {
        proof {
            lemma_tally_entry(before, i as int);
            assert(before.skip(i as int)[0] == before[i as int]);
        }
        let n: usize = list[i].1 + 1;
        list.set(i, (name.clone(), n));
        assert(tally_views(list@) =~= before.take(i as int) + (seq![(name@, n as nat)]
            + before.skip(i as int).skip(1)));
    } else {
        assert(before.skip(i as int).len() == 0);
        list.push((name.clone(), 1));
        assert(tally_views(list@) =~= before.take(i as int) + seq![(name@, 1nat)]);
    }
}

/// How many completed tasks came by each route.
#[derive(Clone, Copy, Debug, PartialEq, Eq, Structural)]
pub struct TierCounts {
    pub render_cache_hit: usize,
    pub tier1: usize,
    pub tier2: usize,
    pub tier3: usize,
    pub tier4: usize,
}

impl TierCounts {
    pub open spec fn of(self, tier: RouteTier) -> usize {
        match tier {
            RouteTier::RenderCacheHit => self.render_cache_hit,
            RouteTier::Tier1WarmTracking => self.tier1,
            RouteTier::Tier2HrwBl => self.tier2,
            RouteTier::Tier3DrainSwap => self.tier3,
            RouteTier::Tier4Overflow => self.tier4,
        }
    }

    pub fn get(self, tier: RouteTier) -> (r: usize)
        ensures
            r == self.of(tier),
    {
        match tier {
            RouteTier::RenderCacheHit => self.render_cache_hit,
            RouteTier::Tier1WarmTracking => self.tier1,
            RouteTier::Tier2HrwBl => self.tier2,
            RouteTier::Tier3DrainSwap => self.tier3,
            RouteTier::Tier4Overflow => self.tier4,
        }
    }
}

/// What a simulation run amounts to.
#[derive(Debug)]
pub struct Report {
    pub total: usize,
    pub completed: usize,
    pub rejected: usize,
    pub failed: usize,
    /// Reasons with how often each came; those that never came are left out.
    pub rejection_by_reason: Vec<(RejectionReason, usize)>,
    pub failure_by_error: Vec<(String, usize)>,
    pub sla_violations: usize,
    pub sla: u64,
    pub latency_p50: u64,
    pub latency_p90: u64,
    pub latency_p95: u64,
    pub latency_p99: u64,
    pub latency_max: u64,
    pub cold_starts: usize,
    pub style_swaps: usize,
    /// Completed tasks that were admitted beyond the soft queue limit.
    pub overflow_admissions: usize,
    pub tasks_with_sources: usize,
    pub source_loads: usize,
    pub source_hits: usize,
    pub tier_counts: TierCounts,
    pub elapsed: u64,
    pub cpu_render_permits_total: usize,
    pub cpu_render_busy: u128,
    pub cpu_render_peak_inflight: usize,
}

/// The place of a percentile among `n` numbers in ascending order, rounded to
/// the nearest.
pub open spec fn percentile_index(n: nat, percent: nat) -> int {
    ((2 * (n - 1) * percent + 100) / 200) as int
}

/// The latency at a percentile; zero if no task was completed.
pub open spec fn is_percentile(latencies: Seq<u64>, percent: nat, v: u64) -> bool {
    if latencies.len() == 0 {
        v == 0
    } else {
        ranked(latencies, percentile_index(latencies.len(), percent), v)
    }
}

fn percentile(sorted: &Vec<u64>, percent: u64, Ghost(latencies): Ghost<Seq<u64>>) -> (r: u64)
    requires
        sorts(sorted@, latencies),
        percent <= 100,
    ensures
        is_percentile(latencies, percent as nat, r),
{
    if sorted.len() == 0 {
        return 0;
    }
    let n: u128 = (sorted.len() - 1) as u128;
    assert(2 * n * percent <= 200 * n) by (nonlinear_arith)
        requires
            percent <= 100,
            n >= 0,
    ;
    let k: u128 = (2 * n * percent as u128 + 100) / 200;
    assert(k <= n);
    proof {
        lemma_ranked(sorted@, latencies, k as int);
    }
    sorted[k as usize]
}

/// All reasons, in the order in which they are listed.
pub open spec fn reasons() -> Seq<RejectionReason> {
    seq![
        RejectionReason::QueueFull,
        RejectionReason::NoCapacity,
        RejectionReason::DrainTooSlow,
        RejectionReason::UnknownStyle,
        RejectionReason::HopLimitExceeded,
        RejectionReason::ForwardFailed,
        RejectionReason::DeadlineTooClose,
        RejectionReason::DeadlineExceeded,
    ]
}

/// The reasons that came, with how often each came.
pub open spec fn reason_counts(records: Seq<TaskRecord>, n: nat) -> Seq<(RejectionReason, nat)>
    decreases n,
{
    if n == 0 {
        Seq::empty()
    } else {
        let before = reason_counts(records, (n - 1) as nat);
        let reason = reasons()[n - 1];
        let count = count_where(records, has_reason(reason));
        if count > 0 {
            before.push((reason, count))
        } else {
            before
        }
    }
}

pub open spec fn reason_views(list: Seq<(RejectionReason, usize)>) -> Seq<(RejectionReason, nat)> {
    Seq::new(list.len(), |i: int| (list[i].0, list[i].1 as nat))
}

/// The report of some records.
pub open spec fn reports(records: Seq<TaskRecord>, permits: usize, sla: u64, r: Report) -> bool {
    let latencies = latencies_of(records);
    &&& r.total == records.len()
    &&& r.completed == count_where(records, is_completed())
    &&& r.rejected == count_where(records, is_rejected())
    &&& r.failed == count_where(records, is_failed())
    &&& reason_views(r.rejection_by_reason@) == reason_counts(records, 8)
    &&& tally_views(r.failure_by_error@) == failures_of(records)
    &&& r.sla == sla
    &&& r.sla_violations == longer_than(latencies, sla)
    &&& is_percentile(latencies, 50, r.latency_p50)
    &&& is_percentile(latencies, 90, r.latency_p90)
    &&& is_percentile(latencies, 95, r.latency_p95)
    &&& is_percentile(latencies, 99, r.latency_p99)
    &&& is_percentile(latencies, 100, r.latency_max)
    &&& r.cold_starts == count_where(records, is_cold_start())
    &&& r.style_swaps == count_where(records, is_style_swap())
    &&& r.overflow_admissions == count_where(records, is_overflow())
    &&& r.tasks_with_sources == count_where(records, has_source())
    &&& r.source_loads == count_where(records, loaded_source())
    &&& r.source_hits == monus(r.tasks_with_sources as nat, r.source_loads as nat)
    &&& forall|tier: RouteTier| #[trigger]
        r.tier_counts.of(tier) == count_where(records, has_tier(tier))
    &&& r.elapsed == elapsed_of(records)
    &&& r.cpu_render_permits_total == permits
    &&& r.cpu_render_busy == busy_sum(cpu_intervals(records))
    &&& is_peak(cpu_intervals(records), r.cpu_render_peak_inflight as nat)
}

/// Collects what became of tasks.
#[derive(Debug)]
pub struct MetricsCollector {
    pub records: Vec<TaskRecord>,
    pub cpu_render_permits_total: usize,
}

proof fn lemma_count_bound(records: Seq<TaskRecord>, test: spec_fn(TaskRecord) -> bool)
    ensures
        count_where(records, test) <= records.len(),
    decreases records.len(),
{
    if records.len() > 0 {
        lemma_count_bound(records.drop_last(), test);
    }
}

proof fn lemma_failures_sum(records: Seq<TaskRecord>)
    ensures
        tally_sum(failures_of(records)) <= records.len(),
    decreases records.len(),
{
    if records.len() > 0 {
        lemma_failures_sum(records.drop_last());
        match records.last().failure_error {
            Some(error) => {
                lemma_bumped_sum(failures_of(records.drop_last()), error@);
            },
            None => {},
        }
    }
}

/// The counts that one walk over the records gives.
struct Counts {
    completed: usize,
    rejected: usize,
    failed: usize,
    cold_starts: usize,
    style_swaps: usize,
    overflow: usize,
    with_sources: usize,
    loads: usize,
    tiers: TierCounts,
}

spec fn counts_are(c: Counts, records: Seq<TaskRecord>) -> bool {
    &&& c.completed == count_where(records, is_completed())
    &&& c.rejected == count_where(records, is_rejected())
    &&& c.failed == count_where(records, is_failed())
    &&& c.cold_starts == count_where(records, is_cold_start())
    &&& c.style_swaps == count_where(records, is_style_swap())
    &&& c.overflow == count_where(records, is_overflow())
    &&& c.with_sources == count_where(records, has_source())
    &&& c.loads == count_where(records, loaded_source())
    &&& c.tiers.render_cache_hit == count_where(records, has_tier(RouteTier::RenderCacheHit))
    &&& c.tiers.tier1 == count_where(records, has_tier(RouteTier::Tier1WarmTracking))
    &&& c.tiers.tier2 == count_where(records, has_tier(RouteTier::Tier2HrwBl))
    &&& c.tiers.tier3 == count_where(records, has_tier(RouteTier::Tier3DrainSwap))
    &&& c.tiers.tier4 == count_where(records, has_tier(RouteTier::Tier4Overflow))
}

fn more_if(n: usize, counted: bool) -> (r: usize)
    requires
        n < usize::MAX,
    ensures
        r == n + if counted {
            1int
        } else {
            0
        },
{
    if counted {
        n + 1
    } else {
        n
    }
}

fn same_tier(found: Option<RouteTier>, tier: RouteTier) -> (r: bool)
    ensures
        r == (found == Some(tier)),
{
    match found {
        Some(t) => t == tier,
        None => false,
    }
}

fn same_reason(found: Option<RejectionReason>, reason: RejectionReason) -> (r: bool)
    ensures
        r == (found == Some(reason)),
{
    match found {
        Some(t) => t == reason,
        None => false,
    }
}

fn count_records(records: &Vec<TaskRecord>) -> (r: Counts)
    ensures
        counts_are(r, records@),
{
    let mut c = Counts {
        completed: 0,
        rejected: 0,
        failed: 0,
        cold_starts: 0,
        style_swaps: 0,
        overflow: 0,
        with_sources: 0,
        loads: 0,
        tiers: TierCounts { render_cache_hit: 0, tier1: 0, tier2: 0, tier3: 0, tier4: 0 },
    };
    let mut i: usize = 0;
    assert(records@.take(0) =~= Seq::<TaskRecord>::empty());
    while i < records.len()
        invariant
            i <= records@.len(),
            counts_are(c, records@.take(i as int)),
        decreases records.len() - i,
    {
        let r = &records[i];
        let ghost prefix = records@.take(i as int);
        proof {
            assert(records@.take(i + 1).drop_last() =~= prefix);
            assert(records@.take(i + 1).last() == *r);
            lemma_count_bound(prefix, is_completed());
            lemma_count_bound(prefix, is_rejected());
            lemma_count_bound(prefix, is_failed());
            lemma_count_bound(prefix, is_cold_start());
            lemma_count_bound(prefix, is_style_swap());
            lemma_count_bound(prefix, is_overflow());
            lemma_count_bound(prefix, has_source());
            lemma_count_bound(prefix, loaded_source());
            lemma_count_bound(prefix, has_tier(RouteTier::RenderCacheHit));
            lemma_count_bound(prefix, has_tier(RouteTier::Tier1WarmTracking));
            lemma_count_bound(prefix, has_tier(RouteTier::Tier2HrwBl));
            lemma_count_bound(prefix, has_tier(RouteTier::Tier3DrainSwap));
            lemma_count_bound(prefix, has_tier(RouteTier::Tier4Overflow));
        }
        let completed = r.completed_at.is_some();
        c = Counts {
            completed: more_if(c.completed, completed),
            rejected: more_if(c.rejected, r.rejection_reason.is_some()),
            failed: more_if(c.failed, r.failure_error.is_some()),
            cold_starts: more_if(c.cold_starts, completed && r.cold_start),
            style_swaps: more_if(c.style_swaps, completed && r.style_swap),
            overflow: more_if(c.overflow, completed && r.admitted_at_overflow),
            with_sources: more_if(c.with_sources, completed && r.had_source),
            loads: more_if(c.loads, completed && r.source_loaded),
            tiers: TierCounts {
                render_cache_hit: more_if(
                    c.tiers.render_cache_hit,
                    same_tier(r.route_tier, RouteTier::RenderCacheHit),
                ),
                tier1: more_if(
                    c.tiers.tier1,
                    same_tier(r.route_tier, RouteTier::Tier1WarmTracking),
                ),
                tier2: more_if(c.tiers.tier2, same_tier(r.route_tier, RouteTier::Tier2HrwBl)),
                tier3: more_if(c.tiers.tier3, same_tier(r.route_tier, RouteTier::Tier3DrainSwap)),
                tier4: more_if(c.tiers.tier4, same_tier(r.route_tier, RouteTier::Tier4Overflow)),
            },
        };
        i += 1;
    }
    assert(records@.take(i as int) =~= records@);
    c
}

fn count_reason(records: &Vec<TaskRecord>, reason: RejectionReason) -> (r: usize)
    ensures
        r == count_where(records@, has_reason(reason)),
{
    let mut n: usize = 0;
    let mut i: usize = 0;
    assert(records@.take(0) =~= Seq::<TaskRecord>::empty());
    while i < records.len()
        invariant
            n <= i <= records@.len(),
            n == count_where(records@.take(i as int), has_reason(reason)),
        decreases records.len() - i,
    {
        proof {
            assert(records@.take(i + 1).drop_last() =~= records@.take(i as int));
            assert(records@.take(i + 1).last() == records@[i as int]);
        }
        n = more_if(n, same_reason(records[i].rejection_reason, reason));
        i += 1;
    }
    assert(records@.take(i as int) =~= records@);
    n
}

fn list_reasons(records: &Vec<TaskRecord>) -> (r: Vec<(RejectionReason, usize)>)
    ensures
        reason_views(r@) == reason_counts(records@, 8),
{
    let all: [RejectionReason; 8] = [
        RejectionReason::QueueFull,
        RejectionReason::NoCapacity,
        RejectionReason::DrainTooSlow,
        RejectionReason::UnknownStyle,
        RejectionReason::HopLimitExceeded,
        RejectionReason::ForwardFailed,
        RejectionReason::DeadlineTooClose,
        RejectionReason::DeadlineExceeded,
    ];
    assert(all@ =~= reasons());
    let mut out: Vec<(RejectionReason, usize)> = Vec::new();
    let mut k: usize = 0;
    assert(reason_views(out@) =~= reason_counts(records@, 0));
    while k < 8
        invariant
            k <= 8,
            all@ == reasons(),
            reason_views(out@) == reason_counts(records@, k as nat),
        decreases 8 - k,
    {
        let reason = all[k];
        assert(reason == reasons()[k as int]);
        let n: usize = count_reason(records, reason);
        let ghost before = reason_views(out@);
        if n > 0 {
            out.push((reason, n));
            assert(reason_views(out@) =~= before.push((reason, n as nat)));
        }
        k += 1;
    }
    out
}

fn list_failures(records: &Vec<TaskRecord>) -> (r: Vec<(String, usize)>)
    ensures
        tally_views(r@) == failures_of(records@),
{
    let mut out: Vec<(String, usize)> = Vec::new();
    let mut i: usize = 0;
    assert(records@.take(0) =~= Seq::<TaskRecord>::empty());
    assert(tally_views(out@) =~= Seq::<(Seq<char>, nat)>::empty());
    while i < records.len()
        invariant
            i <= records@.len(),
            tally_views(out@) == failures_of(records@.take(i as int)),
        decreases records.len() - i,
    {
        proof {
            assert(records@.take(i + 1).drop_last() =~= records@.take(i as int));
            assert(records@.take(i + 1).last() == records@[i as int]);
            lemma_failures_sum(records@.take(i as int));
        }
        if let Some(error) = &records[i].failure_error {
            bump(&mut out, error);
        }
        i += 1;
    }
    assert(records@.take(i as int) =~= records@);
    out
}

/// The latencies, processor times and ends that one walk over the records gives.
struct Times {
    latencies: Vec<u64>,
    violations: usize,
    intervals: Vec<(u64, u64)>,
    busy: u128,
    first: Option<u64>,
    last: Option<u64>,
}

proof fn lemma_busy_up_to(records: Seq<TaskRecord>, n: int)
    requires
        0 <= n <= records.len(),
    ensures
        busy_sum(cpu_intervals(records.take(n))) <= busy_sum(cpu_intervals(records)),
    decreases records.len() - n,
{
    if n < records.len() {
        let next = records.take(n + 1);
        assert(next.drop_last() =~= records.take(n));
        let a = cpu_intervals(records.take(n));
        let b = cpu_intervals(next);
        if b.len() > a.len() {
            assert(b.drop_last() =~= a);
        }
        lemma_busy_up_to(records, n + 1);
    } else {
        assert(records.take(n) =~= records);
    }
}

fn collect_times(records: &Vec<TaskRecord>, sla: u64) -> (r: Times)
    requires
        busy_sum(cpu_intervals(records@)) <= MAX_NANOS,
    ensures
        r.latencies@ == latencies_of(records@),
        r.violations == longer_than(latencies_of(records@), sla),
        r.intervals@ == cpu_intervals(records@),
        r.busy == busy_sum(cpu_intervals(records@)),
        r.first == first_arrival(records@),
        r.last == last_completion(records@),
        proper(r.intervals@),
{
    let mut t = Times {
        latencies: Vec::new(),
        violations: 0,
        intervals: Vec::new(),
        busy: 0,
        first: None,
        last: None,
    };
    let mut i: usize = 0;
    assert(records@.take(0) =~= Seq::<TaskRecord>::empty());
    while i < records.len()
        invariant
            i <= records@.len(),
            busy_sum(cpu_intervals(records@)) <= MAX_NANOS,
            t.latencies@ == latencies_of(records@.take(i as int)),
            t.violations == longer_than(t.latencies@, sla),
            t.violations <= i,
            t.intervals@ == cpu_intervals(records@.take(i as int)),
            t.busy == busy_sum(t.intervals@),
            t.first == first_arrival(records@.take(i as int)),
            t.last == last_completion(records@.take(i as int)),
            proper(t.intervals@),
        decreases records.len() - i,
    {
        let r = &records[i];
        proof {
            assert(records@.take(i + 1).drop_last() =~= records@.take(i as int));
            assert(records@.take(i + 1).last() == *r);
            lemma_busy_up_to(records@, i + 1);
        }
        t.first = match t.first {
            None => Some(r.arrived_at),
            Some(f) => Some(
                if r.arrived_at < f {
                    r.arrived_at
                } else {
                    f
                },
            ),
        };
        if let Some(at) = r.completed_at {
            let ghost before = t.latencies@;
            let latency: u64 = at.saturating_sub(r.arrived_at);
            t.latencies.push(latency);
            assert(t.latencies@.drop_last() =~= before);
            if latency > sla {
                t.violations = t.violations + 1;
            }
            t.last = match t.last {
                None => Some(at),
                Some(l) => Some(
                    if at > l {
                        at
                    } else {
                        l
                    },
                ),
            };
            if let (Some(start), Some(end)) = (r.cpu_started_at, r.cpu_completed_at) {
                if end >= start {
                    let ghost spans = t.intervals@;
                    t.intervals.push((start, end));
                    assert(t.intervals@.drop_last() =~= spans);
                    t.busy = t.busy + (end - start) as u128;
                    assert forall|k: int| 0 <= k < t.intervals@.len() implies (
                    #[trigger] t.intervals@[k]).0 <= t.intervals@[k].1 by {
                        if k < spans.len() {
                            assert(t.intervals@[k] == spans[k]);
                        }
                    }
                }
            }
        }
        i += 1;
    }
    assert(records@.take(i as int) =~= records@);
    t
}

impl MetricsCollector {
    pub fn new() -> (r: MetricsCollector)
        ensures
            r.records@.len() == 0,
            r.cpu_render_permits_total == 0,
    {
        MetricsCollector::with_cpu_render_permits(0)
    }

    pub fn with_cpu_render_permits(cpu_render_permits_total: usize) -> (r: MetricsCollector)
        ensures
            r.records@.len() == 0,
            r.cpu_render_permits_total == cpu_render_permits_total,
    {
        MetricsCollector { records: Vec::new(), cpu_render_permits_total }
    }

    /// Keeps what became of a task.
    pub fn record(&mut self, outcome: TaskOutcome)
        ensures
            final(self).cpu_render_permits_total == old(self).cpu_render_permits_total,
            final(self).records@.len() == old(self).records@.len() + 1,
            final(self).records@.drop_last() == old(self).records@,
            is_record(outcome, final(self).records@.last()),
    {
        let ghost before = self.records@;
        let arrived_at: u64 = outcome.arrived_at;
        let had_source = outcome.had_source;
        let record = match outcome.result {
            TaskResult::Completed { info, .. } => TaskRecord {
                arrived_at,
                completed_at: Some(info.completed_at),
                cpu_started_at: Some(info.cpu_started_at),
                cpu_completed_at: Some(info.cpu_completed_at),
                route_tier: Some(info.route_tier),
                style_swap: info.style_swap,
                cold_start: info.cold_start,
                had_source,
                source_loaded: info.source_loaded,
                admitted_at_overflow: info.admitted_at_overflow,
                rejection_reason: None,
                failure_error: None,
            },
            TaskResult::Rejected { reason } => TaskRecord {
                arrived_at,
                completed_at: None,
                cpu_started_at: None,
                cpu_completed_at: None,
                route_tier: None,
                style_swap: false,
                cold_start: false,
                had_source,
                source_loaded: false,
                admitted_at_overflow: false,
                rejection_reason: Some(reason),
                failure_error: None,
            },
            TaskResult::Failed { error, .. } => TaskRecord {
                arrived_at,
                completed_at: None,
                cpu_started_at: None,
                cpu_completed_at: None,
                route_tier: None,
                style_swap: false,
                cold_start: false,
                had_source,
                source_loaded: false,
                admitted_at_overflow: false,
                rejection_reason: None,
                failure_error: Some(error),
            },
        };
        self.records.push(record);
        assert(self.records@.drop_last() =~= before);
    }

    /// What the run amounts to, against a service level.
    pub fn report(&self, sla: u64) -> (r: Report)
        requires
            busy_sum(cpu_intervals(self.records@)) <= MAX_NANOS,
        ensures
            reports(self.records@, self.cpu_render_permits_total, sla, r),
    {
        let counts = count_records(&self.records);
        let times = collect_times(&self.records, sla);
        let sorted = sort(&times.latencies);
        let ghost latencies = latencies_of(self.records@);
        let elapsed: u64 = match (times.first, times.last) {
            (Some(a), Some(b)) => b.saturating_sub(a),
            _ => 0,
        };
        let peak: usize = peak_overlap(&times.intervals);
        Report {
            total: self.records.len(),
            completed: counts.completed,
            rejected: counts.rejected,
            failed: counts.failed,
            rejection_by_reason: list_reasons(&self.records),
            failure_by_error: list_failures(&self.records),
            sla_violations: times.violations,
            sla,
            latency_p50: percentile(&sorted, 50, Ghost(latencies)),
            latency_p90: percentile(&sorted, 90, Ghost(latencies)),
            latency_p95: percentile(&sorted, 95, Ghost(latencies)),
            latency_p99: percentile(&sorted, 99, Ghost(latencies)),
            latency_max: percentile(&sorted, 100, Ghost(latencies)),
            cold_starts: counts.cold_starts,
            style_swaps: counts.style_swaps,
            overflow_admissions: counts.overflow,
            tasks_with_sources: counts.with_sources,
            source_loads: counts.loads,
            source_hits: counts.with_sources.saturating_sub(counts.loads),
            tier_counts: counts.tiers,
            elapsed,
            cpu_render_permits_total: self.cpu_render_permits_total,
            cpu_render_busy: times.busy,
            cpu_render_peak_inflight: peak,
        }
    }
}

impl Default for MetricsCollector {
    fn default() -> (r: MetricsCollector)
        ensures
            r.records@.len() == 0,
            r.cpu_render_permits_total == 0,
    {
        MetricsCollector::new()
    }
}

/// The three ways in which a record can have come about exclude one another, and
/// only a completed task came by a route.
pub open spec fn consistent(r: TaskRecord) -> bool {
    &&& done(r) ==> r.rejection_reason is None && r.failure_error is None
    &&& r.rejection_reason is Some ==> r.failure_error is None
    &&& done(r) == (r.route_tier is Some)
    &&& done(r) || r.rejection_reason is Some || r.failure_error is Some
}

/// What is kept of an outcome came about in one of the three ways.
pub proof fn law_records_are_consistent(outcome: TaskOutcome, r: TaskRecord)
    requires
        is_record(outcome, r),
    ensures
        consistent(r),
{
}

/// Every task was completed, rejected or failed.
pub proof fn law_every_task_is_accounted_for(records: Seq<TaskRecord>)
    requires
        forall|i: int| 0 <= i < records.len() ==> consistent(#[trigger] records[i]),
    ensures
        count_where(records, is_completed()) + count_where(records, is_rejected()) + count_where(
            records,
            is_failed(),
        ) == records.len(),
    decreases records.len(),
{
    if records.len() > 0 {
        let front = records.drop_last();
        assert forall|i: int| 0 <= i < front.len() implies consistent(#[trigger] front[i]) by {
            assert(front[i] == records[i]);
        }
        law_every_task_is_accounted_for(front);
        assert(consistent(records[records.len() - 1]));
    }
}

/// All counts of a list of reasons, added up.
pub open spec fn reason_sum(list: Seq<(RejectionReason, nat)>) -> nat
    decreases list.len(),
{
    if list.len() == 0 {
        0
    } else {
        reason_sum(list.drop_last()) + list.last().1
    }
}

/// How many records have one of the first `n` reasons.
spec fn reasoned(records: Seq<TaskRecord>, n: nat) -> nat
    decreases n,
{
    if n == 0 {
        0
    } else {
        reasoned(records, (n - 1) as nat) + count_where(records, has_reason(reasons()[n - 1]))
    }
}

proof fn lemma_reason_sum(records: Seq<TaskRecord>, n: nat)
    ensures
        reason_sum(reason_counts(records, n)) == reasoned(records, n),
    decreases n,
{
    if n > 0 {
        lemma_reason_sum(records, (n - 1) as nat);
        let before = reason_counts(records, (n - 1) as nat);
        let count = count_where(records, has_reason(reasons()[n - 1]));
        assert(before.push((reasons()[n - 1], count)).drop_last() =~= before);
    }
}

proof fn lemma_reasons_of_rejected(records: Seq<TaskRecord>)
    ensures
        reasoned(records, 8) == count_where(records, is_rejected()),
    decreases records.len(),
{
    reveal_with_fuel(reasoned, 9);
    let all = reasons();
    assert(all[0] == RejectionReason::QueueFull);
    assert(all[1] == RejectionReason::NoCapacity);
    assert(all[2] == RejectionReason::DrainTooSlow);
    assert(all[3] == RejectionReason::UnknownStyle);
    assert(all[4] == RejectionReason::HopLimitExceeded);
    assert(all[5] == RejectionReason::ForwardFailed);
    assert(all[6] == RejectionReason::DeadlineTooClose);
    assert(all[7] == RejectionReason::DeadlineExceeded);
    if records.len() > 0 {
        lemma_reasons_of_rejected(records.drop_last());
        let last = records.last();
        match last.rejection_reason {
            Some(RejectionReason::QueueFull) => {},
            Some(RejectionReason::NoCapacity) => {},
            Some(RejectionReason::DrainTooSlow) => {},
            Some(RejectionReason::UnknownStyle) => {},
            Some(RejectionReason::HopLimitExceeded) => {},
            Some(RejectionReason::ForwardFailed) => {},
            Some(RejectionReason::DeadlineTooClose) => {},
            Some(RejectionReason::DeadlineExceeded) => {},
            None => {},
        }
    }
}

proof fn lemma_tiers_of_completed(records: Seq<TaskRecord>)
    requires
        forall|i: int| 0 <= i < records.len() ==> consistent(#[trigger] records[i]),
    ensures
        count_where(records, has_tier(RouteTier::RenderCacheHit)) + count_where(
            records,
            has_tier(RouteTier::Tier1WarmTracking),
        ) + count_where(records, has_tier(RouteTier::Tier2HrwBl)) + count_where(
            records,
            has_tier(RouteTier::Tier3DrainSwap),
        ) + count_where(records, has_tier(RouteTier::Tier4Overflow)) == count_where(
            records,
            is_completed(),
        ),
    decreases records.len(),
{
    if records.len() > 0 {
        let front = records.drop_last();
        assert forall|i: int| 0 <= i < front.len() implies consistent(#[trigger] front[i]) by {
            assert(front[i] == records[i]);
        }
        lemma_tiers_of_completed(front);
        assert(consistent(records[records.len() - 1]));
        match records.last().route_tier {
            Some(RouteTier::RenderCacheHit) => {},
            Some(RouteTier::Tier1WarmTracking) => {},
            Some(RouteTier::Tier2HrwBl) => {},
            Some(RouteTier::Tier3DrainSwap) => {},
            Some(RouteTier::Tier4Overflow) => {},
            None => {},
        }
    }
}

proof fn lemma_errors_of_failed(records: Seq<TaskRecord>)
    ensures
        tally_sum(failures_of(records)) == count_where(records, is_failed()),
    decreases records.len(),
{
    if records.len() > 0 {
        lemma_errors_of_failed(records.drop_last());
        match records.last().failure_error {
            Some(error) => {
                lemma_bumped_sum(failures_of(records.drop_last()), error@);
            },
            None => {},
        }
    }
}

proof fn lemma_completed_latencies(records: Seq<TaskRecord>)
    ensures
        latencies_of(records).len() == count_where(records, is_completed()),
    decreases records.len(),
{
    if records.len() > 0 {
        lemma_completed_latencies(records.drop_last());
    }
}

/// The counts of a report add up: every task was completed, rejected or failed,
/// every completed one came by a route, every rejected one has a reason and every
/// failed one an error.
pub proof fn law_a_report_adds_up(
    records: Seq<TaskRecord>,
    permits: usize,
    sla: u64,
    r: Report,
)
    requires
        forall|i: int| 0 <= i < records.len() ==> consistent(#[trigger] records[i]),
        reports(records, permits, sla, r),
    ensures
        r.total == records.len(),
        r.completed + r.rejected + r.failed == r.total,
        r.tier_counts.render_cache_hit + r.tier_counts.tier1 + r.tier_counts.tier2
            + r.tier_counts.tier3 + r.tier_counts.tier4 == r.completed,
        reason_sum(reason_views(r.rejection_by_reason@)) == r.rejected,
        tally_sum(tally_views(r.failure_by_error@)) == r.failed,
{
    law_every_task_is_accounted_for(records);
    lemma_reason_sum(records, 8);
    lemma_reasons_of_rejected(records);
    lemma_tiers_of_completed(records);
    lemma_errors_of_failed(records);
    assert(r.tier_counts.of(RouteTier::RenderCacheHit) == r.tier_counts.render_cache_hit);
    assert(r.tier_counts.of(RouteTier::Tier1WarmTracking) == r.tier_counts.tier1);
    assert(r.tier_counts.of(RouteTier::Tier2HrwBl) == r.tier_counts.tier2);
    assert(r.tier_counts.of(RouteTier::Tier3DrainSwap) == r.tier_counts.tier3);
    assert(r.tier_counts.of(RouteTier::Tier4Overflow) == r.tier_counts.tier4);
}

/// The percentiles of a report rise, and are zero if no task was completed.
pub proof fn law_percentiles_rise(records: Seq<TaskRecord>, permits: usize, sla: u64, r: Report)
    requires
        reports(records, permits, sla, r),
    ensures
        r.latency_p50 <= r.latency_p90 <= r.latency_p95 <= r.latency_p99 <= r.latency_max,
        r.completed == 0 ==> r.latency_max == 0,
{
    lemma_completed_latencies(records);
    let latencies = latencies_of(records);
    lemma_percentiles(latencies, 50, 90, r.latency_p50, r.latency_p90);
    lemma_percentiles(latencies, 90, 95, r.latency_p90, r.latency_p95);
    lemma_percentiles(latencies, 95, 99, r.latency_p95, r.latency_p99);
    lemma_percentiles(latencies, 99, 100, r.latency_p99, r.latency_max);
}

proof fn lemma_percentiles(latencies: Seq<u64>, low: nat, high: nat, a: u64, b: u64)
    requires
        low <= high <= 100,
        is_percentile(latencies, low, a),
        is_percentile(latencies, high, b),
    ensures
        a <= b,
{
    if latencies.len() > 0 {
        let n = (latencies.len() - 1) as nat;
        assert(2 * n * low <= 2 * n * high) by (nonlinear_arith)
            requires
                low <= high,
        ;
        assert(percentile_index(latencies.len(), low) <= percentile_index(latencies.len(), high));
        if b < a {
            lemma_count_monotone(latencies, b as int, a - 1);
        }
    }
}

proof fn lemma_counted_by(
    records: Seq<TaskRecord>,
    test: spec_fn(TaskRecord) -> bool,
    same: spec_fn(TaskRecord) -> bool,
)
    requires
        forall|r: TaskRecord| #[trigger] test(r) == same(r),
    ensures
        count_where(records, test) == records.filter(same).len(),
    decreases records.len(),
{
    reveal(Seq::filter);
    if records.len() > 0 {
        lemma_counted_by(records.drop_last(), test, same);
        assert(test(records.last()) == same(records.last()));
    }
}

/// A report counts each task for what became of it: those that were completed, rejected
/// and failed, and of the completed ones those that started cold, swapped the style,
/// overflowed, had a source and loaded one.
pub proof fn law_tasks_are_counted_for_what_became_of_them(
    records: Seq<TaskRecord>,
    permits: usize,
    sla: u64,
    r: Report,
    completed: spec_fn(TaskRecord) -> bool,
    rejected: spec_fn(TaskRecord) -> bool,
    failed: spec_fn(TaskRecord) -> bool,
    cold: spec_fn(TaskRecord) -> bool,
    swapped: spec_fn(TaskRecord) -> bool,
    overflowed: spec_fn(TaskRecord) -> bool,
    sourced: spec_fn(TaskRecord) -> bool,
    loaded: spec_fn(TaskRecord) -> bool,
)
    requires
        reports(records, permits, sla, r),
        forall|x: TaskRecord| #[trigger] completed(x) == (x.completed_at is Some),
        forall|x: TaskRecord| #[trigger] rejected(x) == (x.rejection_reason is Some),
        forall|x: TaskRecord| #[trigger] failed(x) == (x.failure_error is Some),
        forall|x: TaskRecord| #[trigger] cold(x) == (x.completed_at is Some && x.cold_start),
        forall|x: TaskRecord| #[trigger] swapped(x) == (x.completed_at is Some && x.style_swap),
        forall|x: TaskRecord| #[trigger]
            overflowed(x) == (x.completed_at is Some && x.admitted_at_overflow),
        forall|x: TaskRecord| #[trigger] sourced(x) == (x.completed_at is Some && x.had_source),
        forall|x: TaskRecord| #[trigger] loaded(x) == (x.completed_at is Some && x.source_loaded),
    ensures
        r.total == records.len(),
        r.completed == records.filter(completed).len(),
        r.rejected == records.filter(rejected).len(),
        r.failed == records.filter(failed).len(),
        r.cold_starts == records.filter(cold).len(),
        r.style_swaps == records.filter(swapped).len(),
        r.overflow_admissions == records.filter(overflowed).len(),
        r.tasks_with_sources == records.filter(sourced).len(),
        r.source_loads == records.filter(loaded).len(),
        r.source_loads <= r.tasks_with_sources ==> r.source_hits == r.tasks_with_sources
            - r.source_loads,
        r.sla == sla,
        r.cpu_render_permits_total == permits,
{
    lemma_counted_by(records, is_completed(), completed);
    lemma_counted_by(records, is_rejected(), rejected);
    lemma_counted_by(records, is_failed(), failed);
    lemma_counted_by(records, is_cold_start(), cold);
    lemma_counted_by(records, is_style_swap(), swapped);
    lemma_counted_by(records, is_overflow(), overflowed);
    lemma_counted_by(records, has_source(), sourced);
    lemma_counted_by(records, loaded_source(), loaded);
}

/// A report counts the tasks of a route under that route.
pub proof fn law_routes_are_counted(
    records: Seq<TaskRecord>,
    permits: usize,
    sla: u64,
    r: Report,
    tier: RouteTier,
    routed: spec_fn(TaskRecord) -> bool,
)
    requires
        reports(records, permits, sla, r),
        forall|x: TaskRecord| #[trigger] routed(x) == (x.route_tier == Some(tier)),
    ensures
        tier == RouteTier::RenderCacheHit ==> r.tier_counts.render_cache_hit == records.filter(
            routed,
        ).len(),
        tier == RouteTier::Tier1WarmTracking ==> r.tier_counts.tier1 == records.filter(routed).len(),
        tier == RouteTier::Tier2HrwBl ==> r.tier_counts.tier2 == records.filter(routed).len(),
        tier == RouteTier::Tier3DrainSwap ==> r.tier_counts.tier3 == records.filter(routed).len(),
        tier == RouteTier::Tier4Overflow ==> r.tier_counts.tier4 == records.filter(routed).len(),
{
    lemma_counted_by(records, has_tier(tier), routed);
    assert(r.tier_counts.of(tier) == count_where(records, has_tier(tier)));
}

proof fn lemma_latencies_counted(
    records: Seq<TaskRecord>,
    x: int,
    within: spec_fn(TaskRecord) -> bool,
)
    requires
        x >= 0,
        forall|t: TaskRecord| #[trigger]
            within(t) == (t.completed_at is Some && t.completed_at->0 <= t.arrived_at + x),
    ensures
        count_le(latencies_of(records), x) == records.filter(within).len(),
    decreases records.len(),
{
    reveal(Seq::filter);
    if records.len() > 0 {
        let front = records.drop_last();
        let last = records.last();
        lemma_latencies_counted(front, x, within);
        assert(within(last) == (last.completed_at is Some && last.completed_at->0
            <= last.arrived_at + x));
        if last.completed_at is Some {
            let before = latencies_of(front);
            let latency = monus(last.completed_at->0 as nat, last.arrived_at as nat) as u64;
            assert(latencies_of(records) == before.push(latency));
            assert(before.push(latency).drop_last() =~= before);
        }
    }
}

proof fn lemma_late_counted(records: Seq<TaskRecord>, sla: u64, late: spec_fn(TaskRecord) -> bool)
    requires
        forall|t: TaskRecord| #[trigger]
            late(t) == (t.completed_at is Some && t.completed_at->0 > t.arrived_at + sla),
    ensures
        longer_than(latencies_of(records), sla) == records.filter(late).len(),
    decreases records.len(),
{
    reveal(Seq::filter);
    if records.len() > 0 {
        let front = records.drop_last();
        let last = records.last();
        lemma_late_counted(front, sla, late);
        assert(late(last) == (last.completed_at is Some && last.completed_at->0 > last.arrived_at
            + sla));
        if last.completed_at is Some {
            let before = latencies_of(front);
            let latency = monus(last.completed_at->0 as nat, last.arrived_at as nat) as u64;
            assert(latencies_of(records) == before.push(latency));
            assert(before.push(latency).drop_last() =~= before);
        }
    }
}

/// A task violates the service level just if it was completed later after its arrival
/// than the level allows.
pub proof fn law_late_tasks_violate_the_service_level(
    records: Seq<TaskRecord>,
    permits: usize,
    sla: u64,
    r: Report,
    late: spec_fn(TaskRecord) -> bool,
)
    requires
        reports(records, permits, sla, r),
        forall|t: TaskRecord| #[trigger]
            late(t) == (t.completed_at is Some && t.completed_at->0 > t.arrived_at + sla),
    ensures
        r.sla_violations == records.filter(late).len(),
{
    lemma_late_counted(records, sla, late);
}

proof fn lemma_percentile_of(
    records: Seq<TaskRecord>,
    percent: nat,
    v: u64,
    completed: spec_fn(TaskRecord) -> bool,
    within: spec_fn(TaskRecord) -> bool,
    below: spec_fn(TaskRecord) -> bool,
    k: int,
)
    requires
        percent <= 100,
        is_percentile(latencies_of(records), percent, v),
        forall|t: TaskRecord| #[trigger] completed(t) == (t.completed_at is Some),
        forall|t: TaskRecord| #[trigger]
            within(t) == (t.completed_at is Some && t.completed_at->0 <= t.arrived_at + v),
        forall|t: TaskRecord| #[trigger]
            below(t) == (t.completed_at is Some && v > 0 && t.completed_at->0 <= t.arrived_at + v - 1),
        records.filter(completed).len() > 0,
        200 * k <= 2 * (records.filter(completed).len() - 1) * percent + 100 < 200 * (k + 1),
    ensures
        records.filter(below).len() <= k < records.filter(within).len(),
{
    lemma_counted_by(records, is_completed(), completed);
    lemma_completed_latencies(records);
    lemma_latencies_counted(records, v as int, within);
    if v > 0 {
        lemma_latencies_counted(records, v - 1, below);
    } else {
        lemma_none(records, below);
        lemma_none_below(latencies_of(records));
    }
}

proof fn lemma_none(records: Seq<TaskRecord>, test: spec_fn(TaskRecord) -> bool)
    requires
        forall|t: TaskRecord| !(#[trigger] test(t)),
    ensures
        records.filter(test).len() == 0,
    decreases records.len(),
{
    reveal(Seq::filter);
    if records.len() > 0 {
        lemma_none(records.drop_last(), test);
    }
}

proof fn lemma_none_below(s: Seq<u64>)
    ensures
        count_le(s, -1) == 0,
    decreases s.len(),
{
    if s.len() > 0 {
        lemma_none_below(s.drop_last());
    }
}

/// A percentile is a latency in the middle of the others: of the completed tasks, at most
/// as many were completed sooner after their arrival as its rank says, and more than that
/// were completed within it. The rank is that share of the completed tasks, without the
/// first of them, rounded to the nearest.
pub proof fn law_percentiles_are_latencies_of_their_rank(
    records: Seq<TaskRecord>,
    permits: usize,
    sla: u64,
    r: Report,
    percent: nat,
    v: u64,
    completed: spec_fn(TaskRecord) -> bool,
    within: spec_fn(TaskRecord) -> bool,
    below: spec_fn(TaskRecord) -> bool,
    k: int,
)
    requires
        reports(records, permits, sla, r),
        percent == 50 && v == r.latency_p50 || percent == 90 && v == r.latency_p90 || percent == 95
            && v == r.latency_p95 || percent == 99 && v == r.latency_p99 || percent == 100 && v
            == r.latency_max,
        forall|t: TaskRecord| #[trigger] completed(t) == (t.completed_at is Some),
        forall|t: TaskRecord| #[trigger]
            within(t) == (t.completed_at is Some && t.completed_at->0 <= t.arrived_at + v),
        forall|t: TaskRecord| #[trigger]
            below(t) == (t.completed_at is Some && v > 0 && t.completed_at->0 <= t.arrived_at + v - 1),
        records.filter(completed).len() > 0,
        200 * k <= 2 * (records.filter(completed).len() - 1) * percent + 100 < 200 * (k + 1),
    ensures
        records.filter(below).len() <= k < records.filter(within).len(),
{
    lemma_percentile_of(records, percent, v, completed, within, below, k);
}

/// The report of a single task has its completion minus its arrival as every percentile,
/// and one violation just if that is longer than the service level.
pub proof fn law_one_task_is_its_own_percentiles(
    record: TaskRecord,
    permits: usize,
    sla: u64,
    r: Report,
)
    requires
        reports(seq![record], permits, sla, r),
        record.completed_at is Some,
        record.completed_at->0 >= record.arrived_at,
    ensures
        r.latency_p50 == record.completed_at->0 - record.arrived_at,
        r.latency_p90 == record.completed_at->0 - record.arrived_at,
        r.latency_p95 == record.completed_at->0 - record.arrived_at,
        r.latency_p99 == record.completed_at->0 - record.arrived_at,
        r.latency_max == record.completed_at->0 - record.arrived_at,
        r.sla_violations == 1 <==> record.completed_at->0 - record.arrived_at > sla,
        r.elapsed == record.completed_at->0 - record.arrived_at,
        r.cpu_render_busy == match (record.cpu_started_at, record.cpu_completed_at) {
            (Some(start), Some(end)) => if end >= start {
                end - start
            } else {
                0
            },
            _ => 0,
        },
{
    let records = seq![record];
    let latency = (record.completed_at->0 - record.arrived_at) as u64;
    assert(records.drop_last() =~= Seq::empty());
    assert(latencies_of(Seq::<TaskRecord>::empty()) =~= Seq::empty());
    assert(latencies_of(records) =~= seq![latency]);
    let all = latencies_of(records);
    assert(all.drop_last() =~= Seq::empty());
    assert(longer_than(all.drop_last(), sla) == 0);
    assert forall|x: int| count_le(all, x) == if latency <= x {
        1nat
    } else {
        0
    } by {
        assert(count_le(all.drop_last(), x) == 0);
    }
    reveal_with_fuel(first_arrival, 2);
    reveal_with_fuel(last_completion, 2);
    assert(first_arrival(records) == Some(record.arrived_at));
    assert(last_completion(records) == record.completed_at);
    let none = Seq::<TaskRecord>::empty();
    assert(cpu_intervals(none) =~= Seq::empty());
    match (record.cpu_started_at, record.cpu_completed_at) {
        (Some(start), Some(end)) => {
            if end >= start {
                let intervals = cpu_intervals(records);
                assert(intervals =~= seq![(start, end)]);
                assert(intervals.drop_last() =~= Seq::empty());
                assert(busy_sum(intervals.drop_last()) == 0);
            } else {
                assert(cpu_intervals(records) =~= Seq::empty());
            }
        },
        _ => {
            assert(cpu_intervals(records) =~= Seq::empty());
        },
    }
}

/// Records that are the same but for the clock, which is `shift` later.
pub open spec fn shifted_records(a: Seq<TaskRecord>, b: Seq<TaskRecord>, shift: nat) -> bool {
    &&& a.len() == b.len()
    &&& forall|i: int|
        0 <= i < a.len() ==> {
            &&& b[i].arrived_at == (#[trigger] a[i]).arrived_at + shift
            &&& a[i].completed_at is Some == b[i].completed_at is Some
            &&& a[i].completed_at is Some ==> b[i].completed_at->0 == a[i].completed_at->0 + shift
        }
}

proof fn lemma_shifted_latencies(a: Seq<TaskRecord>, b: Seq<TaskRecord>, shift: nat)
    requires
        shifted_records(a, b, shift),
    ensures
        latencies_of(a) == latencies_of(b),
        first_arrival(a) is Some == first_arrival(b) is Some,
        first_arrival(a) is Some ==> first_arrival(b)->0 == first_arrival(a)->0 + shift,
        last_completion(a) is Some == last_completion(b) is Some,
        last_completion(a) is Some ==> last_completion(b)->0 == last_completion(a)->0 + shift,
    decreases a.len(),
{
    if a.len() > 0 {
        let x = a.drop_last();
        let y = b.drop_last();
        assert forall|i: int| 0 <= i < x.len() implies {
            &&& y[i].arrived_at == (#[trigger] x[i]).arrived_at + shift
            &&& x[i].completed_at is Some == y[i].completed_at is Some
            &&& x[i].completed_at is Some ==> y[i].completed_at->0 == x[i].completed_at->0 + shift
        } by {
            assert(x[i] == a[i] && y[i] == b[i]);
        }
        lemma_shifted_latencies(x, y, shift);
        assert(a[a.len() - 1] == a.last());
    }
}

/// The clock does not matter: if all arrivals and completions are later by the same time,
/// no percentile, no violation and not the elapsed time changes.
pub proof fn law_the_clock_does_not_matter(
    a: Seq<TaskRecord>,
    b: Seq<TaskRecord>,
    shift: nat,
    permits: usize,
    sla: u64,
    r: Report,
    s: Report,
)
    requires
        shifted_records(a, b, shift),
        reports(a, permits, sla, r),
        reports(b, permits, sla, s),
    ensures
        r.latency_p50 == s.latency_p50,
        r.latency_p90 == s.latency_p90,
        r.latency_p95 == s.latency_p95,
        r.latency_p99 == s.latency_p99,
        r.latency_max == s.latency_max,
        r.sla_violations == s.sla_violations,
        r.elapsed == s.elapsed,
{
    lemma_shifted_latencies(a, b, shift);
    let all = latencies_of(a);
    if all.len() > 0 {
        let n = all.len();
        law_one_number_has_a_rank(all, percentile_index(n, 50), r.latency_p50, s.latency_p50);
        law_one_number_has_a_rank(all, percentile_index(n, 90), r.latency_p90, s.latency_p90);
        law_one_number_has_a_rank(all, percentile_index(n, 95), r.latency_p95, s.latency_p95);
        law_one_number_has_a_rank(all, percentile_index(n, 99), r.latency_p99, s.latency_p99);
        law_one_number_has_a_rank(all, percentile_index(n, 100), r.latency_max, s.latency_max);
    }
}

proof fn lemma_times(records: Seq<TaskRecord>)
    ensures
        first_arrival(records) is Some <==> records.len() > 0,
        first_arrival(records) matches Some(t) ==> (forall|i: int|
            0 <= i < records.len() ==> t <= (#[trigger] records[i]).arrived_at) && (exists|i: int|
            0 <= i < records.len() && (#[trigger] records[i]).arrived_at == t),
        last_completion(records) matches Some(t) ==> (forall|i: int|
            0 <= i < records.len() && (#[trigger] records[i]).completed_at is Some
                ==> records[i].completed_at->0 <= t) && (exists|i: int|
            0 <= i < records.len() && (#[trigger] records[i]).completed_at == Some(t)),
        last_completion(records) is None ==> (forall|i: int|
            0 <= i < records.len() ==> (#[trigger] records[i]).completed_at is None),
    decreases records.len(),
{
    if records.len() > 0 {
        let front = records.drop_last();
        let n = records.len() - 1;
        lemma_times(front);
        assert(records[n] == records.last());
        assert forall|i: int| 0 <= i < n implies records[i] == #[trigger] front[i] by {}
        assert forall|i: int| 0 <= i < records.len() implies first_arrival(records)->0 <= (
        #[trigger] records[i]).arrived_at by {
            if i < n {
                assert(front[i] == records[i]);
            }
        }
        assert forall|i: int|
            0 <= i < records.len() && (#[trigger] records[i]).completed_at is Some implies (
        last_completion(records) is Some && records[i].completed_at->0 <= last_completion(
            records,
        )->0) by {
            if i < n {
                assert(front[i] == records[i]);
            }
        }
        if front.len() > 0 && first_arrival(records) == first_arrival(front) {
            let i = choose|i: int|
                0 <= i < front.len() && (#[trigger] front[i]).arrived_at == first_arrival(front)->0;
            assert(records[i].arrived_at == first_arrival(records)->0);
        }
        if last_completion(front) is Some && last_completion(records) == last_completion(front) {
            let i = choose|i: int|
                0 <= i < front.len() && (#[trigger] front[i]).completed_at == last_completion(front);
            assert(records[i].completed_at == last_completion(records));
        }
        if last_completion(records) is None {
            assert(records[n].completed_at is None);
            assert forall|i: int| 0 <= i < records.len() implies (
            #[trigger] records[i]).completed_at is None by {
                if i < n {
                    assert(front[i] == records[i]);
                }
            }
        }
    }
}

/// The time that passed reaches from the first arrival to the last completion: nothing
/// was completed later after an arrival, and something was completed just as late, unless
/// nothing was completed at all.
pub proof fn law_elapsed_time_reaches_from_the_first_to_the_last(
    records: Seq<TaskRecord>,
    permits: usize,
    sla: u64,
    r: Report,
)
    requires
        reports(records, permits, sla, r),
    ensures
        forall|i: int, j: int|
            #![trigger records[i], records[j]]
            0 <= i < records.len() && 0 <= j < records.len() && records[j].completed_at is Some
                ==> records[j].completed_at->0 - records[i].arrived_at <= r.elapsed,
        r.elapsed > 0 ==> exists|i: int, j: int|
            #![trigger records[i], records[j]]
            0 <= i < records.len() && 0 <= j < records.len() && records[j].completed_at is Some
                && records[j].completed_at->0 - records[i].arrived_at == r.elapsed,
{
    lemma_times(records);
    if r.elapsed > 0 {
        let i = choose|i: int|
            0 <= i < records.len() && (#[trigger] records[i]).arrived_at == first_arrival(
                records,
            )->0;
        let j = choose|j: int|
            0 <= j < records.len() && (#[trigger] records[j]).completed_at == last_completion(
                records,
            );
        assert(records[j].completed_at->0 - records[i].arrived_at == r.elapsed);
    }
}

proof fn lemma_intervals_concat(a: Seq<TaskRecord>, b: Seq<TaskRecord>)
    ensures
        cpu_intervals(a + b) == cpu_intervals(a) + cpu_intervals(b),
    decreases b.len(),
{
    if b.len() == 0 {
        assert(a + b =~= a);
        assert(cpu_intervals(a) + cpu_intervals(b) =~= cpu_intervals(a));
    } else {
        let front = b.drop_last();
        lemma_intervals_concat(a, front);
        assert((a + b).drop_last() =~= a + front);
        assert((a + b).last() == b.last());
        assert(cpu_intervals(a + b) =~= cpu_intervals(a) + cpu_intervals(b));
    }
}

proof fn lemma_busy_concat(a: Seq<(u64, u64)>, b: Seq<(u64, u64)>)
    ensures
        busy_sum(a + b) == busy_sum(a) + busy_sum(b),
    decreases b.len(),
{
    if b.len() == 0 {
        assert(a + b =~= a);
    } else {
        lemma_busy_concat(a, b.drop_last());
        assert((a + b).drop_last() =~= a + b.drop_last());
    }
}

/// The time that processors were busy adds up: that of all tasks is that of some of them
/// and that of the others.
pub proof fn law_busy_time_adds_up(
    a: Seq<TaskRecord>,
    b: Seq<TaskRecord>,
    permits: usize,
    sla: u64,
    r: Report,
    s: Report,
    both: Report,
)
    requires
        reports(a, permits, sla, r),
        reports(b, permits, sla, s),
        reports(a + b, permits, sla, both),
    ensures
        both.cpu_render_busy == r.cpu_render_busy + s.cpu_render_busy,
{
    lemma_intervals_concat(a, b);
    lemma_busy_concat(cpu_intervals(a), cpu_intervals(b));
}

proof fn lemma_active_counted(
    records: Seq<TaskRecord>,
    t: int,
    running: spec_fn(TaskRecord) -> bool,
)
    requires
        forall|x: TaskRecord| #[trigger]
            running(x) == (x.completed_at is Some && x.cpu_started_at is Some
                && x.cpu_completed_at is Some && x.cpu_started_at->0 <= t
                <= x.cpu_completed_at->0),
    ensures
        active(cpu_intervals(records), t) == records.filter(running).len(),
    decreases records.len(),
{
    reveal(Seq::filter);
    if records.len() > 0 {
        let front = records.drop_last();
        let last = records.last();
        lemma_active_counted(front, t, running);
        assert(running(last) == (last.completed_at is Some && last.cpu_started_at is Some
            && last.cpu_completed_at is Some && last.cpu_started_at->0 <= t
            <= last.cpu_completed_at->0));
        let before = cpu_intervals(front);
        match (last.cpu_started_at, last.cpu_completed_at) {
            (Some(start), Some(end)) => {
                assert(before.push((start, end)).drop_last() =~= before);
            },
            _ => {},
        }
    }
}

proof fn lemma_interval_listed(records: Seq<TaskRecord>, j: int)
    requires
        0 <= j < records.len(),
        records[j].completed_at is Some,
        records[j].cpu_started_at is Some,
        records[j].cpu_completed_at is Some,
        records[j].cpu_started_at->0 <= records[j].cpu_completed_at->0,
    ensures
        exists|i: int|
            0 <= i < cpu_intervals(records).len() && (#[trigger] cpu_intervals(records)[i]).0
                == records[j].cpu_started_at->0,
    decreases records.len(),
{
    let front = records.drop_last();
    if j < front.len() {
        lemma_interval_listed(front, j);
        assert(front[j] == records[j]);
        let i = choose|i: int|
            0 <= i < cpu_intervals(front).len() && (#[trigger] cpu_intervals(front)[i]).0
                == records[j].cpu_started_at->0;
        assert(cpu_intervals(records)[i] == cpu_intervals(front)[i]);
    } else {
        assert(cpu_intervals(records)[cpu_intervals(front).len() as int].0
            == records[j].cpu_started_at->0);
    }
}

proof fn lemma_interval_of(records: Seq<TaskRecord>, i: int)
    requires
        0 <= i < cpu_intervals(records).len(),
    ensures
        exists|j: int|
            0 <= j < records.len() && (#[trigger] records[j]).cpu_started_at == Some(
                cpu_intervals(records)[i].0,
            ),
    decreases records.len(),
{
    let front = records.drop_last();
    if i < cpu_intervals(front).len() {
        lemma_interval_of(front, i);
        let j = choose|j: int|
            0 <= j < front.len() && (#[trigger] front[j]).cpu_started_at == Some(
                cpu_intervals(front)[i].0,
            );
        assert(records[j] == front[j]);
    } else {
        assert(records[records.len() - 1] == records.last());
    }
}

/// The peak is the most tasks that ran on processors at one time: when a completed task
/// started there, no more were running than the peak, and at one such time as many were.
pub proof fn law_the_peak_is_the_most_at_one_time(
    records: Seq<TaskRecord>,
    permits: usize,
    sla: u64,
    r: Report,
    running: spec_fn(u64) -> (spec_fn(TaskRecord) -> bool),
)
    requires
        reports(records, permits, sla, r),
        forall|t: u64, x: TaskRecord| #[trigger]
            running(t)(x) == (x.completed_at is Some && x.cpu_started_at is Some
                && x.cpu_completed_at is Some && x.cpu_started_at->0 <= t
                <= x.cpu_completed_at->0),
    ensures
        forall|j: int|
            0 <= j < records.len() && (#[trigger] records[j]).completed_at is Some
                && records[j].cpu_started_at is Some && records[j].cpu_completed_at is Some
                && records[j].cpu_started_at->0 <= records[j].cpu_completed_at->0
                ==> records.filter(running(records[j].cpu_started_at->0)).len()
                <= r.cpu_render_peak_inflight,
        r.cpu_render_peak_inflight > 0 ==> exists|j: int|
            0 <= j < records.len() && (#[trigger] records[j]).cpu_started_at is Some
                && records.filter(running(records[j].cpu_started_at->0)).len()
                == r.cpu_render_peak_inflight,
{
    let all = cpu_intervals(records);
    assert forall|j: int|
        0 <= j < records.len() && (#[trigger] records[j]).completed_at is Some
            && records[j].cpu_started_at is Some && records[j].cpu_completed_at is Some
            && records[j].cpu_started_at->0 <= records[j].cpu_completed_at->0 implies records.filter(
        running(records[j].cpu_started_at->0),
    ).len() <= r.cpu_render_peak_inflight by {
        let t = records[j].cpu_started_at->0;
        lemma_interval_listed(records, j);
        lemma_active_counted(records, t as int, running(t));
        let i = choose|i: int| 0 <= i < all.len() && (#[trigger] all[i]).0 == t;
        assert(active(all, all[i].0 as int) <= r.cpu_render_peak_inflight);
    }
    if r.cpu_render_peak_inflight > 0 {
        let i = choose|i: int|
            0 <= i < all.len() && r.cpu_render_peak_inflight == active(
                all,
                (#[trigger] all[i]).0 as int,
            );
        let t = all[i].0;
        lemma_interval_of(records, i);
        lemma_active_counted(records, t as int, running(t));
        let j = choose|j: int|
            0 <= j < records.len() && (#[trigger] records[j]).cpu_started_at == Some(t);
        assert(records.filter(running(records[j].cpu_started_at->0)).len()
            == r.cpu_render_peak_inflight);
    }
}

proof fn lemma_reason_listed(records: Seq<TaskRecord>, n: nat, i: int)
    requires
        n <= 8,
        0 <= i < reason_counts(records, n).len(),
    ensures
        reason_counts(records, n)[i].1 > 0,
        reason_counts(records, n)[i].1 == count_where(
            records,
            has_reason(reason_counts(records, n)[i].0),
        ),
    decreases n,
{
    if n > 0 {
        let before = reason_counts(records, (n - 1) as nat);
        if i < before.len() {
            lemma_reason_listed(records, (n - 1) as nat, i);
        }
    }
}

/// A reason is listed with the number of tasks that were rejected for it.
pub proof fn law_reasons_are_listed_with_their_tasks(
    records: Seq<TaskRecord>,
    permits: usize,
    sla: u64,
    r: Report,
    i: int,
    rejected: spec_fn(TaskRecord) -> bool,
)
    requires
        reports(records, permits, sla, r),
        0 <= i < r.rejection_by_reason@.len(),
        forall|x: TaskRecord| #[trigger]
            rejected(x) == (x.rejection_reason == Some(r.rejection_by_reason@[i].0)),
    ensures
        r.rejection_by_reason@[i].1 == records.filter(rejected).len(),
        r.rejection_by_reason@[i].1 > 0,
{
    assert(reason_views(r.rejection_by_reason@)[i] == (
        r.rejection_by_reason@[i].0,
        r.rejection_by_reason@[i].1 as nat,
    ));
    lemma_reason_listed(records, 8, i);
    lemma_counted_by(records, has_reason(r.rejection_by_reason@[i].0), rejected);
}

/// What is kept of an outcome is what it says: when the task arrived, and, if it was
/// completed, when it was completed, when it ran on a processor, by which route it came
/// and what its render took; or else why it was rejected, or how it failed.
pub proof fn law_records_keep_the_outcome(outcome: TaskOutcome, r: TaskRecord)
    requires
        is_record(outcome, r),
    ensures
        r.arrived_at == outcome.arrived_at,
        r.had_source == outcome.had_source,
        r.completed_at is Some <==> outcome.result is Completed,
        outcome.result is Completed ==> {
            let info = outcome.result->info;
            &&& r.completed_at->0 == info.completed_at
            &&& r.cpu_started_at == Some(info.cpu_started_at)
            &&& r.cpu_completed_at == Some(info.cpu_completed_at)
            &&& r.route_tier == Some(info.route_tier)
            &&& r.style_swap == info.style_swap
            &&& r.cold_start == info.cold_start
            &&& r.source_loaded == info.source_loaded
            &&& r.admitted_at_overflow == info.admitted_at_overflow
        },
        outcome.result is Rejected ==> r.rejection_reason == Some(outcome.result->reason),
        outcome.result is Failed ==> r.failure_error == Some(outcome.result->error),
        r.rejection_reason is Some <==> outcome.result is Rejected,
        r.failure_error is Some <==> outcome.result is Failed,
{
}

proof fn lemma_reason_found(records: Seq<TaskRecord>, n: nat, k: int)
    requires
        0 <= k < n <= 8,
        count_where(records, has_reason(reasons()[k])) > 0,
    ensures
        exists|i: int|
            0 <= i < reason_counts(records, n).len() && (#[trigger] reason_counts(
                records,
                n,
            )[i]).0 == reasons()[k],
    decreases n,
{
    let before = reason_counts(records, (n - 1) as nat);
    if k < n - 1 {
        lemma_reason_found(records, (n - 1) as nat, k);
        let i = choose|i: int| 0 <= i < before.len() && (#[trigger] before[i]).0 == reasons()[k];
        assert(reason_counts(records, n)[i] == before[i]);
    } else {
        assert(reason_counts(records, n)[before.len() as int].0 == reasons()[k]);
    }
}

proof fn lemma_counts_one(records: Seq<TaskRecord>, test: spec_fn(TaskRecord) -> bool, j: int)
    requires
        0 <= j < records.len(),
        test(records[j]),
    ensures
        count_where(records, test) > 0,
    decreases records.len(),
{
    if j < records.len() - 1 {
        assert(records.drop_last()[j] == records[j]);
        lemma_counts_one(records.drop_last(), test, j);
    }
}

/// Every reason for which a task was rejected is listed.
pub proof fn law_every_reason_is_listed(
    records: Seq<TaskRecord>,
    permits: usize,
    sla: u64,
    r: Report,
    j: int,
)
    requires
        reports(records, permits, sla, r),
        0 <= j < records.len(),
        records[j].rejection_reason is Some,
    ensures
        exists|i: int|
            0 <= i < r.rejection_by_reason@.len() && (#[trigger] r.rejection_by_reason@[i]).0
                == records[j].rejection_reason->0,
{
    let reason = records[j].rejection_reason->0;
    let k = match reason {
        RejectionReason::QueueFull => 0int,
        RejectionReason::NoCapacity => 1,
        RejectionReason::DrainTooSlow => 2,
        RejectionReason::UnknownStyle => 3,
        RejectionReason::HopLimitExceeded => 4,
        RejectionReason::ForwardFailed => 5,
        RejectionReason::DeadlineTooClose => 6,
        RejectionReason::DeadlineExceeded => 7,
    };
    assert(reasons()[k] == reason);
    lemma_counts_one(records, has_reason(reason), j);
    lemma_reason_found(records, 8, k);
    let list = reason_counts(records, 8);
    let i = choose|i: int| 0 <= i < list.len() && (#[trigger] list[i]).0 == reason;
    assert(reason_views(r.rejection_by_reason@)[i] == list[i]);
    assert(r.rejection_by_reason@[i].0 == reason);
}

proof fn lemma_bumped(list: Seq<(Seq<char>, nat)>, name: Seq<char>, other: Seq<char>)
    ensures
        tallied(bumped(list, name), other) == tallied(list, other) + if name == other {
            1nat
        } else {
            0
        },
    decreases list.len(),
{
    if list.len() > 0 {
        if list[0].0 == name {
            assert((seq![(name, list[0].1 + 1)] + list.skip(1)).skip(1) =~= list.skip(1));
        } else {
            lemma_bumped(list.skip(1), name, other);
            assert((seq![list[0]] + bumped(list.skip(1), name)).skip(1) =~= bumped(
                list.skip(1),
                name,
            ));
        }
    } else {
        let one = seq![(name, 1nat)];
        assert(one.skip(1) =~= Seq::<(Seq<char>, nat)>::empty());
        assert(tallied(one.skip(1), other) == 0);
        assert(one[0] == (name, 1nat));
        assert(tallied(one, other) == if name == other { 1nat } else { 0 });
    }
}

/// How often a name is tallied, over all of its entries.
pub open spec fn tallied(list: Seq<(Seq<char>, nat)>, name: Seq<char>) -> nat
    decreases list.len(),
{
    if list.len() == 0 {
        0
    } else {
        tallied(list.skip(1), name) + if list[0].0 == name {
            list[0].1
        } else {
            0
        }
    }
}

proof fn lemma_failures_tallied(
    records: Seq<TaskRecord>,
    name: Seq<char>,
    failed: spec_fn(TaskRecord) -> bool,
)
    requires
        forall|x: TaskRecord| #[trigger]
            failed(x) == (x.failure_error is Some && x.failure_error->0@ == name),
    ensures
        tallied(failures_of(records), name) == records.filter(failed).len(),
    decreases records.len(),
{
    reveal(Seq::filter);
    if records.len() > 0 {
        let last = records.last();
        lemma_failures_tallied(records.drop_last(), name, failed);
        assert(failed(last) == (last.failure_error is Some && last.failure_error->0@ == name));
        if last.failure_error is Some {
            lemma_bumped(failures_of(records.drop_last()), last.failure_error->0@, name);
        }
    }
}

/// An error is tallied as often as tasks failed with it.
pub proof fn law_errors_are_tallied(
    records: Seq<TaskRecord>,
    permits: usize,
    sla: u64,
    r: Report,
    name: Seq<char>,
    failed: spec_fn(TaskRecord) -> bool,
)
    requires
        reports(records, permits, sla, r),
        forall|x: TaskRecord| #[trigger]
            failed(x) == (x.failure_error is Some && x.failure_error->0@ == name),
    ensures
        tallied(tally_views(r.failure_by_error@), name) == records.filter(failed).len(),
{
    lemma_failures_tallied(records, name, failed);
}

} // verus!
