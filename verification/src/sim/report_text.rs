//! Reports as text, and as rows of a table.

use vstd::prelude::*;
use std::time::Duration;
use crate::double::{
    count_double, hundredfold, hundredfold_of, law_a_number_is_once_itself, nearest, quotient, quotient_of,
    seconds, seconds_double, whole_double, Double, DoubleView,
};
use crate::figures::{one_place_text, places, two_places_text};
use crate::sim::report::{Report, reason_views, tally_views};
use crate::text::{
    begins_with, chars_of, contains, numeral, numeral_text, occurs, replace, replaced, string_of,
};
use crate::time::{MAX_NANOS, nanos, span};
use crate::types::RejectionReason;

verus! {

/// What Rust's `Debug` formatting writes of a span of so many nanoseconds.
pub uninterp spec fn span_text(n: nat) -> Seq<char>;

/// `format!` of a `std::time::Duration` with `Debug` formatting.
#[verifier::external_body]
pub(crate) fn span_debug(d: Duration) -> (r: String)
    ensures
        r@ == span_text(nanos(d)),
{
    format!("{d:?}")
}

/// A share in percent.
pub open spec fn share(n: nat, of: nat) -> DoubleView {
    hundredfold(quotient(whole_double(n), whole_double(of)))
}

/// A share in percent, to two places; zero of nothing.
pub open spec fn percent(n: nat, of: nat) -> Seq<char> {
    if of == 0 {
        "0.00"@
    } else {
        places(share(n, of), 2)
    }
}

fn percent_text(n: usize, of: usize) -> (r: String)
    ensures
        r@ == percent(n as nat, of as nat),
{
    if of == 0 {
        "0.00".to_owned()
    } else {
        let part = quotient_of(count_double(n as u64), count_double(of as u64));
        two_places_text(hundredfold_of(part))
    }
}

/// Completed tasks per second, to two places.
pub open spec fn throughput(r: Report) -> Seq<char> {
    if r.elapsed == 0 {
        "0.00"@
    } else {
        places(quotient(whole_double(r.completed as nat), seconds(r.elapsed as nat)), 2)
    }
}

fn throughput_text(r: &Report) -> (out: String)
    ensures
        out@ == throughput(*r),
{
    if r.elapsed == 0 {
        "0.00".to_owned()
    } else {
        let completed = count_double(r.completed as u64);
        two_places_text(quotient_of(completed, seconds_double(r.elapsed as u128)))
    }
}

/// The renders on processors at a time, on average.
pub open spec fn inflight(r: Report) -> DoubleView {
    quotient(seconds(r.cpu_render_busy as nat), seconds(r.elapsed as nat))
}

/// The renders on processors at a time, on average, to two places.
pub open spec fn average_inflight(r: Report) -> Seq<char> {
    if r.elapsed == 0 {
        "0.00"@
    } else {
        places(inflight(r), 2)
    }
}

fn inflight_double(r: &Report) -> (out: Double)
    requires
        r.cpu_render_busy <= MAX_NANOS,
        r.elapsed > 0,
    ensures
        out@ == inflight(*r),
        out.within(-500, 500),
        out.at_most(43),
{
    quotient_of(seconds_double(r.cpu_render_busy), seconds_double(r.elapsed as u128))
}

fn average_inflight_text(r: &Report) -> (out: String)
    requires
        r.cpu_render_busy <= MAX_NANOS,
    ensures
        out@ == average_inflight(*r),
{
    if r.elapsed == 0 {
        "0.00".to_owned()
    } else {
        two_places_text(inflight_double(r))
    }
}

/// Whether any processor time was permitted.
pub open spec fn is_permitted(r: Report) -> bool {
    r.elapsed > 0 && r.cpu_render_permits_total > 0
}

/// How much of the permitted processor time was used, in percent.
pub open spec fn used(r: Report) -> DoubleView {
    hundredfold(quotient(inflight(r), whole_double(r.cpu_render_permits_total as nat)))
}

/// How much of the permitted processor time was used, in percent, to one place.
pub open spec fn utilization(r: Report) -> Seq<char> {
    if is_permitted(r) {
        places(used(r), 1)
    } else {
        "0.0"@
    }
}

/// How much of the permitted processor time was used, in percent, to two places.
pub open spec fn exact_utilization(r: Report) -> Seq<char> {
    if is_permitted(r) {
        places(used(r), 2)
    } else {
        "0.00"@
    }
}

fn used_double(r: &Report) -> (out: Double)
    requires
        r.cpu_render_busy <= MAX_NANOS,
        is_permitted(*r),
    ensures
        out@ == used(*r),
        out.within(-2_000, 2_000),
        out.at_most(51),
{
    let permits = count_double(r.cpu_render_permits_total as u64);
    hundredfold_of(quotient_of(inflight_double(r), permits))
}

fn utilization_text(r: &Report) -> (out: String)
    requires
        r.cpu_render_busy <= MAX_NANOS,
    ensures
        out@ == utilization(*r),
{
    if r.elapsed > 0 && r.cpu_render_permits_total > 0 {
        one_place_text(used_double(r))
    } else {
        "0.0".to_owned()
    }
}

fn exact_utilization_text(r: &Report) -> (out: String)
    requires
        r.cpu_render_busy <= MAX_NANOS,
    ensures
        out@ == exact_utilization(*r),
{
    if r.elapsed > 0 && r.cpu_render_permits_total > 0 {
        two_places_text(used_double(r))
    } else {
        "0.00".to_owned()
    }
}

/// How many sources were found loaded, in percent.
pub open spec fn hit_rate(r: Report) -> Seq<char> {
    if r.tasks_with_sources == 0 {
        "n/a"@
    } else {
        percent(r.source_hits as nat, r.tasks_with_sources as nat) + "% hit rate"@
    }
}

fn hit_rate_text(r: &Report) -> (out: String)
    ensures
        out@ == hit_rate(*r),
{
    if r.tasks_with_sources == 0 {
        "n/a".to_owned()
    } else {
        let mut out = percent_text(r.source_hits, r.tasks_with_sources);
        out.push_str("% hit rate");
        out
    }
}

/// A list in descending order of counts, with one more entry, behind those that
/// count as much.
pub open spec fn entered(list: Seq<(Seq<char>, nat)>, entry: (Seq<char>, nat)) -> Seq<(Seq<char>, nat)>
    decreases list.len(),
{
    if list.len() == 0 || list[0].1 < entry.1 {
        seq![entry] + list
    } else {
        seq![list[0]] + entered(list.skip(1), entry)
    }
}

/// The list in descending order of counts.
pub open spec fn by_count(list: Seq<(Seq<char>, nat)>) -> Seq<(Seq<char>, nat)>
    decreases list.len(),
{
    if list.len() == 0 {
        Seq::empty()
    } else {
        entered(by_count(list.drop_last()), list.last())
    }
}

/// Entries in a row.
pub open spec fn entry_row(list: Seq<(Seq<char>, nat)>) -> Seq<char>
    decreases list.len(),
{
    if list.len() == 0 {
        Seq::empty()
    } else {
        let before = entry_row(list.drop_last());
        (if list.len() == 1 {
            before
        } else {
            before + ", "@
        }) + list.last().0 + "="@ + numeral(list.last().1)
    }
}

/// A tally in one line, the most frequent first.
pub open spec fn tally_text(list: Seq<(Seq<char>, nat)>) -> Seq<char> {
    if list.len() == 0 {
        "-"@
    } else {
        entry_row(by_count(list))
    }
}

proof fn lemma_entered_from(list: Seq<(Seq<char>, nat)>, entry: (Seq<char>, nat), i: int)
    requires
        0 <= i <= list.len(),
        forall|j: int| 0 <= j < i ==> (#[trigger] list[j]).1 >= entry.1,
        i < list.len() ==> list[i].1 < entry.1,
    ensures
        entered(list, entry) == list.take(i) + (seq![entry] + list.skip(i)),
    decreases i,
{
    if i == 0 {
        assert(entered(list, entry) =~= list.take(i) + (seq![entry] + list.skip(i)));
    } else {
        let rest = list.skip(1);
        assert(list[0].1 >= entry.1);
        assert forall|j: int| 0 <= j < i - 1 implies (#[trigger] rest[j]).1 >= entry.1 by {
            assert(rest[j] == list[j + 1]);
        }
        lemma_entered_from(rest, entry, i - 1);
        assert(entered(list, entry) =~= list.take(i) + (seq![entry] + list.skip(i)));
    }
}

fn sort_tally(list: &Vec<(String, usize)>) -> (r: Vec<(String, usize)>)
    ensures
        tally_views(r@) == by_count(tally_views(list@)),
{
    let ghost all = tally_views(list@);
    let mut out: Vec<(String, usize)> = Vec::new();
    let mut k: usize = 0;
    assert(all.take(0) =~= Seq::<(Seq<char>, nat)>::empty());
    assert(tally_views(out@) =~= Seq::<(Seq<char>, nat)>::empty());
    while k < list.len()
        invariant
            k <= list@.len(),
            all == tally_views(list@),
            tally_views(out@) == by_count(all.take(k as int)),
        decreases list.len() - k,
    {
        let n: usize = list[k].1;
        let ghost before = tally_views(out@);
        let ghost entry = all[k as int];
        proof {
            assert(all.take(k + 1).drop_last() =~= all.take(k as int));
            assert(all.take(k + 1).last() == entry);
        }
        let mut i: usize = 0;
        while i < out.len() && out[i].1 >= n
            invariant
                i <= out@.len(),
                before == tally_views(out@),
                n == entry.1,
                forall|j: int| 0 <= j < i ==> (#[trigger] before[j]).1 >= entry.1,
            decreases out.len() - i,
        {
            assert(before[i as int].1 == out@[i as int].1);
            i += 1;
        }
        proof {
            lemma_entered_from(before, entry, i as int);
        }
        out.insert(i, (list[k].0.clone(), n));
        assert(tally_views(out@) =~= before.take(i as int) + (seq![entry] + before.skip(i as int)));
        k += 1;
    }
    assert(all.take(k as int) =~= all);
    out
}

fn tally_line(list: &Vec<(String, usize)>) -> (r: String)
    ensures
        r@ == tally_text(tally_views(list@)),
{
    if list.len() == 0 {
        return "-".to_owned();
    }
    let sorted = sort_tally(list);
    let ghost all = tally_views(sorted@);
    let mut out = String::new();
    let mut i: usize = 0;
    assert(all.take(0) =~= Seq::<(Seq<char>, nat)>::empty());
    assert(out@ =~= entry_row(all.take(0)));
    while i < sorted.len()
        invariant
            i <= sorted@.len(),
            all == tally_views(sorted@),
            out@ == entry_row(all.take(i as int)),
        decreases sorted.len() - i,
    {
        proof {
            assert(all.take(i + 1).drop_last() =~= all.take(i as int));
            assert(all.take(i + 1).last() == all[i as int]);
        }
        if i > 0 {
            out.push_str(", ");
        }
        out.push_str(sorted[i].0.as_str());
        out.push_str("=");
        out.push_str(numeral_text(sorted[i].1 as u128).as_str());
        i += 1;
    }
    assert(all.take(i as int) =~= all);
    out
}

/// The name of a reason.
pub open spec fn reason_name(reason: RejectionReason) -> Seq<char> {
    match reason {
        RejectionReason::QueueFull => "QueueFull"@,
        RejectionReason::NoCapacity => "NoCapacity"@,
        RejectionReason::DrainTooSlow => "DrainTooSlow"@,
        RejectionReason::UnknownStyle => "UnknownStyle"@,
        RejectionReason::HopLimitExceeded => "HopLimitExceeded"@,
        RejectionReason::ForwardFailed => "ForwardFailed"@,
        RejectionReason::DeadlineTooClose => "DeadlineTooClose"@,
        RejectionReason::DeadlineExceeded => "DeadlineExceeded"@,
    }
}

fn name_of_reason(reason: RejectionReason) -> (r: &'static str)
    ensures
        r@ == reason_name(reason),
{
    match reason {
        RejectionReason::QueueFull => "QueueFull",
        RejectionReason::NoCapacity => "NoCapacity",
        RejectionReason::DrainTooSlow => "DrainTooSlow",
        RejectionReason::UnknownStyle => "UnknownStyle",
        RejectionReason::HopLimitExceeded => "HopLimitExceeded",
        RejectionReason::ForwardFailed => "ForwardFailed",
        RejectionReason::DeadlineTooClose => "DeadlineTooClose",
        RejectionReason::DeadlineExceeded => "DeadlineExceeded",
    }
}

/// Reasons by name.
pub open spec fn named(list: Seq<(RejectionReason, nat)>) -> Seq<(Seq<char>, nat)> {
    Seq::new(list.len(), |i: int| (reason_name(list[i].0), list[i].1))
}

/// Reasons in one line, the most frequent first.
pub open spec fn reasons_text(list: Seq<(RejectionReason, nat)>) -> Seq<char> {
    tally_text(named(list))
}

fn reasons_line(list: &Vec<(RejectionReason, usize)>) -> (r: String)
    ensures
        r@ == reasons_text(reason_views(list@)),
{
    let ghost all = named(reason_views(list@));
    let mut names: Vec<(String, usize)> = Vec::new();
    let mut i: usize = 0;
    while i < list.len()
        invariant
            i <= list@.len(),
            all == named(reason_views(list@)),
            tally_views(names@) == all.take(i as int),
        decreases list.len() - i,
    {
        let ghost before = tally_views(names@);
        let name = name_of_reason(list[i].0).to_owned();
        assert(all[i as int] == (name@, list@[i as int].1 as nat));
        names.push((name, list[i].1));
        assert(tally_views(names@) =~= before.push(all[i as int]));
        assert(all.take(i + 1) =~= all.take(i as int).push(all[i as int]));
        i += 1;
    }
    assert(all.take(i as int) =~= all);
    tally_line(&names)
}

pub open spec fn head_line(r: Report) -> Seq<char> {
    "=== Simulation Report ===\nTotal submitted:   "@ + numeral(r.total as nat) + "\n"@
}

fn write_head(r: &Report) -> (line: String)
    requires
        r.cpu_render_busy <= MAX_NANOS,
    ensures
        line@ == head_line(*r),
{
    let mut line = "=== Simulation Report ===\nTotal submitted:   ".to_owned();
    line.push_str(numeral_text(r.total as u128).as_str());
    line.push_str("\n");
    line
}

pub open spec fn completed_line(r: Report) -> Seq<char> {
    "Completed:         "@ + numeral(r.completed as nat) + " ("@
        + percent(r.completed as nat, r.total as nat) + "%)\n"@
}

fn write_completed(r: &Report) -> (line: String)
    requires
        r.cpu_render_busy <= MAX_NANOS,
    ensures
        line@ == completed_line(*r),
{
    let mut line = "Completed:         ".to_owned();
    line.push_str(numeral_text(r.completed as u128).as_str());
    line.push_str(" (");
    line.push_str(percent_text(r.completed, r.total).as_str());
    line.push_str("%)\n");
    line
}

pub open spec fn rejected_line(r: Report) -> Seq<char> {
    "Rejected:          "@ + numeral(r.rejected as nat) + " ("@
        + percent(r.rejected as nat, r.total as nat) + "%)  reasons: "@
        + reasons_text(reason_views(r.rejection_by_reason@)) + "\n"@
}

fn write_rejected(r: &Report) -> (line: String)
    requires
        r.cpu_render_busy <= MAX_NANOS,
    ensures
        line@ == rejected_line(*r),
{
    let mut line = "Rejected:          ".to_owned();
    line.push_str(numeral_text(r.rejected as u128).as_str());
    line.push_str(" (");
    line.push_str(percent_text(r.rejected, r.total).as_str());
    line.push_str("%)  reasons: ");
    line.push_str(reasons_line(&r.rejection_by_reason).as_str());
    line.push_str("\n");
    line
}

pub open spec fn failed_line(r: Report) -> Seq<char> {
    "Failed:            "@ + numeral(r.failed as nat) + " ("@
        + percent(r.failed as nat, r.total as nat) + "%)  errors: "@
        + tally_text(tally_views(r.failure_by_error@)) + "\n"@
}

fn write_failed(r: &Report) -> (line: String)
    requires
        r.cpu_render_busy <= MAX_NANOS,
    ensures
        line@ == failed_line(*r),
{
    let mut line = "Failed:            ".to_owned();
    line.push_str(numeral_text(r.failed as u128).as_str());
    line.push_str(" (");
    line.push_str(percent_text(r.failed, r.total).as_str());
    line.push_str("%)  errors: ");
    line.push_str(tally_line(&r.failure_by_error).as_str());
    line.push_str("\n");
    line
}

pub open spec fn sla_line(r: Report) -> Seq<char> {
    "SLA ("@ + span_text(r.sla as nat) + "):         "@ + numeral(r.sla_violations as nat)
        + " violations ("@ + percent(r.sla_violations as nat, r.completed as nat)
        + "% of completed)\n"@
}

fn write_sla(r: &Report) -> (line: String)
    requires
        r.cpu_render_busy <= MAX_NANOS,
    ensures
        line@ == sla_line(*r),
{
    let mut line = "SLA (".to_owned();
    line.push_str(span_debug(span(r.sla as u128)).as_str());
    line.push_str("):         ");
    line.push_str(numeral_text(r.sla_violations as u128).as_str());
    line.push_str(" violations (");
    line.push_str(percent_text(r.sla_violations, r.completed).as_str());
    line.push_str("% of completed)\n");
    line
}

pub open spec fn elapsed_line(r: Report) -> Seq<char> {
    "Elapsed (sim):     "@ + span_text(r.elapsed as nat) + "\n"@
}

fn write_elapsed(r: &Report) -> (line: String)
    requires
        r.cpu_render_busy <= MAX_NANOS,
    ensures
        line@ == elapsed_line(*r),
{
    let mut line = "Elapsed (sim):     ".to_owned();
    line.push_str(span_debug(span(r.elapsed as u128)).as_str());
    line.push_str("\n");
    line
}

pub open spec fn throughput_line(r: Report) -> Seq<char> {
    "Throughput:        "@ + throughput(r) + " req/s\n"@
}

fn write_throughput(r: &Report) -> (line: String)
    requires
        r.cpu_render_busy <= MAX_NANOS,
    ensures
        line@ == throughput_line(*r),
{
    let mut line = "Throughput:        ".to_owned();
    line.push_str(throughput_text(r).as_str());
    line.push_str(" req/s\n");
    line
}

pub open spec fn cpu_line(r: Report) -> Seq<char> {
    "CPU render util:   "@ + utilization(r) + "% avg="@ + average_inflight(r) + " peak="@
        + numeral(r.cpu_render_peak_inflight as nat) + " permits="@
        + numeral(r.cpu_render_permits_total as nat) + " busy="@
        + span_text(r.cpu_render_busy as nat) + "\n"@
}

fn write_cpu(r: &Report) -> (line: String)
    requires
        r.cpu_render_busy <= MAX_NANOS,
    ensures
        line@ == cpu_line(*r),
{
    let mut line = "CPU render util:   ".to_owned();
    line.push_str(utilization_text(r).as_str());
    line.push_str("% avg=");
    line.push_str(average_inflight_text(r).as_str());
    line.push_str(" peak=");
    line.push_str(numeral_text(r.cpu_render_peak_inflight as u128).as_str());
    line.push_str(" permits=");
    line.push_str(numeral_text(r.cpu_render_permits_total as u128).as_str());
    line.push_str(" busy=");
    line.push_str(span_debug(span(r.cpu_render_busy as u128)).as_str());
    line.push_str("\n");
    line
}

pub open spec fn p50_line(r: Report) -> Seq<char> {
    "Latency p50:       "@ + span_text(r.latency_p50 as nat) + "\n"@
}

fn write_p50(r: &Report) -> (line: String)
    requires
        r.cpu_render_busy <= MAX_NANOS,
    ensures
        line@ == p50_line(*r),
{
    let mut line = "Latency p50:       ".to_owned();
    line.push_str(span_debug(span(r.latency_p50 as u128)).as_str());
    line.push_str("\n");
    line
}

pub open spec fn p90_line(r: Report) -> Seq<char> {
    "Latency p90:       "@ + span_text(r.latency_p90 as nat) + "\n"@
}

fn write_p90(r: &Report) -> (line: String)
    requires
        r.cpu_render_busy <= MAX_NANOS,
    ensures
        line@ == p90_line(*r),
{
    let mut line = "Latency p90:       ".to_owned();
    line.push_str(span_debug(span(r.latency_p90 as u128)).as_str());
    line.push_str("\n");
    line
}

pub open spec fn p95_line(r: Report) -> Seq<char> {
    "Latency p95:       "@ + span_text(r.latency_p95 as nat) + "\n"@
}

fn write_p95(r: &Report) -> (line: String)
    requires
        r.cpu_render_busy <= MAX_NANOS,
    ensures
        line@ == p95_line(*r),
{
    let mut line = "Latency p95:       ".to_owned();
    line.push_str(span_debug(span(r.latency_p95 as u128)).as_str());
    line.push_str("\n");
    line
}

pub open spec fn p99_line(r: Report) -> Seq<char> {
    "Latency p99:       "@ + span_text(r.latency_p99 as nat) + "\n"@
}

fn write_p99(r: &Report) -> (line: String)
    requires
        r.cpu_render_busy <= MAX_NANOS,
    ensures
        line@ == p99_line(*r),
{
    let mut line = "Latency p99:       ".to_owned();
    line.push_str(span_debug(span(r.latency_p99 as u128)).as_str());
    line.push_str("\n");
    line
}

pub open spec fn max_line(r: Report) -> Seq<char> {
    "Latency max:       "@ + span_text(r.latency_max as nat) + "\n"@
}

fn write_max(r: &Report) -> (line: String)
    requires
        r.cpu_render_busy <= MAX_NANOS,
    ensures
        line@ == max_line(*r),
{
    let mut line = "Latency max:       ".to_owned();
    line.push_str(span_debug(span(r.latency_max as u128)).as_str());
    line.push_str("\n");
    line
}

pub open spec fn tier1_line(r: Report) -> Seq<char> {
    "Tier 1 (warm):     "@ + numeral(r.tier_counts.tier1 as nat) + " ("@
        + percent(r.tier_counts.tier1 as nat, r.total as nat) + "%)\n"@
}

fn write_tier1(r: &Report) -> (line: String)
    requires
        r.cpu_render_busy <= MAX_NANOS,
    ensures
        line@ == tier1_line(*r),
{
    let mut line = "Tier 1 (warm):     ".to_owned();
    line.push_str(numeral_text(r.tier_counts.tier1 as u128).as_str());
    line.push_str(" (");
    line.push_str(percent_text(r.tier_counts.tier1, r.total).as_str());
    line.push_str("%)\n");
    line
}

pub open spec fn tier2_line(r: Report) -> Seq<char> {
    "Tier 2 (hrw/bl):   "@ + numeral(r.tier_counts.tier2 as nat) + " ("@
        + percent(r.tier_counts.tier2 as nat, r.total as nat) + "%)\n"@
}

fn write_tier2(r: &Report) -> (line: String)
    requires
        r.cpu_render_busy <= MAX_NANOS,
    ensures
        line@ == tier2_line(*r),
{
    let mut line = "Tier 2 (hrw/bl):   ".to_owned();
    line.push_str(numeral_text(r.tier_counts.tier2 as u128).as_str());
    line.push_str(" (");
    line.push_str(percent_text(r.tier_counts.tier2, r.total).as_str());
    line.push_str("%)\n");
    line
}

pub open spec fn tier3_line(r: Report) -> Seq<char> {
    "Tier 3 (drain):    "@ + numeral(r.tier_counts.tier3 as nat) + " ("@
        + percent(r.tier_counts.tier3 as nat, r.total as nat) + "%)\n"@
}

fn write_tier3(r: &Report) -> (line: String)
    requires
        r.cpu_render_busy <= MAX_NANOS,
    ensures
        line@ == tier3_line(*r),
{
    let mut line = "Tier 3 (drain):    ".to_owned();
    line.push_str(numeral_text(r.tier_counts.tier3 as u128).as_str());
    line.push_str(" (");
    line.push_str(percent_text(r.tier_counts.tier3, r.total).as_str());
    line.push_str("%)\n");
    line
}

pub open spec fn tier4_line(r: Report) -> Seq<char> {
    "Tier 4 (overflow): "@ + numeral(r.tier_counts.tier4 as nat) + " ("@
        + percent(r.tier_counts.tier4 as nat, r.total as nat) + "%)\n"@
}

fn write_tier4(r: &Report) -> (line: String)
    requires
        r.cpu_render_busy <= MAX_NANOS,
    ensures
        line@ == tier4_line(*r),
{
    let mut line = "Tier 4 (overflow): ".to_owned();
    line.push_str(numeral_text(r.tier_counts.tier4 as u128).as_str());
    line.push_str(" (");
    line.push_str(percent_text(r.tier_counts.tier4, r.total).as_str());
    line.push_str("%)\n");
    line
}

pub open spec fn cold_line(r: Report) -> Seq<char> {
    "Cold starts:       "@ + numeral(r.cold_starts as nat) + " ("@
        + percent(r.cold_starts as nat, r.completed as nat) + "%)\n"@
}

fn write_cold(r: &Report) -> (line: String)
    requires
        r.cpu_render_busy <= MAX_NANOS,
    ensures
        line@ == cold_line(*r),
{
    let mut line = "Cold starts:       ".to_owned();
    line.push_str(numeral_text(r.cold_starts as u128).as_str());
    line.push_str(" (");
    line.push_str(percent_text(r.cold_starts, r.completed).as_str());
    line.push_str("%)\n");
    line
}

pub open spec fn swaps_line(r: Report) -> Seq<char> {
    "Style swaps:       "@ + numeral(r.style_swaps as nat) + " ("@
        + percent(r.style_swaps as nat, r.completed as nat) + "%)\n"@
}

fn write_swaps(r: &Report) -> (line: String)
    requires
        r.cpu_render_busy <= MAX_NANOS,
    ensures
        line@ == swaps_line(*r),
{
    let mut line = "Style swaps:       ".to_owned();
    line.push_str(numeral_text(r.style_swaps as u128).as_str());
    line.push_str(" (");
    line.push_str(percent_text(r.style_swaps, r.completed).as_str());
    line.push_str("%)\n");
    line
}

pub open spec fn overflow_line(r: Report) -> Seq<char> {
    "Overflow admits:   "@ + numeral(r.overflow_admissions as nat) + " ("@
        + percent(r.overflow_admissions as nat, r.completed as nat)
        + "% of completed) — queued past soft limit\n"@
}

fn write_overflow(r: &Report) -> (line: String)
    requires
        r.cpu_render_busy <= MAX_NANOS,
    ensures
        line@ == overflow_line(*r),
{
    let mut line = "Overflow admits:   ".to_owned();
    line.push_str(numeral_text(r.overflow_admissions as u128).as_str());
    line.push_str(" (");
    line.push_str(percent_text(r.overflow_admissions, r.completed).as_str());
    line.push_str("% of completed) — queued past soft limit\n");
    line
}

pub open spec fn sources_line(r: Report) -> Seq<char> {
    "Sources (tasks/loads/hits): "@ + numeral(r.tasks_with_sources as nat) + " / "@
        + numeral(r.source_loads as nat) + " / "@ + numeral(r.source_hits as nat) + " ("@
        + hit_rate(r) + ")\n"@
}

fn write_sources(r: &Report) -> (line: String)
    requires
        r.cpu_render_busy <= MAX_NANOS,
    ensures
        line@ == sources_line(*r),
{
    let mut line = "Sources (tasks/loads/hits): ".to_owned();
    line.push_str(numeral_text(r.tasks_with_sources as u128).as_str());
    line.push_str(" / ");
    line.push_str(numeral_text(r.source_loads as u128).as_str());
    line.push_str(" / ");
    line.push_str(numeral_text(r.source_hits as u128).as_str());
    line.push_str(" (");
    line.push_str(hit_rate_text(r).as_str());
    line.push_str(")\n");
    line
}

pub open spec fn with_sources_line(r: Report) -> Seq<char> {
    "Tasks w/ sources:  "@ + numeral(r.tasks_with_sources as nat) + " ("@
        + percent(r.tasks_with_sources as nat, r.completed as nat) + "%)\n"@
}

fn write_with_sources(r: &Report) -> (line: String)
    requires
        r.cpu_render_busy <= MAX_NANOS,
    ensures
        line@ == with_sources_line(*r),
{
    let mut line = "Tasks w/ sources:  ".to_owned();
    line.push_str(numeral_text(r.tasks_with_sources as u128).as_str());
    line.push_str(" (");
    line.push_str(percent_text(r.tasks_with_sources, r.completed).as_str());
    line.push_str("%)\n");
    line
}

/// The report as people read it.
pub open spec fn report_text(r: Report) -> Seq<char> {
    head_line(r) + completed_line(r) + rejected_line(r) + failed_line(r) + sla_line(r)
        + elapsed_line(r) + throughput_line(r) + cpu_line(r) + p50_line(r) + p90_line(r)
        + p95_line(r) + p99_line(r) + max_line(r) + tier1_line(r) + tier2_line(r) + tier3_line(r)
        + tier4_line(r) + cold_line(r) + swaps_line(r) + overflow_line(r) + sources_line(r)
        + with_sources_line(r)
}

impl Report {
    /// The report as people read it.
    pub fn to_human_readable(&self) -> (out: String)
        requires
            self.cpu_render_busy <= MAX_NANOS,
        ensures
            out@ == report_text(*self),
    {
        let mut out = write_head(self);
        out.push_str(write_completed(self).as_str());
        out.push_str(write_rejected(self).as_str());
        out.push_str(write_failed(self).as_str());
        out.push_str(write_sla(self).as_str());
        out.push_str(write_elapsed(self).as_str());
        out.push_str(write_throughput(self).as_str());
        out.push_str(write_cpu(self).as_str());
        out.push_str(write_p50(self).as_str());
        out.push_str(write_p90(self).as_str());
        out.push_str(write_p95(self).as_str());
        out.push_str(write_p99(self).as_str());
        out.push_str(write_max(self).as_str());
        out.push_str(write_tier1(self).as_str());
        out.push_str(write_tier2(self).as_str());
        out.push_str(write_tier3(self).as_str());
        out.push_str(write_tier4(self).as_str());
        out.push_str(write_cold(self).as_str());
        out.push_str(write_swaps(self).as_str());
        out.push_str(write_overflow(self).as_str());
        out.push_str(write_sources(self).as_str());
        out.push_str(write_with_sources(self).as_str());
        out
    }
}

/// A span in milliseconds, to two places, of its whole microseconds.
pub open spec fn ms(ns: nat) -> Seq<char> {
    places(quotient(whole_double(ns / 1_000), whole_double(1_000)), 2)
}

fn ms_text(ns: u64) -> (r: String)
    ensures
        r@ == ms(ns as nat),
{
    two_places_text(quotient_of(count_double(ns / 1_000), count_double(1_000)))
}

/// A label as a field of a table: quoted where it holds a comma, a quote or a
/// line break, with quotes doubled.
pub open spec fn csv_field(label: Seq<char>) -> Seq<char> {
    if occurs(label, ","@) || occurs(label, "\""@) || occurs(label, "\n"@) {
        "\""@ + replaced(label, "\""@, "\"\""@) + "\""@
    } else {
        label
    }
}

/// Writes a label as a field of a table.
pub fn csv_label(label: &str) -> (r: String)
    ensures
        r@ == csv_field(label@),
{
    let chars = chars_of(label);
    if contains(&chars, ",") || contains(&chars, "\"") || contains(&chars, "\n") {
        let doubled = replace(&chars, "\"", &chars_of("\"\""));
        let mut out = "\"".to_owned();
        out.push_str(string_of(&doubled).as_str());
        out.push_str("\"");
        out
    } else {
        label.to_owned()
    }
}

/// The first line of a table of reports.
pub open spec fn csv_head() -> Seq<char> {
    "label,submitted,completed,rejected,sla_violations,throughput_rps,cpu_render_util_pct,cpu_render_avg_inflight,cpu_render_peak_inflight,latency_p50_ms,latency_p90_ms,latency_p95_ms,latency_p99_ms,latency_max_ms,tier1_pct,tier2_pct,tier3_pct,tier4_overflow_pct,cold_starts,style_swaps,tasks_with_sources,source_loads,source_hits,elapsed_ms\n"@
}

/// Writes the first line of a table of reports.
pub fn csv_header() -> (r: &'static str)
    ensures
        r@ == csv_head(),
{
    "label,submitted,completed,rejected,sla_violations,throughput_rps,cpu_render_util_pct,cpu_render_avg_inflight,cpu_render_peak_inflight,latency_p50_ms,latency_p90_ms,latency_p95_ms,latency_p99_ms,latency_max_ms,tier1_pct,tier2_pct,tier3_pct,tier4_overflow_pct,cold_starts,style_swaps,tasks_with_sources,source_loads,source_hits,elapsed_ms\n"
}

/// A report as a line of a table.
pub open spec fn csv_line(label: Seq<char>, r: Report) -> Seq<char> {
    csv_field(label) + ","@ + numeral(r.total as nat) + ","@ + numeral(r.completed as nat) + ","@
        + numeral(r.rejected as nat) + ","@ + numeral(r.sla_violations as nat) + ","@
        + throughput(r) + ","@ + exact_utilization(r) + ","@ + average_inflight(r) + ","@
        + numeral(r.cpu_render_peak_inflight as nat) + ","@ + ms(r.latency_p50 as nat) + ","@
        + ms(r.latency_p90 as nat) + ","@ + ms(r.latency_p95 as nat) + ","@
        + ms(r.latency_p99 as nat) + ","@ + ms(r.latency_max as nat) + ","@
        + percent(r.tier_counts.tier1 as nat, r.total as nat) + ","@
        + percent(r.tier_counts.tier2 as nat, r.total as nat) + ","@
        + percent(r.tier_counts.tier3 as nat, r.total as nat) + ","@
        + percent(r.tier_counts.tier4 as nat, r.total as nat) + ","@ + numeral(r.cold_starts as nat)
        + ","@ + numeral(r.style_swaps as nat) + ","@ + numeral(r.tasks_with_sources as nat) + ","@
        + numeral(r.source_loads as nat) + ","@ + numeral(r.source_hits as nat) + ","@
        + ms(r.elapsed as nat) + "\n"@
}

/// Writes a report as a line of a table.
pub fn csv_row(label: &str, r: &Report) -> (row: String)
    requires
        r.cpu_render_busy <= MAX_NANOS,
    ensures
        row@ == csv_line(label@, *r),
{
    let mut row = csv_label(label);
    row.push_str(",");
    row.push_str(numeral_text(r.total as u128).as_str());
    row.push_str(",");
    row.push_str(numeral_text(r.completed as u128).as_str());
    row.push_str(",");
    row.push_str(numeral_text(r.rejected as u128).as_str());
    row.push_str(",");
    row.push_str(numeral_text(r.sla_violations as u128).as_str());
    row.push_str(",");
    row.push_str(throughput_text(r).as_str());
    row.push_str(",");
    row.push_str(exact_utilization_text(r).as_str());
    row.push_str(",");
    row.push_str(average_inflight_text(r).as_str());
    row.push_str(",");
    row.push_str(numeral_text(r.cpu_render_peak_inflight as u128).as_str());
    row.push_str(",");
    row.push_str(ms_text(r.latency_p50).as_str());
    row.push_str(",");
    row.push_str(ms_text(r.latency_p90).as_str());
    row.push_str(",");
    row.push_str(ms_text(r.latency_p95).as_str());
    row.push_str(",");
    row.push_str(ms_text(r.latency_p99).as_str());
    row.push_str(",");
    row.push_str(ms_text(r.latency_max).as_str());
    row.push_str(",");
    row.push_str(percent_text(r.tier_counts.tier1, r.total).as_str());
    row.push_str(",");
    row.push_str(percent_text(r.tier_counts.tier2, r.total).as_str());
    row.push_str(",");
    row.push_str(percent_text(r.tier_counts.tier3, r.total).as_str());
    row.push_str(",");
    row.push_str(percent_text(r.tier_counts.tier4, r.total).as_str());
    row.push_str(",");
    row.push_str(numeral_text(r.cold_starts as u128).as_str());
    row.push_str(",");
    row.push_str(numeral_text(r.style_swaps as u128).as_str());
    row.push_str(",");
    row.push_str(numeral_text(r.tasks_with_sources as u128).as_str());
    row.push_str(",");
    row.push_str(numeral_text(r.source_loads as u128).as_str());
    row.push_str(",");
    row.push_str(numeral_text(r.source_hits as u128).as_str());
    row.push_str(",");
    row.push_str(ms_text(r.elapsed).as_str());
    row.push_str("\n");
    row
}

proof fn lemma_one_occurs(s: Seq<char>, c: char, pattern: Seq<char>)
    requires
        pattern == seq![c],
    ensures
        occurs(s, pattern) <==> s.contains(c),
{
    if s.contains(c) {
        let i = choose|i: int| 0 <= i < s.len() && s[i] == c;
        assert(s.skip(i).take(1) =~= pattern);
        assert(begins_with(s.skip(i), pattern));
    }
    if occurs(s, pattern) {
        let i = choose|i: int| 0 <= i <= s.len() && begins_with(#[trigger] s.skip(i), pattern);
        assert(s.skip(i).take(1)[0] == pattern[0]);
        assert(s[i] == c);
    }
}

/// A label without commas, quotes and ends of lines stands as it is, and any other in
/// quotes, with its own quotes doubled.
pub proof fn law_labels_are_quoted_if_need_be(label: Seq<char>)
    ensures
        !label.contains(',') && !label.contains('"') && !label.contains('\n') ==> csv_field(label)
            == label,
        label.contains(',') || label.contains('"') || label.contains('\n') ==> csv_field(label)
            == "\""@ + replaced(label, "\""@, "\"\""@) + "\""@,
{
    reveal_strlit(",");
    reveal_strlit("\"");
    reveal_strlit("\n");
    assert(","@ =~= seq![',']);
    assert("\""@ =~= seq!['"']);
    assert("\n"@ =~= seq!['\n']);
    lemma_one_occurs(label, ',', ","@);
    lemma_one_occurs(label, '"', "\""@);
    lemma_one_occurs(label, '\n', "\n"@);
}

proof fn lemma_entered(list: Seq<(Seq<char>, nat)>, entry: (Seq<char>, nat))
    requires
        forall|i: int, j: int|
            0 <= i <= j < list.len() ==> (#[trigger] list[i]).1 >= (#[trigger] list[j]).1,
    ensures
        forall|i: int, j: int|
            0 <= i <= j < entered(list, entry).len() ==> (#[trigger] entered(list, entry)[i]).1 >= (
            #[trigger] entered(list, entry)[j]).1,
        entered(list, entry).to_multiset() == list.to_multiset().insert(entry),
        entered(list, entry).len() == list.len() + 1,
        entry.1 <= list[0].1 && list.len() > 0 ==> entered(list, entry)[0] == list[0],
        list.len() == 0 || list[0].1 < entry.1 ==> entered(list, entry)[0] == entry,
    decreases list.len(),
{
    broadcast use vstd::seq_lib::group_to_multiset_ensures;

    let r = entered(list, entry);
    if list.len() == 0 || list[0].1 < entry.1 {
        assert(r == seq![entry] + list);
        assert forall|i: int, j: int| 0 <= i <= j < r.len() implies (#[trigger] r[i]).1 >= (
        #[trigger] r[j]).1 by {
            if i > 0 {
                assert(r[i] == list[i - 1] && r[j] == list[j - 1]);
            } else if j > 0 {
                assert(r[j] == list[j - 1]);
                assert(list[0].1 >= list[j - 1].1);
            }
        }
        vstd::seq_lib::lemma_multiset_commutative(seq![entry], list);
        assert(seq![entry] =~= Seq::empty().push(entry));
        assert(seq![entry].to_multiset() =~= vstd::multiset::Multiset::empty().insert(entry));
        assert(r.to_multiset() =~= list.to_multiset().insert(entry));
    } else {
        let rest = list.skip(1);
        assert forall|i: int, j: int| 0 <= i <= j < rest.len() implies (#[trigger] rest[i]).1 >= (
        #[trigger] rest[j]).1 by {
            assert(rest[i] == list[i + 1] && rest[j] == list[j + 1]);
        }
        lemma_entered(rest, entry);
        let tail = entered(rest, entry);
        assert(r == seq![list[0]] + tail);
        assert(tail[0].1 <= list[0].1) by {
            if rest.len() > 0 && entry.1 <= rest[0].1 {
                assert(tail[0] == rest[0]);
                assert(rest[0] == list[1]);
            }
        }
        assert forall|i: int, j: int| 0 <= i <= j < r.len() implies (#[trigger] r[i]).1 >= (
        #[trigger] r[j]).1 by {
            if i > 0 {
                assert(r[i] == tail[i - 1] && r[j] == tail[j - 1]);
            } else if j > 0 {
                assert(r[j] == tail[j - 1]);
                assert(tail[0].1 >= tail[j - 1].1);
            }
        }
        vstd::seq_lib::lemma_multiset_commutative(seq![list[0]], tail);
        vstd::seq_lib::lemma_multiset_commutative(seq![list[0]], rest);
        assert(seq![list[0]] + rest =~= list);
        assert(r.to_multiset() =~= list.to_multiset().insert(entry));
    }
}

/// Tallies are listed by their counts, the highest first, and none is lost.
pub proof fn law_tallies_are_listed_by_count(list: Seq<(Seq<char>, nat)>)
    ensures
        forall|i: int, j: int|
            0 <= i <= j < by_count(list).len() ==> (#[trigger] by_count(list)[i]).1 >= (
            #[trigger] by_count(list)[j]).1,
        by_count(list).to_multiset() == list.to_multiset(),
    decreases list.len(),
{
    broadcast use vstd::seq_lib::group_to_multiset_ensures;

    if list.len() > 0 {
        law_tallies_are_listed_by_count(list.drop_last());
        lemma_entered(by_count(list.drop_last()), list.last());
        assert(list.drop_last().push(list.last()) =~= list);
    }
}

/// Tallies are written in a row, each with its count, and none as a dash.
pub proof fn law_tallies_are_written_in_a_row(
    list: Seq<(Seq<char>, nat)>,
    name: Seq<char>,
    n: nat,
)
    ensures
        list.len() > 0 ==> entry_row(list.push((name, n))) == entry_row(list) + ", "@ + name + "="@
            + numeral(n),
        entry_row(seq![(name, n)]) == name + "="@ + numeral(n),
        tally_text(Seq::empty()) == "-"@,
{
    assert(list.push((name, n)).drop_last() =~= list);
    assert(seq![(name, n)].drop_last() =~= Seq::<(Seq<char>, nat)>::empty());
    assert(entry_row(Seq::<(Seq<char>, nat)>::empty()) =~= Seq::<char>::empty());
    assert(Seq::<char>::empty() + name + "="@ + numeral(n) =~= name + "="@ + numeral(n));
}

/// Shares depend on the quotient alone: what is left of nothing is zero, and all is the
/// same hundred percent whatever it is of.
pub proof fn law_all_is_a_hundred_percent(n: nat, m: nat)
    requires
        n > 0,
        m > 0,
        whole_double(n).units > 0,
        whole_double(m).units > 0,
    ensures
        percent(n, n) == percent(m, m),
        percent(n, 0) == "0.00"@,
{
    law_a_number_is_once_itself(whole_double(n));
    law_a_number_is_once_itself(whole_double(m));
}

/// A report that took no time has no throughput, and one without permits no use of them.
pub proof fn law_nothing_is_used_in_no_time(r: Report)
    ensures
        r.elapsed == 0 ==> throughput(r) == "0.00"@ && average_inflight(r) == "0.00"@
            && utilization(r) == "0.0"@ && exact_utilization(r) == "0.00"@,
        r.cpu_render_permits_total == 0 ==> utilization(r) == "0.0"@,
        r.tasks_with_sources == 0 ==> hit_rate(r) == "n/a"@,
{
}

/// A report says how many tasks there were, what became of them, and how long they took.
pub proof fn law_reports_say_what_happened(r: Report)
    ensures
        head_line(r) == "=== Simulation Report ===\nTotal submitted:   "@ + numeral(r.total as nat)
            + "\n"@,
        completed_line(r) == "Completed:         "@ + numeral(r.completed as nat) + " ("@ + percent(
            r.completed as nat,
            r.total as nat,
        ) + "%)\n"@,
        rejected_line(r) == "Rejected:          "@ + numeral(r.rejected as nat) + " ("@ + percent(
            r.rejected as nat,
            r.total as nat,
        ) + "%)  reasons: "@ + reasons_text(reason_views(r.rejection_by_reason@)) + "\n"@,
        failed_line(r) == "Failed:            "@ + numeral(r.failed as nat) + " ("@ + percent(
            r.failed as nat,
            r.total as nat,
        ) + "%)  errors: "@ + tally_text(tally_views(r.failure_by_error@)) + "\n"@,
        p50_line(r) == "Latency p50:       "@ + span_text(r.latency_p50 as nat) + "\n"@,
        p90_line(r) == "Latency p90:       "@ + span_text(r.latency_p90 as nat) + "\n"@,
        p95_line(r) == "Latency p95:       "@ + span_text(r.latency_p95 as nat) + "\n"@,
        p99_line(r) == "Latency p99:       "@ + span_text(r.latency_p99 as nat) + "\n"@,
        max_line(r) == "Latency max:       "@ + span_text(r.latency_max as nat) + "\n"@,
        tier1_line(r) == "Tier 1 (warm):     "@ + numeral(r.tier_counts.tier1 as nat) + " ("@
            + percent(r.tier_counts.tier1 as nat, r.total as nat) + "%)\n"@,
        tier2_line(r) == "Tier 2 (hrw/bl):   "@ + numeral(r.tier_counts.tier2 as nat) + " ("@
            + percent(r.tier_counts.tier2 as nat, r.total as nat) + "%)\n"@,
        tier3_line(r) == "Tier 3 (drain):    "@ + numeral(r.tier_counts.tier3 as nat) + " ("@
            + percent(r.tier_counts.tier3 as nat, r.total as nat) + "%)\n"@,
        tier4_line(r) == "Tier 4 (overflow): "@ + numeral(r.tier_counts.tier4 as nat) + " ("@
            + percent(r.tier_counts.tier4 as nat, r.total as nat) + "%)\n"@,
{
}

/// A report says how often the service level was missed, how long it all took, and what the
/// tasks cost.
pub proof fn law_reports_say_what_it_cost(r: Report)
    ensures
        sla_line(r) == "SLA ("@ + span_text(r.sla as nat) + "):         "@ + numeral(
            r.sla_violations as nat,
        ) + " violations ("@ + percent(r.sla_violations as nat, r.completed as nat)
            + "% of completed)\n"@,
        elapsed_line(r) == "Elapsed (sim):     "@ + span_text(r.elapsed as nat) + "\n"@,
        throughput_line(r) == "Throughput:        "@ + throughput(r) + " req/s\n"@,
        cpu_line(r) == "CPU render util:   "@ + utilization(r) + "% avg="@ + average_inflight(r)
            + " peak="@ + numeral(r.cpu_render_peak_inflight as nat) + " permits="@ + numeral(
            r.cpu_render_permits_total as nat,
        ) + " busy="@ + span_text(r.cpu_render_busy as nat) + "\n"@,
        cold_line(r) == "Cold starts:       "@ + numeral(r.cold_starts as nat) + " ("@ + percent(
            r.cold_starts as nat,
            r.completed as nat,
        ) + "%)\n"@,
        swaps_line(r) == "Style swaps:       "@ + numeral(r.style_swaps as nat) + " ("@ + percent(
            r.style_swaps as nat,
            r.completed as nat,
        ) + "%)\n"@,
        sources_line(r) == "Sources (tasks/loads/hits): "@ + numeral(r.tasks_with_sources as nat)
            + " / "@ + numeral(r.source_loads as nat) + " / "@ + numeral(r.source_hits as nat)
            + " ("@ + hit_rate(r) + ")\n"@,
        with_sources_line(r) == "Tasks w/ sources:  "@ + numeral(r.tasks_with_sources as nat)
            + " ("@ + percent(r.tasks_with_sources as nat, r.completed as nat) + "%)\n"@,
        r.tasks_with_sources > 0 ==> hit_rate(r) == percent(
            r.source_hits as nat,
            r.tasks_with_sources as nat,
        ) + "% hit rate"@,
{
}

/// A report begins with how many tasks there were and what became of them, and ends with
/// their sources.
pub proof fn law_reports_are_in_order(r: Report)
    ensures
        (head_line(r) + completed_line(r) + rejected_line(r) + failed_line(r)).is_prefix_of(
            report_text(r),
        ),
        report_text(r) == head_line(r) + completed_line(r) + rejected_line(r) + failed_line(r)
            + sla_line(r) + elapsed_line(r) + throughput_line(r) + cpu_line(r) + p50_line(r)
            + p90_line(r) + p95_line(r) + p99_line(r) + max_line(r) + tier1_line(r) + tier2_line(r)
            + tier3_line(r) + tier4_line(r) + cold_line(r) + swaps_line(r) + overflow_line(r)
            + sources_line(r) + with_sources_line(r),
{
}

/// A row of a table holds the report's numbers in the order of the head of the table: those
/// of the tasks, of the use of the permits, of the latencies, of the tiers and of the
/// sources.
pub proof fn law_rows_hold_the_report(label: Seq<char>, r: Report)
    ensures
        csv_line(label, r) == csv_field(label) + ","@ + numeral(r.total as nat) + ","@ + numeral(
            r.completed as nat,
        ) + ","@ + numeral(r.rejected as nat) + ","@ + numeral(r.sla_violations as nat) + ","@
            + throughput(r) + ","@ + exact_utilization(r) + ","@ + average_inflight(r) + ","@
            + numeral(r.cpu_render_peak_inflight as nat) + ","@ + ms(r.latency_p50 as nat) + ","@
            + ms(r.latency_p90 as nat) + ","@ + ms(r.latency_p95 as nat) + ","@ + ms(
            r.latency_p99 as nat,
        ) + ","@ + ms(r.latency_max as nat) + ","@ + percent(
            r.tier_counts.tier1 as nat,
            r.total as nat,
        ) + ","@ + percent(r.tier_counts.tier2 as nat, r.total as nat) + ","@ + percent(
            r.tier_counts.tier3 as nat,
            r.total as nat,
        ) + ","@ + percent(r.tier_counts.tier4 as nat, r.total as nat) + ","@ + numeral(
            r.cold_starts as nat,
        ) + ","@ + numeral(r.style_swaps as nat) + ","@ + numeral(r.tasks_with_sources as nat)
            + ","@ + numeral(r.source_loads as nat) + ","@ + numeral(r.source_hits as nat) + ","@
            + ms(r.elapsed as nat) + "\n"@,
{
}

/// Reasons are listed by their names.
pub proof fn law_reasons_go_by_their_names(list: Seq<(RejectionReason, nat)>, i: int)
    requires
        0 <= i < list.len(),
    ensures
        named(list).len() == list.len(),
        named(list)[i].1 == list[i].1,
        list[i].0 == RejectionReason::QueueFull ==> named(list)[i].0 == "QueueFull"@,
        list[i].0 == RejectionReason::NoCapacity ==> named(list)[i].0 == "NoCapacity"@,
        list[i].0 == RejectionReason::DrainTooSlow ==> named(list)[i].0 == "DrainTooSlow"@,
        list[i].0 == RejectionReason::UnknownStyle ==> named(list)[i].0 == "UnknownStyle"@,
        list[i].0 == RejectionReason::HopLimitExceeded ==> named(list)[i].0 == "HopLimitExceeded"@,
        list[i].0 == RejectionReason::ForwardFailed ==> named(list)[i].0 == "ForwardFailed"@,
        list[i].0 == RejectionReason::DeadlineTooClose ==> named(list)[i].0 == "DeadlineTooClose"@,
        list[i].0 == RejectionReason::DeadlineExceeded ==> named(list)[i].0 == "DeadlineExceeded"@,
{
}

/// The throughput is what was completed by the seconds that passed, the use of permits what
/// was busy by what passed and by the permits, and a share a hundred times its quotient.
pub proof fn law_figures_are_quotients(r: Report, n: nat, of: nat)
    requires
        of > 0,
    ensures
        r.elapsed > 0 ==> throughput(r) == places(
            quotient(whole_double(r.completed as nat), nearest(r.elapsed as nat, 1_000_000_000)),
            2,
        ),
        r.elapsed > 0 ==> average_inflight(r) == places(
            quotient(
                nearest(r.cpu_render_busy as nat, 1_000_000_000),
                nearest(r.elapsed as nat, 1_000_000_000),
            ),
            2,
        ),
        r.elapsed > 0 && r.cpu_render_permits_total > 0 ==> exact_utilization(r) == places(
            hundredfold(
                quotient(
                    quotient(
                        nearest(r.cpu_render_busy as nat, 1_000_000_000),
                        nearest(r.elapsed as nat, 1_000_000_000),
                    ),
                    whole_double(r.cpu_render_permits_total as nat),
                ),
            ),
            2,
        ),
        percent(n, of) == places(hundredfold(quotient(whole_double(n), whole_double(of))), 2),
        ms(n) == places(quotient(whole_double(n / 1_000), whole_double(1_000)), 2),
{
}

} // verus!
