//! Costs derived from calibration profiles.
//!
//! The processor's share of a render cannot be measured directly. The fastest
//! warm renders of a window, or the renders of a second window in which nothing
//! had to be fetched, stand for it; what renders take beyond it is modelled as
//! waiting for resources.

use vstd::prelude::*;
use std::time::Duration;
use crate::config::CostRange;
use crate::sim::empirical::{
    EmpiricalCostModel, MIN_OPTIONAL_SAMPLES, MIN_WARM_RENDER_SAMPLES, RENDER_METRIC,
    SOURCE_METRIC, STYLE_METRIC, series_of, warm_shapes,
};
use crate::sim::histogram::{
    CalibrationBucket, CalibrationHistogram, CalibrationSeries, MAX_COUNT, MergedHistogram,
    MergedView, SAMPLE, add_at, add_samples, all_counts, ascending, bucket_views, counts_sum,
    has_label, label, label_of, label_views, labelled, merged, no_samples, quantile_of,
};
use crate::sim::profile::{CalibrationProfile, CalibrationProvenance};
use crate::sim::shapes::{
    CalibrationRenderState, RenderShapeKey, SeriesFilter, ShapeView, lemma_counts_up_to,
    law_shape_order, merge_series, render_shape_from_labels, render_state_from_labels,
    shape_before, shape_of, state_of,
};
use crate::text::same_text;
use crate::time::{max_nat, min_nat, monus, nanos, span};

verus! {

/// The metric of fetches from providers.
pub const UPSTREAM_METRIC: &'static str = "biei_mln_resource_upstream_attempt_duration_seconds";

/// The metric of renders that were given up.
pub const TIMEOUT_METRIC: &'static str = "biei_render_timeout_lower_bound_seconds";

/// The band of quantiles of a cost that is measured directly, in percent.
pub const DIRECT_LOW: u64 = 25;

pub const DIRECT_HIGH: u64 = 75;

/// The band of warm renders that stands for the processor's share.
pub const CPU_LOW: u64 = 10;

pub const CPU_HIGH: u64 = 25;

/// The band whose excess is modelled as waiting for resources.
pub const RESOURCE_LOW: u64 = 50;

pub const RESOURCE_HIGH: u64 = 90;

/// Costs of the stages of a render.
#[derive(Clone, Copy, Debug)]
pub struct StageCosts {
    pub style_setup_cost: CostRange,
    pub source_load_cost: CostRange,
    pub render_cpu_cost: CostRange,
    pub render_resource_cost: CostRange,
    pub first_render_resource_cost: CostRange,
    pub hop_latency: Duration,
    pub sla: Duration,
}

/// Where a cost comes from.
#[derive(Clone, Copy, Debug, PartialEq, Eq, Structural)]
pub enum CalibrationValueSource {
    Measured,
    Derived,
    Default,
}

/// Where the cost of a stage comes from, and how many samples speak for it.
#[derive(Clone, Copy, Debug, PartialEq, Eq, Structural)]
pub struct CalibrationStageCoverage {
    pub source: CalibrationValueSource,
    pub samples: u64,
}

impl CalibrationStageCoverage {
    pub fn measured(samples: u64) -> (r: CalibrationStageCoverage)
        ensures
            r == (CalibrationStageCoverage { source: CalibrationValueSource::Measured, samples }),
    {
        CalibrationStageCoverage { source: CalibrationValueSource::Measured, samples }
    }

    pub fn derived(samples: u64) -> (r: CalibrationStageCoverage)
        ensures
            r == (CalibrationStageCoverage { source: CalibrationValueSource::Derived, samples }),
    {
        CalibrationStageCoverage { source: CalibrationValueSource::Derived, samples }
    }

    pub fn base() -> (r: CalibrationStageCoverage)
        ensures
            r == (CalibrationStageCoverage { source: CalibrationValueSource::Default, samples: 0 }),
    {
        CalibrationStageCoverage { source: CalibrationValueSource::Default, samples: 0 }
    }
}

/// Where the cost of every stage comes from.
#[derive(Clone, Copy, Debug, PartialEq, Eq, Structural)]
pub struct CalibrationCoverage {
    pub style_setup: CalibrationStageCoverage,
    pub source_load: CalibrationStageCoverage,
    pub render_cpu: CalibrationStageCoverage,
    pub warm_render_resource: CalibrationStageCoverage,
    pub first_render_resource: CalibrationStageCoverage,
    pub hop_latency: CalibrationStageCoverage,
    pub sla: CalibrationStageCoverage,
}

/// A capture window.
#[derive(Clone, Copy, Debug, PartialEq, Eq, Structural)]
pub enum Window {
    CpuReference,
    Traffic,
    Single,
}

/// Why warm renders of a window cannot stand for the processor's share.
#[derive(Clone, Copy, Debug, PartialEq, Eq, Structural)]
pub enum WarmthError {
    NoInstrumentation,
    EmptyInstrumentation,
    NotWarm { fetches: u64, renders: u64 },
}

/// A stage that is measured directly.
#[derive(Clone, Copy, Debug, PartialEq, Eq, Structural)]
pub enum DirectStage {
    StyleSetup,
    SourceLoad,
}

/// What is to be known of how costs were derived.
#[derive(Clone, Copy, Debug, PartialEq, Eq, Structural)]
pub enum CalibrationNote {
    CpuFromReference { fetches: u64, renders: u64 },
    CollapsedShapes { shapes: usize },
    StageKept { stage: DirectStage },
    WarmSparse { count: u64 },
    WarmMissing,
    WarmIgnored { error: WarmthError },
    NoInstrumentation,
    EmptyInstrumentation,
    TrafficFetches { fetches: u64, renders: u64 },
    SlightlyInflated { fetches: u64, renders: u64 },
    VerifiedWarm { fetches: u64, renders: u64 },
    CpuFromWarm,
    FirstSparse { count: u64 },
}

/// Costs derived from a profile.
#[derive(Debug)]
pub struct CalibratedCosts {
    pub costs: StageCosts,
    pub notes: Vec<CalibrationNote>,
    pub coverage: CalibrationCoverage,
    pub sampling_model: EmpiricalCostModel,
}

/// A machine and its node layout, as a message names them.
#[derive(Debug, PartialEq, Eq)]
pub struct MachineName {
    pub hardware_profile: String,
    pub architecture: String,
    pub cpu_cores: usize,
}

/// The permits of a node, as a message names them.
#[derive(Clone, Copy, Debug, PartialEq, Eq, Structural)]
pub struct NodeShape {
    pub slots: usize,
    pub execution: usize,
    pub native: usize,
}

/// Why no costs can be derived.
#[derive(Debug)]
pub enum CalibrationError {
    DifferentMachines { reference: MachineName, traffic: MachineName },
    DifferentRevisions { reference: String, traffic: String },
    DifferentNodes { reference: NodeShape, traffic: NodeShape },
    NotSerial,
    NoTimeoutEvidence,
    EmptyTimeoutEvidence { window: Window },
    Censored { window: Window, count: u64 },
    NoRenders { window: Window },
    FewReferenceRenders { count: u64 },
    NoState { labels: Vec<(String, String)> },
    NoShape { labels: Vec<(String, String)> },
    NoSamples,
    UncoveredShape { shape: RenderShapeKey, samples: u64 },
    NoWarmSamples { shape: RenderShapeKey, samples: u64 },
    CountsTooLarge,
    NoOverlap,
    NoUpstream,
    EmptyUpstream,
    NotClean { fetches: u64, renders: u64 },
}

/// The lower and the higher of two spans.
pub open spec fn is_range(r: CostRange, a: nat, b: nat) -> bool {
    nanos(r.min) == min_nat(a, b) && nanos(r.max) == max_nat(a, b)
}

/// The range between two spans, in nanoseconds.
pub fn ordered_range(low: u64, high: u64) -> (r: CostRange)
    ensures
        is_range(r, low as nat, high as nat),
{
    if low <= high {
        CostRange::new(span(low as u128), span(high as u128))
    } else {
        CostRange::new(span(high as u128), span(low as u128))
    }
}

/// The band of a histogram.
pub open spec fn is_band(r: CostRange, m: MergedView, low: nat, high: nat) -> bool {
    is_range(r, quantile_of(m, low)->0, quantile_of(m, high)->0)
}

/// The band of a histogram beyond a span.
pub open spec fn is_excess(r: CostRange, m: MergedView, cpu_mid: nat) -> bool {
    is_range(
        r,
        monus(quantile_of(m, RESOURCE_LOW as nat)->0, cpu_mid),
        monus(quantile_of(m, RESOURCE_HIGH as nat)->0, cpu_mid),
    )
}

fn quantile_known(m: &MergedHistogram, percent: u64) -> (r: u64)
    requires
        m@.wf(),
        m.count > 0,
        m@.buckets.len() > 0,
    ensures
        quantile_of(m@, percent as nat) == Some(r as nat),
{
    match m.quantile(percent) {
        Some(ns) => ns,
        None => 0,
    }
}

fn less(ns: u64, mid: u128) -> (r: u64)
    ensures
        r == monus(ns as nat, mid as nat),
{
    if ns as u128 >= mid {
        (ns as u128 - mid) as u64
    } else {
        0
    }
}

/// What renders take beyond the processor's share.
pub fn residency_excess(m: &MergedHistogram, cpu_mid: u128) -> (r: CostRange)
    requires
        m@.wf(),
        m.count > 0,
        m@.buckets.len() > 0,
    ensures
        is_excess(r, m@, cpu_mid as nat),
{
    let low: u64 = quantile_known(m, RESOURCE_LOW);
    let high: u64 = quantile_known(m, RESOURCE_HIGH);
    ordered_range(less(low, cpu_mid), less(high, cpu_mid))
}

/// The note, if it is due.
pub open spec fn note_if(due: bool, note: CalibrationNote) -> Seq<CalibrationNote> {
    if due {
        seq![note]
    } else {
        Seq::empty()
    }
}

/// The cost of a stage that is measured directly, from its merged series; its
/// base cost where they are too few.
pub fn band_or_fallback(
    m: &MergedHistogram,
    fallback: CostRange,
    stage: DirectStage,
    notes: &mut Vec<CalibrationNote>,
) -> (r: (CostRange, CalibrationStageCoverage))
    requires
        m@.wf(),
        m.count >= MIN_OPTIONAL_SAMPLES ==> m@.buckets.len() > 0,
    ensures
        m.count >= MIN_OPTIONAL_SAMPLES ==> is_band(
            r.0,
            m@,
            DIRECT_LOW as nat,
            DIRECT_HIGH as nat,
        ),
        m.count < MIN_OPTIONAL_SAMPLES ==> r.0 == fallback,
        r.1 == direct_coverage(m@),
        final(notes)@ == old(notes)@ + note_if(
            m.count < MIN_OPTIONAL_SAMPLES,
            CalibrationNote::StageKept { stage },
        ),
{
    if m.count < MIN_OPTIONAL_SAMPLES {
        notes.push(CalibrationNote::StageKept { stage });
        assert(notes@ =~= old(notes)@ + note_if(true, CalibrationNote::StageKept { stage }));
        return (fallback, CalibrationStageCoverage::base());
    }
    let low: u64 = quantile_known(m, DIRECT_LOW);
    let high: u64 = quantile_known(m, DIRECT_HIGH);
    assert(notes@ =~= old(notes)@ + note_if(false, CalibrationNote::StageKept { stage }));
    (ordered_range(low, high), CalibrationStageCoverage::measured(m.count))
}

/// Where the cost of a directly measured stage comes from.
pub open spec fn direct_coverage(m: MergedView) -> CalibrationStageCoverage {
    if m.count >= MIN_OPTIONAL_SAMPLES {
        CalibrationStageCoverage {
            source: CalibrationValueSource::Measured,
            samples: m.count as u64,
        }
    } else {
        CalibrationStageCoverage { source: CalibrationValueSource::Default, samples: 0 }
    }
}

/// What a window is used for.
#[derive(Clone, Copy, Debug, PartialEq, Eq, Structural)]
pub enum WarmthWindowRole {
    /// Its warm renders stand for the processor's share.
    CpuSource,
    /// Its renders are expected to wait for resources.
    TrafficContext,
}

/// The fetches that renders waited for.
pub open spec fn blocking_fetches(upstream: CalibrationHistogram) -> nat {
    merged(upstream.series@, SeriesFilter::Regular.test()).count
}

/// Why the warm renders of a window cannot stand for the processor's share, if
/// they cannot: nothing shows that they waited for no resource, or more than one
/// fetch in two renders shows that they did.
pub open spec fn warmth_fault(
    upstream: Option<CalibrationHistogram>,
    renders: nat,
    role: WarmthWindowRole,
) -> Option<WarmthError> {
    if role == WarmthWindowRole::TrafficContext {
        None
    } else {
        match upstream {
            None => Some(WarmthError::NoInstrumentation),
            Some(h) => if h.series@.len() == 0 {
                Some(WarmthError::EmptyInstrumentation)
            } else if renders > 0 && 2 * blocking_fetches(h) > renders {
                Some(
                    WarmthError::NotWarm {
                        fetches: blocking_fetches(h) as u64,
                        renders: renders as u64,
                    },
                )
            } else {
                None
            },
        }
    }
}

/// What is noted of the fetches of a window that is not refused.
pub open spec fn warmth_notes(
    upstream: Option<CalibrationHistogram>,
    renders: nat,
    role: WarmthWindowRole,
) -> Seq<CalibrationNote> {
    match upstream {
        None => note_if(
            role == WarmthWindowRole::TrafficContext,
            CalibrationNote::NoInstrumentation,
        ),
        Some(h) => if h.series@.len() == 0 {
            note_if(
                role == WarmthWindowRole::TrafficContext,
                CalibrationNote::EmptyInstrumentation,
            )
        } else {
            let fetches = blocking_fetches(h) as u64;
            let shown = renders as u64;
            note_if(
                renders > 0,
                if role == WarmthWindowRole::TrafficContext {
                    CalibrationNote::TrafficFetches { fetches, renders: shown }
                } else if 20 * blocking_fetches(h) > renders {
                    CalibrationNote::SlightlyInflated { fetches, renders: shown }
                } else {
                    CalibrationNote::VerifiedWarm { fetches, renders: shown }
                },
            )
        },
    }
}

/// Holds a window against its role, and notes what it shows.
pub fn verify_resource_warm_window(
    profile: &CalibrationProfile,
    renders: u64,
    role: WarmthWindowRole,
    notes: &mut Vec<CalibrationNote>,
) -> (r: Result<(), WarmthError>)
    requires
        profile.fits(),
    ensures
        match r {
            Ok(()) => warmth_fault(profile.of(UPSTREAM_METRIC@), renders as nat, role) is None
                && final(notes)@ == old(notes)@ + warmth_notes(
                profile.of(UPSTREAM_METRIC@),
                renders as nat,
                role,
            ),
            Err(e) => warmth_fault(profile.of(UPSTREAM_METRIC@), renders as nat, role) == Some(e)
                && final(notes)@ == old(notes)@,
        },
{
    let ghost before = notes@;
    let ghost due = warmth_notes(profile.of(UPSTREAM_METRIC@), renders as nat, role);
    let traffic = match role {
        WarmthWindowRole::TrafficContext => true,
        WarmthWindowRole::CpuSource => false,
    };
    let upstream = match profile.histogram(UPSTREAM_METRIC) {
        Some(h) => h,
        None => {
            if !traffic {
                return Err(WarmthError::NoInstrumentation);
            }
            notes.push(CalibrationNote::NoInstrumentation);
            assert(notes@ =~= before + due);
            return Ok(());
        },
    };
    if upstream.series.len() == 0 {
        if !traffic {
            return Err(WarmthError::EmptyInstrumentation);
        }
        notes.push(CalibrationNote::EmptyInstrumentation);
        assert(notes@ =~= before + due);
        return Ok(());
    }
    let fetches: u64 = merge_series(upstream, &SeriesFilter::Regular).count;
    if renders == 0 {
        assert(notes@ =~= before + due);
        return Ok(());
    }
    if traffic {
        notes.push(CalibrationNote::TrafficFetches { fetches, renders });
        assert(notes@ =~= before + due);
        return Ok(());
    }
    if 2 * fetches > renders {
        return Err(WarmthError::NotWarm { fetches, renders });
    }
    if 20 * fetches > renders {
        notes.push(CalibrationNote::SlightlyInflated { fetches, renders });
    } else {
        notes.push(CalibrationNote::VerifiedWarm { fetches, renders });
    }
    assert(notes@ =~= before + due);
    Ok(())
}

/// The labels agree but for the render state.
pub open spec fn same_but_state(
    a: Seq<(Seq<char>, Seq<char>)>,
    b: Seq<(Seq<char>, Seq<char>)>,
) -> bool {
    forall|name: Seq<char>|
        name != "state"@ ==> #[trigger] label_of(a, name) == label_of(b, name)
}

proof fn lemma_label_is_listed(labels: Seq<(Seq<char>, Seq<char>)>, name: Seq<char>)
    requires
        label_of(labels, name) is Some,
    ensures
        exists|i: int| 0 <= i < labels.len() && (#[trigger] labels[i]).0 == name,
    decreases labels.len(),
{
    if labels[0].0 != name {
        lemma_label_is_listed(labels.skip(1), name);
        let i = choose|i: int|
            0 <= i < labels.skip(1).len() && (#[trigger] labels.skip(1)[i]).0 == name;
        assert(labels[i + 1].0 == name);
    } else {
        assert(labels[0].0 == name);
    }
}

fn covers(a: &Vec<(String, String)>, b: &Vec<(String, String)>) -> (r: bool)
    ensures
        r == forall|i: int|
            0 <= i < a@.len() && (#[trigger] a@[i]).0@ != "state"@ ==> label_of(
                label_views(a@),
                a@[i].0@,
            ) == label_of(label_views(b@), a@[i].0@),
{
    let mut i: usize = 0;
    while i < a.len()
        invariant
            i <= a@.len(),
            forall|j: int|
                0 <= j < i && (#[trigger] a@[j]).0@ != "state"@ ==> label_of(
                    label_views(a@),
                    a@[j].0@,
                ) == label_of(label_views(b@), a@[j].0@),
        decreases a.len() - i,
    {
        let name = a[i].0.as_str();
        if !same_text(name, "state") {
            let equal = match (label(a, name), label(b, name)) {
                (Some(x), Some(y)) => same_text(x.as_str(), y.as_str()),
                (None, None) => true,
                _ => false,
            };
            if !equal {
                assert(a@[i as int].0@ != "state"@);
                return false;
            }
        }
        i += 1;
    }
    true
}

/// Whether labels agree but for the render state.
pub fn agree_but_state(a: &Vec<(String, String)>, b: &Vec<(String, String)>) -> (r: bool)
    ensures
        r == same_but_state(label_views(a@), label_views(b@)),
{
    let r = covers(a, b) && covers(b, a);
    proof {
        let x = label_views(a@);
        let y = label_views(b@);
        if r {
            assert forall|name: Seq<char>| name != "state"@ implies #[trigger] label_of(x, name)
                == label_of(y, name) by {
                if label_of(x, name) is Some {
                    lemma_label_is_listed(x, name);
                    let i = choose|i: int| 0 <= i < x.len() && (#[trigger] x[i]).0 == name;
                    assert(a@[i].0@ == name);
                }
                if label_of(y, name) is Some {
                    lemma_label_is_listed(y, name);
                    let i = choose|i: int| 0 <= i < y.len() && (#[trigger] y[i]).0 == name;
                    assert(b@[i].0@ == name);
                }
            }
        } else {
            if same_but_state(x, y) {
                assert(forall|i: int|
                    0 <= i < a@.len() && (#[trigger] a@[i]).0@ != "state"@ ==> label_of(
                        x,
                        a@[i].0@,
                    ) == label_of(y, a@[i].0@));
                assert(forall|i: int|
                    0 <= i < b@.len() && (#[trigger] b@[i]).0@ != "state"@ ==> label_of(
                        x,
                        b@[i].0@,
                    ) == label_of(y, b@[i].0@));
                assert(false);
            }
        }
    }
    r
}

/// A series before the last agrees with it but for the render state.
pub open spec fn repeats(series: Seq<CalibrationSeries>) -> bool {
    exists|j: int|
        0 <= j < series.len() - 1 && same_but_state(
            label_views((#[trigger] series[j]).labels@),
            label_views(series.last().labels@),
        )
}

/// How many combinations of labels there are, but for the render state.
pub open spec fn label_sets(series: Seq<CalibrationSeries>) -> nat
    decreases series.len(),
{
    if series.len() == 0 {
        0
    } else {
        label_sets(series.drop_last()) + if repeats(series) {
            0
        } else {
            1nat
        }
    }
}

fn count_label_sets(series: &Vec<CalibrationSeries>) -> (r: usize)
    ensures
        r == label_sets(series@),
{
    let mut n: usize = 0;
    let mut i: usize = 0;
    assert(series@.take(0) =~= Seq::<CalibrationSeries>::empty());
    while i < series.len()
        invariant
            n <= i <= series@.len(),
            n == label_sets(series@.take(i as int)),
        decreases series.len() - i,
    {
        let ghost prefix = series@.take(i + 1);
        assert(prefix.drop_last() =~= series@.take(i as int));
        let mut j: usize = 0;
        let mut found = false;
        while j < i && !found
            invariant
                j <= i < series@.len(),
                prefix == series@.take(i + 1),
                found ==> repeats(prefix),
                !found ==> forall|k: int|
                    0 <= k < j ==> !same_but_state(
                        label_views((#[trigger] prefix[k]).labels@),
                        label_views(prefix.last().labels@),
                    ),
            decreases i - j + if found {
                0int
            } else {
                1
            },
        {
            assert(prefix[j as int] == series@[j as int]);
            assert(prefix.last() == series@[i as int]);
            if agree_but_state(&series[j].labels, &series[i].labels) {
                found = true;
            } else {
                j += 1;
            }
        }
        if !found {
            n += 1;
        }
        i += 1;
    }
    assert(series@.take(i as int) =~= series@);
    n
}

/// The processor's share of a render, from a reference window.
#[derive(Clone, Copy, Debug)]
pub struct CpuReference {
    pub range: CostRange,
    /// The middle of the range, in nanoseconds.
    pub mid: u128,
    pub samples: u64,
}

/// The warm renders of a profile.
pub open spec fn warm_of(profile: CalibrationProfile) -> MergedView {
    merged(
        series_of(profile, RENDER_METRIC@),
        SeriesFilter::State(CalibrationRenderState::Warm).test(),
    )
}

/// The first renders of styles of a profile.
pub open spec fn first_of(profile: CalibrationProfile) -> MergedView {
    merged(series_of(profile, RENDER_METRIC@), SeriesFilter::First.test())
}

/// All series of a metric, merged.
pub open spec fn all_of(profile: CalibrationProfile, metric: Seq<char>) -> MergedView {
    merged(series_of(profile, metric), SeriesFilter::All.test())
}

pub open spec fn role_of(has_reference: bool) -> WarmthWindowRole {
    if has_reference {
        WarmthWindowRole::TrafficContext
    } else {
        WarmthWindowRole::CpuSource
    }
}

/// Why the warm renders of a profile are not used, if its fetches forbid it.
pub open spec fn window_fault(profile: CalibrationProfile, has_reference: bool) -> Option<
    WarmthError,
> {
    warmth_fault(
        profile.of(UPSTREAM_METRIC@),
        warm_of(profile).count + first_of(profile).count,
        role_of(has_reference),
    )
}

/// The warm renders of a profile are enough, and its fetches do not forbid their
/// use.
pub open spec fn warm_usable(profile: CalibrationProfile, has_reference: bool) -> bool {
    warm_of(profile).count >= MIN_WARM_RENDER_SAMPLES && window_fault(profile, has_reference)
        is None
}

/// What is noted of the warm renders and of the fetches of a profile.
pub open spec fn warm_notes(profile: CalibrationProfile, has_reference: bool) -> Seq<CalibrationNote> {
    let count = warm_of(profile).count;
    if count == 0 {
        seq![CalibrationNote::WarmMissing]
    } else if count < MIN_WARM_RENDER_SAMPLES {
        seq![CalibrationNote::WarmSparse { count: count as u64 }]
    } else {
        match window_fault(profile, has_reference) {
            Some(error) => seq![CalibrationNote::WarmIgnored { error }],
            None => warmth_notes(
                profile.of(UPSTREAM_METRIC@),
                count + first_of(profile).count,
                role_of(has_reference),
            ),
        }
    }
}

/// The processor's share, in the middle, in nanoseconds.
pub open spec fn cpu_middle(
    profile: CalibrationProfile,
    base: StageCosts,
    reference: Option<CpuReference>,
) -> nat {
    match reference {
        Some(r) => r.mid as nat,
        None => if warm_usable(profile, false) {
            (quantile_of(warm_of(profile), CPU_LOW as nat)->0 + quantile_of(
                warm_of(profile),
                CPU_HIGH as nat,
            )->0) / 2
        } else {
            base.render_cpu_cost.middle()
        },
    }
}

/// The notes of a derivation that begins with some.
pub open spec fn derivation_notes(
    profile: CalibrationProfile,
    reference: Option<CpuReference>,
    given: Seq<CalibrationNote>,
) -> Seq<CalibrationNote> {
    let has_reference = reference is Some;
    let shapes = label_sets(series_of(profile, RENDER_METRIC@));
    given + note_if(shapes > 1, CalibrationNote::CollapsedShapes { shapes: shapes as usize })
        + note_if(
        all_of(profile, STYLE_METRIC@).count < MIN_OPTIONAL_SAMPLES,
        CalibrationNote::StageKept { stage: DirectStage::StyleSetup },
    ) + note_if(
        all_of(profile, SOURCE_METRIC@).count < MIN_OPTIONAL_SAMPLES,
        CalibrationNote::StageKept { stage: DirectStage::SourceLoad },
    ) + warm_notes(profile, has_reference) + note_if(
        !has_reference && warm_usable(profile, false),
        CalibrationNote::CpuFromWarm,
    ) + note_if(
        first_of(profile).count < MIN_OPTIONAL_SAMPLES,
        CalibrationNote::FirstSparse { count: first_of(profile).count as u64 },
    )
}

pub open spec fn base_coverage() -> CalibrationStageCoverage {
    CalibrationStageCoverage { source: CalibrationValueSource::Default, samples: 0 }
}

pub open spec fn derived_coverage(samples: nat) -> CalibrationStageCoverage {
    CalibrationStageCoverage { source: CalibrationValueSource::Derived, samples: samples as u64 }
}

/// Every stage is derived by itself: one with too few samples keeps its base
/// cost.
pub open spec fn derived_from(
    profile: CalibrationProfile,
    base: StageCosts,
    reference: Option<CpuReference>,
    r: CalibratedCosts,
) -> bool {
    let style = all_of(profile, STYLE_METRIC@);
    let source = all_of(profile, SOURCE_METRIC@);
    let warm = warm_of(profile);
    let first = first_of(profile);
    let usable = warm_usable(profile, reference is Some);
    let mid = cpu_middle(profile, base, reference);
    let enough = MIN_OPTIONAL_SAMPLES as nat;
    &&& if style.count >= enough {
        is_band(r.costs.style_setup_cost, style, DIRECT_LOW as nat, DIRECT_HIGH as nat)
    } else {
        r.costs.style_setup_cost == base.style_setup_cost
    }
    &&& r.coverage.style_setup == direct_coverage(style)
    &&& if source.count >= enough {
        is_band(r.costs.source_load_cost, source, DIRECT_LOW as nat, DIRECT_HIGH as nat)
    } else {
        r.costs.source_load_cost == base.source_load_cost
    }
    &&& r.coverage.source_load == direct_coverage(source)
    &&& match reference {
        Some(cpu) => r.costs.render_cpu_cost == cpu.range && r.coverage.render_cpu
            == derived_coverage(cpu.samples as nat),
        None => if usable {
            is_band(r.costs.render_cpu_cost, warm, CPU_LOW as nat, CPU_HIGH as nat)
                && r.coverage.render_cpu == derived_coverage(warm.count)
        } else {
            r.costs.render_cpu_cost == base.render_cpu_cost && r.coverage.render_cpu
                == base_coverage()
        },
    }
    &&& if usable {
        is_excess(r.costs.render_resource_cost, warm, mid) && r.coverage.warm_render_resource
            == derived_coverage(warm.count)
    } else {
        r.costs.render_resource_cost == base.render_resource_cost
            && r.coverage.warm_render_resource == base_coverage()
    }
    &&& if first.count >= enough {
        is_excess(r.costs.first_render_resource_cost, first, mid)
            && r.coverage.first_render_resource == derived_coverage(first.count)
    } else {
        r.costs.first_render_resource_cost == base.first_render_resource_cost
            && r.coverage.first_render_resource == base_coverage()
    }
    &&& r.costs.hop_latency == base.hop_latency
    &&& r.costs.sla == base.sla
    &&& r.coverage.hop_latency == base_coverage()
    &&& r.coverage.sla == base_coverage()
}

/// Where a stage has enough samples, some lie below a bound.
pub open spec fn bounded_where_used(profile: CalibrationProfile, has_reference: bool) -> bool {
    let enough = MIN_OPTIONAL_SAMPLES as nat;
    &&& all_of(profile, STYLE_METRIC@).count >= enough ==> all_of(
        profile,
        STYLE_METRIC@,
    ).buckets.len() > 0
    &&& all_of(profile, SOURCE_METRIC@).count >= enough ==> all_of(
        profile,
        SOURCE_METRIC@,
    ).buckets.len() > 0
    &&& warm_usable(profile, has_reference) ==> warm_of(profile).buckets.len() > 0
    &&& first_of(profile).count >= enough ==> first_of(profile).buckets.len() > 0
}

fn merged_or_empty(histogram: Option<&CalibrationHistogram>, filter: SeriesFilter) -> (r:
    MergedHistogram)
    requires
        histogram matches Some(h) ==> h.fits(),
    ensures
        r@ == merged(
            match histogram {
                Some(h) => h.series@,
                None => Seq::empty(),
            },
            filter.test(),
        ),
        r@.wf(),
{
    match histogram {
        Some(h) => merge_series(h, &filter),
        None => MergedHistogram::empty(),
    }
}

/// Whether every stage of a profile that has enough samples has some below a
/// bound, so that costs can be derived.
pub fn is_bounded_where_used(profile: &CalibrationProfile, has_reference: bool) -> (r: bool)
    requires
        profile.fits(),
    ensures
        r == bounded_where_used(*profile, has_reference),
{
    let render = profile.histogram(RENDER_METRIC);
    let warm = merged_or_empty(render, SeriesFilter::State(CalibrationRenderState::Warm));
    let first = merged_or_empty(render, SeriesFilter::First);
    let style = merged_or_empty(profile.histogram(STYLE_METRIC), SeriesFilter::All);
    let source = merged_or_empty(profile.histogram(SOURCE_METRIC), SeriesFilter::All);
    assert(warm@ == warm_of(*profile));
    assert(first@ == first_of(*profile));
    assert(style@ == all_of(*profile, STYLE_METRIC@));
    assert(source@ == all_of(*profile, SOURCE_METRIC@));
    let usable = if warm.count >= MIN_WARM_RENDER_SAMPLES {
        let role = if has_reference {
            WarmthWindowRole::TrafficContext
        } else {
            WarmthWindowRole::CpuSource
        };
        let mut notes: Vec<CalibrationNote> = Vec::new();
        verify_resource_warm_window(profile, warm.count + first.count, role, &mut notes).is_ok()
    } else {
        false
    };
    (style.count < MIN_OPTIONAL_SAMPLES || style.buckets.len() > 0) && (source.count
        < MIN_OPTIONAL_SAMPLES || source.buckets.len() > 0) && (first.count < MIN_OPTIONAL_SAMPLES
        || first.buckets.len() > 0) && (warm.buckets.len() > 0 || !usable)
}

/// Derives the costs of all stages from a profile, with the processor's share
/// from a reference where there is one.
fn derive_with_cpu(
    profile: &CalibrationProfile,
    base: &StageCosts,
    reference: Option<CpuReference>,
    given: Vec<CalibrationNote>,
) -> (r: CalibratedCosts)
    requires
        profile.fits(),
        bounded_where_used(*profile, reference is Some),
        reference is None && !warm_usable(*profile, false) ==> base.render_cpu_cost.addable(),
    ensures
        derived_from(*profile, *base, reference, r),
        r.notes@ == derivation_notes(*profile, reference, given@),
        r.sampling_model.wf(),
        r.sampling_model.models(*profile),
        r.sampling_model.render_cpu_exact@ == Map::<crate::sim::empirical::KeyView, MergedView>::empty(),
{
    let mut notes = given;
    let render = profile.histogram(RENDER_METRIC);
    let ghost renders = series_of(*profile, RENDER_METRIC@);
    let ghost shapes = label_sets(renders);
    if let Some(h) = render {
        let count: usize = count_label_sets(&h.series);
        if count > 1 {
            notes.push(CalibrationNote::CollapsedShapes { shapes: count });
        }
    }
    let ghost n1 = given@ + note_if(
        shapes > 1,
        CalibrationNote::CollapsedShapes { shapes: shapes as usize },
    );
    assert(notes@ =~= n1);
    let warm = merged_or_empty(render, SeriesFilter::State(CalibrationRenderState::Warm));
    let first = merged_or_empty(render, SeriesFilter::First);
    assert(warm@ == warm_of(*profile));
    assert(first@ == first_of(*profile));
    let style = merged_or_empty(profile.histogram(STYLE_METRIC), SeriesFilter::All);
    let source = merged_or_empty(profile.histogram(SOURCE_METRIC), SeriesFilter::All);
    let (style_setup_cost, style_setup) = band_or_fallback(
        &style,
        base.style_setup_cost,
        DirectStage::StyleSetup,
        &mut notes,
    );
    let ghost n2 = notes@;
    let (source_load_cost, source_load) = band_or_fallback(
        &source,
        base.source_load_cost,
        DirectStage::SourceLoad,
        &mut notes,
    );
    let ghost n3 = notes@;
    let has_reference = reference.is_some();
    let mut usable = warm.count >= MIN_WARM_RENDER_SAMPLES;
    if warm.count == 0 {
        notes.push(CalibrationNote::WarmMissing);
    } else if !usable {
        notes.push(CalibrationNote::WarmSparse { count: warm.count });
    } else {
        let role = if has_reference {
            WarmthWindowRole::TrafficContext
        } else {
            WarmthWindowRole::CpuSource
        };
        match verify_resource_warm_window(profile, warm.count + first.count, role, &mut notes) {
            Ok(()) => {},
            Err(error) => {
                notes.push(CalibrationNote::WarmIgnored { error });
                usable = false;
            },
        }
    }
    let ghost n4 = notes@;
    assert(n4 =~= n3 + warm_notes(*profile, has_reference));
    assert(usable == warm_usable(*profile, has_reference));
    let (render_cpu_cost, mid, render_cpu) = match reference {
        Some(cpu) => (cpu.range, cpu.mid, CalibrationStageCoverage::derived(cpu.samples)),
        None => {
            if usable {
                let low: u64 = quantile_known(&warm, CPU_LOW);
                let high: u64 = quantile_known(&warm, CPU_HIGH);
                notes.push(CalibrationNote::CpuFromWarm);
                (
                    ordered_range(low, high),
                    (low as u128 + high as u128) / 2,
                    CalibrationStageCoverage::derived(warm.count),
                )
            } else {
                (
                    base.render_cpu_cost,
                    base.render_cpu_cost.mid().as_nanos(),
                    CalibrationStageCoverage::base(),
                )
            }
        },
    };
    let ghost n5 = notes@;
    assert(n5 =~= n4 + note_if(!has_reference && usable, CalibrationNote::CpuFromWarm));
    let (render_resource_cost, warm_render_resource) = if usable {
        (residency_excess(&warm, mid), CalibrationStageCoverage::derived(warm.count))
    } else {
        (base.render_resource_cost, CalibrationStageCoverage::base())
    };
    let (first_render_resource_cost, first_render_resource) = if first.count
        >= MIN_OPTIONAL_SAMPLES {
        (residency_excess(&first, mid), CalibrationStageCoverage::derived(first.count))
    } else {
        notes.push(CalibrationNote::FirstSparse { count: first.count });
        (base.first_render_resource_cost, CalibrationStageCoverage::base())
    };
    assert(notes@ =~= n5 + note_if(
        first.count < MIN_OPTIONAL_SAMPLES,
        CalibrationNote::FirstSparse { count: first.count },
    ));
    CalibratedCosts {
        costs: StageCosts {
            style_setup_cost,
            source_load_cost,
            render_cpu_cost,
            render_resource_cost,
            first_render_resource_cost,
            hop_latency: base.hop_latency,
            sla: base.sla,
        },
        notes,
        coverage: CalibrationCoverage {
            style_setup,
            source_load,
            render_cpu,
            warm_render_resource,
            first_render_resource,
            hop_latency: CalibrationStageCoverage::base(),
            sla: CalibrationStageCoverage::base(),
        },
        sampling_model: EmpiricalCostModel::from_profile(profile),
    }
}

/// Why the render histogram of a window is incomplete, if it is: nothing shows
/// that no render was given up, or some were.
pub open spec fn censoring_fault(profile: CalibrationProfile) -> Option<CensoringFault> {
    match profile.of(TIMEOUT_METRIC@) {
        None => Some(CensoringFault::NoEvidence),
        Some(h) => if h.series@.len() == 0 {
            Some(CensoringFault::EmptyEvidence)
        } else if sample_sum(h.series@) > 0 {
            Some(CensoringFault::Censored { count: sample_sum(h.series@) })
        } else {
            None
        },
    }
}

/// Why a render histogram is incomplete.
pub enum CensoringFault {
    NoEvidence,
    EmptyEvidence,
    Censored { count: nat },
}

/// The samples of all series.
pub open spec fn sample_sum(series: Seq<CalibrationSeries>) -> nat
    decreases series.len(),
{
    if series.len() == 0 {
        0
    } else {
        sample_sum(series.drop_last()) + series.last().sample_count as nat
    }
}

/// The error that reports the fault of a window.
pub open spec fn reports_censoring(e: CalibrationError, window: Window, fault: CensoringFault) -> bool {
    match fault {
        CensoringFault::NoEvidence => e is NoTimeoutEvidence,
        CensoringFault::EmptyEvidence => e == (CalibrationError::EmptyTimeoutEvidence { window }),
        CensoringFault::Censored { count } => match e {
            CalibrationError::Censored { window: w, count: n } => w == window && n == count,
            _ => false,
        },
    }
}

proof fn lemma_sample_sum(series: Seq<CalibrationSeries>)
    ensures
        sample_sum(series) <= all_counts(series),
    decreases series.len(),
{
    if series.len() > 0 {
        lemma_sample_sum(series.drop_last());
    }
}

/// Refuses a window in which a render was given up: its slowest renders are
/// missing.
pub fn ensure_uncensored_render_tail(profile: &CalibrationProfile, window: Window) -> (r: Result<
    (),
    CalibrationError,
>)
    requires
        profile.fits(),
    ensures
        match r {
            Ok(()) => censoring_fault(*profile) is None,
            Err(e) => censoring_fault(*profile) is Some && reports_censoring(
                e,
                window,
                censoring_fault(*profile)->0,
            ),
        },
{
    let histogram = match profile.histogram(TIMEOUT_METRIC) {
        Some(h) => h,
        None => {
            return Err(CalibrationError::NoTimeoutEvidence);
        },
    };
    if histogram.series.len() == 0 {
        return Err(CalibrationError::EmptyTimeoutEvidence { window });
    }
    let mut count: u64 = 0;
    let mut i: usize = 0;
    let ghost all = histogram.series@;
    assert(all.take(0) =~= Seq::<CalibrationSeries>::empty());
    while i < histogram.series.len()
        invariant
            i <= histogram.series@.len(),
            all == histogram.series@,
            all_counts(all) <= MAX_COUNT,
            count == sample_sum(all.take(i as int)),
            count <= MAX_COUNT,
        decreases histogram.series.len() - i,
    {
        proof {
            assert(all.take(i + 1).drop_last() =~= all.take(i as int));
            lemma_counts_up_to(all, i + 1);
            lemma_sample_sum(all.take(i + 1));
        }
        count = count + histogram.series[i].sample_count;
        i += 1;
    }
    assert(all.take(i as int) =~= all);
    if count > 0 {
        return Err(CalibrationError::Censored { window, count });
    }
    Ok(())
}

/// Derives costs from one window.
pub fn derive_costs(profile: &CalibrationProfile, base: &StageCosts) -> (r: Result<
    CalibratedCosts,
    CalibrationError,
>)
    requires
        profile.fits(),
        censoring_fault(*profile) is None ==> bounded_where_used(*profile, false),
        censoring_fault(*profile) is None && !warm_usable(*profile, false)
            ==> base.render_cpu_cost.addable(),
    ensures
        match r {
            Ok(costs) => {
                &&& censoring_fault(*profile) is None
                &&& derived_from(*profile, *base, None, costs)
                &&& costs.notes@ == derivation_notes(*profile, None, Seq::empty())
                &&& costs.sampling_model.wf()
                &&& costs.sampling_model.models(*profile)
                &&& costs.sampling_model.render_cpu_exact@.dom().len() == 0
            },
            Err(e) => censoring_fault(*profile) is Some && reports_censoring(
                e,
                Window::Single,
                censoring_fault(*profile)->0,
            ),
        },
{
    match ensure_uncensored_render_tail(profile, Window::Single) {
        Ok(()) => {},
        Err(e) => {
            return Err(e);
        },
    }
    Ok(derive_with_cpu(profile, base, None, Vec::new()))
}

pub open spec fn same_machine(a: CalibrationProvenance, b: CalibrationProvenance) -> bool {
    a.hardware_profile@ == b.hardware_profile@ && a.architecture@ == b.architecture@
        && a.cpu_cores_per_node == b.cpu_cores_per_node
}

pub open spec fn same_revision(a: CalibrationProvenance, b: CalibrationProvenance) -> bool {
    a.deployment_revision@ == b.deployment_revision@
}

pub open spec fn node_shape(p: CalibrationProvenance) -> NodeShape {
    NodeShape {
        slots: p.renderer_slots_per_node,
        execution: p.execution_permits_per_node,
        native: p.native_render_permits_per_node,
    }
}

/// The machine's name is that of a provenance.
pub open spec fn names_machine(name: MachineName, p: CalibrationProvenance) -> bool {
    name.hardware_profile@ == p.hardware_profile@ && name.architecture@ == p.architecture@
        && name.cpu_cores == p.cpu_cores_per_node
}

/// The error that reports how two windows differ.
pub open spec fn reports_difference(
    e: CalibrationError,
    reference: CalibrationProvenance,
    traffic: CalibrationProvenance,
) -> bool {
    if !same_machine(reference, traffic) {
        match e {
            CalibrationError::DifferentMachines { reference: r, traffic: t } => names_machine(
                r,
                reference,
            ) && names_machine(t, traffic),
            _ => false,
        }
    } else if !same_revision(reference, traffic) {
        match e {
            CalibrationError::DifferentRevisions { reference: r, traffic: t } => r@
                == reference.deployment_revision@ && t@ == traffic.deployment_revision@,
            _ => false,
        }
    } else {
        match e {
            CalibrationError::DifferentNodes { reference: r, traffic: t } => r == node_shape(
                reference,
            ) && t == node_shape(traffic),
            _ => false,
        }
    }
}

/// Two windows come from the same machine, revision and node layout.
pub open spec fn comparable(
    reference: CalibrationProvenance,
    traffic: CalibrationProvenance,
) -> bool {
    same_machine(reference, traffic) && same_revision(reference, traffic) && node_shape(reference)
        == node_shape(traffic)
}

fn machine_name(p: &CalibrationProvenance) -> (r: MachineName)
    ensures
        names_machine(r, *p),
{
    MachineName {
        hardware_profile: p.hardware_profile.clone(),
        architecture: p.architecture.clone(),
        cpu_cores: p.cpu_cores_per_node,
    }
}

fn shape_of_node(p: &CalibrationProvenance) -> (r: NodeShape)
    ensures
        r == node_shape(*p),
{
    NodeShape {
        slots: p.renderer_slots_per_node,
        execution: p.execution_permits_per_node,
        native: p.native_render_permits_per_node,
    }
}

/// Refuses to compare windows of different machines, revisions or node layouts.
pub fn ensure_compatible_provenance(
    reference: &CalibrationProvenance,
    traffic: &CalibrationProvenance,
) -> (r: Result<(), CalibrationError>)
    ensures
        match r {
            Ok(()) => comparable(*reference, *traffic),
            Err(e) => !comparable(*reference, *traffic) && reports_difference(
                e,
                *reference,
                *traffic,
            ),
        },
{
    if !(same_text(reference.hardware_profile.as_str(), traffic.hardware_profile.as_str())
        && same_text(reference.architecture.as_str(), traffic.architecture.as_str())
        && reference.cpu_cores_per_node == traffic.cpu_cores_per_node) {
        return Err(
            CalibrationError::DifferentMachines {
                reference: machine_name(reference),
                traffic: machine_name(traffic),
            },
        );
    }
    if !same_text(
        reference.deployment_revision.as_str(),
        traffic.deployment_revision.as_str(),
    ) {
        return Err(
            CalibrationError::DifferentRevisions {
                reference: reference.deployment_revision.clone(),
                traffic: traffic.deployment_revision.clone(),
            },
        );
    }
    let a = shape_of_node(reference);
    let b = shape_of_node(traffic);
    if a != b {
        return Err(CalibrationError::DifferentNodes { reference: a, traffic: b });
    }
    Ok(())
}

/// What the labels of a series with samples lack.
pub enum ShapeFault {
    NoState { labels: Seq<(Seq<char>, Seq<char>)> },
    NoShape { labels: Seq<(Seq<char>, Seq<char>)> },
}

/// The shapes of the series with samples, in one state or in all, with the
/// samples of each.
pub open spec fn shapes_of(
    series: Seq<CalibrationSeries>,
    state: Option<CalibrationRenderState>,
) -> Result<Seq<(ShapeView, nat)>, ShapeFault>
    decreases series.len(),
{
    if series.len() == 0 {
        Ok(Seq::empty())
    } else {
        match shapes_of(series.drop_last(), state) {
            Err(fault) => Err(fault),
            Ok(list) => {
                let labels = label_views(series.last().labels@);
                if series.last().sample_count == 0 {
                    Ok(list)
                } else {
                    match state_of(labels) {
                        None => Err(ShapeFault::NoState { labels }),
                        Some(found) => if state is Some && state->0 != found {
                            Ok(list)
                        } else {
                            match shape_of(labels) {
                                None => Err(ShapeFault::NoShape { labels }),
                                Some(shape) => Ok(
                                    list.push((shape, series.last().sample_count as nat)),
                                ),
                            }
                        },
                    }
                }
            },
        }
    }
}

/// The samples of a shape.
pub open spec fn samples_of(list: Seq<(ShapeView, nat)>, shape: ShapeView) -> nat
    decreases list.len(),
{
    if list.len() == 0 {
        0
    } else {
        samples_of(list.drop_last(), shape) + if list.last().0 == shape {
            list.last().1
        } else {
            0
        }
    }
}

/// Shapes with their samples.
#[derive(Debug)]
pub struct ShapeCounts {
    pub entries: Vec<(RenderShapeKey, u64)>,
}

impl View for ShapeCounts {
    type V = Seq<(ShapeView, nat)>;

    open spec fn view(&self) -> Seq<(ShapeView, nat)> {
        Seq::new(self.entries@.len(), |i: int| (self.entries@[i].0@, self.entries@[i].1 as nat))
    }
}

/// The samples of all shapes.
pub open spec fn list_sum(list: Seq<(ShapeView, nat)>) -> nat
    decreases list.len(),
{
    if list.len() == 0 {
        0
    } else {
        list_sum(list.drop_last()) + list.last().1
    }
}

proof fn lemma_samples_up_to(list: Seq<(ShapeView, nat)>, shape: ShapeView, n: int)
    requires
        0 <= n <= list.len(),
    ensures
        samples_of(list.take(n), shape) <= samples_of(list, shape) <= list_sum(list),
    decreases list.len() - n,
{
    if n < list.len() {
        assert(list.take(n + 1).drop_last() =~= list.take(n));
        lemma_samples_up_to(list, shape, n + 1);
    } else {
        assert(list.take(n) =~= list);
        lemma_samples_in_sum(list, shape);
    }
}

proof fn lemma_samples_in_sum(list: Seq<(ShapeView, nat)>, shape: ShapeView)
    ensures
        samples_of(list, shape) <= list_sum(list),
    decreases list.len(),
{
    if list.len() > 0 {
        lemma_samples_in_sum(list.drop_last(), shape);
    }
}

proof fn lemma_listed_samples(list: Seq<(ShapeView, nat)>, i: int)
    requires
        0 <= i < list.len(),
    ensures
        samples_of(list, list[i].0) >= list[i].1,
    decreases list.len(),
{
    if i < list.len() - 1 {
        assert(list.drop_last()[i] == list[i]);
        lemma_listed_samples(list.drop_last(), i);
    }
}

proof fn lemma_unlisted_samples(list: Seq<(ShapeView, nat)>, shape: ShapeView)
    requires
        forall|i: int| 0 <= i < list.len() ==> (#[trigger] list[i]).0 != shape,
    ensures
        samples_of(list, shape) == 0,
    decreases list.len(),
{
    if list.len() > 0 {
        assert(list[list.len() - 1].0 != shape);
        assert forall|i: int| 0 <= i < list.drop_last().len() implies (#[trigger] list.drop_last()[i]).0
            != shape by {
            assert(list.drop_last()[i] == list[i]);
        }
        lemma_unlisted_samples(list.drop_last(), shape);
    }
}

impl ShapeCounts {
    /// Every shape has samples, and all together no more than a count can hold.
    pub open spec fn wf(&self) -> bool {
        &&& list_sum(self@) <= MAX_COUNT
        &&& forall|i: int| 0 <= i < self@.len() ==> (#[trigger] self@[i]).1 > 0
    }

    /// The samples of a shape.
    pub fn of(&self, shape: &RenderShapeKey) -> (r: u64)
        requires
            self.wf(),
        ensures
            r == samples_of(self@, shape@),
            r <= MAX_COUNT,
    {
        let ghost list = self@;
        let mut sum: u64 = 0;
        let mut i: usize = 0;
        assert(list.take(0) =~= Seq::<(ShapeView, nat)>::empty());
        proof {
            lemma_samples_in_sum(list, shape@);
        }
        while i < self.entries.len()
            invariant
                i <= self.entries@.len(),
                list == self@,
                list_sum(list) <= MAX_COUNT,
                sum == samples_of(list.take(i as int), shape@),
                sum <= MAX_COUNT,
            decreases self.entries.len() - i,
        {
            proof {
                assert(list.take(i + 1).drop_last() =~= list.take(i as int));
                assert(list.take(i + 1).last() == list[i as int]);
                lemma_samples_up_to(list, shape@, i + 1);
            }
            if self.entries[i].0.same(shape) {
                sum = sum + self.entries[i].1;
            }
            i += 1;
        }
        assert(list.take(i as int) =~= list);
        sum
    }
}

fn copy_labels(labels: &Vec<(String, String)>) -> (r: Vec<(String, String)>)
    ensures
        label_views(r@) == label_views(labels@),
{
    let mut out: Vec<(String, String)> = Vec::new();
    let mut i: usize = 0;
    while i < labels.len()
        invariant
            i <= labels@.len(),
            out@.len() == i,
            forall|j: int|
                0 <= j < i ==> (#[trigger] out@[j]).0@ == labels@[j].0@ && out@[j].1@
                    == labels@[j].1@,
        decreases labels.len() - i,
    {
        out.push((labels[i].0.clone(), labels[i].1.clone()));
        i += 1;
    }
    assert(label_views(out@) =~= label_views(labels@));
    out
}

/// The error that reports what labels lack.
pub open spec fn reports_labels(e: CalibrationError, fault: ShapeFault) -> bool {
    match fault {
        ShapeFault::NoState { labels } => match e {
            CalibrationError::NoState { labels: found } => label_views(found@) == labels,
            _ => false,
        },
        ShapeFault::NoShape { labels } => match e {
            CalibrationError::NoShape { labels: found } => label_views(found@) == labels,
            _ => false,
        },
    }
}

proof fn lemma_shapes_up_to(series: Seq<CalibrationSeries>, state: Option<CalibrationRenderState>, n: int)
    requires
        0 <= n <= series.len(),
        shapes_of(series.take(n), state) is Err,
    ensures
        shapes_of(series, state) == shapes_of(series.take(n), state),
    decreases series.len() - n,
{
    if n < series.len() {
        assert(series.take(n + 1).drop_last() =~= series.take(n));
        lemma_shapes_up_to(series, state, n + 1);
    } else {
        assert(series.take(n) =~= series);
    }
}

/// The shapes of a render histogram, in one state or in all, with their samples.
pub fn render_shape_counts(render: &CalibrationHistogram, state: Option<CalibrationRenderState>) -> (r:
    Result<ShapeCounts, CalibrationError>)
    requires
        render.fits(),
    ensures
        match r {
            Ok(counts) => {
                &&& counts.wf()
                &&& counts@.len() > 0
                &&& shapes_of(render.series@, state) == Ok::<Seq<(ShapeView, nat)>, ShapeFault>(
                    counts@,
                )
            },
            Err(e) => match shapes_of(render.series@, state) {
                Err(fault) => reports_labels(e, fault),
                Ok(list) => list.len() == 0 && e is NoSamples,
            },
        },
{
    let mut out = ShapeCounts { entries: Vec::new() };
    let ghost all = render.series@;
    let mut i: usize = 0;
    assert(all.take(0) =~= Seq::<CalibrationSeries>::empty());
    assert(out@ =~= Seq::<(ShapeView, nat)>::empty());
    while i < render.series.len()
        invariant
            i <= render.series@.len(),
            all == render.series@,
            all_counts(all) <= MAX_COUNT,
            shapes_of(all.take(i as int), state) == Ok::<Seq<(ShapeView, nat)>, ShapeFault>(out@),
            list_sum(out@) <= sample_sum(all.take(i as int)),
            forall|j: int| 0 <= j < out@.len() ==> (#[trigger] out@[j]).1 > 0,
        decreases render.series.len() - i,
    {
        let series = &render.series[i];
        let ghost next = all.take(i + 1);
        proof {
            assert(next.drop_last() =~= all.take(i as int));
            assert(next.last() == *series);
        }
        if series.sample_count > 0 {
            match render_state_from_labels(&series.labels) {
                None => {
                    proof {
                        lemma_shapes_up_to(all, state, i + 1);
                    }
                    return Err(CalibrationError::NoState { labels: copy_labels(&series.labels) });
                },
                Some(found) => {
                    let wanted = match state {
                        Some(expected) => found == expected,
                        None => true,
                    };
                    if wanted {
                        match render_shape_from_labels(&series.labels) {
                            None => {
                                proof {
                                    lemma_shapes_up_to(all, state, i + 1);
                                }
                                return Err(
                                    CalibrationError::NoShape {
                                        labels: copy_labels(&series.labels),
                                    },
                                );
                            },
                            Some(shape) => {
                                let ghost before = out@;
                                let ghost entry = (shape@, series.sample_count as nat);
                                out.entries.push((shape, series.sample_count));
                                assert(out@ =~= before.push(entry));
                                assert(out@.drop_last() =~= before);
                            },
                        }
                    }
                },
            }
        }
        i += 1;
    }
    proof {
        assert(all.take(i as int) =~= all);
        lemma_sample_sum(all);
    }
    if out.entries.len() == 0 {
        return Err(CalibrationError::NoSamples);
    }
    Ok(out)
}

/// A share of a count, rounded down.
pub open spec fn share(n: nat, part: nat, whole: nat) -> nat {
    n * part / whole
}

/// The buckets with the shares of others added. What has no bound is left out.
pub open spec fn add_shares(
    buckets: Seq<(nat, nat)>,
    more: Seq<CalibrationBucket>,
    part: nat,
    whole: nat,
) -> Seq<(nat, nat)>
    decreases more.len(),
{
    if more.len() == 0 {
        buckets
    } else {
        let before = add_shares(buckets, more.drop_last(), part, whole);
        match more.last().upper_bound {
            Some(bound) => add_at(
                before,
                bound as nat,
                share(more.last().count as nat, part, whole),
            ),
            None => before,
        }
    }
}

/// The weight of a reference series: the samples of its shape in the traffic and
/// in the reference. Series of other states or shapes have none.
pub open spec fn weight_of(
    labels: Seq<(Seq<char>, Seq<char>)>,
    reference: Seq<(ShapeView, nat)>,
    traffic: Seq<(ShapeView, nat)>,
) -> Option<(nat, nat)> {
    if !labelled(labels, "state"@, "warm"@) {
        None
    } else {
        match shape_of(labels) {
            None => None,
            Some(shape) => if samples_of(traffic, shape) == 0 {
                None
            } else {
                Some((samples_of(traffic, shape), samples_of(reference, shape)))
            },
        }
    }
}

/// The warm series of a reference, merged in the proportions in which the
/// traffic has their shapes.
pub open spec fn reweighted(
    series: Seq<CalibrationSeries>,
    reference: Seq<(ShapeView, nat)>,
    traffic: Seq<(ShapeView, nat)>,
) -> MergedView
    decreases series.len(),
{
    if series.len() == 0 {
        no_samples()
    } else {
        let before = reweighted(series.drop_last(), reference, traffic);
        match weight_of(label_views(series.last().labels@), reference, traffic) {
            None => before,
            Some((part, whole)) => MergedView {
                count: before.count + share(series.last().sample_count as nat, part, whole),
                buckets: add_shares(before.buckets, series.last().buckets@, part, whole),
            },
        }
    }
}

/// All that a histogram counts.
pub open spec fn total_of(m: MergedView) -> nat {
    m.count + counts_sum(m.buckets)
}

proof fn lemma_add_shares(
    buckets: Seq<(nat, nat)>,
    more: Seq<CalibrationBucket>,
    part: nat,
    whole: nat,
    n: int,
)
    requires
        ascending(buckets),
        0 <= n <= more.len(),
    ensures
        ascending(add_shares(buckets, more, part, whole)),
        counts_sum(buckets) <= counts_sum(add_shares(buckets, more.take(n), part, whole))
            <= counts_sum(add_shares(buckets, more, part, whole)),
    decreases more.len(),
{
    if more.len() == 0 {
        assert(more.take(n) =~= more);
    } else {
        let front = more.drop_last();
        if n < more.len() {
            assert(front.take(n) =~= more.take(n));
            lemma_add_shares(buckets, front, part, whole, n);
        } else {
            assert(more.take(n) =~= more);
            lemma_add_shares(buckets, front, part, whole, front.len() as int);
        }
        match more.last().upper_bound {
            Some(bound) => {
                crate::sim::histogram::lemma_add_at(
                    add_shares(buckets, front, part, whole),
                    bound as nat,
                    share(more.last().count as nat, part, whole),
                );
            },
            None => {},
        }
    }
}

proof fn lemma_reweighted(
    series: Seq<CalibrationSeries>,
    reference: Seq<(ShapeView, nat)>,
    traffic: Seq<(ShapeView, nat)>,
    n: int,
)
    requires
        0 <= n <= series.len(),
    ensures
        ascending(reweighted(series, reference, traffic).buckets),
        total_of(reweighted(series.take(n), reference, traffic)) <= total_of(
            reweighted(series, reference, traffic),
        ),
    decreases series.len(),
{
    if series.len() == 0 {
        assert(series.take(n) =~= series);
    } else {
        let front = series.drop_last();
        if n < series.len() {
            assert(front.take(n) =~= series.take(n));
            lemma_reweighted(front, reference, traffic, n);
        } else {
            assert(series.take(n) =~= series);
            lemma_reweighted(front, reference, traffic, front.len() as int);
        }
        match weight_of(label_views(series.last().labels@), reference, traffic) {
            None => {},
            Some((part, whole)) => {
                let before = reweighted(front, reference, traffic).buckets;
                lemma_add_shares(before, series.last().buckets@, part, whole, 0);
            },
        }
    }
}

/// Every shape of the traffic has samples in the reference.
pub open spec fn all_referenced(
    reference: Seq<(ShapeView, nat)>,
    traffic: Seq<(ShapeView, nat)>,
) -> bool {
    forall|shape: ShapeView| #[trigger]
        samples_of(traffic, shape) > 0 ==> samples_of(reference, shape) > 0
}

fn share_of(n: u64, part: u64, whole: u64) -> (r: u128)
    requires
        whole > 0,
    ensures
        r == share(n as nat, part as nat, whole as nat),
{
    assert(n * part <= 0xffff_ffff_ffff_ffff * 0xffff_ffff_ffff_ffff) by (nonlinear_arith)
        requires
            n <= 0xffff_ffff_ffff_ffff,
            part <= 0xffff_ffff_ffff_ffff,
    ;
    (n as u128 * part as u128) / (whole as u128)
}

/// Adds the share of a series to a merged histogram, as long as a count can hold
/// the total.
fn add_share(m: &mut MergedHistogram, series: &CalibrationSeries, part: u64, whole: u64) -> (fits: bool)
    requires
        whole > 0,
        ascending(old(m)@.buckets),
        total_of(old(m)@) <= MAX_COUNT,
    ensures
        ({
            let next = MergedView {
                count: old(m)@.count + share(series.sample_count as nat, part as nat, whole as nat),
                buckets: add_shares(
                    old(m)@.buckets,
                    series.buckets@,
                    part as nat,
                    whole as nat,
                ),
            };
            &&& fits == (total_of(next) <= MAX_COUNT)
            &&& fits ==> final(m)@ == next
        }),
{
    let ghost start = m@;
    let ghost next = MergedView {
        count: start.count + share(series.sample_count as nat, part as nat, whole as nat),
        buckets: add_shares(start.buckets, series.buckets@, part as nat, whole as nat),
    };
    let samples: u128 = share_of(series.sample_count, part, whole);
    proof {
        lemma_add_shares(start.buckets, series.buckets@, part as nat, whole as nat, 0);
    }
    let mut held: u64 = 0;
    let mut j: usize = 0;
    let ghost mut seen = start.buckets.skip(0);
    assert(start.buckets.skip(0) =~= start.buckets);
    while j < m.buckets.len()
        invariant
            j <= m.buckets@.len(),
            m@ == start,
            seen == start.buckets.skip(j as int),
            held + counts_sum(seen) == counts_sum(start.buckets),
            counts_sum(start.buckets) <= MAX_COUNT,
        decreases m.buckets.len() - j,
    {
        assert(seen[0] == start.buckets[j as int]);
        assert(seen.skip(1) =~= start.buckets.skip(j + 1));
        held = held + m.buckets[j].1;
        proof {
            seen = start.buckets.skip(j + 1);
        }
        j += 1;
    }
    assert(seen.len() == 0);
    let mut total: u64 = m.count + held;
    if samples > (MAX_COUNT - total) as u128 {
        return false;
    }
    total = total + samples as u64;
    m.count = m.count + samples as u64;
    let mut k: usize = 0;
    assert(series.buckets@.take(0) =~= Seq::<CalibrationBucket>::empty());
    while k < series.buckets.len()
        invariant
            whole > 0,
            k <= series.buckets@.len(),
            start == old(m)@,
            ascending(start.buckets),
            next.count == start.count + share(
                series.sample_count as nat,
                part as nat,
                whole as nat,
            ),
            next.buckets == add_shares(
                start.buckets,
                series.buckets@,
                part as nat,
                whole as nat,
            ),
            m.count == next.count,
            bucket_views(m.buckets@) == add_shares(
                start.buckets,
                series.buckets@.take(k as int),
                part as nat,
                whole as nat,
            ),
            total == total_of(m@),
            total <= MAX_COUNT,
        decreases series.buckets.len() - k,
    {
        let bucket = series.buckets[k];
        proof {
            let done = series.buckets@.take(k as int);
            assert(series.buckets@.take(k + 1).drop_last() =~= done);
            assert(series.buckets@.take(k + 1).last() == bucket);
            assert(done.take(0) =~= Seq::<CalibrationBucket>::empty());
            lemma_add_shares(start.buckets, done, part as nat, whole as nat, 0);
            lemma_add_shares(start.buckets, series.buckets@, part as nat, whole as nat, k + 1);
        }
        if let Some(bound) = bucket.upper_bound {
            let n: u128 = share_of(bucket.count, part, whole);
            if n > (MAX_COUNT - total) as u128 {
                proof {
                    crate::sim::histogram::lemma_add_at(
                        bucket_views(m.buckets@),
                        bound as nat,
                        n as nat,
                    );
                    assert(add_shares(
                        start.buckets,
                        series.buckets@.take(k + 1),
                        part as nat,
                        whole as nat,
                    ) == add_at(bucket_views(m.buckets@), bound as nat, n as nat));
                    assert(counts_sum(next.buckets) >= counts_sum(m@.buckets) + n);
                    assert(total_of(next) > MAX_COUNT);
                }
                return false;
            }
            add_samples(&mut m.buckets, bound, n as u64);
            total = total + n as u64;
        }
        k += 1;
    }
    assert(series.buckets@.take(k as int) =~= series.buckets@);
    assert(m@ =~= next);
    true
}

/// Merges the warm series of a reference in the proportions of the traffic.
fn reweight_reference_for_traffic_mix(
    reference: &CalibrationHistogram,
    reference_shapes: &ShapeCounts,
    traffic_shapes: &ShapeCounts,
) -> (r: Result<MergedHistogram, CalibrationError>)
    requires
        reference_shapes.wf(),
        traffic_shapes.wf(),
        all_referenced(reference_shapes@, traffic_shapes@),
    ensures
        ({
            let m = reweighted(reference.series@, reference_shapes@, traffic_shapes@);
            match r {
                Ok(out) => out@ == m && out@.wf() && out.count > 0 && total_of(m) <= MAX_COUNT,
                Err(e) => if total_of(m) > MAX_COUNT {
                    e is CountsTooLarge
                } else {
                    m.count == 0 && e is NoOverlap
                },
            }
        }),
{
    let mut out = MergedHistogram::empty();
    let ghost all = reference.series@;
    let ghost refs = reference_shapes@;
    let ghost mix = traffic_shapes@;
    let mut i: usize = 0;
    assert(all.take(0) =~= Seq::<CalibrationSeries>::empty());
    while i < reference.series.len()
        invariant
            i <= reference.series@.len(),
            all == reference.series@,
            reference_shapes.wf(),
            traffic_shapes.wf(),
            refs == reference_shapes@,
            mix == traffic_shapes@,
            all_referenced(refs, mix),
            out@ == reweighted(all.take(i as int), refs, mix),
            ascending(out@.buckets),
            total_of(out@) <= MAX_COUNT,
        decreases reference.series.len() - i,
    {
        let series = &reference.series[i];
        proof {
            assert(all.take(i + 1).drop_last() =~= all.take(i as int));
            assert(all.take(i + 1).last() == *series);
            lemma_reweighted(all, refs, mix, i + 1);
            lemma_reweighted(all.take(i + 1), refs, mix, i + 1);
        }
        if has_label(&series.labels, "state", "warm") {
            if let Some(shape) = render_shape_from_labels(&series.labels) {
                let part: u64 = traffic_shapes.of(&shape);
                if part > 0 {
                    let whole: u64 = reference_shapes.of(&shape);
                    if !add_share(&mut out, series, part, whole) {
                        return Err(CalibrationError::CountsTooLarge);
                    }
                }
            }
        }
        i += 1;
    }
    proof {
        assert(all.take(i as int) =~= all);
    }
    if out.count == 0 {
        return Err(CalibrationError::NoOverlap);
    }
    Ok(out)
}

/// The traffic asks for a shape that the reference does not cover.
pub open spec fn uncovered(
    reference: Seq<(ShapeView, nat)>,
    traffic: Seq<(ShapeView, nat)>,
    asked: nat,
    least: nat,
    shape: ShapeView,
) -> bool {
    samples_of(traffic, shape) >= asked && samples_of(reference, shape) < least
}

/// Every shape with so many samples in the traffic has so many in the reference.
pub open spec fn covered(
    reference: Seq<(ShapeView, nat)>,
    traffic: Seq<(ShapeView, nat)>,
    asked: nat,
    least: nat,
) -> bool {
    forall|shape: ShapeView| !#[trigger] uncovered(reference, traffic, asked, least, shape)
}

/// The first shape, in the order of shapes, that the reference does not cover.
pub open spec fn first_uncovered(
    reference: Seq<(ShapeView, nat)>,
    traffic: Seq<(ShapeView, nat)>,
    asked: nat,
    least: nat,
    shape: ShapeView,
) -> bool {
    &&& uncovered(reference, traffic, asked, least, shape)
    &&& forall|other: ShapeView| #[trigger]
        uncovered(reference, traffic, asked, least, other) ==> !shape_before(other, shape)
}

/// Finds the first shape that the reference does not cover.
fn find_uncovered(reference: &ShapeCounts, traffic: &ShapeCounts, asked: u64, least: u64) -> (r:
    Option<(RenderShapeKey, u64)>)
    requires
        reference.wf(),
        traffic.wf(),
        asked > 0,
    ensures
        match r {
            None => covered(reference@, traffic@, asked as nat, least as nat),
            Some((shape, samples)) => first_uncovered(
                reference@,
                traffic@,
                asked as nat,
                least as nat,
                shape@,
            ) && samples == samples_of(traffic@, shape@),
        },
{
    let ghost refs = reference@;
    let ghost mix = traffic@;
    let mut best: Option<(RenderShapeKey, u64)> = None;
    let mut i: usize = 0;
    while i < traffic.entries.len()
        invariant
            i <= traffic.entries@.len(),
            reference.wf(),
            traffic.wf(),
            refs == reference@,
            mix == traffic@,
            match best {
                None => forall|j: int|
                    0 <= j < i ==> !uncovered(
                        refs,
                        mix,
                        asked as nat,
                        least as nat,
                        (#[trigger] mix[j]).0,
                    ),
                Some((shape, samples)) => {
                    &&& uncovered(refs, mix, asked as nat, least as nat, shape@)
                    &&& samples == samples_of(mix, shape@)
                    &&& forall|j: int|
                        0 <= j < i && uncovered(
                            refs,
                            mix,
                            asked as nat,
                            least as nat,
                            (#[trigger] mix[j]).0,
                        ) ==> !shape_before(mix[j].0, shape@)
                },
            },
        decreases traffic.entries.len() - i,
    {
        let shape = &traffic.entries[i].0;
        assert(mix[i as int].0 == shape@);
        let samples: u64 = traffic.of(shape);
        if samples >= asked && reference.of(shape) < least {
            let replaces = match &best {
                None => true,
                Some(found) => shape.comes_before(&found.0),
            };
            if replaces {
                proof {
                    law_shape_order(shape@, shape@, shape@);
                    if let Some((found, _)) = best {
                        assert forall|j: int|
                            0 <= j < i && uncovered(
                                refs,
                                mix,
                                asked as nat,
                                least as nat,
                                (#[trigger] mix[j]).0,
                            ) implies !shape_before(mix[j].0, shape@) by {
                            law_shape_order(mix[j].0, shape@, found@);
                        }
                    }
                }
                best = Some((shape.copied(), samples));
            }
        }
        i += 1;
    }
    proof {
        assert forall|shape: ShapeView| #[trigger]
            uncovered(refs, mix, asked as nat, least as nat, shape) implies exists|j: int|
            0 <= j < mix.len() && (#[trigger] mix[j]).0 == shape by {
            if forall|j: int| 0 <= j < mix.len() ==> (#[trigger] mix[j]).0 != shape {
                lemma_unlisted_samples(mix, shape);
            }
        }
    }
    best
}

/// The shapes that a window's render histogram tells.
pub open spec fn window_shapes(
    profile: CalibrationProfile,
    state: Option<CalibrationRenderState>,
) -> Result<Seq<(ShapeView, nat)>, ShapeFault> {
    shapes_of(series_of(profile, RENDER_METRIC@), state)
}

/// The shapes are told, and there are some.
pub open spec fn shapes_told(
    profile: CalibrationProfile,
    state: Option<CalibrationRenderState>,
) -> bool {
    window_shapes(profile, state) is Ok && window_shapes(profile, state)->Ok_0.len() > 0
}

pub open spec fn warm_state() -> Option<CalibrationRenderState> {
    Some(CalibrationRenderState::Warm)
}

/// The reference's warm renders in the proportions of the traffic's.
pub open spec fn fused(traffic: CalibrationProfile, reference: CalibrationProfile) -> MergedView {
    reweighted(
        series_of(reference, RENDER_METRIC@),
        window_shapes(reference, warm_state())->Ok_0,
        window_shapes(traffic, warm_state())->Ok_0,
    )
}

/// The reference's warm renders, and at least one.
pub open spec fn reference_renders(reference: CalibrationProfile) -> nat {
    max_nat(warm_of(reference).count, SAMPLE as nat)
}

pub open spec fn reference_fetches(reference: CalibrationProfile) -> nat {
    blocking_fetches(reference.of(UPSTREAM_METRIC@)->0)
}

/// What two windows must meet, in the order in which it is examined.
pub open spec fn fusion_test(
    traffic: CalibrationProfile,
    reference: CalibrationProfile,
    k: int,
) -> bool {
    let enough = MIN_OPTIONAL_SAMPLES as nat;
    if k == 0 {
        comparable(reference.provenance, traffic.provenance)
    } else if k == 1 {
        reference.provenance.capture_concurrency == Some(1usize)
    } else if k == 2 {
        censoring_fault(reference) is None
    } else if k == 3 {
        censoring_fault(traffic) is None
    } else if k == 4 {
        reference.of(RENDER_METRIC@) is Some
    } else if k == 5 {
        warm_of(reference).count >= MIN_WARM_RENDER_SAMPLES
    } else if k == 6 {
        traffic.of(RENDER_METRIC@) is Some
    } else if k == 7 {
        shapes_told(reference, warm_state())
    } else if k == 8 {
        shapes_told(traffic, None)
    } else if k == 9 {
        covered(
            window_shapes(reference, warm_state())->Ok_0,
            window_shapes(traffic, None)->Ok_0,
            enough,
            enough,
        )
    } else if k == 10 {
        shapes_told(traffic, warm_state())
    } else if k == 11 {
        covered(
            window_shapes(reference, warm_state())->Ok_0,
            window_shapes(traffic, warm_state())->Ok_0,
            1,
            1,
        )
    } else if k == 12 {
        total_of(fused(traffic, reference)) <= MAX_COUNT
    } else if k == 13 {
        fused(traffic, reference).count > 0
    } else if k == 14 {
        reference.of(UPSTREAM_METRIC@) is Some
    } else if k == 15 {
        reference.of(UPSTREAM_METRIC@)->0.series@.len() > 0
    } else {
        20 * reference_fetches(reference) <= reference_renders(reference)
    }
}

/// The tests before the `n`th are met.
pub open spec fn fusion_passes(
    traffic: CalibrationProfile,
    reference: CalibrationProfile,
    n: int,
) -> bool {
    forall|k: int| 0 <= k < n ==> #[trigger] fusion_test(traffic, reference, k)
}

/// The error that reports labels or the want of samples.
pub open spec fn reports_shapes(
    e: CalibrationError,
    profile: CalibrationProfile,
    state: Option<CalibrationRenderState>,
) -> bool {
    match window_shapes(profile, state) {
        Err(fault) => reports_labels(e, fault),
        Ok(list) => e is NoSamples,
    }
}

/// The error that reports the `k`th test.
pub open spec fn reports_fusion(
    traffic: CalibrationProfile,
    reference: CalibrationProfile,
    k: int,
    e: CalibrationError,
) -> bool {
    let enough = MIN_OPTIONAL_SAMPLES as nat;
    if k == 0 {
        reports_difference(e, reference.provenance, traffic.provenance)
    } else if k == 1 {
        e is NotSerial
    } else if k == 2 {
        reports_censoring(e, Window::CpuReference, censoring_fault(reference)->0)
    } else if k == 3 {
        reports_censoring(e, Window::Traffic, censoring_fault(traffic)->0)
    } else if k == 4 {
        e == (CalibrationError::NoRenders { window: Window::CpuReference })
    } else if k == 5 {
        e == (CalibrationError::FewReferenceRenders { count: warm_of(reference).count as u64 })
    } else if k == 6 {
        e == (CalibrationError::NoRenders { window: Window::Traffic })
    } else if k == 7 {
        reports_shapes(e, reference, warm_state())
    } else if k == 8 {
        reports_shapes(e, traffic, None)
    } else if k == 9 {
        match e {
            CalibrationError::UncoveredShape { shape, samples } => first_uncovered(
                window_shapes(reference, warm_state())->Ok_0,
                window_shapes(traffic, None)->Ok_0,
                enough,
                enough,
                shape@,
            ) && samples == samples_of(window_shapes(traffic, None)->Ok_0, shape@),
            _ => false,
        }
    } else if k == 10 {
        reports_shapes(e, traffic, warm_state())
    } else if k == 11 {
        match e {
            CalibrationError::NoWarmSamples { shape, samples } => first_uncovered(
                window_shapes(reference, warm_state())->Ok_0,
                window_shapes(traffic, warm_state())->Ok_0,
                1,
                1,
                shape@,
            ) && samples == samples_of(window_shapes(traffic, warm_state())->Ok_0, shape@),
            _ => false,
        }
    } else if k == 12 {
        e is CountsTooLarge
    } else if k == 13 {
        e is NoOverlap
    } else if k == 14 {
        e is NoUpstream
    } else if k == 15 {
        e is EmptyUpstream
    } else {
        e == (CalibrationError::NotClean {
            fetches: reference_fetches(reference) as u64,
            renders: reference_renders(reference) as u64,
        })
    }
}

/// The tests of two windows.
pub const FUSION_TESTS: usize = 17;

/// The windows are refused by the first test that they fail.
pub open spec fn fusion_fails(
    traffic: CalibrationProfile,
    reference: CalibrationProfile,
    e: CalibrationError,
) -> bool {
    exists|k: int|
        0 <= k < FUSION_TESTS && #[trigger] refused_by(traffic, reference, k) && reports_fusion(
            traffic,
            reference,
            k,
            e,
        )
}

/// The test is the first that the windows fail.
pub open spec fn refused_by(
    traffic: CalibrationProfile,
    reference: CalibrationProfile,
    k: int,
) -> bool {
    fusion_passes(traffic, reference, k) && !fusion_test(traffic, reference, k)
}

/// The processor's share that a reference gives.
pub open spec fn is_reference_cpu(
    cpu: CpuReference,
    traffic: CalibrationProfile,
    reference: CalibrationProfile,
) -> bool {
    let m = fused(traffic, reference);
    &&& is_band(cpu.range, m, DIRECT_LOW as nat, DIRECT_HIGH as nat)
    &&& cpu.mid == (quantile_of(m, DIRECT_LOW as nat)->0 + quantile_of(
        m,
        DIRECT_HIGH as nat,
    )->0) / 2
    &&& cpu.samples == warm_of(reference).count
}

proof fn lemma_passes_more(traffic: CalibrationProfile, reference: CalibrationProfile, n: int)
    requires
        fusion_passes(traffic, reference, n),
        fusion_test(traffic, reference, n),
    ensures
        fusion_passes(traffic, reference, n + 1),
{
}

proof fn lemma_refused(
    traffic: CalibrationProfile,
    reference: CalibrationProfile,
    k: int,
    e: CalibrationError,
)
    requires
        0 <= k < FUSION_TESTS,
        fusion_passes(traffic, reference, k),
        !fusion_test(traffic, reference, k),
        reports_fusion(traffic, reference, k, e),
    ensures
        fusion_fails(traffic, reference, e),
        !fusion_passes(traffic, reference, FUSION_TESTS as int),
{
    assert(refused_by(traffic, reference, k));
}

/// Derives costs from the renders of a window, with the processor's share from a
/// second window in which renders waited for next to nothing.
pub fn derive_costs_with_cpu_reference(
    traffic: &CalibrationProfile,
    reference: &CalibrationProfile,
    base: &StageCosts,
) -> (r: Result<CalibratedCosts, CalibrationError>)
    requires
        traffic.fits(),
        reference.fits(),
        fusion_passes(*traffic, *reference, FUSION_TESTS as int) ==> bounded_where_used(
            *traffic,
            true,
        ) && fused(*traffic, *reference).buckets.len() > 0,
    ensures
        match r {
            Ok(costs) => {
                &&& fusion_passes(*traffic, *reference, FUSION_TESTS as int)
                &&& exists|cpu: CpuReference| #[trigger]
                    is_reference_cpu(cpu, *traffic, *reference) && derived_from(
                        *traffic,
                        *base,
                        Some(cpu),
                        costs,
                    ) && costs.notes@ == derivation_notes(
                        *traffic,
                        Some(cpu),
                        seq![
                            CalibrationNote::CpuFromReference {
                                fetches: reference_fetches(*reference) as u64,
                                renders: reference_renders(*reference) as u64,
                            },
                        ],
                    )
                &&& costs.sampling_model.wf()
                &&& costs.sampling_model.models(*traffic)
                &&& costs.sampling_model.render_cpu_exact@ == warm_shapes(
                    series_of(*reference, RENDER_METRIC@),
                    series_of(*reference, RENDER_METRIC@),
                )
            },
            Err(e) => fusion_fails(*traffic, *reference, e) && !fusion_passes(
                *traffic,
                *reference,
                FUSION_TESTS as int,
            ),
        },
{
    match ensure_compatible_provenance(&reference.provenance, &traffic.provenance) {
        Ok(()) => {},
        Err(e) => {
            proof {
                lemma_refused(*traffic, *reference, 0, e);
            }
            return Err(e);
        },
    }
    proof {
        lemma_passes_more(*traffic, *reference, 0);
    }
    let serial = match reference.provenance.capture_concurrency {
        Some(n) => n == 1,
        None => false,
    };
    if !serial {
        proof {
            lemma_refused(*traffic, *reference, 1, CalibrationError::NotSerial);
        }
        return Err(CalibrationError::NotSerial);
    }
    proof {
        lemma_passes_more(*traffic, *reference, 1);
    }
    match ensure_uncensored_render_tail(reference, Window::CpuReference) {
        Ok(()) => {},
        Err(e) => {
            proof {
                lemma_refused(*traffic, *reference, 2, e);
            }
            return Err(e);
        },
    }
    proof {
        lemma_passes_more(*traffic, *reference, 2);
    }
    match ensure_uncensored_render_tail(traffic, Window::Traffic) {
        Ok(()) => {},
        Err(e) => {
            proof {
                lemma_refused(*traffic, *reference, 3, e);
            }
            return Err(e);
        },
    }
    proof {
        lemma_passes_more(*traffic, *reference, 3);
    }
    let reference_render = match reference.histogram(RENDER_METRIC) {
        Some(h) => h,
        None => {
            let e = CalibrationError::NoRenders { window: Window::CpuReference };
            proof {
                lemma_refused(*traffic, *reference, 4, e);
            }
            return Err(e);
        },
    };
    proof {
        lemma_passes_more(*traffic, *reference, 4);
    }
    let warm = merge_series(
        reference_render,
        &SeriesFilter::State(CalibrationRenderState::Warm),
    );
    assert(warm@ == warm_of(*reference));
    if warm.count < MIN_WARM_RENDER_SAMPLES {
        let e = CalibrationError::FewReferenceRenders { count: warm.count };
        proof {
            lemma_refused(*traffic, *reference, 5, e);
        }
        return Err(e);
    }
    proof {
        lemma_passes_more(*traffic, *reference, 5);
    }
    let traffic_render = match traffic.histogram(RENDER_METRIC) {
        Some(h) => h,
        None => {
            let e = CalibrationError::NoRenders { window: Window::Traffic };
            proof {
                lemma_refused(*traffic, *reference, 6, e);
            }
            return Err(e);
        },
    };
    proof {
        lemma_passes_more(*traffic, *reference, 6);
    }
    let reference_shapes = match render_shape_counts(
        reference_render,
        Some(CalibrationRenderState::Warm),
    ) {
        Ok(counts) => counts,
        Err(e) => {
            proof {
                lemma_refused(*traffic, *reference, 7, e);
            }
            return Err(e);
        },
    };
    proof {
        lemma_passes_more(*traffic, *reference, 7);
    }
    let traffic_shapes = match render_shape_counts(traffic_render, None) {
        Ok(counts) => counts,
        Err(e) => {
            proof {
                lemma_refused(*traffic, *reference, 8, e);
            }
            return Err(e);
        },
    };
    proof {
        lemma_passes_more(*traffic, *reference, 8);
    }
    match find_uncovered(
        &reference_shapes,
        &traffic_shapes,
        MIN_OPTIONAL_SAMPLES,
        MIN_OPTIONAL_SAMPLES,
    ) {
        None => {},
        Some((shape, samples)) => {
            let e = CalibrationError::UncoveredShape { shape, samples };
            proof {
                lemma_refused(*traffic, *reference, 9, e);
            }
            return Err(e);
        },
    }
    proof {
        lemma_passes_more(*traffic, *reference, 9);
    }
    let traffic_warm = match render_shape_counts(traffic_render, Some(CalibrationRenderState::Warm)) {
        Ok(counts) => counts,
        Err(e) => {
            proof {
                lemma_refused(*traffic, *reference, 10, e);
            }
            return Err(e);
        },
    };
    proof {
        lemma_passes_more(*traffic, *reference, 10);
    }
    match find_uncovered(&reference_shapes, &traffic_warm, 1, 1) {
        None => {},
        Some((shape, samples)) => {
            let e = CalibrationError::NoWarmSamples { shape, samples };
            proof {
                lemma_refused(*traffic, *reference, 11, e);
            }
            return Err(e);
        },
    }
    proof {
        lemma_passes_more(*traffic, *reference, 11);
        assert forall|shape: ShapeView| #[trigger]
            samples_of(traffic_warm@, shape) > 0 implies samples_of(reference_shapes@, shape) > 0 by {
            assert(!uncovered(reference_shapes@, traffic_warm@, 1, 1, shape));
        }
    }
    let reference_warm = match reweight_reference_for_traffic_mix(
        reference_render,
        &reference_shapes,
        &traffic_warm,
    ) {
        Ok(m) => m,
        Err(e) => {
            proof {
                if total_of(fused(*traffic, *reference)) > MAX_COUNT {
                    lemma_refused(*traffic, *reference, 12, e);
                } else {
                    lemma_passes_more(*traffic, *reference, 12);
                    lemma_refused(*traffic, *reference, 13, e);
                }
            }
            return Err(e);
        },
    };
    proof {
        lemma_reweighted(
            reference_render.series@,
            reference_shapes@,
            traffic_warm@,
            0,
        );
    }
    assert(total_of(fused(*traffic, *reference)) <= MAX_COUNT);
    proof {
        lemma_passes_more(*traffic, *reference, 12);
        lemma_passes_more(*traffic, *reference, 13);
    }
    let upstream = match reference.histogram(UPSTREAM_METRIC) {
        Some(h) => h,
        None => {
            proof {
                lemma_refused(*traffic, *reference, 14, CalibrationError::NoUpstream);
            }
            return Err(CalibrationError::NoUpstream);
        },
    };
    proof {
        lemma_passes_more(*traffic, *reference, 14);
    }
    if upstream.series.len() == 0 {
        proof {
            lemma_refused(*traffic, *reference, 15, CalibrationError::EmptyUpstream);
        }
        return Err(CalibrationError::EmptyUpstream);
    }
    proof {
        lemma_passes_more(*traffic, *reference, 15);
    }
    let fetches: u64 = merge_series(upstream, &SeriesFilter::Regular).count;
    let renders: u64 = if warm.count >= SAMPLE {
        warm.count
    } else {
        SAMPLE
    };
    if 20 * fetches > renders {
        let e = CalibrationError::NotClean { fetches, renders };
        proof {
            lemma_refused(*traffic, *reference, 16, e);
        }
        return Err(e);
    }
    proof {
        lemma_passes_more(*traffic, *reference, 16);
    }
    let low: u64 = quantile_known(&reference_warm, DIRECT_LOW);
    let high: u64 = quantile_known(&reference_warm, DIRECT_HIGH);
    let cpu = CpuReference {
        range: ordered_range(low, high),
        mid: (low as u128 + high as u128) / 2,
        samples: warm.count,
    };
    let mut notes: Vec<CalibrationNote> = Vec::new();
    notes.push(CalibrationNote::CpuFromReference { fetches, renders });
    assert(notes@ =~= seq![CalibrationNote::CpuFromReference { fetches, renders }]);
    assert(is_reference_cpu(cpu, *traffic, *reference));
    let mut costs = derive_with_cpu(traffic, base, Some(cpu), notes);
    costs.sampling_model.add_cpu_reference(reference);
    Ok(costs)
}

/// A range whose lower bound is no higher than its upper one.
pub open spec fn in_order(r: CostRange) -> bool {
    nanos(r.min) <= nanos(r.max)
}

/// Derived costs are ranges in order, if the base costs and the reference are.
pub proof fn law_derived_ranges_are_in_order(
    profile: CalibrationProfile,
    base: StageCosts,
    reference: Option<CpuReference>,
    r: CalibratedCosts,
)
    requires
        derived_from(profile, base, reference, r),
        in_order(base.style_setup_cost),
        in_order(base.source_load_cost),
        in_order(base.render_cpu_cost),
        in_order(base.render_resource_cost),
        in_order(base.first_render_resource_cost),
        reference matches Some(cpu) ==> in_order(cpu.range),
    ensures
        in_order(r.costs.style_setup_cost),
        in_order(r.costs.source_load_cost),
        in_order(r.costs.render_cpu_cost),
        in_order(r.costs.render_resource_cost),
        in_order(r.costs.first_render_resource_cost),
{
}

/// A range goes from the lower of two times to the higher, whichever was given first.
pub proof fn law_ranges_go_from_low_to_high(r: CostRange, a: nat, b: nat)
    requires
        is_range(r, a, b),
    ensures
        a <= b ==> nanos(r.min) == a && nanos(r.max) == b,
        b <= a ==> nanos(r.min) == b && nanos(r.max) == a,
        is_range(r, b, a),
{
}

/// The costs of a style and of a source are the middle half of what was measured, if that
/// was at least ten samples, and else what they were.
pub proof fn law_direct_costs_are_the_middle_half(
    profile: CalibrationProfile,
    base: StageCosts,
    reference: Option<CpuReference>,
    r: CalibratedCosts,
)
    requires
        derived_from(profile, base, reference, r),
    ensures
        ({
            let style = merged(
                series_of(profile, "biei_style_setup_duration_seconds"@),
                SeriesFilter::All.test(),
            );
            let source = merged(
                series_of(profile, "biei_source_setup_duration_seconds"@),
                SeriesFilter::All.test(),
            );
            &&& style.count >= 10_000_000 ==> is_range(
                r.costs.style_setup_cost,
                quantile_of(style, 25)->0,
                quantile_of(style, 75)->0,
            ) && r.coverage.style_setup.source is Measured
            &&& style.count < 10_000_000 ==> r.costs.style_setup_cost == base.style_setup_cost
                && r.coverage.style_setup.source is Default
            &&& source.count >= 10_000_000 ==> is_range(
                r.costs.source_load_cost,
                quantile_of(source, 25)->0,
                quantile_of(source, 75)->0,
            ) && r.coverage.source_load.source is Measured
            &&& source.count < 10_000_000 ==> r.costs.source_load_cost == base.source_load_cost
                && r.coverage.source_load.source is Default
        }),
        r.costs.hop_latency == base.hop_latency,
        r.costs.sla == base.sla,
{
}

/// The cost to compute is the reference's, if there is one. Without one it is what warm
/// renders took at least, from their tenth to their twenty-fifth percentile, if they can
/// be used, and else what it was.
pub proof fn law_compute_costs_follow_warm_renders(
    profile: CalibrationProfile,
    base: StageCosts,
    reference: Option<CpuReference>,
    r: CalibratedCosts,
)
    requires
        derived_from(profile, base, reference, r),
    ensures
        reference matches Some(cpu) ==> r.costs.render_cpu_cost == cpu.range
            && r.coverage.render_cpu.samples == cpu.samples,
        reference is None && warm_usable(profile, false) ==> is_range(
            r.costs.render_cpu_cost,
            quantile_of(warm_of(profile), 10)->0,
            quantile_of(warm_of(profile), 25)->0,
        ) && r.coverage.render_cpu.source is Derived,
        reference is None && !warm_usable(profile, false) ==> r.costs.render_cpu_cost
            == base.render_cpu_cost && r.coverage.render_cpu.source is Default,
{
}

/// The wait for resources is what renders took beyond the middle cost to compute, from
/// their median to their ninetieth percentile.
pub proof fn law_waits_are_what_is_left(
    profile: CalibrationProfile,
    base: StageCosts,
    reference: Option<CpuReference>,
    r: CalibratedCosts,
    low: nat,
    high: nat,
    middle: nat,
)
    requires
        derived_from(profile, base, reference, r),
        middle == cpu_middle(profile, base, reference),
    ensures
        warm_usable(profile, reference is Some) && low + middle == quantile_of(
            warm_of(profile),
            50,
        )->0 && high + middle == quantile_of(warm_of(profile), 90)->0 ==> is_range(
            r.costs.render_resource_cost,
            low,
            high,
        ),
        warm_usable(profile, reference is Some) && quantile_of(warm_of(profile), 90)->0 <= middle
            && quantile_of(warm_of(profile), 50)->0 <= middle ==> nanos(
            r.costs.render_resource_cost.max,
        ) == 0,
        !warm_usable(profile, reference is Some) ==> r.costs.render_resource_cost
            == base.render_resource_cost,
        first_of(profile).count >= 10_000_000 && low + middle == quantile_of(
            first_of(profile),
            50,
        )->0 && high + middle == quantile_of(first_of(profile), 90)->0 ==> is_range(
            r.costs.first_render_resource_cost,
            low,
            high,
        ),
        first_of(profile).count < 10_000_000 ==> r.costs.first_render_resource_cost
            == base.first_render_resource_cost,
{
}

/// The middle cost to compute is the reference's, or halfway between the two percentiles
/// of warm renders, or what it was.
pub proof fn law_the_middle_cost_is_halfway(
    profile: CalibrationProfile,
    base: StageCosts,
    cpu: CpuReference,
)
    ensures
        cpu_middle(profile, base, Some(cpu)) == cpu.mid,
        warm_usable(profile, false) ==> 2 * cpu_middle(profile, base, None) <= quantile_of(
            warm_of(profile),
            10,
        )->0 + quantile_of(warm_of(profile), 25)->0 <= 2 * cpu_middle(profile, base, None) + 1,
        !warm_usable(profile, false) ==> cpu_middle(profile, base, None)
            == base.render_cpu_cost.middle(),
{
}

/// Warm renders can be used from thirty samples on, if the window that they come from is
/// warm.
pub proof fn law_warm_renders_need_a_warm_window(profile: CalibrationProfile)
    ensures
        warm_usable(profile, true) <==> warm_of(profile).count >= 30_000_000,
        warm_usable(profile, false) <==> warm_of(profile).count >= 30_000_000 && (profile.of(
            "biei_mln_resource_upstream_attempt_duration_seconds"@,
        ) matches Some(h) && h.series@.len() > 0 && 2 * merged(
            h.series@,
            SeriesFilter::Regular.test(),
        ).count <= warm_of(profile).count + first_of(profile).count),
{
}

/// A window for costs is refused without evidence of what it fetched, and if it fetched
/// more than once in two renders; a window of traffic is never.
pub proof fn law_windows_are_refused_if_they_fetch(upstream: CalibrationHistogram, renders: nat)
    ensures
        warmth_fault(None, renders, WarmthWindowRole::CpuSource) == Some(
            WarmthError::NoInstrumentation,
        ),
        upstream.series@.len() == 0 ==> warmth_fault(
            Some(upstream),
            renders,
            WarmthWindowRole::CpuSource,
        ) == Some(WarmthError::EmptyInstrumentation),
        upstream.series@.len() > 0 ==> (warmth_fault(
            Some(upstream),
            renders,
            WarmthWindowRole::CpuSource,
        ) is Some <==> 0 < renders < 2 * merged(
            upstream.series@,
            SeriesFilter::Regular.test(),
        ).count),
        warmth_fault(Some(upstream), renders, WarmthWindowRole::TrafficContext) is None,
        warmth_fault(None, renders, WarmthWindowRole::TrafficContext) is None,
        role_of(true) == WarmthWindowRole::TrafficContext,
        role_of(false) == WarmthWindowRole::CpuSource,
{
}

/// What is noted of a window: that nothing is known of what it fetched, or how often it
/// fetched, and whether that is more than once in twenty renders.
pub proof fn law_windows_are_noted(
    upstream: CalibrationHistogram,
    renders: nat,
    role: WarmthWindowRole,
    fetches: nat,
)
    requires
        fetches == merged(upstream.series@, SeriesFilter::Regular.test()).count,
        fetches <= u64::MAX,
        0 < renders <= u64::MAX,
        upstream.series@.len() > 0,
    ensures
        role == WarmthWindowRole::TrafficContext ==> warmth_notes(Some(upstream), renders, role)
            == seq![
            CalibrationNote::TrafficFetches { fetches: fetches as u64, renders: renders as u64 },
        ],
        role == WarmthWindowRole::CpuSource && 20 * fetches > renders ==> warmth_notes(
            Some(upstream),
            renders,
            role,
        ) == seq![
            CalibrationNote::SlightlyInflated { fetches: fetches as u64, renders: renders as u64 },
        ],
        role == WarmthWindowRole::CpuSource && 20 * fetches <= renders ==> warmth_notes(
            Some(upstream),
            renders,
            role,
        ) == seq![
            CalibrationNote::VerifiedWarm { fetches: fetches as u64, renders: renders as u64 },
        ],
        warmth_notes(None, renders, WarmthWindowRole::TrafficContext) == seq![
            CalibrationNote::NoInstrumentation,
        ],
        warmth_notes(None, renders, WarmthWindowRole::CpuSource).len() == 0,
{
}

/// Series that differ only in their state have one set of labels; each set is counted
/// once.
pub proof fn law_label_sets_are_counted_once(series: Seq<CalibrationSeries>, one: CalibrationSeries)
    ensures
        (exists|j: int|
            0 <= j < series.len() && same_but_state(
                label_views((#[trigger] series[j]).labels@),
                label_views(one.labels@),
            )) ==> label_sets(series.push(one)) == label_sets(series),
        (forall|j: int|
            0 <= j < series.len() ==> !same_but_state(
                label_views((#[trigger] series[j]).labels@),
                label_views(one.labels@),
            )) ==> label_sets(series.push(one)) == label_sets(series) + 1,
        label_sets(Seq::empty()) == 0,
{
    let all = series.push(one);
    assert(all.drop_last() =~= series);
    if exists|j: int|
        0 <= j < series.len() && same_but_state(
            label_views((#[trigger] series[j]).labels@),
            label_views(one.labels@),
        ) {
        let j = choose|j: int|
            0 <= j < series.len() && same_but_state(
                label_views((#[trigger] series[j]).labels@),
                label_views(one.labels@),
            );
        assert(all[j] == series[j]);
        assert(repeats(all));
    }
    if repeats(all) {
        let j = choose|j: int|
            0 <= j < all.len() - 1 && same_but_state(
                label_views((#[trigger] all[j]).labels@),
                label_views(all.last().labels@),
            );
        assert(series[j] == all[j]);
    }
}

/// A window is refused without evidence of timeouts, and if any render timed out in it.
pub proof fn law_windows_with_timeouts_are_refused(profile: CalibrationProfile)
    ensures
        censoring_fault(profile) is None <==> (profile.of(
            "biei_render_timeout_lower_bound_seconds"@,
        ) matches Some(h) && h.series@.len() > 0 && sample_sum(h.series@) == 0),
        censoring_fault(profile) == Some(CensoringFault::NoEvidence) <==> profile.of(
            "biei_render_timeout_lower_bound_seconds"@,
        ) is None,
        censoring_fault(profile) matches Some(CensoringFault::Censored { count }) ==> count
            == sample_sum(profile.of("biei_render_timeout_lower_bound_seconds"@)->0.series@),
{
}

/// Samples are added up over all series.
pub proof fn law_series_add_up(a: Seq<CalibrationSeries>, b: Seq<CalibrationSeries>)
    ensures
        sample_sum(a + b) == sample_sum(a) + sample_sum(b),
        a.len() == 1 ==> sample_sum(a) == a[0].sample_count,
    decreases b.len(),
{
    if a.len() == 1 {
        assert(a.drop_last() =~= Seq::<CalibrationSeries>::empty());
        assert(sample_sum(a.drop_last()) == 0);
    }
    if b.len() == 0 {
        assert(a + b =~= a);
    } else {
        law_series_add_up(a, b.drop_last());
        assert((a + b).drop_last() =~= a + b.drop_last());
    }
}

/// Two windows can be compared just if they come from one kind of machine, one revision and
/// one shape of node.
pub proof fn law_windows_of_one_kind_are_compared(
    a: CalibrationProvenance,
    b: CalibrationProvenance,
)
    ensures
        comparable(a, b) <==> {
            &&& a.hardware_profile@ == b.hardware_profile@
            &&& a.architecture@ == b.architecture@
            &&& a.cpu_cores_per_node == b.cpu_cores_per_node
            &&& a.deployment_revision@ == b.deployment_revision@
            &&& a.renderer_slots_per_node == b.renderer_slots_per_node
            &&& a.execution_permits_per_node == b.execution_permits_per_node
            &&& a.native_render_permits_per_node == b.native_render_permits_per_node
        },
        comparable(a, b) <==> comparable(b, a),
{
}

/// A series with samples adds its shape and their number, if its state is the one that was
/// asked for; one without samples, or of another state, adds nothing. One without a state
/// or a shape is a fault.
pub proof fn law_series_tell_their_shape(
    series: Seq<CalibrationSeries>,
    one: CalibrationSeries,
    state: Option<CalibrationRenderState>,
)
    requires
        shapes_of(series, state) is Ok,
    ensures
        one.sample_count == 0 ==> shapes_of(series.push(one), state) == shapes_of(series, state),
        one.sample_count > 0 && state_of(label_views(one.labels@)) is None ==> shapes_of(
            series.push(one),
            state,
        ) is Err,
        one.sample_count > 0 && state is Some && state_of(label_views(one.labels@)) is Some
            && state_of(label_views(one.labels@)) != state ==> shapes_of(series.push(one), state)
            == shapes_of(series, state),
        one.sample_count > 0 && state_of(label_views(one.labels@)) is Some && (state is None
            || state_of(label_views(one.labels@)) == state) ==> match shape_of(
            label_views(one.labels@),
        ) {
            Some(shape) => shapes_of(series.push(one), state) is Ok && shapes_of(
                series.push(one),
                state,
            )->Ok_0 == shapes_of(series, state)->Ok_0.push((shape, one.sample_count as nat)),
            None => shapes_of(series.push(one), state) is Err,
        },
{
    assert(series.push(one).drop_last() =~= series);
}

/// The samples of a shape are those that were listed with it.
pub proof fn law_samples_of_a_shape_add_up(
    list: Seq<(ShapeView, nat)>,
    shape: ShapeView,
    other: ShapeView,
    n: nat,
)
    requires
        other != shape,
    ensures
        samples_of(list.push((shape, n)), shape) == samples_of(list, shape) + n,
        samples_of(list.push((other, n)), shape) == samples_of(list, shape),
        samples_of(Seq::empty(), shape) == 0,
{
    assert(list.push((shape, n)).drop_last() =~= list);
    assert(list.push((other, n)).drop_last() =~= list);
}

/// A share of samples is as much of them as the part is of the whole, rounded down.
pub proof fn law_shares_are_parts_of_the_whole(n: nat, part: nat, whole: nat)
    requires
        whole > 0,
    ensures
        share(n, part, whole) * whole <= n * part < share(n, part, whole) * whole + whole,
{
    let x = n * part;
    let q = x / whole;
    assert(q * whole <= x < q * whole + whole) by (nonlinear_arith)
        requires
            q == x / whole,
            whole > 0,
    ;
}

/// A reference is weighed as the traffic is: each warm series counts with the share that
/// its shape has in the traffic, out of what it has in the reference. A series of another
/// state, or of a shape that the traffic does not have, does not count.
pub proof fn law_references_are_weighed_as_traffic(
    series: Seq<CalibrationSeries>,
    one: CalibrationSeries,
    reference: Seq<(ShapeView, nat)>,
    traffic: Seq<(ShapeView, nat)>,
    shape: ShapeView,
)
    requires
        shape_of(label_views(one.labels@)) == Some(shape),
    ensures
        label_of(label_views(one.labels@), "state"@) == Some("warm"@) && samples_of(traffic, shape)
            > 0 ==> {
            &&& reweighted(series.push(one), reference, traffic).count == reweighted(
                series,
                reference,
                traffic,
            ).count + share(
                one.sample_count as nat,
                samples_of(traffic, shape),
                samples_of(reference, shape),
            )
            &&& reweighted(series.push(one), reference, traffic).buckets == add_shares(
                reweighted(series, reference, traffic).buckets,
                one.buckets@,
                samples_of(traffic, shape),
                samples_of(reference, shape),
            )
        },
        label_of(label_views(one.labels@), "state"@) != Some("warm"@) || samples_of(traffic, shape)
            == 0 ==> reweighted(series.push(one), reference, traffic) == reweighted(
            series,
            reference,
            traffic,
        ),
{
    assert(series.push(one).drop_last() =~= series);
}

/// A shape is not covered if the traffic asks for it and the reference has too little of
/// it; the first of those is named.
pub proof fn law_shapes_are_covered_or_named(
    reference: Seq<(ShapeView, nat)>,
    traffic: Seq<(ShapeView, nat)>,
    asked: nat,
    least: nat,
    shape: ShapeView,
    other: ShapeView,
)
    ensures
        covered(reference, traffic, asked, least) && samples_of(traffic, shape) >= asked
            ==> samples_of(reference, shape) >= least,
        first_uncovered(reference, traffic, asked, least, shape) ==> samples_of(traffic, shape)
            >= asked && samples_of(reference, shape) < least,
        first_uncovered(reference, traffic, asked, least, shape) && samples_of(traffic, other)
            >= asked && samples_of(reference, other) < least ==> !shape_before(other, shape),
{
    if covered(reference, traffic, asked, least) {
        assert(!uncovered(reference, traffic, asked, least, shape));
    }
    if samples_of(traffic, other) >= asked && samples_of(reference, other) < least {
        assert(uncovered(reference, traffic, asked, least, other));
    }
}

/// A reference can be joined to traffic just if the two can be compared, the reference was
/// taken one render at a time, no render timed out in either, the reference has at least
/// thirty warm renders and every shape of the traffic, and fetched no more than once in
/// twenty renders.
pub proof fn law_references_are_joined_if_clean(
    traffic: CalibrationProfile,
    reference: CalibrationProfile,
)
    ensures
        fusion_passes(traffic, reference, 17) ==> {
            &&& comparable(reference.provenance, traffic.provenance)
            &&& reference.provenance.capture_concurrency == Some(1usize)
            &&& censoring_fault(reference) is None
            &&& censoring_fault(traffic) is None
            &&& warm_of(reference).count >= 30_000_000
            &&& traffic.of("biei_render_duration_seconds"@) is Some
            &&& covered(
                window_shapes(reference, Some(CalibrationRenderState::Warm))->Ok_0,
                window_shapes(traffic, None)->Ok_0,
                10_000_000,
                10_000_000,
            )
            &&& covered(
                window_shapes(reference, Some(CalibrationRenderState::Warm))->Ok_0,
                window_shapes(traffic, Some(CalibrationRenderState::Warm))->Ok_0,
                1,
                1,
            )
            &&& fused(traffic, reference).count > 0
            &&& reference.of("biei_mln_resource_upstream_attempt_duration_seconds"@) is Some
            &&& 20 * reference_fetches(reference) <= reference_renders(reference)
        },
        !comparable(reference.provenance, traffic.provenance) ==> !fusion_passes(
            traffic,
            reference,
            17,
        ),
        FUSION_TESTS == 17,
{
    if fusion_passes(traffic, reference, 17) {
        assert(fusion_test(traffic, reference, 0));
        assert(fusion_test(traffic, reference, 1));
        assert(fusion_test(traffic, reference, 2));
        assert(fusion_test(traffic, reference, 3));
        assert(fusion_test(traffic, reference, 5));
        assert(fusion_test(traffic, reference, 6));
        assert(fusion_test(traffic, reference, 9));
        assert(fusion_test(traffic, reference, 11));
        assert(fusion_test(traffic, reference, 13));
        assert(fusion_test(traffic, reference, 14));
        assert(fusion_test(traffic, reference, 16));
    }
}

/// A clean reference is joined: what the law above asks of it is enough.
pub proof fn law_clean_references_are_joined(
    traffic: CalibrationProfile,
    reference: CalibrationProfile,
)
    requires
        comparable(reference.provenance, traffic.provenance),
        reference.provenance.capture_concurrency == Some(1usize),
        censoring_fault(reference) is None,
        censoring_fault(traffic) is None,
        reference.of("biei_render_duration_seconds"@) is Some,
        warm_of(reference).count >= 30_000_000,
        traffic.of("biei_render_duration_seconds"@) is Some,
        shapes_told(reference, Some(CalibrationRenderState::Warm)),
        shapes_told(traffic, None),
        shapes_told(traffic, Some(CalibrationRenderState::Warm)),
        covered(
            window_shapes(reference, Some(CalibrationRenderState::Warm))->Ok_0,
            window_shapes(traffic, None)->Ok_0,
            10_000_000,
            10_000_000,
        ),
        covered(
            window_shapes(reference, Some(CalibrationRenderState::Warm))->Ok_0,
            window_shapes(traffic, Some(CalibrationRenderState::Warm))->Ok_0,
            1,
            1,
        ),
        total_of(fused(traffic, reference)) <= 92_233_720_368_547_758,
        fused(traffic, reference).count > 0,
        reference.of("biei_mln_resource_upstream_attempt_duration_seconds"@) matches Some(h)
            && h.series@.len() > 0,
        20 * reference_fetches(reference) <= reference_renders(reference),
    ensures
        fusion_passes(traffic, reference, 17),
{
}

/// The cost to compute of a reference is the middle half of its renders, weighed as the
/// traffic is.
pub proof fn law_references_give_their_middle_half(
    cpu: CpuReference,
    traffic: CalibrationProfile,
    reference: CalibrationProfile,
)
    requires
        is_reference_cpu(cpu, traffic, reference),
    ensures
        is_range(
            cpu.range,
            quantile_of(fused(traffic, reference), 25)->0,
            quantile_of(fused(traffic, reference), 75)->0,
        ),
        2 * cpu.mid <= quantile_of(fused(traffic, reference), 25)->0 + quantile_of(
            fused(traffic, reference),
            75,
        )->0 <= 2 * cpu.mid + 1,
        cpu.samples == warm_of(reference).count,
{
}

/// What is counted of a window: its warm renders, its first ones, cold or swapped, and its
/// fetches with regular priority.
pub proof fn law_windows_are_counted_by_state(
    profile: CalibrationProfile,
    upstream: CalibrationHistogram,
)
    ensures
        warm_of(profile) == merged(
            series_of(profile, "biei_render_duration_seconds"@),
            SeriesFilter::State(CalibrationRenderState::Warm).test(),
        ),
        first_of(profile) == merged(
            series_of(profile, "biei_render_duration_seconds"@),
            SeriesFilter::First.test(),
        ),
        blocking_fetches(upstream) == merged(upstream.series@, SeriesFilter::Regular.test()).count,
{
}

/// Of the things that keep a reference from being joined, the first is reported.
pub proof fn law_the_first_fault_is_reported(
    traffic: CalibrationProfile,
    reference: CalibrationProfile,
    e: CalibrationError,
)
    requires
        fusion_fails(traffic, reference, e),
    ensures
        !comparable(reference.provenance, traffic.provenance) ==> e is DifferentMachines || e
            is DifferentRevisions || e is DifferentNodes,
        comparable(reference.provenance, traffic.provenance)
            && reference.provenance.capture_concurrency != Some(1usize) ==> e is NotSerial,
        comparable(reference.provenance, traffic.provenance)
            && reference.provenance.capture_concurrency == Some(1usize) && censoring_fault(
            reference,
        ) is Some ==> e is NoTimeoutEvidence || e == (CalibrationError::EmptyTimeoutEvidence {
            window: Window::CpuReference,
        }) || (e matches CalibrationError::Censored { window, .. } && window
            == Window::CpuReference),
        comparable(reference.provenance, traffic.provenance)
            && reference.provenance.capture_concurrency == Some(1usize) && censoring_fault(
            reference,
        ) is None && censoring_fault(traffic) is Some ==> e is NoTimeoutEvidence || e == (
        CalibrationError::EmptyTimeoutEvidence { window: Window::Traffic }) || (
        e matches CalibrationError::Censored { window, .. } && window == Window::Traffic),
        comparable(reference.provenance, traffic.provenance)
            && reference.provenance.capture_concurrency == Some(1usize) && censoring_fault(
            reference,
        ) is None && censoring_fault(traffic) is None && reference.of(
            "biei_render_duration_seconds"@,
        ) is Some && warm_of(reference).count < 30_000_000 ==> e == (
        CalibrationError::FewReferenceRenders { count: warm_of(reference).count as u64 }),
{
    let k = choose|k: int|
        0 <= k < FUSION_TESTS && #[trigger] refused_by(traffic, reference, k) && reports_fusion(
            traffic,
            reference,
            k,
            e,
        );
    assert(refused_by(traffic, reference, k));
    assert(!fusion_test(traffic, reference, k));
    assert(forall|j: int| 0 <= j < k ==> #[trigger] fusion_test(traffic, reference, j));
    if k > 0 {
        assert(fusion_test(traffic, reference, 0));
    }
    if k > 1 {
        assert(fusion_test(traffic, reference, 1));
    }
    if k > 2 {
        assert(fusion_test(traffic, reference, 2));
    }
    if k > 3 {
        assert(fusion_test(traffic, reference, 3));
    }
    if k > 4 {
        assert(fusion_test(traffic, reference, 4));
    }
    if k > 5 {
        assert(fusion_test(traffic, reference, 5));
    }
}

/// A difference between two windows is reported with both, the reference first: of their
/// machines, or else of their revisions, or else of their nodes.
pub proof fn law_differences_are_reported_with_both(
    e: CalibrationError,
    reference: CalibrationProvenance,
    traffic: CalibrationProvenance,
)
    requires
        reports_difference(e, reference, traffic),
    ensures
        reference.hardware_profile@ != traffic.hardware_profile@ || reference.architecture@
            != traffic.architecture@ || reference.cpu_cores_per_node != traffic.cpu_cores_per_node
            <==> e is DifferentMachines,
        e matches CalibrationError::DifferentMachines { reference: r, traffic: t } ==> {
            &&& r.hardware_profile@ == reference.hardware_profile@
            &&& r.architecture@ == reference.architecture@
            &&& r.cpu_cores == reference.cpu_cores_per_node
            &&& t.hardware_profile@ == traffic.hardware_profile@
            &&& t.architecture@ == traffic.architecture@
            &&& t.cpu_cores == traffic.cpu_cores_per_node
        },
        e matches CalibrationError::DifferentRevisions { reference: r, traffic: t } ==> r@
            == reference.deployment_revision@ && t@ == traffic.deployment_revision@,
        e matches CalibrationError::DifferentNodes { reference: r, traffic: t } ==> {
            &&& r.slots == reference.renderer_slots_per_node
            &&& r.execution == reference.execution_permits_per_node
            &&& r.native == reference.native_render_permits_per_node
            &&& t.slots == traffic.renderer_slots_per_node
            &&& t.execution == traffic.execution_permits_per_node
            &&& t.native == traffic.native_render_permits_per_node
        },
{
}

/// Timeouts are reported with their window and their number, and a series that lacks a
/// label with its labels.
pub proof fn law_faults_of_a_window_are_reported(
    e: CalibrationError,
    window: Window,
    count: nat,
    labels: Seq<(Seq<char>, Seq<char>)>,
)
    ensures
        reports_censoring(e, window, CensoringFault::Censored { count }) <==> (
        e matches CalibrationError::Censored { window: w, count: n } && w == window && n == count),
        reports_censoring(e, window, CensoringFault::NoEvidence) <==> e is NoTimeoutEvidence,
        reports_censoring(e, window, CensoringFault::EmptyEvidence) <==> (
        e matches CalibrationError::EmptyTimeoutEvidence { window: w } && w == window),
        reports_labels(e, ShapeFault::NoState { labels }) <==> (
        e matches CalibrationError::NoState { labels: found } && label_views(found@) == labels),
        reports_labels(e, ShapeFault::NoShape { labels }) <==> (
        e matches CalibrationError::NoShape { labels: found } && label_views(found@) == labels),
{
}

proof fn lemma_noted(a: Seq<CalibrationNote>, b: Seq<CalibrationNote>, note: CalibrationNote)
    ensures
        (a + b).contains(note) <==> a.contains(note) || b.contains(note),
{
    let both = a + b;
    if a.contains(note) {
        let i = choose|i: int| 0 <= i < a.len() && a[i] == note;
        assert(both[i] == note);
    }
    if b.contains(note) {
        let i = choose|i: int| 0 <= i < b.len() && b[i] == note;
        assert(both[a.len() + i] == note);
    }
    if both.contains(note) {
        let i = choose|i: int| 0 <= i < both.len() && both[i] == note;
        if i < a.len() {
            assert(a[i] == note);
        } else {
            assert(b[i - a.len()] == note);
        }
    }
}

proof fn lemma_noted_if(due: bool, one: CalibrationNote, note: CalibrationNote)
    ensures
        note_if(due, one).contains(note) <==> due && one == note,
{
    if due {
        assert(note_if(due, one)[0] == one);
    }
}

/// What a derivation had to leave as it was, or to put together, is noted, and only that;
/// what was noted before stays.
pub proof fn law_derivations_note_what_was_left(
    profile: CalibrationProfile,
    reference: Option<CpuReference>,
    given: Seq<CalibrationNote>,
    note: CalibrationNote,
)
    ensures
        given.contains(note) ==> derivation_notes(profile, reference, given).contains(note),
        note is StageKept && !given.contains(note) ==> (derivation_notes(
            profile,
            reference,
            given,
        ).contains(note) <==> (note == (CalibrationNote::StageKept {
            stage: DirectStage::StyleSetup,
        }) && merged(
            series_of(profile, "biei_style_setup_duration_seconds"@),
            SeriesFilter::All.test(),
        ).count < 10_000_000 || note == (CalibrationNote::StageKept {
            stage: DirectStage::SourceLoad,
        }) && merged(
            series_of(profile, "biei_source_setup_duration_seconds"@),
            SeriesFilter::All.test(),
        ).count < 10_000_000)),
        note is FirstSparse && !given.contains(note) ==> (derivation_notes(
            profile,
            reference,
            given,
        ).contains(note) <==> first_of(profile).count < 10_000_000 && note == (
        CalibrationNote::FirstSparse { count: first_of(profile).count as u64 })),
        note is CpuFromWarm && !given.contains(note) ==> (derivation_notes(
            profile,
            reference,
            given,
        ).contains(note) <==> reference is None && warm_usable(profile, false)),
{
    let shapes = label_sets(series_of(profile, RENDER_METRIC@));
    let collapsed = CalibrationNote::CollapsedShapes { shapes: shapes as usize };
    let style = CalibrationNote::StageKept { stage: DirectStage::StyleSetup };
    let source = CalibrationNote::StageKept { stage: DirectStage::SourceLoad };
    let sparse = CalibrationNote::FirstSparse { count: first_of(profile).count as u64 };
    let few_styles = all_of(profile, STYLE_METRIC@).count < MIN_OPTIONAL_SAMPLES;
    let few_sources = all_of(profile, SOURCE_METRIC@).count < MIN_OPTIONAL_SAMPLES;
    let few_first = first_of(profile).count < MIN_OPTIONAL_SAMPLES;
    let has_reference = reference is Some;
    let from_warm = !has_reference && warm_usable(profile, false);
    let a = note_if(shapes > 1, collapsed);
    let b = note_if(few_styles, style);
    let c = note_if(few_sources, source);
    let d = warm_notes(profile, has_reference);
    let f = note_if(from_warm, CalibrationNote::CpuFromWarm);
    let g = note_if(few_first, sparse);
    lemma_noted_if(shapes > 1, collapsed, note);
    lemma_noted_if(few_styles, style, note);
    lemma_noted_if(few_sources, source, note);
    lemma_noted_if(from_warm, CalibrationNote::CpuFromWarm, note);
    lemma_noted_if(few_first, sparse, note);
    lemma_noted(given, a, note);
    lemma_noted(given + a, b, note);
    lemma_noted(given + a + b, c, note);
    lemma_noted(given + a + b + c, d, note);
    lemma_noted(given + a + b + c + d, f, note);
    lemma_noted(given + a + b + c + d + f, g, note);
    assert(derivation_notes(profile, reference, given) == given + a + b + c + d + f + g);
    assert(note is StageKept || note is FirstSparse || note is CpuFromWarm ==> !d.contains(note));
}

/// Of warm renders it is noted that there are none, that there are too few, why they are
/// ignored, or what is known of their window.
pub proof fn law_warm_renders_are_noted(profile: CalibrationProfile, has_reference: bool)
    ensures
        warm_of(profile).count == 0 ==> warm_notes(profile, has_reference) == seq![
            CalibrationNote::WarmMissing,
        ],
        0 < warm_of(profile).count < 30_000_000 ==> warm_notes(profile, has_reference) == seq![
            CalibrationNote::WarmSparse { count: warm_of(profile).count as u64 },
        ],
        warm_of(profile).count >= 30_000_000 && !warm_usable(profile, has_reference) ==> warm_notes(
            profile,
            has_reference,
        ).len() == 1 && warm_notes(profile, has_reference)[0] is WarmIgnored,
        warm_usable(profile, true) ==> warm_notes(profile, true) == warmth_notes(
            profile.of("biei_mln_resource_upstream_attempt_duration_seconds"@),
            warm_of(profile).count + first_of(profile).count,
            WarmthWindowRole::TrafficContext,
        ),
{
}

/// The samples of all shapes are those of each, added up.
pub proof fn law_samples_are_added_up(
    list: Seq<(ShapeView, nat)>,
    shape: ShapeView,
    other: ShapeView,
    n: nat,
)
    ensures
        list_sum(Seq::<(ShapeView, nat)>::empty()) == 0,
        list_sum(list.push((shape, n))) == list_sum(list) + n,
        samples_of(Seq::<(ShapeView, nat)>::empty(), shape) == 0,
        samples_of(list.push((shape, n)), shape) == samples_of(list, shape) + n,
        other != shape ==> samples_of(list.push((shape, n)), other) == samples_of(list, other),
{
    assert(list.push((shape, n)).drop_last() =~= list);
}

/// Windows that cannot be joined are refused for what is wrong with them: the first test
/// that they fail says what.
pub proof fn law_refused_windows_are_told_why(
    traffic: CalibrationProfile,
    reference: CalibrationProfile,
    e: CalibrationError,
)
    requires
        fusion_fails(traffic, reference, e),
    ensures
        e is NotSerial ==> reference.provenance.capture_concurrency != Some(1usize),
        e is NotSerial ==> comparable(reference.provenance, traffic.provenance),
        e is FewReferenceRenders ==> warm_of(reference).count < 30_000_000,
        e is NoOverlap ==> fused(traffic, reference).count == 0,
        e is NoUpstream ==> reference.of("biei_mln_resource_upstream_attempt_duration_seconds"@)
            is None,
        e is NotClean ==> 20 * reference_fetches(reference) > reference_renders(reference),
        comparable(reference.provenance, traffic.provenance)
            && reference.provenance.capture_concurrency != Some(1usize) ==> e is NotSerial,
        !(e is NoOverlap) && !(e is NoUpstream) && !(e is EmptyUpstream) && !(e is NotClean) && !(
        e is CountsTooLarge) ==> !fusion_passes(traffic, reference, 12),
        !fusion_passes(traffic, reference, 17),
{
    let k = choose|k: int|
        0 <= k < FUSION_TESTS && #[trigger] refused_by(traffic, reference, k) && reports_fusion(
            traffic,
            reference,
            k,
            e,
        );
    assert(refused_by(traffic, reference, k));
    assert(!fusion_test(traffic, reference, k));
    if k > 0 {
        assert(fusion_test(traffic, reference, 0));
    }
    if k > 1 {
        assert(fusion_test(traffic, reference, 1));
    }
}

} // verus!
