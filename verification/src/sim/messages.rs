//! What is said of derived costs, and of why none can be derived.

use vstd::prelude::*;
use crate::double::{
    law_a_number_is_once_itself, millionths_double, nearest, of_millionths, quotient, quotient_of,
    whole_double,
};
use crate::figures::{
    millionths, millionths_text, places, three_places_text, two_places_text, whole, whole_text,
};
use crate::sim::calibration::{CalibrationError, CalibrationNote, DirectStage, WarmthError, Window};
use crate::sim::histogram::label_views;
use crate::sim::shapes::{RenderShapeKey, ShapeView};
use crate::text::{debug_of, debug_text, numeral, numeral_text, same_text};

verus! {

/// A quotient that cannot be told.
pub open spec fn untold(a: nat) -> Seq<char> {
    if a == 0 {
        "NaN"@
    } else {
        "inf"@
    }
}

/// A quotient of numbers of millionths to three places.
pub open spec fn ratio(a: nat, b: nat) -> Seq<char> {
    if b == 0 {
        untold(a)
    } else {
        places(quotient(of_millionths(a), of_millionths(b)), 3)
    }
}

/// A quotient of numbers of millionths to two places.
pub open spec fn short_ratio(a: nat, b: nat) -> Seq<char> {
    if b == 0 {
        untold(a)
    } else {
        places(quotient(of_millionths(a), of_millionths(b)), 2)
    }
}

fn untold_text(a: u64) -> (r: String)
    ensures
        r@ == untold(a as nat),
{
    if a == 0 {
        "NaN".to_owned()
    } else {
        "inf".to_owned()
    }
}

/// Writes a quotient to three places.
pub fn ratio_text(a: u64, b: u64) -> (r: String)
    ensures
        r@ == ratio(a as nat, b as nat),
{
    if b == 0 {
        untold_text(a)
    } else {
        three_places_text(quotient_of(millionths_double(a), millionths_double(b)))
    }
}

/// Writes a quotient to two places.
pub fn short_ratio_text(a: u64, b: u64) -> (r: String)
    ensures
        r@ == short_ratio(a as nat, b as nat),
{
    if b == 0 {
        untold_text(a)
    } else {
        two_places_text(quotient_of(millionths_double(a), millionths_double(b)))
    }
}

pub open spec fn stage_label(stage: DirectStage) -> Seq<char> {
    match stage {
        DirectStage::StyleSetup => "style_setup"@,
        DirectStage::SourceLoad => "source_load"@,
    }
}

fn stage_text(stage: DirectStage) -> (r: &'static str)
    ensures
        r@ == stage_label(stage),
{
    match stage {
        DirectStage::StyleSetup => "style_setup",
        DirectStage::SourceLoad => "source_load",
    }
}

pub open spec fn window_label(window: Window) -> Seq<char> {
    match window {
        Window::CpuReference => "cpu reference"@,
        Window::Traffic => "traffic"@,
        Window::Single => "single-window"@,
    }
}

fn window_text(window: Window) -> (r: &'static str)
    ensures
        r@ == window_label(window),
{
    match window {
        Window::CpuReference => "cpu reference",
        Window::Traffic => "traffic",
        Window::Single => "single-window",
    }
}

/// A shape, as it is shown in messages.
pub open spec fn shape_debug(shape: ShapeView) -> Seq<char> {
    "RenderShapeKey { render_mode: "@ + debug_text(shape.render_mode) + ", scale: "@ + debug_text(
        shape.scale,
    ) + ", format: "@ + debug_text(shape.format) + ", size: "@ + debug_text(shape.size) + " }"@
}

fn shape_debug_text(shape: &RenderShapeKey) -> (r: String)
    ensures
        r@ == shape_debug(shape@),
{
    let mut out = "RenderShapeKey { render_mode: ".to_owned();
    out.push_str(debug_of(shape.render_mode.as_str()).as_str());
    out.push_str(", scale: ");
    out.push_str(debug_of(shape.scale.as_str()).as_str());
    out.push_str(", format: ");
    out.push_str(debug_of(shape.format.as_str()).as_str());
    out.push_str(", size: ");
    out.push_str(debug_of(shape.size.as_str()).as_str());
    out.push_str(" }");
    out
}

/// Labels in a row, as they are shown in messages.
pub open spec fn label_row(labels: Seq<(Seq<char>, Seq<char>)>) -> Seq<char>
    decreases labels.len(),
{
    if labels.len() == 0 {
        Seq::empty()
    } else {
        let before = label_row(labels.drop_last());
        (if labels.len() == 1 {
            before
        } else {
            before + ", "@
        }) + debug_text(labels.last().0) + ": "@ + debug_text(labels.last().1)
    }
}

/// Labels, as they are shown in messages.
pub open spec fn labels_debug(labels: Seq<(Seq<char>, Seq<char>)>) -> Seq<char> {
    "{"@ + label_row(labels) + "}"@
}

fn labels_debug_text(labels: &Vec<(String, String)>) -> (r: String)
    ensures
        r@ == labels_debug(label_views(labels@)),
{
    let ghost all = label_views(labels@);
    let mut row = String::new();
    let mut i: usize = 0;
    assert(all.take(0) =~= Seq::<(Seq<char>, Seq<char>)>::empty());
    assert(row@ =~= label_row(all.take(0)));
    while i < labels.len()
        invariant
            i <= labels@.len(),
            all == label_views(labels@),
            row@ == label_row(all.take(i as int)),
        decreases labels.len() - i,
    {
        proof {
            assert(all.take(i + 1).drop_last() =~= all.take(i as int));
            assert(all.take(i + 1).last() == all[i as int]);
        }
        if i > 0 {
            row.push_str(", ");
        }
        row.push_str(debug_of(labels[i].0.as_str()).as_str());
        row.push_str(": ");
        row.push_str(debug_of(labels[i].1.as_str()).as_str());
        i += 1;
    }
    assert(all.take(i as int) =~= all);
    let mut out = "{".to_owned();
    out.push_str(row.as_str());
    out.push_str("}");
    out
}

/// What is said of a window that is not warm.
pub open spec fn warmth_text(x: WarmthError) -> Seq<char> {
    match x {
        WarmthError::NoInstrumentation => "profile lacks upstream fetch instrumentation; the capture window cannot prove it was resource-cache-warm — recapture it with the current exporter"@,
        WarmthError::EmptyInstrumentation => "profile has an empty upstream fetch histogram; zero observed fetches and missing instrumentation cannot be distinguished — recapture it from a deployment that exposes FileSource upstream series"@,
        WarmthError::NotWarm { fetches, renders } => "capture window was not resource-cache-warm: "@
            + short_ratio(fetches as nat, renders as nat)
            + " render-blocking upstream fetches per render (limit 0.5); warm render walls would be read as CPU demand while still containing provider I/O — recapture from a warmed working set, or supply a verified-warm --cpu-profile alongside this window"@,
    }
}

impl WarmthError {
    /// What is said of a window that is not warm.
    pub fn message(&self) -> (r: String)
        ensures
            r@ == warmth_text(*self),
    {
        match self {
            WarmthError::NoInstrumentation => "profile lacks upstream fetch instrumentation; the capture window cannot prove it was resource-cache-warm — recapture it with the current exporter".to_owned(),
            WarmthError::EmptyInstrumentation => "profile has an empty upstream fetch histogram; zero observed fetches and missing instrumentation cannot be distinguished — recapture it from a deployment that exposes FileSource upstream series".to_owned(),
            WarmthError::NotWarm { fetches, renders } => {
                let mut out = "capture window was not resource-cache-warm: ".to_owned();
                out.push_str(short_ratio_text(*fetches, *renders).as_str());
                out.push_str(" render-blocking upstream fetches per render (limit 0.5); warm render walls would be read as CPU demand while still containing provider I/O — recapture from a warmed working set, or supply a verified-warm --cpu-profile alongside this window");
                out
            },
        }
    }
}

/// What is said of a derivation.
pub open spec fn note_text(x: CalibrationNote) -> Seq<char> {
    match x {
        CalibrationNote::CpuFromReference { fetches, renders } => "render cpu approximated by a verified resource-warm, shape-conditioned service-wall reference ("@
            + ratio(fetches as nat, renders as nat)
            + " fetches per render), reweighted to the traffic mix, q25..q75 of warm render walls"@,
        CalibrationNote::CollapsedShapes { shapes } => "collapsed "@ + numeral(shapes as nat)
            + " bounded render shapes into workload-weighted global cost ranges; do not reuse them for a materially different render-shape mix"@,
        CalibrationNote::StageKept { stage } => stage_label(stage) + " kept from base config (fewer than 10 samples)"@,
        CalibrationNote::WarmSparse { count } => "warm render kept from base config ("@
            + millionths(count as nat) + " samples < 30)"@,
        CalibrationNote::WarmMissing => "warm render kept from base config (no samples)"@,
        CalibrationNote::WarmIgnored { error } => "warm render ignored and kept from base config: "@
            + warmth_text(error),
        CalibrationNote::NoInstrumentation => "traffic profile lacks upstream fetch instrumentation; wall-minus-reference-cpu remains usable, but resource activity cannot be reported"@,
        CalibrationNote::EmptyInstrumentation => "traffic profile has an empty upstream fetch histogram; wall-minus-reference-cpu remains usable, but resource activity cannot be reported"@,
        CalibrationNote::TrafficFetches { fetches, renders } => "traffic window saw "@
            + ratio(fetches as nat, renders as nat)
            + " render-blocking upstream fetches per render; its walls feed resource waits, cpu comes from the reference window"@,
        CalibrationNote::SlightlyInflated { fetches, renders } => "capture window saw "@
            + ratio(fetches as nat, renders as nat)
            + " render-blocking upstream fetches per render; render cpu may be slightly I/O-inflated"@,
        CalibrationNote::VerifiedWarm { fetches, renders } => "capture window verified resource-cache-warm ("@
            + ratio(fetches as nat, renders as nat)
            + " render-blocking upstream fetches per render)"@,
        CalibrationNote::CpuFromWarm => "render cpu approximated from warm render wall q10..q25; resource waits are wall excess over that estimate"@,
        CalibrationNote::FirstSparse { count } => "first_render_resource kept from base config ("@
            + millionths(count as nat) + " first-render samples < 10)"@,
    }
}

impl CalibrationNote {
    /// What is said of a derivation.
    pub fn message(&self) -> (r: String)
        ensures
            r@ == note_text(*self),
    {
        match self {
            CalibrationNote::CpuFromReference { fetches, renders } => {
                let mut out = "render cpu approximated by a verified resource-warm, shape-conditioned service-wall reference (".to_owned();
                out.push_str(ratio_text(*fetches, *renders).as_str());
                out.push_str(" fetches per render), reweighted to the traffic mix, q25..q75 of warm render walls");
                out
            },
            CalibrationNote::CollapsedShapes { shapes } => {
                let mut out = "collapsed ".to_owned();
                out.push_str(numeral_text(*shapes as u128).as_str());
                out.push_str(" bounded render shapes into workload-weighted global cost ranges; do not reuse them for a materially different render-shape mix");
                out
            },
            CalibrationNote::StageKept { stage } => {
                let mut out = (stage_text(*stage)).to_owned();
                out.push_str(" kept from base config (fewer than 10 samples)");
                out
            },
            CalibrationNote::WarmSparse { count } => {
                let mut out = "warm render kept from base config (".to_owned();
                out.push_str(millionths_text(*count).as_str());
                out.push_str(" samples < 30)");
                out
            },
            CalibrationNote::WarmMissing => "warm render kept from base config (no samples)".to_owned(),
            CalibrationNote::WarmIgnored { error } => {
                let mut out = "warm render ignored and kept from base config: ".to_owned();
                out.push_str(error.message().as_str());
                out
            },
            CalibrationNote::NoInstrumentation => "traffic profile lacks upstream fetch instrumentation; wall-minus-reference-cpu remains usable, but resource activity cannot be reported".to_owned(),
            CalibrationNote::EmptyInstrumentation => "traffic profile has an empty upstream fetch histogram; wall-minus-reference-cpu remains usable, but resource activity cannot be reported".to_owned(),
            CalibrationNote::TrafficFetches { fetches, renders } => {
                let mut out = "traffic window saw ".to_owned();
                out.push_str(ratio_text(*fetches, *renders).as_str());
                out.push_str(" render-blocking upstream fetches per render; its walls feed resource waits, cpu comes from the reference window");
                out
            },
            CalibrationNote::SlightlyInflated { fetches, renders } => {
                let mut out = "capture window saw ".to_owned();
                out.push_str(ratio_text(*fetches, *renders).as_str());
                out.push_str(" render-blocking upstream fetches per render; render cpu may be slightly I/O-inflated");
                out
            },
            CalibrationNote::VerifiedWarm { fetches, renders } => {
                let mut out = "capture window verified resource-cache-warm (".to_owned();
                out.push_str(ratio_text(*fetches, *renders).as_str());
                out.push_str(" render-blocking upstream fetches per render)");
                out
            },
            CalibrationNote::CpuFromWarm => "render cpu approximated from warm render wall q10..q25; resource waits are wall excess over that estimate".to_owned(),
            CalibrationNote::FirstSparse { count } => {
                let mut out = "first_render_resource kept from base config (".to_owned();
                out.push_str(millionths_text(*count).as_str());
                out.push_str(" first-render samples < 10)");
                out
            },
        }
    }
}

/// What is said of a refused derivation.
pub open spec fn error_text(x: CalibrationError) -> Seq<char> {
    match x {
        CalibrationError::DifferentMachines { reference, traffic } => "cpu reference ("@
            + reference.hardware_profile@ + " / "@ + reference.architecture@ + " / "@
            + numeral(reference.cpu_cores as nat) + " cores) and traffic profile ("@
            + traffic.hardware_profile@ + " / "@ + traffic.architecture@ + " / "@
            + numeral(traffic.cpu_cores as nat)
            + " cores) come from different machines; wall-minus-cpu subtraction across hardware is meaningless"@,
        CalibrationError::DifferentRevisions { reference, traffic } => "cpu reference revision "@
            + debug_text(reference@) + " and traffic profile revision "@ + debug_text(traffic@)
            + " differ; service-wall subtraction across renderer revisions is meaningless"@,
        CalibrationError::DifferentNodes { reference, traffic } => "cpu reference node shape ("@
            + numeral(reference.slots as nat) + " slots / "@ + numeral(reference.execution as nat)
            + " execution / "@ + numeral(reference.native as nat)
            + " native) and traffic profile node shape ("@ + numeral(traffic.slots as nat)
            + " slots / "@ + numeral(traffic.execution as nat) + " execution / "@
            + numeral(traffic.native as nat)
            + " native) differ; concurrent service walls are not comparable"@,
        CalibrationError::NotSerial => "cpu reference must record capture_concurrency=1; a concurrent service-wall window may already include CPU scheduling contention that the simulator would apply again"@,
        CalibrationError::NoTimeoutEvidence => "calibration profile lacks render-timeout censoring evidence; recapture it with the current exporter"@,
        CalibrationError::EmptyTimeoutEvidence { window } => window_label(window) + " calibration profile has no render-timeout censoring series; zero timeouts cannot be distinguished from missing instrumentation, so recapture it with the current exporter"@,
        CalibrationError::Censored { window, count } => window_label(window)
            + " calibration window contains "@ + whole(count as nat)
            + " timed-out renders; successful render histograms are right-censored, so choose a clean window or model the censored tail explicitly"@,
        CalibrationError::NoRenders { window } => window_label(window) + " profile has no render duration histogram"@,
        CalibrationError::FewReferenceRenders { count } => "cpu reference has "@
            + millionths(count as nat) + " warm render samples; at least 30 are required"@,
        CalibrationError::NoState { labels } => "render histogram series is missing a supported state label: "@
            + labels_debug(label_views(labels@)),
        CalibrationError::NoShape { labels } => "render histogram series lacks bounded render-shape labels: "@
            + labels_debug(label_views(labels@)),
        CalibrationError::NoSamples => "render histogram has no positive samples for the requested state"@,
        CalibrationError::UncoveredShape { shape, samples } => "cpu reference does not cover traffic render shape "@
            + shape_debug(shape@) + " with at least 10 warm samples ("@ + whole(samples as nat)
            + " traffic samples); cross-shape wall subtraction would misclassify CPU/encoding as provider I/O"@,
        CalibrationError::NoWarmSamples { shape, samples } => "cpu reference has no warm samples for traffic render shape "@
            + shape_debug(shape@) + " ("@ + whole(samples as nat) + " warm traffic samples)"@,
        CalibrationError::CountsTooLarge => "sample counts of the cpu reference are too large to reweight"@,
        CalibrationError::NoOverlap => "cpu reference and traffic profile have no overlapping warm render shapes"@,
        CalibrationError::NoUpstream => "cpu reference profile lacks upstream fetch activity, so its resource-warm state cannot be verified; recapture it with the current exporter"@,
        CalibrationError::EmptyUpstream => "cpu reference profile has an empty upstream fetch histogram; zero observed fetches and missing instrumentation cannot be distinguished — recapture it from a deployment that exposes FileSource upstream series"@,
        CalibrationError::NotClean { fetches, renders } => "cpu reference window saw "@
            + ratio(fetches as nat, renders as nat)
            + " render-blocking upstream fetches per render (limit 0.05); it is not a clean service-wall reference"@,
    }
}

impl CalibrationError {
    /// What is said of a refused derivation.
    pub fn message(&self) -> (r: String)
        ensures
            r@ == error_text(*self),
    {
        match self {
            CalibrationError::DifferentMachines { reference, traffic } => {
                let mut out = "cpu reference (".to_owned();
                out.push_str(reference.hardware_profile.as_str());
                out.push_str(" / ");
                out.push_str(reference.architecture.as_str());
                out.push_str(" / ");
                out.push_str(numeral_text(reference.cpu_cores as u128).as_str());
                out.push_str(" cores) and traffic profile (");
                out.push_str(traffic.hardware_profile.as_str());
                out.push_str(" / ");
                out.push_str(traffic.architecture.as_str());
                out.push_str(" / ");
                out.push_str(numeral_text(traffic.cpu_cores as u128).as_str());
                out.push_str(" cores) come from different machines; wall-minus-cpu subtraction across hardware is meaningless");
                out
            },
            CalibrationError::DifferentRevisions { reference, traffic } => {
                let mut out = "cpu reference revision ".to_owned();
                out.push_str(debug_of(reference.as_str()).as_str());
                out.push_str(" and traffic profile revision ");
                out.push_str(debug_of(traffic.as_str()).as_str());
                out.push_str(" differ; service-wall subtraction across renderer revisions is meaningless");
                out
            },
            CalibrationError::DifferentNodes { reference, traffic } => {
                let mut out = "cpu reference node shape (".to_owned();
                out.push_str(numeral_text(reference.slots as u128).as_str());
                out.push_str(" slots / ");
                out.push_str(numeral_text(reference.execution as u128).as_str());
                out.push_str(" execution / ");
                out.push_str(numeral_text(reference.native as u128).as_str());
                out.push_str(" native) and traffic profile node shape (");
                out.push_str(numeral_text(traffic.slots as u128).as_str());
                out.push_str(" slots / ");
                out.push_str(numeral_text(traffic.execution as u128).as_str());
                out.push_str(" execution / ");
                out.push_str(numeral_text(traffic.native as u128).as_str());
                out.push_str(" native) differ; concurrent service walls are not comparable");
                out
            },
            CalibrationError::NotSerial => "cpu reference must record capture_concurrency=1; a concurrent service-wall window may already include CPU scheduling contention that the simulator would apply again".to_owned(),
            CalibrationError::NoTimeoutEvidence => "calibration profile lacks render-timeout censoring evidence; recapture it with the current exporter".to_owned(),
            CalibrationError::EmptyTimeoutEvidence { window } => {
                let mut out = (window_text(*window)).to_owned();
                out.push_str(" calibration profile has no render-timeout censoring series; zero timeouts cannot be distinguished from missing instrumentation, so recapture it with the current exporter");
                out
            },
            CalibrationError::Censored { window, count } => {
                let mut out = (window_text(*window)).to_owned();
                out.push_str(" calibration window contains ");
                out.push_str(whole_text(*count).as_str());
                out.push_str(" timed-out renders; successful render histograms are right-censored, so choose a clean window or model the censored tail explicitly");
                out
            },
            CalibrationError::NoRenders { window } => {
                let mut out = (window_text(*window)).to_owned();
                out.push_str(" profile has no render duration histogram");
                out
            },
            CalibrationError::FewReferenceRenders { count } => {
                let mut out = "cpu reference has ".to_owned();
                out.push_str(millionths_text(*count).as_str());
                out.push_str(" warm render samples; at least 30 are required");
                out
            },
            CalibrationError::NoState { labels } => {
                let mut out = "render histogram series is missing a supported state label: ".to_owned();
                out.push_str(labels_debug_text(labels).as_str());
                out
            },
            CalibrationError::NoShape { labels } => {
                let mut out = "render histogram series lacks bounded render-shape labels: ".to_owned();
                out.push_str(labels_debug_text(labels).as_str());
                out
            },
            CalibrationError::NoSamples => "render histogram has no positive samples for the requested state".to_owned(),
            CalibrationError::UncoveredShape { shape, samples } => {
                let mut out = "cpu reference does not cover traffic render shape ".to_owned();
                out.push_str(shape_debug_text(shape).as_str());
                out.push_str(" with at least 10 warm samples (");
                out.push_str(whole_text(*samples).as_str());
                out.push_str(" traffic samples); cross-shape wall subtraction would misclassify CPU/encoding as provider I/O");
                out
            },
            CalibrationError::NoWarmSamples { shape, samples } => {
                let mut out = "cpu reference has no warm samples for traffic render shape ".to_owned();
                out.push_str(shape_debug_text(shape).as_str());
                out.push_str(" (");
                out.push_str(whole_text(*samples).as_str());
                out.push_str(" warm traffic samples)");
                out
            },
            CalibrationError::CountsTooLarge => "sample counts of the cpu reference are too large to reweight".to_owned(),
            CalibrationError::NoOverlap => "cpu reference and traffic profile have no overlapping warm render shapes".to_owned(),
            CalibrationError::NoUpstream => "cpu reference profile lacks upstream fetch activity, so its resource-warm state cannot be verified; recapture it with the current exporter".to_owned(),
            CalibrationError::EmptyUpstream => "cpu reference profile has an empty upstream fetch histogram; zero observed fetches and missing instrumentation cannot be distinguished — recapture it from a deployment that exposes FileSource upstream series".to_owned(),
            CalibrationError::NotClean { fetches, renders } => {
                let mut out = "cpu reference window saw ".to_owned();
                out.push_str(ratio_text(*fetches, *renders).as_str());
                out.push_str(" render-blocking upstream fetches per render (limit 0.05); it is not a clean service-wall reference");
                out
            },
        }
    }
}

/// Why a file is no calibration profile of this version.
#[derive(Debug, PartialEq, Eq)]
pub enum HeaderError {
    Schema { version: u32 },
    Kind { kind: String },
}

/// What is said of a file that is no calibration profile.
pub open spec fn header_text(e: HeaderError) -> Seq<char> {
    match e {
        HeaderError::Schema { version } => "unsupported calibration profile schema version "@
            + numeral(version as nat),
        HeaderError::Kind { kind } => "not a calibration profile (kind "@ + debug_text(kind@)
            + ")"@,
    }
}

impl HeaderError {
    /// What is said of a file that is no calibration profile.
    pub fn message(&self) -> (r: String)
        ensures
            r@ == header_text(*self),
    {
        match self {
            HeaderError::Schema { version } => {
                let mut out = "unsupported calibration profile schema version ".to_owned();
                out.push_str(numeral_text(*version as u128).as_str());
                out
            },
            HeaderError::Kind { kind } => {
                let mut out = "not a calibration profile (kind ".to_owned();
                out.push_str(debug_of(kind.as_str()).as_str());
                out.push_str(")");
                out
            },
        }
    }
}

/// Refuses a file of another schema version or kind.
pub fn check_profile_header(
    version: u32,
    kind: &str,
    expected_version: u32,
    expected_kind: &str,
) -> (r: Result<(), HeaderError>)
    ensures
        match r {
            Ok(()) => version == expected_version && kind@ == expected_kind@,
            Err(HeaderError::Schema { version: shown }) => version != expected_version && shown
                == version,
            Err(HeaderError::Kind { kind: shown }) => version == expected_version && kind@
                != expected_kind@ && shown@ == kind@,
        },
{
    if version != expected_version {
        return Err(HeaderError::Schema { version });
    }
    if !same_text(kind, expected_kind) {
        return Err(HeaderError::Kind { kind: kind.to_owned() });
    }
    Ok(())
}

/// A ratio to nothing is infinite, or none at all for nothing; a ratio to itself is one.
pub proof fn law_ratios_are_quotients(a: nat, b: nat)
    ensures
        ratio(0, 0) == "NaN"@,
        a > 0 ==> ratio(a, 0) == "inf"@,
        b > 0 ==> ratio(a, b) == places(
            quotient(nearest(a, 1_000_000), nearest(b, 1_000_000)),
            3,
        ),
        b > 0 ==> short_ratio(a, b) == places(
            quotient(nearest(a, 1_000_000), nearest(b, 1_000_000)),
            2,
        ),
        nearest(a, 1_000_000).units > 0 && a > 0 ==> ratio(a, a) == places(whole_double(1), 3),
{
    if nearest(a, 1_000_000).units > 0 {
        law_a_number_is_once_itself(nearest(a, 1_000_000));
    }
}

proof fn lemma_begins(head: Seq<char>, tail: Seq<char>)
    ensures
        head.is_prefix_of(head + tail),
{
    assert((head + tail).subrange(0, head.len() as int) =~= head);
}

/// What is said of fetches says how many there were for a render, and what is said of
/// samples how many there were.
pub proof fn law_messages_hold_their_numbers(fetches: u64, renders: u64, count: u64)
    ensures
        ("cpu reference window saw "@ + ratio(fetches as nat, renders as nat)).is_prefix_of(
            error_text(CalibrationError::NotClean { fetches, renders }),
        ),
        ("cpu reference has "@ + millionths(count as nat)).is_prefix_of(
            error_text(CalibrationError::FewReferenceRenders { count }),
        ),
        ("traffic window saw "@ + ratio(fetches as nat, renders as nat)).is_prefix_of(
            note_text(CalibrationNote::TrafficFetches { fetches, renders }),
        ),
        ("capture window saw "@ + ratio(fetches as nat, renders as nat)).is_prefix_of(
            note_text(CalibrationNote::SlightlyInflated { fetches, renders }),
        ),
        ("capture window verified resource-cache-warm ("@ + ratio(
            fetches as nat,
            renders as nat,
        )).is_prefix_of(note_text(CalibrationNote::VerifiedWarm { fetches, renders })),
        ("capture window was not resource-cache-warm: "@ + short_ratio(
            fetches as nat,
            renders as nat,
        )).is_prefix_of(warmth_text(WarmthError::NotWarm { fetches, renders })),
        note_text(CalibrationNote::WarmSparse { count }) == "warm render kept from base config ("@
            + millionths(count as nat) + " samples < 30)"@,
        note_text(CalibrationNote::FirstSparse { count })
            == "first_render_resource kept from base config ("@ + millionths(count as nat)
            + " first-render samples < 10)"@,
{
    lemma_begins(
        "cpu reference window saw "@ + ratio(fetches as nat, renders as nat),
        " render-blocking upstream fetches per render (limit 0.05); it is not a clean service-wall reference"@,
    );
    lemma_begins(
        "cpu reference has "@ + millionths(count as nat),
        " warm render samples; at least 30 are required"@,
    );
    lemma_begins(
        "traffic window saw "@ + ratio(fetches as nat, renders as nat),
        " render-blocking upstream fetches per render; its walls feed resource waits, cpu comes from the reference window"@,
    );
    lemma_begins(
        "capture window saw "@ + ratio(fetches as nat, renders as nat),
        " render-blocking upstream fetches per render; render cpu may be slightly I/O-inflated"@,
    );
    lemma_begins(
        "capture window verified resource-cache-warm ("@ + ratio(fetches as nat, renders as nat),
        " render-blocking upstream fetches per render)"@,
    );
    let text = warmth_text(WarmthError::NotWarm { fetches, renders });
    let head = "capture window was not resource-cache-warm: "@ + short_ratio(
        fetches as nat,
        renders as nat,
    );
    assert(text.subrange(0, head.len() as int) =~= head);
}

/// Labels are written in a row, each name with its value.
pub proof fn law_labels_are_written_in_a_row(
    labels: Seq<(Seq<char>, Seq<char>)>,
    name: Seq<char>,
    value: Seq<char>,
)
    ensures
        labels.len() > 0 ==> label_row(labels.push((name, value))) == label_row(labels) + ", "@
            + debug_text(name) + ": "@ + debug_text(value),
        label_row(seq![(name, value)]) == debug_text(name) + ": "@ + debug_text(value),
{
    assert(labels.push((name, value)).drop_last() =~= labels);
    assert(seq![(name, value)].drop_last() =~= Seq::<(Seq<char>, Seq<char>)>::empty());
    assert(label_row(Seq::<(Seq<char>, Seq<char>)>::empty()) =~= Seq::<char>::empty());
    assert(Seq::<char>::empty() + debug_text(name) + ": "@ + debug_text(value) =~= debug_text(name)
        + ": "@ + debug_text(value));
}

/// A header of another version is told by the version, and one of another kind by the kind.
pub proof fn law_headers_are_told_apart(version: u32, kind: String)
    ensures
        header_text(HeaderError::Schema { version })
            == "unsupported calibration profile schema version "@ + numeral(version as nat),
        header_text(HeaderError::Kind { kind }) == "not a calibration profile (kind "@ + debug_text(
            kind@,
        ) + ")"@,
{
}

} // verus!
