//! Costs from calibration profiles.

use biei::config::CostRange;
use biei::sim::cluster::StubRenderer;
use biei::sim::calibration::{
    derive_costs, derive_costs_with_cpu_reference, is_bounded_where_used, CalibrationValueSource,
    StageCosts,
};
use biei::sim::config::{apply_profile_provenance, SimConfig};
use biei::sim::empirical::EmpiricalCostModel;
use biei::sim::histogram::{
    CalibrationBucket, CalibrationHistogram, CalibrationSeries, MergedHistogram, SAMPLE,
};
use biei::sim::messages::{check_profile_header, HeaderError};
use biei::sim::profile::{CalibrationProfile, CalibrationProvenance};
use biei::sim::shapes::{merge_series, CalibrationRenderState, SeriesFilter};
use biei::types::{ImageFormat, InternalTask, RenderMode, RenderRequest, Scale, StyleRevision};
use rand::SeedableRng;
use rand_xoshiro::Xoshiro256PlusPlus;
use std::sync::Arc;
use std::time::Duration;

const KIND: &str = "biei-calibration-profile";
const VERSION: u32 = 1;

fn generator(seed: u64) -> Xoshiro256PlusPlus {
    Xoshiro256PlusPlus::seed_from_u64(seed)
}

fn samples(count: f64) -> u64 {
    (count * SAMPLE as f64) as u64
}

fn nanos(seconds: f64) -> u64 {
    (seconds * 1e9).round() as u64
}

fn bucket(upper_bound_seconds: Option<f64>, count: f64) -> CalibrationBucket {
    CalibrationBucket {
        upper_bound: upper_bound_seconds.map(nanos),
        count: samples(count),
    }
}

fn pair(name: &str, value: &str) -> (String, String) {
    (name.to_owned(), value.to_owned())
}

fn series(state: &str, render_mode: &str, buckets: &[(Option<f64>, f64)]) -> CalibrationSeries {
    let sample_count: f64 = buckets.iter().map(|(_, count)| count).sum();
    CalibrationSeries {
        labels: vec![
            pair("format", "png"),
            pair("render_mode", render_mode),
            pair("scale", "1x"),
            pair("size", "le_512px"),
            pair("state", state),
        ],
        sample_count: samples(sample_count),
        buckets: buckets.iter().map(|&(bound, count)| bucket(bound, count)).collect(),
    }
}

fn profile(mut histograms: Vec<CalibrationHistogram>) -> CalibrationProfile {
    if !histograms
        .iter()
        .any(|histogram| histogram.metric == "biei_render_timeout_lower_bound_seconds")
    {
        histograms.push(CalibrationHistogram {
            metric: "biei_render_timeout_lower_bound_seconds".to_owned(),
            series: vec![CalibrationSeries {
                labels: Vec::new(),
                sample_count: 0,
                buckets: vec![bucket(Some(10.0), 0.0), bucket(None, 0.0)],
            }],
        });
    }
    CalibrationProfile {
        schema_version: VERSION,
        kind: KIND.to_owned(),
        provenance: CalibrationProvenance {
            deployment_revision: "test".to_owned(),
            architecture: "arm64".to_owned(),
            hardware_profile: "m1-pro metal".to_owned(),
            cpu_cores_per_node: 2,
            renderer_slots_per_node: 3,
            execution_permits_per_node: 2,
            native_render_permits_per_node: 2,
            capture_concurrency: Some(1),
        },
        histograms,
    }
}

/// Upstream fetch-attempt histogram: `attempts` regular-lane attempts plus a
/// low-priority refresh series that warmth verification must ignore.
fn upstream_histogram(attempts: f64) -> CalibrationHistogram {
    let lane = |priority: &str, count: f64| CalibrationSeries {
        labels: vec![pair("kind", "tile"), pair("priority", priority)],
        sample_count: samples(count),
        buckets: vec![bucket(Some(0.1), count), bucket(None, 0.0)],
    };
    CalibrationHistogram {
        metric: "biei_mln_resource_upstream_attempt_duration_seconds".to_owned(),
        series: vec![lane("regular", attempts), lane("low", 500.0)],
    }
}

fn render_histogram() -> CalibrationHistogram {
    CalibrationHistogram {
        metric: "biei_render_duration_seconds".to_owned(),
        series: vec![
            // Two warm series merge: 30 in (0, 0.05], 45 in (0.05, 0.2],
            // 25 in (0.2, 0.5].
            series(
                "warm",
                "tile",
                &[(Some(0.05), 20.0), (Some(0.2), 40.0), (Some(0.5), 20.0), (None, 0.0)],
            ),
            series(
                "warm",
                "static",
                &[(Some(0.05), 10.0), (Some(0.2), 5.0), (Some(0.5), 5.0), (None, 0.0)],
            ),
            series("cold", "tile", &[(Some(0.5), 5.0), (Some(2.0), 5.0), (None, 0.0)]),
            series("swap", "tile", &[(Some(0.5), 2.0), (Some(2.0), 2.0), (None, 0.0)]),
        ],
    }
}

fn range(low: u64, high: u64) -> CostRange {
    CostRange { min: Duration::from_millis(low), max: Duration::from_millis(high) }
}

fn base_costs() -> StageCosts {
    StageCosts {
        style_setup_cost: range(200, 300),
        source_load_cost: range(30, 70),
        render_cpu_cost: range(5, 30),
        render_resource_cost: range(1, 10),
        first_render_resource_cost: range(50, 400),
        hop_latency: Duration::from_millis(5),
        sla: Duration::from_millis(1_000),
    }
}

fn tile_task(scale: Scale, format: ImageFormat, tile_size: u16) -> InternalTask {
    InternalTask {
        id: 1,
        request_id: "calibration-test".to_owned(),
        style: StyleRevision { id: "style-0".to_owned(), version: 1 },
        source: None,
        request: RenderRequest::Tile { z: 10, x: 0, y: 0, tile_size },
        pixel_ratio: scale,
        output_format: format,
        arrived_at: 0,
        deadline: 1_000_000_000,
        forwarding_hops: 0,
    }
}

fn shaped_series(labels: &[(&str, &str)], upper_bound_seconds: f64, count: f64) -> CalibrationSeries {
    let mut labels: Vec<(String, String)> =
        labels.iter().map(|(name, value)| pair(name, value)).collect();
    labels.sort();
    CalibrationSeries {
        labels,
        sample_count: samples(count),
        buckets: vec![bucket(Some(upper_bound_seconds), count), bucket(None, 0.0)],
    }
}

#[test]
fn stub_renderer_uses_shape_conditioned_render_distribution() {
    let task = tile_task(Scale::X2, ImageFormat::Png, 512);
    let render = CalibrationHistogram {
        metric: "biei_render_duration_seconds".to_owned(),
        series: vec![shaped_series(
            &[
                ("render_mode", "tile"),
                ("scale", "2x"),
                ("format", "png"),
                ("size", "le_1024px"),
                ("state", "cold"),
            ],
            0.1,
            10.0,
        )],
    };
    let model = EmpiricalCostModel::from_profile(&profile(vec![render]));
    let mut renderer = StubRenderer::new(
        CostRange::fixed(Duration::ZERO),
        CostRange::fixed(Duration::ZERO),
        CostRange::fixed(Duration::from_secs(5)),
        19,
    )
    .with_calibration_model(Some(Arc::new(model)));

    assert_eq!(renderer.setup_time(&task), Duration::ZERO);
    assert!(renderer.render_time(&task) <= Duration::from_millis(100));
    // Nothing is known of warm renders.
    assert_eq!(renderer.render_time(&task), Duration::from_secs(5));
    assert_eq!(renderer.source_time(&task), Duration::ZERO);
}

#[test]
fn quantiles_interpolate_and_clamp_the_unbounded_tail() {
    let merged = MergedHistogram {
        count: samples(100.0),
        buckets: vec![(nanos(0.1), samples(50.0)), (nanos(0.3), samples(40.0))],
    };
    assert_eq!(merged.quantile(50), Some(nanos(0.1)));
    assert_eq!(merged.quantile(70), Some(nanos(0.2)));
    // q99 falls in the +Inf remainder: clamp to the largest finite bound.
    assert_eq!(merged.quantile(99), Some(nanos(0.3)));
}

#[test]
fn derives_costs_with_documented_bands_and_fallbacks() {
    let profile = profile(vec![render_histogram()]);
    let base = base_costs();

    let derived = derive_costs(&profile, &base).expect("derive");

    // Warm q10/q25 both land inside the merged (0, 0.05] bucket of 30.
    let cpu = derived.costs.render_cpu_cost;
    assert!(cpu.min < cpu.max && cpu.max <= Duration::from_millis(50));
    // Cold+swap walls reach 2s, so the first-render resource wait must
    // exceed the warm resource wait.
    assert!(
        derived.costs.first_render_resource_cost.max > derived.costs.render_resource_cost.max
    );
    // No setup histograms in the profile: base ranges with notes.
    assert_eq!(
        derived.costs.style_setup_cost.min,
        base.style_setup_cost.min
    );
    assert_eq!(
        derived.costs.style_setup_cost.max,
        base.style_setup_cost.max
    );
    assert_eq!(
        derived.costs.source_load_cost.min,
        base.source_load_cost.min
    );
    assert_eq!(
        derived.costs.source_load_cost.max,
        base.source_load_cost.max
    );
    assert!(
        derived
            .notes
            .iter()
            .any(|note| note.message().contains("style_setup kept from base"))
    );
    assert!(
        derived
            .notes
            .iter()
            .any(|note| note.message().contains("collapsed 2 bounded render shapes"))
    );
    // hop latency and SLA always come from the base config.
    assert_eq!(derived.costs.hop_latency, base.hop_latency);
    assert_eq!(derived.costs.sla, base.sla);
}

#[test]
fn calibration_rejects_right_censored_render_timeouts() {
    let timeout_histogram = CalibrationHistogram {
        metric: "biei_render_timeout_lower_bound_seconds".to_owned(),
        series: vec![CalibrationSeries {
            labels: Vec::new(),
            sample_count: samples(1.0),
            buckets: vec![
                bucket(Some(5.0), 1.0),
                bucket(None, 0.0),
            ],
        }],
    };
    let profile = profile(vec![render_histogram(), timeout_histogram]);

    let error = match derive_costs(&profile, &base_costs()) {
        Ok(_) => panic!("successful render samples are incomplete when a timeout was censored"),
        Err(error) => error,
    };
    assert!(error.message().contains("right-censored"));
}

#[test]
fn calibration_rejects_empty_render_timeout_instrumentation() {
    let timeout_histogram = CalibrationHistogram {
        metric: "biei_render_timeout_lower_bound_seconds".to_owned(),
        series: Vec::new(),
    };
    let profile = profile(vec![render_histogram(), timeout_histogram]);

    let error = match derive_costs(&profile, &base_costs()) {
        Ok(_) => panic!("an empty family cannot prove that the timeout count was zero"),
        Err(error) => error,
    };
    assert!(error.message().contains("missing instrumentation"));
}

#[test]
fn empirical_render_sampling_prefers_exact_shape_then_state_fallback() {
    let render = CalibrationHistogram {
        metric: "biei_render_duration_seconds".to_owned(),
        series: vec![
            shaped_series(
                &[
                    ("render_mode", "tile"),
                    ("scale", "2x"),
                    ("format", "png"),
                    ("size", "le_1024px"),
                    ("state", "warm"),
                ],
                0.01,
                10.0,
            ),
            shaped_series(
                &[
                    ("render_mode", "static"),
                    ("scale", "1x"),
                    ("format", "webp"),
                    ("size", "le_512px"),
                    ("state", "warm"),
                ],
                1.0,
                20.0,
            ),
        ],
    };
    let model = EmpiricalCostModel::from_profile(&profile(vec![render]));
    let coverage = model.coverage();
    assert_eq!(coverage.render_exact_shapes, 2);
    assert_eq!(coverage.render_state_fallbacks, 1);
    let mut rng = generator(7);

    let exact = model
        .sample_render(
            &tile_task(Scale::X2, ImageFormat::Png, 512),
            CalibrationRenderState::Warm,
            &mut rng,
        )
        .expect("exact shape sample");
    assert!(Duration::from_nanos(exact) <= Duration::from_millis(10));

    let fallback = model.sample_render(
        &tile_task(Scale::X1, ImageFormat::Jpeg, 256),
        CalibrationRenderState::Warm,
        &mut rng,
    );
    assert!(fallback.is_some(), "30 warm samples form state fallback");
}

#[test]
fn empirical_setup_sampling_uses_available_partial_families() {
    let style = CalibrationHistogram {
        metric: "biei_style_setup_duration_seconds".to_owned(),
        series: vec![shaped_series(
            &[("render_mode", "tile"), ("scale", "2x"), ("state", "cold")],
            0.2,
            10.0,
        )],
    };
    let source = CalibrationHistogram {
        metric: "biei_source_setup_duration_seconds".to_owned(),
        series: vec![shaped_series(
            &[("render_mode", "tile"), ("scale", "2x")],
            0.05,
            10.0,
        )],
    };
    let model = EmpiricalCostModel::from_profile(&profile(vec![style, source]));
    let mut rng = generator(11);
    let task = tile_task(Scale::X2, ImageFormat::Png, 512);

    assert!(
        model
            .sample_style_setup(&task, CalibrationRenderState::Cold, &mut rng)
            .is_some()
    );
    assert!(
        model
            .sample_source_setup(RenderMode::Tile, Scale::X2, &mut rng)
            .is_some()
    );
    assert!(
        model
            .sample_render(&task, CalibrationRenderState::Warm, &mut rng)
            .is_none()
    );
}

#[test]
fn two_window_fusion_takes_cpu_from_reference_and_walls_from_traffic() {
    // Reference: verified-warm (0 regular fetches), walls all in (0, 0.05].
    let reference_render = CalibrationHistogram {
        metric: "biei_render_duration_seconds".to_owned(),
        series: vec![
            series("warm", "tile", &[(Some(0.05), 80.0), (None, 0.0)]),
            series("warm", "static", &[(Some(0.05), 20.0), (None, 0.0)]),
        ],
    };
    let reference = profile(vec![reference_render, upstream_histogram(0.0)]);
    // Traffic: heavily I/O-contaminated (400 fetches / 114 renders) —
    // rejected alone, but valid as the resource-wait source in fusion.
    let traffic = profile(vec![render_histogram(), upstream_histogram(400.0)]);
    let base = base_costs();

    let partial = derive_costs(&traffic, &base).expect("unsafe render stage falls back");
    assert!(matches!(
        partial.coverage.render_cpu.source,
        CalibrationValueSource::Default
    ));
    let derived = derive_costs_with_cpu_reference(&traffic, &reference, &base).expect("fusion");

    // CPU comes from the reference window's representative band (≤ 50ms),
    // not the traffic window's contaminated walls.
    assert!(derived.costs.render_cpu_cost.max <= Duration::from_millis(50));
    // Resource waits reflect traffic walls (up to 0.5s warm / 2s first)
    // minus the small reference CPU.
    assert!(derived.costs.render_resource_cost.max >= Duration::from_millis(300));
    assert!(
        derived.costs.first_render_resource_cost.max > derived.costs.render_resource_cost.max
    );
    assert!(
        derived
            .notes
            .iter()
            .any(|note| note.message().contains("verified resource-warm, shape-conditioned"))
    );
    assert_eq!(derived.sampling_model.coverage().render_cpu_exact_shapes, 2);
    assert!(
        derived
            .notes
            .iter()
            .any(|note| note.message().contains("traffic window saw"))
    );
}

#[test]
fn fusion_rejects_unverified_reference_and_hardware_mismatch() {
    let clean_render = || CalibrationHistogram {
        metric: "biei_render_duration_seconds".to_owned(),
        series: vec![
            series("warm", "tile", &[(Some(0.05), 80.0), (None, 0.0)]),
            series("warm", "static", &[(Some(0.05), 20.0), (None, 0.0)]),
        ],
    };
    let traffic = profile(vec![render_histogram(), upstream_histogram(400.0)]);
    let base = base_costs();

    let mut concurrent_reference = profile(vec![clean_render(), upstream_histogram(0.0)]);
    concurrent_reference.provenance.capture_concurrency = Some(4);
    let Err(err) = derive_costs_with_cpu_reference(&traffic, &concurrent_reference, &base)
    else {
        panic!("a contended service-wall reference must not become CPU demand");
    };
    assert!(err.message().contains("capture_concurrency=1"));

    // Reference without upstream evidence cannot prove warmth.
    let unverified = profile(vec![clean_render()]);
    assert!(derive_costs_with_cpu_reference(&traffic, &unverified, &base).is_err());

    // An exporter snapshot contains optional histogram entries even when
    // Prometheus returned no series. That is absence of evidence, not a
    // verified zero-fetch window.
    let empty_upstream = CalibrationHistogram {
        metric: "biei_mln_resource_upstream_attempt_duration_seconds".to_owned(),
        series: Vec::new(),
    };
    let empty_evidence = profile(vec![clean_render(), empty_upstream]);
    let Err(err) = derive_costs_with_cpu_reference(&traffic, &empty_evidence, &base) else {
        panic!("empty upstream evidence must fail");
    };
    assert!(err.message().contains("empty upstream fetch histogram"));

    // Reference with render-blocking fetches is not a CPU measurement.
    let contaminated = profile(vec![clean_render(), upstream_histogram(50.0)]);
    assert!(derive_costs_with_cpu_reference(&traffic, &contaminated, &base).is_err());

    // Reference from different hardware must not be subtracted.
    let mut foreign = profile(vec![clean_render(), upstream_histogram(0.0)]);
    foreign.provenance.hardware_profile = "different-machine".to_owned();
    let Err(err) = derive_costs_with_cpu_reference(&traffic, &foreign, &base) else {
        panic!("hardware mismatch must fail");
    };
    assert!(err.message().contains("different machines"));

    // Same hardware is insufficient when a different renderer revision or
    // concurrency shape produced the service-wall reference.
    let verified = || profile(vec![
        CalibrationHistogram {
            metric: "biei_render_duration_seconds".to_owned(),
            series: vec![series("warm", "tile", &[(Some(0.05), 100.0), (None, 0.0)])],
        },
        upstream_histogram(0.0),
    ]);
    let mut foreign_revision = verified();
    foreign_revision.provenance.deployment_revision = "other-revision".to_owned();
    let Err(err) = derive_costs_with_cpu_reference(&traffic, &foreign_revision, &base) else {
        panic!("renderer revision mismatch must fail");
    };
    assert!(err.message().contains("renderer revisions"));

    let mut foreign_shape = verified();
    foreign_shape.provenance.native_render_permits_per_node = 1;
    let Err(err) = derive_costs_with_cpu_reference(&traffic, &foreign_shape, &base) else {
        panic!("node-shape mismatch must fail");
    };
    assert!(err.message().contains("node shape"));
}

#[test]
fn fusion_rejects_cross_shape_cpu_subtraction() {
    let reference_render = CalibrationHistogram {
        metric: "biei_render_duration_seconds".to_owned(),
        series: vec![shaped_series(
            &[
                ("render_mode", "tile"),
                ("scale", "1x"),
                ("format", "png"),
                ("size", "le_256px"),
                ("state", "warm"),
            ],
            0.02,
            100.0,
        )],
    };
    let traffic_render = CalibrationHistogram {
        metric: "biei_render_duration_seconds".to_owned(),
        series: vec![shaped_series(
            &[
                ("render_mode", "static"),
                ("scale", "2x"),
                ("format", "webp"),
                ("size", "le_2048px"),
                ("state", "warm"),
            ],
            0.5,
            100.0,
        )],
    };
    let reference = profile(vec![reference_render, upstream_histogram(0.0)]);
    let traffic = profile(vec![traffic_render, upstream_histogram(100.0)]);

    let Err(error) = derive_costs_with_cpu_reference(&traffic, &reference, &base_costs())
    else {
        panic!("a CPU profile for another render shape is not calibration evidence");
    };
    assert!(
        error.message()
            .contains("does not cover traffic render shape")
    );
}

#[test]
fn contaminated_render_stage_falls_back_and_hot_window_is_verified() {
    // 114 renders (100 warm + 14 first) with 400 render-blocking fetches
    // during the window: warm walls contain provider I/O, not CPU demand.
    let contaminated = profile(vec![render_histogram(), upstream_histogram(400.0)]);
    let base = base_costs();
    let derived = derive_costs(&contaminated, &base).expect("partial calibration survives");
    assert_eq!(derived.costs.render_cpu_cost.min, base.render_cpu_cost.min);
    assert!(
        derived
            .notes
            .iter()
            .any(|note| note.message().contains("warm render ignored"))
    );

    // 2 render-blocking fetches over 114 renders: verified warm. The 500
    // low-priority background refreshes must not count against warmth.
    let hot = profile(vec![render_histogram(), upstream_histogram(2.0)]);
    let derived = derive_costs(&hot, &base_costs()).expect("hot window derives");
    assert!(
        derived
            .notes
            .iter()
            .any(|note| note.message().contains("verified resource-cache-warm"))
    );

    // No upstream histogram at all: setup stages may still derive, but
    // warm render walls cannot be promoted to CPU evidence.
    let unverifiable = profile(vec![render_histogram()]);
    let base = base_costs();
    let derived = derive_costs(&unverifiable, &base).expect("partial derivation survives");
    assert_eq!(derived.costs.render_cpu_cost.min, base.render_cpu_cost.min);
    assert!(
        derived
            .notes
            .iter()
            .any(|note| note.message().contains("lacks upstream fetch instrumentation"))
    );

    // An empty exported family is equally unverifiable: it may mean the
    // current zero series was never initialized on the captured pods.
    let empty = CalibrationHistogram {
        metric: "biei_mln_resource_upstream_attempt_duration_seconds".to_owned(),
        series: Vec::new(),
    };
    let empty_evidence = profile(vec![render_histogram(), empty]);
    let derived =
        derive_costs(&empty_evidence, &base).expect("other partial stages remain usable");
    assert_eq!(derived.costs.render_cpu_cost.min, base.render_cpu_cost.min);
    assert!(
        derived
            .notes
            .iter()
            .any(|note| note.message().contains("empty upstream fetch histogram"))
    );
}

#[test]
fn sparse_warm_evidence_falls_back_without_discarding_the_profile() {
    let sparse = profile(vec![CalibrationHistogram {
        metric: "biei_render_duration_seconds".to_owned(),
        series: vec![series("warm", "tile", &[(Some(0.1), 5.0), (None, 0.0)])],
    }]);

    let base = base_costs();
    let derived = derive_costs(&sparse, &base).expect("partial profile derives");
    assert_eq!(derived.costs.render_cpu_cost.min, base.render_cpu_cost.min);
    assert_eq!(
        derived.costs.render_resource_cost.max,
        base.render_resource_cost.max
    );
    assert!(matches!(
        derived.coverage.render_cpu.source,
        CalibrationValueSource::Default
    ));
    assert!(derived.notes.iter().any(|note| note.message().contains("5 samples")));
}

#[test]
fn setup_only_profile_calibrates_available_stages() {
    let setup = |metric: &str, count: f64| CalibrationHistogram {
        metric: metric.to_owned(),
        series: vec![CalibrationSeries {
            labels: Vec::new(),
            sample_count: samples(count),
            buckets: vec![
                bucket(Some(0.1), count),
                bucket(None, 0.0),
            ],
        }],
    };
    let partial = profile(vec![
        setup("biei_style_setup_duration_seconds", 20.0),
        setup("biei_source_setup_duration_seconds", 12.0),
    ]);
    let base = base_costs();

    let derived = derive_costs(&partial, &base).expect("setup-only profile derives");

    assert!(matches!(
        derived.coverage.style_setup.source,
        CalibrationValueSource::Measured
    ));
    assert_eq!(derived.coverage.style_setup.samples, samples(20.0));
    assert!(matches!(
        derived.coverage.source_load.source,
        CalibrationValueSource::Measured
    ));
    assert!(matches!(
        derived.coverage.render_cpu.source,
        CalibrationValueSource::Default
    ));
    assert_eq!(derived.costs.render_cpu_cost.min, base.render_cpu_cost.min);
}

#[test]
fn profile_provenance_replaces_unrelated_simulator_node_defaults() {
    let profile = profile(vec![render_histogram()]);
    let mut config = SimConfig::default();
    assert_ne!(config.cpu_cores_per_node, 2);

    apply_profile_provenance(&profile, &mut config).expect("apply provenance");

    assert_eq!(config.cpu_cores_per_node, 2);
    assert_eq!(config.cluster.renderer_slots_per_node, 3);
    assert_eq!(config.cluster.render_permits_per_node, Some(2));
    assert_eq!(config.cluster.cpu_render_permits_per_node, Some(2));
}

#[test]
fn load_rejects_wrong_kind_and_schema() {
    assert!(matches!(
        check_profile_header(VERSION, "something-else", VERSION, KIND),
        Err(HeaderError::Kind { .. })
    ));
    assert!(matches!(
        check_profile_header(999, KIND, VERSION, KIND),
        Err(HeaderError::Schema { version: 999 })
    ));
    assert!(check_profile_header(VERSION, KIND, VERSION, KIND).is_ok());
}

#[test]
fn merged_counts_add_up() {
    let first = series("warm", "tile", &[(Some(0.1), 3.0), (Some(0.2), 1.0), (None, 2.0)]);
    let merged = MergedHistogram::from_series(&first);
    assert_eq!(merged.count, samples(6.0));
    assert_eq!(merged.buckets, vec![(nanos(0.1), samples(3.0)), (nanos(0.2), samples(1.0))]);
    let second = series("warm", "tile", &[(Some(0.15), 5.0), (None, 0.0)]);
    let both = CalibrationHistogram { metric: String::new(), series: vec![first, second] };
    let merged = merge_series(&both, &SeriesFilter::All);
    assert_eq!(merged.count, samples(11.0));
    assert_eq!(
        merged.buckets,
        vec![
            (nanos(0.1), samples(3.0)),
            (nanos(0.15), samples(5.0)),
            (nanos(0.2), samples(1.0)),
        ]
    );
}

#[test]
fn samples_stay_within_the_bounds() {
    let merged = MergedHistogram { count: samples(2.0), buckets: vec![(100, samples(2.0))] };
    let mut rng = generator(3);
    for _ in 0..50 {
        assert!(merged.sample(&mut rng).expect("has samples") <= 100);
    }
    assert_eq!(MergedHistogram::empty().sample(&mut rng), None);
}

#[test]
fn bounds_are_asked_for_only_where_they_are_used() {
    let bounded = profile(vec![render_histogram()]);
    assert!(is_bounded_where_used(&bounded, false));
    let unbounded = CalibrationHistogram {
        metric: "biei_render_duration_seconds".to_owned(),
        series: vec![series("warm", "tile", &[(None, 100.0)])],
    };
    assert!(!is_bounded_where_used(&profile(vec![unbounded, upstream_histogram(0.0)]), false));
    let few = CalibrationHistogram {
        metric: "biei_render_duration_seconds".to_owned(),
        series: vec![series("warm", "tile", &[(None, 1.0)])],
    };
    assert!(is_bounded_where_used(&profile(vec![few, upstream_histogram(0.0)]), false));
}
