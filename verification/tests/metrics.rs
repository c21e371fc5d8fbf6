//! What a node counts and observes.

use biei::http::adapter::{HttpMetrics, NodeReading, WorkerReading};
use biei::metrics::registry::{encode_metric_families, NodeMetrics, RuntimeFamilies};
use biei::metrics::{rejection_reason_label, route_tier_label, LoadedProfile};
use biei::types::{
    CompletedInfo, DeadlineStage, ImageFormat, RejectionReason, RenderMode, RenderOutput,
    RouteTier, Scale, TaskOutcome, TaskResult,
};

const MILLI: u64 = 1_000_000;

fn completed_outcome(route_tier: RouteTier) -> TaskOutcome {
    TaskOutcome {
        task_id: 1,
        request_id: "metrics-test".to_string(),
        arrived_at: 0,
        had_source: false,
        deadline_stage: None,
        result: TaskResult::Completed {
            info: CompletedInfo {
                node_id: "node-a".to_string(),
                worker_id: Some(2),
                route_tier,
                started_at: 0,
                cpu_started_at: 2 * MILLI,
                cpu_completed_at: 7 * MILLI,
                completed_at: 10 * MILLI,
                style_swap: false,
                cold_start: false,
                source_loaded: false,
                admitted_at_overflow: false,
            },
            output: RenderOutput { bytes: Vec::new(), format: ImageFormat::Png },
        },
    }
}

fn rejected(reason: RejectionReason, deadline_stage: Option<DeadlineStage>) -> TaskOutcome {
    TaskOutcome {
        task_id: 2,
        request_id: "metrics-test".to_string(),
        arrived_at: 0,
        had_source: false,
        deadline_stage,
        result: TaskResult::Rejected { reason },
    }
}

fn node_metrics() -> NodeMetrics {
    NodeMetrics::new().expect("families register")
}

#[test]
fn node_metrics_tracks_ingress_and_forwarded_scopes_separately() {
    let mut metrics = node_metrics();
    metrics.record_ingress(&completed_outcome(RouteTier::Tier2HrwBl));
    metrics.record_forwarded(&rejected(RejectionReason::QueueFull, None));

    let rendered = metrics.render_prometheus();
    assert!(rendered
        .contains("biei_tasks_completed_total{route_tier=\"tier2_hrw_bl\",scope=\"ingress\"} 1"));
    assert!(rendered
        .contains("biei_tasks_rejected_total{reason=\"queue_full\",scope=\"forwarded\"} 1"));
    assert!(rendered.contains("biei_request_duration_seconds_bucket"));
    assert!(rendered.contains("biei_cpu_render_duration_seconds_bucket"));
}

#[test]
fn node_metrics_records_missing_production_counters() {
    let mut metrics = node_metrics();
    let mut outcome = completed_outcome(RouteTier::Tier1WarmTracking);
    outcome.had_source = true;
    if let TaskResult::Completed { info, .. } = &mut outcome.result {
        info.style_swap = true;
        info.cold_start = true;
        info.source_loaded = true;
        info.admitted_at_overflow = true;
    }
    metrics.record_ingress(&outcome);
    metrics.record_ingress(&rejected(
        RejectionReason::DeadlineExceeded,
        Some(DeadlineStage::AcquireCpuPermit),
    ));
    metrics.record_forward_success();
    metrics.record_forward_retryable();
    metrics.record_forward_fatal();

    let rendered = metrics.render_prometheus();
    assert!(rendered.contains("biei_style_swaps_total{scope=\"ingress\"} 1"));
    assert!(rendered.contains("biei_cold_starts_total{scope=\"ingress\"} 1"));
    assert!(rendered.contains("biei_source_cache_total{outcome=\"miss\"} 1"));
    assert!(rendered.contains("biei_admission_overflow_total{scope=\"ingress\"} 1"));
    assert!(rendered.contains("biei_deadline_exceeded_total{stage=\"acquire_cpu_permit\"} 1"));
    assert!(rendered.contains("biei_forwards_total{outcome=\"success\"} 1"));
    assert!(rendered.contains("biei_forwards_total{outcome=\"retryable\"} 1"));
    assert!(rendered.contains("biei_forwards_total{outcome=\"fatal\"} 1"));
}

#[test]
fn render_cache_hit_records_request_latency_but_not_cpu_render_latency() {
    let mut metrics = node_metrics();
    metrics.record_ingress(&completed_outcome(RouteTier::RenderCacheHit));

    let rendered = metrics.render_prometheus();
    assert!(rendered.contains(
        "biei_request_duration_seconds_count{route_tier=\"render_cache_hit\",scope=\"ingress\"} 1"
    ));
    assert!(rendered.contains("biei_cpu_render_duration_seconds_count{scope=\"ingress\"} 0"));
}

#[test]
fn metric_labels_are_stable_snake_case() {
    assert_eq!(route_tier_label(RouteTier::Tier3DrainSwap), "tier3_drain_swap");
    assert_eq!(
        rejection_reason_label(RejectionReason::DeadlineTooClose),
        "deadline_too_close"
    );
}

#[test]
fn runtime_gauges_reach_the_text() {
    let endpoint: HttpMetrics<(), (), ()> = HttpMetrics::new((), None, None);
    let gauges = endpoint.runtime_gauges(&NodeReading {
        node_id: "node-a".to_string(),
        workers: vec![
            WorkerReading { id: 0, profile: None, queue_depth: 3 },
            WorkerReading {
                id: 1,
                profile: Some(LoadedProfile {
                    style_id: "carto/voyager".to_string(),
                    render_mode: RenderMode::Tile,
                    scale: Scale::X2,
                }),
                queue_depth: 0,
            },
        ],
        live_members: 4,
        cpu_permits_inuse: 1,
        draining: true,
    });
    assert_eq!(gauges.membership_live, None);
    assert!(!gauges.draining);
    assert_eq!(gauges.workers[0].style_id, "");
    assert_eq!(gauges.workers[0].render_mode, "none");

    let body = node_metrics().render_prometheus_with_runtime(&gauges).expect("families register");
    assert!(body.contains("# TYPE biei_queue_depth gauge"));
    assert!(body.contains("biei_worker_loaded{node=\"node-a\",worker=\"1\"} 1"));
    assert!(body.contains("biei_cpu_permits_inuse{node=\"node-a\"} 1"));
    assert!(body.contains("biei_drain_state{node=\"node-a\"} 0"));
    assert!(body.contains("# TYPE biei_tasks_completed_total counter"));
    assert!(body.contains("scope=\"ingress\"} 0"));
}

#[test]
fn membership_and_drain_show_where_the_node_has_them() {
    let endpoint: HttpMetrics<(), u8, u8> = HttpMetrics::new((), Some(1), Some(2));
    let gauges = endpoint.runtime_gauges(&NodeReading {
        node_id: "n".to_string(),
        workers: Vec::new(),
        live_members: 4,
        cpu_permits_inuse: 0,
        draining: true,
    });
    assert_eq!(gauges.membership_live, Some(4));
    assert!(gauges.draining);
}

#[test]
fn every_series_starts_at_zero() {
    let rendered = node_metrics().render_prometheus();
    assert!(rendered.contains("biei_render_output_cache_total{outcome=\"hit\"} 0"));
    assert!(rendered.contains("biei_tasks_failed_total{scope=\"forwarded\"} 0"));
}

#[test]
fn families_are_shown_once_and_in_order() {
    let metrics = node_metrics();
    let names: Vec<String> =
        metrics.gather().iter().map(|family| family.name().to_string()).collect();
    assert_eq!(
        names,
        vec![
            "biei_admission_overflow_total",
            "biei_cold_starts_total",
            "biei_cpu_render_duration_seconds",
            "biei_deadline_exceeded_total",
            "biei_forwards_total",
            "biei_render_output_cache_total",
            "biei_request_duration_seconds",
            "biei_source_cache_total",
            "biei_style_swaps_total",
            "biei_tasks_completed_total",
            "biei_tasks_failed_total",
            "biei_tasks_rejected_total",
        ]
    );
    let rendered = metrics.render_prometheus();
    assert_eq!(encode_metric_families(&metrics.gather()), rendered);
    assert!(rendered.starts_with("# HELP biei_admission_overflow_total "));
    assert_eq!(rendered.matches("# TYPE ").count(), 12);
}

#[test]
fn families_without_series_are_not_shown() {
    let reading = NodeReading {
        node_id: "node-a".to_string(),
        workers: Vec::new(),
        live_members: 3,
        cpu_permits_inuse: 2,
        draining: true,
    };
    let http: HttpMetrics<(), (), ()> = HttpMetrics::new((), None, None);
    let runtime = http.runtime_gauges(&reading);
    let levels = RuntimeFamilies::of(&runtime).expect("families register");
    let names: Vec<String> =
        levels.gather().iter().map(|family| family.name().to_string()).collect();
    assert_eq!(names, vec!["biei_cpu_permits_inuse", "biei_drain_state"]);
    let text = node_metrics().render_prometheus_with_runtime(&runtime).expect("families register");
    assert!(text.contains("biei_cpu_permits_inuse{node=\"node-a\"} 2"));
    assert!(!text.contains("biei_queue_depth"));
    let rejected = text.find("biei_tasks_rejected_total").expect("node families");
    let permits = text.find("biei_cpu_permits_inuse").expect("levels");
    assert!(rejected < permits, "levels come behind the families of the node");
}

#[test]
fn a_family_without_metrics_is_refused() {
    let empty = prometheus::proto::MetricFamily::default();
    assert_eq!(encode_metric_families(&vec![empty]), "");
    assert_eq!(encode_metric_families(&Vec::new()), "");
}
