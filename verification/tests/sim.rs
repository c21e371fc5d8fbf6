//! Workloads, scenarios and reports of simulations.

use biei::config::{CostRange, Tier1Strategy};
use biei::http::internal::ForwardError;
use biei::sim::cluster::{
    gossip_address, on_delivery, seed_addresses, MomentaryView, StubRenderer,
};
use biei::sim::config::{
    BurstPattern, SimConfig, SourcePattern, SourceProvider, StyleDist, StyleShift,
};
use biei::sim::harness::{config_text, Simulation, SEED_MIX};
use biei::sim::report::{MetricsCollector, Report};
use biei::sim::report_text::{csv_header, csv_label, csv_row};
use biei::sim::scenarios;
use biei::sim::sorting::{peak_overlap, sort};
use biei::sim::workload::{
    apply_style_shift, current_rate, draw_rare, in_burst, index_of_rank, is_drawable, is_usable,
    kept_source, path_namespaced, rare_arrivals, render_request_for_style, replace_source, sample_from_dist,
    sample_style, takes_source, Arrivals, PeriodicPool, SourceGenState, WorkloadRun, ARRIVAL_UNIT,
    CENTER_LAT, CENTER_LON, CENTER_ZOOM, ONE_SHOT_BIT,
};
use biei::types::{
    CachePolicy, CompletedInfo, FailureKind, ImageFormat, InternalTask, RejectionReason,
    RenderOutput, RenderRequest, RouteTier, Scale, SourceRef, StyleRevision, TaskOutcome,
    TaskResult,
};
use rand::{RngExt, SeedableRng};
use rand_xoshiro::Xoshiro256PlusPlus;
use std::time::Duration;

const MS: u64 = 1_000_000;
const SECOND: u64 = 1_000_000_000;

fn generator() -> Xoshiro256PlusPlus {
    Xoshiro256PlusPlus::seed_from_u64(7)
}

fn outcome(result: TaskResult) -> TaskOutcome {
    TaskOutcome {
        task_id: 1,
        request_id: "sim".to_string(),
        arrived_at: 0,
        had_source: true,
        deadline_stage: None,
        result,
    }
}

fn completed(tier: RouteTier, cpu_started_at: u64, completed_at: u64) -> TaskOutcome {
    outcome(TaskResult::Completed {
        info: CompletedInfo {
            node_id: "n".to_string(),
            worker_id: Some(0),
            route_tier: tier,
            started_at: 0,
            cpu_started_at,
            cpu_completed_at: completed_at,
            completed_at,
            style_swap: false,
            cold_start: tier == RouteTier::Tier2HrwBl,
            source_loaded: tier == RouteTier::Tier2HrwBl,
            admitted_at_overflow: false,
        },
        output: RenderOutput { bytes: Vec::new(), format: ImageFormat::Png },
    })
}

fn sample_report() -> Report {
    let mut collector = MetricsCollector::with_cpu_render_permits(2);
    collector.record(completed(RouteTier::Tier1WarmTracking, 10 * MS, 20 * MS));
    collector.record(completed(RouteTier::Tier1WarmTracking, 15 * MS, 40 * MS));
    collector.record(completed(RouteTier::Tier2HrwBl, 40 * MS, 100 * MS));
    collector.record(outcome(TaskResult::Rejected { reason: RejectionReason::QueueFull }));
    collector.record(outcome(TaskResult::Failed {
        error: "broken".to_string(),
        kind: FailureKind::Other,
    }));
    collector.report(50 * MS)
}

#[test]
fn reports_account_for_every_task() {
    let report = sample_report();
    assert_eq!(report.total, 5);
    assert_eq!((report.completed, report.rejected, report.failed), (3, 1, 1));
    assert_eq!(report.rejection_by_reason, vec![(RejectionReason::QueueFull, 1)]);
    assert_eq!(report.failure_by_error, vec![("broken".to_string(), 1)]);
    assert_eq!(report.sla_violations, 1);
    assert_eq!(report.latency_p50, 40 * MS);
    assert_eq!(report.latency_max, 100 * MS);
    assert_eq!(report.cold_starts, 1);
    assert_eq!((report.source_loads, report.source_hits), (1, 2));
    assert_eq!(report.tier_counts.get(RouteTier::Tier1WarmTracking), 2);
    assert_eq!(report.tier_counts.get(RouteTier::Tier3DrainSwap), 0);
    assert_eq!(report.cpu_render_busy, (10 + 25 + 60) * MS as u128);
    assert_eq!(report.cpu_render_peak_inflight, 2);
}

#[test]
fn empty_reports_are_all_zero() {
    let report = MetricsCollector::new().report(SECOND);
    assert_eq!(report.total, 0);
    assert_eq!(report.latency_p99, 0);
    assert_eq!(report.cpu_render_peak_inflight, 0);
}

#[test]
fn reports_are_written_for_people_and_tables() {
    let report = sample_report();
    let text = report.to_human_readable();
    assert!(text.contains("completed"));
    assert!(text.contains("queue_full") || text.contains("QueueFull"));
    let row = csv_row("a,b", &report);
    assert!(row.starts_with("\"a,b\",5,3,1,1,"));
    assert!(row.ends_with('\n'));
    // The quoted label holds one comma of its own.
    assert_eq!(row.matches(',').count(), csv_header().matches(',').count() + 1);
    assert_eq!(csv_label("say \"x\""), "\"say \"\"x\"\"\"");
    assert_eq!(csv_label("plain"), "plain");
}

#[test]
fn numbers_are_sorted_and_overlaps_counted() {
    assert_eq!(sort(&vec![3, 1, 2, 1]), vec![1, 1, 2, 3]);
    assert_eq!(peak_overlap(&vec![(0, 10), (5, 15), (10, 20)]), 3);
    assert_eq!(peak_overlap(&vec![(0, 10), (1, 9), (2, 8)]), 3);
    assert_eq!(peak_overlap(&vec![]), 0);
}

#[test]
fn bursts_come_at_the_start_of_every_period() {
    let burst = BurstPattern { period: 10, duration: 3, multiplier: 2_500, style_focus: Some(9) };
    assert!(in_burst(102, 100, &burst));
    assert!(!in_burst(103, 100, &burst));
    assert!(in_burst(110, 100, &burst));
    assert!(!in_burst(0, 0, &BurstPattern { period: 0, ..burst }));
    assert_eq!(current_rate(101, 100, 4_000, &Some(burst)), 10_000_000);
    assert_eq!(current_rate(105, 100, 4_000, &Some(burst)), 4_000_000);
    assert_eq!(current_rate(105, 100, 4_000, &None), 4_000_000);

    let mut config = SimConfig::default().workload;
    config.burst_pattern = Some(burst);
    let rng = &mut generator();
    assert_eq!(sample_style(100, 100, 50, &config, &|_, _, _| 4, rng), 9);
    assert_eq!(sample_style(105, 100, 50, &config, &|_, _, _| 4, rng), 3);
}

#[test]
fn styles_change_places() {
    let shift = Some(StyleShift { at: 10, with: 5 });
    assert_eq!(apply_style_shift(0, 9, 0, &shift), 0);
    assert_eq!(apply_style_shift(0, 10, 0, &shift), 5);
    assert_eq!(apply_style_shift(5, 10, 0, &shift), 0);
    assert_eq!(apply_style_shift(7, 10, 0, &shift), 7);
    assert_eq!(apply_style_shift(0, 5, 100, &shift), 0, "before the start nothing changes");
    assert_eq!(apply_style_shift(0, u64::MAX, u64::MAX, &shift), 0);
}

#[test]
fn draws_stay_in_range() {
    let rng = &mut generator();
    let mut seen = [false; 4];
    for _ in 0..200 {
        seen[sample_from_dist(&StyleDist::Uniform, 4, &|_, _, _| 1, rng)] = true;
    }
    assert_eq!(seen, [true; 4]);
    let weights = StyleDist::Custom(vec![0, 1_000, 0]);
    for _ in 0..50 {
        assert_eq!(sample_from_dist(&weights, 3, &|_, _, _| 1, rng), 1);
    }
    let zipf = StyleDist::Zipf { alpha: 1_200 };
    assert_eq!(sample_from_dist(&zipf, 10, &|_, _, _| 3, rng), 2);
    assert_eq!(sample_from_dist(&zipf, 10, &|_, _, _| 99, rng), 9);
    let drawn = |_: usize, _: u64, rng: &mut Xoshiro256PlusPlus| rng.random_range(1..=10);
    let mut drawn_ranks = [false; 10];
    for _ in 0..1_000 {
        drawn_ranks[sample_from_dist(&zipf, 10, &drawn, rng)] = true;
    }
    assert_eq!(drawn_ranks, [true; 10], "ranks are drawn from the one generator");
    assert_eq!(draw_rare(0, rng), 0);
    assert_eq!(draw_rare(ARRIVAL_UNIT, rng), 1);
}

#[test]
fn the_first_styles_are_tiles() {
    assert!(matches!(
        render_request_for_style(1, 2),
        RenderRequest::Tile { z: 14, x: 0, y: 0, tile_size: 512 }
    ));
    assert!(matches!(
        render_request_for_style(2, 2),
        RenderRequest::StaticImage { width: 512, height: 512, .. }
    ));
    assert_eq!(f64::from_bits(CENTER_LON), 139.767);
    assert_eq!(f64::from_bits(CENTER_LAT), 35.681);
    assert_eq!(f64::from_bits(CENTER_ZOOM), 12.0);
}

#[test]
fn branches_keep_sources_apart() {
    assert_eq!(path_namespaced(&vec![], 5), 5);
    assert_eq!(path_namespaced(&vec![2], 5), (2 << 56) + 5);
    assert_eq!(path_namespaced(&vec![2, 3], 5), (2 << 56) + (3 << 49) + 5);
    assert_ne!(path_namespaced(&vec![0, 1], 5), path_namespaced(&vec![1, 1], 5));
    assert!(path_namespaced(&vec![0, 1], 5) < ONE_SHOT_BIT);
    assert!(path_namespaced(&vec![1, 1], 5) < ONE_SHOT_BIT);
    assert_ne!(path_namespaced(&vec![1], 1 << 49), path_namespaced(&vec![0, 1], 0));
    assert!(path_namespaced(&vec![127; 12], u64::MAX) < ONE_SHOT_BIT);
    assert!(path_namespaced(&vec![127], u64::MAX) < ONE_SHOT_BIT);
}

fn source(state: &mut SourceGenState, provider: SourceProvider, now: u64) -> Option<SourceRef> {
    let pattern = SourcePattern { probability: 1_000, provider };
    state.sample(&pattern, now, &|_, _, _| 2, &mut generator())
}

#[test]
fn one_shot_sources_are_new_every_time() {
    let mut state = SourceGenState::init(None, 0, &mut generator());
    let first = source(&mut state, SourceProvider::OneShot, 0).expect("source");
    let second = source(&mut state, SourceProvider::OneShot, 0).expect("source");
    assert_ne!(first.hash, second.hash);
    assert!(first.hash >= ONE_SHOT_BIT);
    assert_eq!(first.policy, CachePolicy::OneShot);
    let shared = SourceProvider::Shared {
        source_count: 10,
        distribution: StyleDist::Zipf { alpha: 1_000 },
    };
    let kept = source(&mut state, shared, 0).expect("source");
    assert_eq!((kept.hash, kept.policy), (1, CachePolicy::Cacheable));
    let never = SourcePattern { probability: 0, provider: SourceProvider::OneShot };
    assert_eq!(state.sample(&never, 0, &|_, _, _| 1, &mut generator()), None);
}

#[test]
fn draws_decide_what_comes() {
    assert!(takes_source(199, 200) && !takes_source(200, 200) && !takes_source(0, 0));
    assert_eq!((rare_arrivals(9, 10), rare_arrivals(10, 10), rare_arrivals(0, 0)), (1, 0, 0));

    let mut pool =
        PeriodicPool { path: vec![1], pool: vec![7, 8], next_refresh: vec![100, 200] };
    replace_source(&mut pool, 1, 50, 300, ONE_SHOT_BIT + 3, 4);
    assert_eq!(kept_source(&pool, 1), SourceRef { hash: 3, policy: CachePolicy::Cacheable });
    assert_eq!((pool.pool, pool.next_refresh), (vec![7, 3], vec![100, 354]));
    assert_eq!([0, 1, 2, 5, 6].map(|rank| index_of_rank(rank, 5)), [0, 0, 1, 4, 4]);

    let mut state = SourceGenState::init(None, 0, &mut generator());
    let pattern = SourcePattern { probability: 500, provider: SourceProvider::OneShot };
    let zipf = |_: usize, _: u64, _: &mut Xoshiro256PlusPlus| 1;
    let rng = &mut generator();
    assert_eq!(state.sample_drawn(500, &pattern, 0, &zipf, rng), None);
    assert_eq!(state.oneshot_counter, 0);
    assert!(state.sample_drawn(499, &pattern, 0, &zipf, rng).is_some());
    let added = (0..200).filter(|_| state.sample(&pattern, 0, &zipf, rng).is_some()).count();
    assert!(added > 0 && added < 200, "half of the requests add a source");
}

#[test]
fn what_cannot_be_drawn_from_is_told() {
    assert!(is_drawable(&StyleDist::Uniform, 0));
    assert!(is_drawable(&StyleDist::Custom(vec![0, 1]), 2));
    assert!(!is_drawable(&StyleDist::Custom(vec![0, 1]), 1), "the first weight is zero");
    assert!(!is_drawable(&StyleDist::Custom(vec![u64::MAX, 1]), 2));
    let periodic =
        |jitter| SourceProvider::PeriodicRefresh { source_count: 1, interval: 10, jitter };
    assert!(is_usable(&periodic(0), u64::MAX - 10));
    assert!(!is_usable(&periodic(1), u64::MAX - 10));
    let mixed = |weight, provider| SourceProvider::Mixed(vec![(weight, Box::new(provider))]);
    assert!(is_usable(&mixed(1, SourceProvider::OneShot), 0));
    assert!(!is_usable(&mixed(0, SourceProvider::OneShot), 0));
    assert!(!is_usable(&mixed(1, periodic(u64::MAX)), 0));
    assert!(is_usable(&SourceProvider::Mixed(Vec::new()), 0));
}

#[test]
fn periodic_sources_are_replaced() {
    let provider =
        || SourceProvider::PeriodicRefresh { source_count: 1, interval: 10, jitter: 0 };
    let pattern = SourcePattern { probability: 1_000, provider: provider() };
    let mut state = SourceGenState::init(Some(&pattern), 0, &mut generator());
    assert_eq!(state.periodic_pools.len(), 1);
    let first = source(&mut state, provider(), 0).expect("source");
    assert_eq!(source(&mut state, provider(), 0), Some(first));
    let later = source(&mut state, provider(), 1_000).expect("source");
    assert_ne!(first.hash, later.hash);
}

#[test]
fn ticks_draw_for_the_time_they_took() {
    let config = SimConfig::default().workload;
    let mut run = WorkloadRun::new(&config, 100, Some(50));
    assert!(!run.new_style_due(149));
    assert!(run.new_style_due(150));
    run.add_style(150, 25);
    assert_eq!((run.style_count, run.next_new_style_at), (51, Some(175)));
    assert_eq!(run.tick(100, &config), Arrivals::Nobody);
    assert_eq!(run.tick(100 + MS / 10, &config), Arrivals::Rare { chance: 10_000_000_000 });
    assert_eq!(run.tick(100 + MS / 10 + SECOND, &config), Arrivals::Many {
        mean: 100 * ARRIVAL_UNIT as u128,
    });
    assert!(run.is_over(100 + 30 * SECOND));
    assert!(!run.is_recorded(99 + 2 * SECOND));
    assert!(run.is_recorded(100 + 2 * SECOND));
    let task = run.next_task(200, 3, None, 0, "r".to_string());
    assert_eq!((task.id, task.style.id.as_str()), (0, "style-3"));
    assert_eq!(task.deadline, 200 + 30 * SECOND);
    assert_eq!(run.next_task(200, 3, None, 0, "r".to_string()).id, 1);
}

#[test]
fn scenarios_have_their_sizes() {
    let base = scenarios::production_base();
    assert_eq!((base.node_count, base.cluster.renderer_slots_per_node), (4, 16));
    assert_eq!(base.workload.total_rate, 1_000_000);
    assert!(matches!(base.workload.style_distribution, StyleDist::Zipf { alpha: 1_200 }));
    assert_eq!(base.routing.tier1_strategy, Tier1Strategy::PowerOfTwo);
    let sweep = scenarios::bl_alpha_sweep(5, 900);
    assert!(matches!(sweep.workload.style_distribution, StyleDist::Zipf { alpha: 900 }));
    assert_eq!(sweep.workload.duration, 15 * SECOND);
    let large = scenarios::large_scale_16cores(2_000, Duration::from_millis(250));
    assert_eq!((large.node_count, large.workload.tile_style_count), (25, 2));
    assert_eq!(large.gossip.publish_interval, Duration::from_millis(250));
    assert_eq!(scenarios::source_pattern_scenarios().len(), 7);
}

#[test]
fn nodes_get_their_own_seeds() {
    let simulation = Simulation::new(SimConfig::default());
    let plan = simulation.plan();
    assert_eq!((plan.node_count, plan.renderer_slots_per_node), (8, 4));
    assert_eq!(plan.cpu_render_permits_total, 32);
    let seeds = simulation.node_seeds(2);
    let expected = 42u64
        .wrapping_add(2u64.wrapping_mul(SEED_MIX))
        .wrapping_add(1u64.wrapping_mul(SEED_MIX.wrapping_mul(3)));
    assert_eq!(seeds.renderers.len(), 4);
    assert_eq!(seeds.renderers[1], expected);
    assert_ne!(seeds.dispatcher, simulation.node_seeds(3).dispatcher);
}

#[test]
fn configurations_are_shown() {
    let text = config_text(&SimConfig::default());
    assert!(text.contains("styles:            50 initial (+0.1/s new)\n"));
    assert!(text.contains("arrival rate:      100.00 req/s\n"));
    assert!(text.contains("duration:          30.00s\n") || text.contains("duration:          30s\n"));
}

#[test]
fn stub_renderers_take_their_time() {
    let range = CostRange::new(Duration::from_micros(10), Duration::from_micros(20));
    let fixed = CostRange::fixed(Duration::from_millis(3));
    let task = InternalTask {
        id: 1,
        request_id: "sim".to_string(),
        style: StyleRevision { id: "style-1".to_string(), version: 1 },
        source: None,
        request: RenderRequest::Tile { z: 0, x: 0, y: 0, tile_size: 512 },
        pixel_ratio: Scale::X1,
        output_format: ImageFormat::Png,
        arrived_at: 0,
        deadline: SECOND,
        forwarding_hops: 0,
    };
    let mut renderer = StubRenderer::new(range, fixed, range, 7);
    let mut again = StubRenderer::new(range, fixed, range, 7);
    let mut other = StubRenderer::new(range, fixed, range, 8);
    let mut differs = false;
    for _ in 0..20 {
        let time = renderer.setup_time(&task);
        assert!(time >= range.min && time <= range.max);
        assert_eq!(again.setup_time(&task), time);
        differs = differs || other.setup_time(&task) != time;
    }
    assert!(differs, "another seed gives other times");
    assert_eq!(renderer.source_time(&task), Duration::from_millis(3));
    assert!(renderer.render_time(&task) <= range.max);
}

#[test]
fn deliveries_need_time_and_a_node() {
    let text = |r: Result<(), ForwardError>| match r {
        Err(ForwardError::Retryable(text)) => text,
        _ => String::new(),
    };
    assert!(on_delivery("n", 4, 5, true).is_ok());
    assert_eq!(text(on_delivery("n", 5, 5, false)), "deadline_exceeded");
    assert_eq!(text(on_delivery("n", 4, 5, false)), "unknown node n");
    assert_eq!(gossip_address(3), "127.0.0.1:10003");
    assert_eq!(seed_addresses(3, 1), vec!["127.0.0.1:10000", "127.0.0.1:10002"]);
}

#[test]
fn momentary_views_end_with_the_moment() {
    let mut view: MomentaryView<u32> = MomentaryView::new();
    view.store(0, 10, 1);
    assert_eq!(view.lookup(10), Some(&1));
    assert_eq!(view.lookup(11), None);
    view.on_set();
    assert_eq!(view.lookup(10), None);
    view.store(0, 10, 2);
    assert_eq!(view.lookup(10), None);
}
