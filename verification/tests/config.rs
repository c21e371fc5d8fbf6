//! Cluster configuration.

use biei::config::{
    compute_bl_capacity, BlCapacityPolicy, ClusterConfig, CostConfig, CostRange, QueueLimits, StandbyRatioError,
};
use rand::SeedableRng;
use rand_xoshiro::Xoshiro256PlusPlus;
use std::time::Duration;

fn costs() -> CostConfig {
    CostConfig {
        style_setup_cost: CostRange::fixed(Duration::from_millis(100)),
        source_load_cost: CostRange::fixed(Duration::ZERO),
        render_cost: CostRange::fixed(Duration::from_millis(10)),
        hop_latency: Duration::ZERO,
        sla: Duration::from_secs(1),
    }
}

#[test]
fn queue_capacity_is_bl_times_multiplier() {
    let cluster = ClusterConfig {
        renderer_slots_per_node: 1,
        render_permits_per_node: None,
        cpu_render_permits_per_node: None,
        bl_capacity: BlCapacityPolicy::Fixed(7),
        queue_capacity_multiplier: 3,
        source_cache_capacity: 1,
        render_output_cache_capacity_bytes: 0,
    };

    assert_eq!(cluster.resolved_queue_limits(&costs()), QueueLimits { soft: 7, hard: 21 });
}

#[test]
fn render_permits_default_to_worker_slots_and_cap_at_slots() {
    let mut cluster = ClusterConfig {
        renderer_slots_per_node: 10,
        render_permits_per_node: None,
        cpu_render_permits_per_node: None,
        bl_capacity: BlCapacityPolicy::Fixed(1),
        queue_capacity_multiplier: 1,
        source_cache_capacity: 1,
        render_output_cache_capacity_bytes: 0,
    };

    assert_eq!(cluster.resolved_render_permits_per_node(), 10);
    assert_eq!(cluster.resolved_cpu_render_permits_per_node(), 10);
    let (slots, permits) = cluster.standby_ratio();
    assert_eq!(slots as f64 / permits as f64, 1.0);
    assert!(cluster.validate_standby_ratio().is_ok());

    cluster.render_permits_per_node = Some(6);
    assert_eq!(cluster.resolved_render_permits_per_node(), 6);
    assert_eq!(cluster.resolved_cpu_render_permits_per_node(), 6);

    cluster.cpu_render_permits_per_node = Some(4);
    assert_eq!(cluster.resolved_cpu_render_permits_per_node(), 4);

    cluster.cpu_render_permits_per_node = Some(12);
    assert_eq!(cluster.resolved_cpu_render_permits_per_node(), 6);

    assert!(cluster.validate_standby_ratio().is_err());

    cluster.render_permits_per_node = Some(12);
    assert_eq!(cluster.resolved_render_permits_per_node(), 10);
    assert_eq!(cluster.resolved_cpu_render_permits_per_node(), 10);
    assert!(cluster.validate_standby_ratio().is_ok());
}

#[test]
fn bounded_load_follows_the_costs() {
    // A setup of 250 ms is worth some fourteen renders of 17.5 ms.
    assert_eq!(
        compute_bl_capacity(
            Duration::from_millis(250),
            Duration::from_micros(17_500),
            Duration::from_secs(1),
        ),
        14
    );
}

#[test]
fn soft_limits_grow_with_setups_and_service_levels() {
    let limit = |s: u64, p: u64, l: u64| {
        let ms = Duration::from_millis;
        compute_bl_capacity(ms(s), ms(p), ms(l))
    };
    assert_eq!(limit(0, 10, 0), 1);
    assert_eq!(limit(30, 10, 1_000), 3);
    assert_eq!(limit(50, 10, 1_000), 5);
    assert_eq!(limit(50, 10, 30), 2);
    assert_eq!(limit(2, 0, 1_000), 2_000, "no time counts as a microsecond");
}

#[test]
fn ranges_are_drawn_from_and_added() {
    let range = CostRange::new(Duration::ZERO, Duration::from_secs(1));
    assert!(range.can_sample() && range.has_middle());
    let long = CostRange::fixed(Duration::MAX);
    assert!(!long.can_sample() && !long.has_middle());
    let half = CostRange::fixed(Duration::MAX / 2);
    assert!(!half.can_sample() && half.has_middle());
}

#[test]
fn samples_lie_in_the_range() {
    let range = CostRange::new(Duration::from_micros(5), Duration::from_micros(9));
    let mut rng = Xoshiro256PlusPlus::seed_from_u64(1);
    for _ in 0..100 {
        let d = range.sample(&mut rng);
        assert!(range.min <= d && d <= range.max);
    }
    assert_eq!(range.mid(), Duration::from_micros(7));
    assert_eq!(
        CostRange::fixed(Duration::from_millis(3)).sample(&mut rng),
        Duration::from_millis(3)
    );
}

#[test]
fn too_many_warm_slots_are_named() {
    let error = StandbyRatioError { slots: 10, permits: 6 };
    assert_eq!(
        error.message(),
        "renderer_slots/render_permits ratio is 1.67x; ratios above 1.5x are rejected by the \
         production guardrail"
    );
}
