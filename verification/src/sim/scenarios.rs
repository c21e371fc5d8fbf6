//! Scenarios: configurations for one purpose each.

use vstd::prelude::*;
use std::time::Duration;
use crate::config::{BlCapacityPolicy, ClusterConfig};
use crate::sim::config::{
    SECOND, SimConfig, SourcePattern, SourceProvider, StyleDist, StyleShift, WorkloadConfig,
    default_cluster, default_rest,
};
use crate::time::nanos;

verus! {

/// The gossip interval that scenarios start from.
pub open spec fn default_gossip(c: SimConfig) -> bool {
    nanos(c.gossip.publish_interval) == 100_000_000
}

/// The workload, but for what a scenario sets, is the default one.
pub open spec fn is_workload(
    w: WorkloadConfig,
    styles: usize,
    dist: StyleDist,
    rate: u64,
    seconds: nat,
) -> bool {
    &&& w.style_count == styles
    &&& w.tile_style_count == 0
    &&& w.style_distribution == dist
    &&& w.new_style_rate == 0
    &&& w.total_rate == rate
    &&& w.duration == seconds * SECOND
    &&& w.warmup == 2 * SECOND
    &&& w.burst_pattern is None
    &&& w.style_shift is None
}

/// A cluster of the size that production has: four nodes of sixteen slots, fifteen
/// styles, a thousand requests per second for thirty seconds.
pub fn production_base() -> (r: SimConfig)
    ensures
        r.node_count == 4,
        r.cluster == (ClusterConfig { renderer_slots_per_node: 16, ..default_cluster() }),
        default_rest(r),
        default_gossip(r),
        is_workload(r.workload, 15, StyleDist::Zipf { alpha: 1_200 }, 1_000_000, 30),
        r.workload.source_pattern is None,
{
    let mut cfg = SimConfig::default();
    cfg.node_count = 4;
    cfg.cluster.renderer_slots_per_node = 16;
    cfg.workload.style_count = 15;
    cfg.workload.style_distribution = StyleDist::Zipf { alpha: 1_200 };
    cfg.workload.new_style_rate = 0;
    cfg.workload.total_rate = 1_000_000;
    cfg.workload.duration = 30 * SECOND;
    cfg
}

/// A load that production carries without rejecting anything.
pub fn production_sanity() -> (r: SimConfig)
    ensures
        r.node_count == 4,
        r.cluster == (ClusterConfig { renderer_slots_per_node: 16, ..default_cluster() }),
        default_rest(r),
        default_gossip(r),
        is_workload(r.workload, 15, StyleDist::Zipf { alpha: 1_200 }, 1_000_000, 30),
        r.workload.source_pattern is None,
{
    let mut cfg = production_base();
    cfg.workload.source_pattern = None;
    cfg
}

/// A small cluster with tight queues and a rate that saturates it: slots are
/// drained and swapped.
pub fn tier3_drain_swap() -> (r: SimConfig)
    ensures
        r.node_count == 1,
        r.cluster == (ClusterConfig {
            renderer_slots_per_node: 3,
            bl_capacity: BlCapacityPolicy::Fixed(2),
            ..default_cluster()
        }),
        default_rest(r),
        default_gossip(r),
        is_workload(r.workload, 5, StyleDist::Zipf { alpha: 1_000 }, 25_000, 15),
        r.workload.source_pattern is None,
{
    let mut cfg = SimConfig::default();
    cfg.node_count = 1;
    cfg.cluster.renderer_slots_per_node = 3;
    cfg.cluster.bl_capacity = BlCapacityPolicy::Fixed(2);
    cfg.workload.style_count = 5;
    cfg.workload.style_distribution = StyleDist::Zipf { alpha: 1_000 };
    cfg.workload.new_style_rate = 0;
    cfg.workload.total_rate = 25_000;
    cfg.workload.duration = 15 * SECOND;
    cfg.workload.source_pattern = None;
    cfg
}

/// More popular styles than slots: requests overflow.
pub fn tier4_underprovisioned() -> (r: SimConfig)
    ensures
        r.node_count == 1,
        r.cluster == (ClusterConfig {
            renderer_slots_per_node: 4,
            bl_capacity: BlCapacityPolicy::Fixed(2),
            ..default_cluster()
        }),
        default_rest(r),
        default_gossip(r),
        is_workload(r.workload, 12, StyleDist::Uniform, 80_000, 15),
        r.workload.source_pattern is None,
{
    let mut cfg = SimConfig::default();
    cfg.node_count = 1;
    cfg.cluster.renderer_slots_per_node = 4;
    cfg.cluster.bl_capacity = BlCapacityPolicy::Fixed(2);
    cfg.workload.style_count = 12;
    cfg.workload.style_distribution = StyleDist::Uniform;
    cfg.workload.new_style_rate = 0;
    cfg.workload.total_rate = 80_000;
    cfg.workload.duration = 15 * SECOND;
    cfg.workload.source_pattern = None;
    cfg
}

/// Twenty sources for half of the requests, some much more often than others.
pub fn shared_high_reuse() -> (r: SourcePattern)
    ensures
        r == (SourcePattern {
            probability: 500,
            provider: SourceProvider::Shared {
                source_count: 20,
                distribution: StyleDist::Zipf { alpha: 800 },
            },
        }),
{
    SourcePattern {
        probability: 500,
        provider: SourceProvider::Shared {
            source_count: 20,
            distribution: StyleDist::Zipf { alpha: 800 },
        },
    }
}

/// A hundred sources for half of the requests, all as often.
pub fn shared_low_reuse() -> (r: SourcePattern)
    ensures
        r == (SourcePattern {
            probability: 500,
            provider: SourceProvider::Shared {
                source_count: 100,
                distribution: StyleDist::Uniform,
            },
        }),
{
    SourcePattern {
        probability: 500,
        provider: SourceProvider::Shared { source_count: 100, distribution: StyleDist::Uniform },
    }
}

/// A source of its own for half of the requests.
pub fn one_shot() -> (r: SourcePattern)
    ensures
        r == (SourcePattern { probability: 500, provider: SourceProvider::OneShot }),
{
    SourcePattern { probability: 500, provider: SourceProvider::OneShot }
}

/// A source that is replaced every two seconds, for half of the requests.
pub fn periodic_refresh_demo() -> (r: SourcePattern)
    ensures
        r == (SourcePattern {
            probability: 500,
            provider: SourceProvider::PeriodicRefresh {
                source_count: 1,
                interval: 2_000_000_000,
                jitter: 200_000_000,
            },
        }),
{
    SourcePattern {
        probability: 500,
        provider: SourceProvider::PeriodicRefresh {
            source_count: 1,
            interval: 2_000_000_000,
            jitter: 200_000_000,
        },
    }
}

/// The choices of a mix, by weight.
pub open spec fn choice_views(choices: Seq<(u64, Box<SourceProvider>)>) -> Seq<(u64, SourceProvider)> {
    Seq::new(choices.len(), |i: int| (choices[i].0, *choices[i].1))
}

/// The provider is a mix of these.
pub open spec fn is_mix(provider: SourceProvider, choices: Seq<(u64, SourceProvider)>) -> bool {
    match provider {
        SourceProvider::Mixed(list) => choice_views(list@) == choices,
        _ => false,
    }
}

/// Services of all three kinds, for six requests in ten.
pub fn mixed_services() -> (r: SourcePattern)
    ensures
        is_mixed_services(r),
{
    let mut choices: Vec<(u64, Box<SourceProvider>)> = Vec::new();
    choices.push(
        (
            500,
            Box::new(
                SourceProvider::Shared {
                    source_count: 20,
                    distribution: StyleDist::Zipf { alpha: 1_000 },
                },
            ),
        ),
    );
    choices.push(
        (
            300,
            Box::new(
                SourceProvider::PeriodicRefresh {
                    source_count: 1,
                    interval: 5_000_000_000,
                    jitter: 500_000_000,
                },
            ),
        ),
    );
    choices.push((200, Box::new(SourceProvider::OneShot)));
    assert(choice_views(choices@) =~= seq![
        (
            500u64,
            SourceProvider::Shared {
                source_count: 20,
                distribution: StyleDist::Zipf { alpha: 1_000 },
            },
        ),
        (
            300u64,
            SourceProvider::PeriodicRefresh {
                source_count: 1,
                interval: 5_000_000_000,
                jitter: 500_000_000,
            },
        ),
        (200u64, SourceProvider::OneShot),
    ]);
    SourcePattern { probability: 600, provider: SourceProvider::Mixed(choices) }
}

/// A map service: two requests in ten add a layer, of boundaries of three kinds
/// or of rain clouds, which are replaced every five minutes.
pub fn jp_map() -> (r: SourcePattern)
    ensures
        is_jp_map(r),
{
    let mut choices: Vec<(u64, Box<SourceProvider>)> = Vec::new();
    choices.push(
        (
            600,
            Box::new(
                SourceProvider::Shared {
                    source_count: 3,
                    distribution: StyleDist::Zipf { alpha: 500 },
                },
            ),
        ),
    );
    choices.push(
        (
            400,
            Box::new(
                SourceProvider::PeriodicRefresh {
                    source_count: 1,
                    interval: 300_000_000_000,
                    jitter: 30_000_000_000,
                },
            ),
        ),
    );
    assert(choice_views(choices@) =~= seq![
        (
            600u64,
            SourceProvider::Shared {
                source_count: 3,
                distribution: StyleDist::Zipf { alpha: 500 },
            },
        ),
        (
            400u64,
            SourceProvider::PeriodicRefresh {
                source_count: 1,
                interval: 300_000_000_000,
                jitter: 30_000_000_000,
            },
        ),
    ]);
    SourcePattern { probability: 200, provider: SourceProvider::Mixed(choices) }
}

/// The provider is of the map service.
pub open spec fn is_jp_map(p: SourcePattern) -> bool {
    p.probability == 200 && is_mix(
        p.provider,
        seq![
            (
                600u64,
                SourceProvider::Shared {
                    source_count: 3,
                    distribution: StyleDist::Zipf { alpha: 500 },
                },
            ),
            (
                400u64,
                SourceProvider::PeriodicRefresh {
                    source_count: 1,
                    interval: 300_000_000_000,
                    jitter: 30_000_000_000,
                },
            ),
        ],
    )
}

/// The provider is of services of all three kinds.
pub open spec fn is_mixed_services(p: SourcePattern) -> bool {
    p.probability == 600 && is_mix(
        p.provider,
        seq![
            (
                500u64,
                SourceProvider::Shared {
                    source_count: 20,
                    distribution: StyleDist::Zipf { alpha: 1_000 },
                },
            ),
            (
                300u64,
                SourceProvider::PeriodicRefresh {
                    source_count: 1,
                    interval: 5_000_000_000,
                    jitter: 500_000_000,
                },
            ),
            (200u64, SourceProvider::OneShot),
        ],
    )
}

/// Source patterns with their labels.
pub fn source_pattern_scenarios() -> (r: Vec<(&'static str, Option<SourcePattern>)>)
    ensures
        r@.len() == 7,
        r@[0].0@ == "None (baseline)"@ && r@[0].1 is None,
        r@[1].0@ == "Shared(20, Zipf 0.8) — high reuse"@ && r@[1].1 == Some(
            SourcePattern {
                probability: 500,
                provider: (SourceProvider::Shared {
                    source_count: 20,
                    distribution: (StyleDist::Zipf { alpha: 800 }),
                }),
            },
        ),
        r@[2].0@ == "Shared(100, Uniform) — low reuse"@ && r@[2].1 == Some(
            SourcePattern {
                probability: 500,
                provider: (SourceProvider::Shared {
                    source_count: 100,
                    distribution: StyleDist::Uniform,
                }),
            },
        ),
        r@[3].0@ == "OneShot — no cache benefit"@ && r@[3].1 == Some(
            SourcePattern { probability: 500, provider: SourceProvider::OneShot },
        ),
        r@[4].0@ == "PeriodicRefresh(1, 2s) — periodic spikes"@ && r@[4].1 == Some(
            SourcePattern {
                probability: 500,
                provider: (SourceProvider::PeriodicRefresh {
                    source_count: 1,
                    interval: 2_000_000_000,
                    jitter: 200_000_000,
                }),
            },
        ),
        r@[5].0@ == "Mixed services: 50% Shared / 30% Periodic / 20% OneShot"@,
        r@[5].1 is Some && is_mixed_services(r@[5].1->0),
        r@[6].0@ == "JP map: 20% w/ addlayer (60% 行政界 / 40% 雨雲)"@,
        r@[6].1 is Some && is_jp_map(r@[6].1->0),
{
    let mut out: Vec<(&'static str, Option<SourcePattern>)> = Vec::new();
    out.push(("None (baseline)", None));
    out.push(("Shared(20, Zipf 0.8) — high reuse", Some(shared_high_reuse())));
    out.push(("Shared(100, Uniform) — low reuse", Some(shared_low_reuse())));
    out.push(("OneShot — no cache benefit", Some(one_shot())));
    out.push(("PeriodicRefresh(1, 2s) — periodic spikes", Some(periodic_refresh_demo())));
    out.push(
        ("Mixed services: 50% Shared / 30% Periodic / 20% OneShot", Some(mixed_services())),
    );
    out.push(("JP map: 20% w/ addlayer (60% 行政界 / 40% 雨雲)", Some(jp_map())));
    out
}

/// The cluster of production size, with a source pattern.
pub fn with_source_pattern(pattern: Option<SourcePattern>) -> (r: SimConfig)
    ensures
        r.node_count == 4,
        r.cluster == (ClusterConfig { renderer_slots_per_node: 16, ..default_cluster() }),
        default_rest(r),
        default_gossip(r),
        is_workload(r.workload, 15, StyleDist::Zipf { alpha: 1_200 }, 1_000_000, 30),
        r.workload.source_pattern == pattern,
{
    let mut cfg = production_base();
    cfg.workload.source_pattern = pattern;
    cfg
}

/// A soft queue limit against an exponent, at a load that makes the limit bite.
pub fn bl_alpha_sweep(bl: usize, alpha: u64) -> (r: SimConfig)
    ensures
        r.node_count == 8,
        r.cluster == (ClusterConfig {
            bl_capacity: BlCapacityPolicy::Fixed(bl),
            ..default_cluster()
        }),
        default_rest(r),
        default_gossip(r),
        is_workload(r.workload, 50, StyleDist::Zipf { alpha }, 1_400_000, 15),
        r.workload.source_pattern is None,
{
    let mut cfg = SimConfig::default();
    cfg.cluster.bl_capacity = BlCapacityPolicy::Fixed(bl);
    cfg.workload.style_distribution = StyleDist::Zipf { alpha };
    cfg.workload.new_style_rate = 0;
    cfg.workload.source_pattern = None;
    cfg.workload.total_rate = 1_400_000;
    cfg.workload.duration = 15 * SECOND;
    cfg
}

/// A number of nodes against a number of slots on each.
pub fn cluster_sizing_sweep(node_count: usize, renderer_slots_per_node: usize) -> (r: SimConfig)
    ensures
        r.node_count == node_count,
        r.cluster == (ClusterConfig { renderer_slots_per_node, ..default_cluster() }),
        default_rest(r),
        default_gossip(r),
        is_workload(r.workload, 10, StyleDist::Zipf { alpha: 1_200 }, 1_000_000, 15),
        r.workload.source_pattern is None,
{
    let mut cfg = SimConfig::default();
    cfg.node_count = node_count;
    cfg.cluster.renderer_slots_per_node = renderer_slots_per_node;
    cfg.workload.style_count = 10;
    cfg.workload.style_distribution = StyleDist::Zipf { alpha: 1_200 };
    cfg.workload.new_style_rate = 0;
    cfg.workload.total_rate = 1_000_000;
    cfg.workload.source_pattern = None;
    cfg.workload.duration = 15 * SECOND;
    cfg
}

/// A distribution of styles, at a hundred requests per second for twenty seconds.
pub fn style_dist_sweep(dist: StyleDist) -> (r: SimConfig)
    ensures
        r.node_count == 8,
        r.cluster == default_cluster(),
        default_rest(r),
        default_gossip(r),
        is_workload(r.workload, 50, dist, 100_000, 20),
        r.workload.source_pattern is None,
{
    let mut cfg = SimConfig::default();
    cfg.workload.total_rate = 100_000;
    cfg.workload.new_style_rate = 0;
    cfg.workload.style_distribution = dist;
    cfg.workload.duration = 20 * SECOND;
    cfg
}

/// The large cluster: twenty-five nodes, sixteen styles of which two are tiles,
/// and the sources of the map service.
pub open spec fn is_large(r: SimConfig, cluster: ClusterConfig, rate: u64, publish: Duration) -> bool {
    &&& r.node_count == 25
    &&& r.cluster == cluster
    &&& default_rest(r)
    &&& r.gossip.publish_interval == publish
    &&& r.workload.style_count == 16
    &&& r.workload.tile_style_count == 2
    &&& r.workload.style_distribution == (StyleDist::Zipf { alpha: 1_200 })
    &&& r.workload.new_style_rate == 0
    &&& r.workload.total_rate == rate
    &&& r.workload.warmup == 2 * SECOND
    &&& r.workload.burst_pattern is None
    &&& r.workload.source_pattern is Some
    &&& is_jp_map(r.workload.source_pattern->0)
}

/// The cluster that the large scenarios start from.
pub open spec fn large_cluster() -> ClusterConfig {
    ClusterConfig {
        renderer_slots_per_node: 20,
        render_permits_per_node: Some(16),
        queue_capacity_multiplier: 4,
        ..default_cluster()
    }
}

/// Twenty-five nodes of twenty slots and sixteen permits, at some rate.
pub fn large_scale_16cores(total_rate: u64, publish_interval: Duration) -> (r: SimConfig)
    ensures
        is_large(r, large_cluster(), total_rate, publish_interval),
        r.workload.duration == 8 * SECOND,
        r.workload.style_shift is None,
{
    let mut cfg = SimConfig::default();
    cfg.node_count = 25;
    cfg.cluster.renderer_slots_per_node = 20;
    cfg.cluster.render_permits_per_node = Some(16);
    cfg.cluster.queue_capacity_multiplier = 4;
    cfg.workload.style_count = 16;
    cfg.workload.tile_style_count = 2;
    cfg.workload.style_distribution = StyleDist::Zipf { alpha: 1_200 };
    cfg.workload.new_style_rate = 0;
    cfg.workload.total_rate = total_rate;
    cfg.workload.duration = 8 * SECOND;
    cfg.workload.source_pattern = Some(jp_map());
    cfg.gossip.publish_interval = publish_interval;
    cfg
}

/// The large cluster with another number of slots.
pub fn large_scale_16cores_with_slots(
    total_rate: u64,
    publish_interval: Duration,
    renderer_slots_per_node: usize,
) -> (r: SimConfig)
    ensures
        is_large(
            r,
            ClusterConfig { renderer_slots_per_node, ..large_cluster() },
            total_rate,
            publish_interval,
        ),
        r.workload.duration == 8 * SECOND,
        r.workload.style_shift is None,
{
    let mut cfg = large_scale_16cores(total_rate, publish_interval);
    cfg.cluster.renderer_slots_per_node = renderer_slots_per_node;
    cfg.cluster.render_permits_per_node = Some(16);
    cfg
}

/// The large cluster with other permits.
pub fn large_scale_16cores_with_execution_permits(
    total_rate: u64,
    publish_interval: Duration,
    renderer_slots_per_node: usize,
    render_permits_per_node: usize,
    cpu_render_permits_per_node: usize,
) -> (r: SimConfig)
    ensures
        is_large(
            r,
            ClusterConfig {
                renderer_slots_per_node,
                render_permits_per_node: Some(render_permits_per_node),
                cpu_render_permits_per_node: Some(cpu_render_permits_per_node),
                ..large_cluster()
            },
            total_rate,
            publish_interval,
        ),
        r.workload.duration == 8 * SECOND,
        r.workload.style_shift is None,
{
    let mut cfg = large_scale_16cores(total_rate, publish_interval);
    cfg.cluster.renderer_slots_per_node = renderer_slots_per_node;
    cfg.cluster.render_permits_per_node = Some(render_permits_per_node);
    cfg.cluster.cpu_render_permits_per_node = Some(cpu_render_permits_per_node);
    cfg
}

/// The large cluster with another hard queue limit.
pub fn large_scale_16cores_with_multiplier(
    total_rate: u64,
    publish_interval: Duration,
    queue_capacity_multiplier: usize,
) -> (r: SimConfig)
    ensures
        is_large(
            r,
            ClusterConfig { queue_capacity_multiplier, ..large_cluster() },
            total_rate,
            publish_interval,
        ),
        r.workload.duration == 8 * SECOND,
        r.workload.style_shift is None,
{
    let mut cfg = large_scale_16cores(total_rate, publish_interval);
    cfg.cluster.queue_capacity_multiplier = queue_capacity_multiplier;
    cfg
}

/// The large cluster, in which the most popular style changes places with
/// another on the way.
pub fn large_scale_style_shift(
    total_rate: u64,
    publish_interval: Duration,
    shift_at: u64,
    swap_with: u32,
) -> (r: SimConfig)
    ensures
        is_large(r, large_cluster(), total_rate, publish_interval),
        r.workload.duration == 10 * SECOND,
        r.workload.style_shift == Some(StyleShift { at: shift_at, with: swap_with }),
{
    let mut cfg = large_scale_16cores(total_rate, publish_interval);
    cfg.workload.duration = 10 * SECOND;
    cfg.workload.style_shift = Some(StyleShift { at: shift_at, with: swap_with });
    cfg
}

/// A scenario's load is what it is said to be, without new styles, bursts or shifts, and
/// recorded after two seconds.
pub proof fn law_loads_are_as_described(
    w: WorkloadConfig,
    styles: usize,
    dist: StyleDist,
    rate: u64,
    seconds: nat,
)
    requires
        is_workload(w, styles, dist, rate, seconds),
    ensures
        w.style_count == styles,
        w.style_distribution == dist,
        w.total_rate == rate,
        w.duration == 1_000_000_000 * seconds,
        w.warmup == 2_000_000_000,
        w.new_style_rate == 0,
        w.tile_style_count == 0,
        w.burst_pattern is None,
        w.style_shift is None,
{
}

/// One in five requests to the map of a country adds a layer: three in five of them one of
/// three shared sources, and the others the one that is refreshed every five minutes.
pub proof fn law_layers_of_a_country(p: SourcePattern)
    requires
        is_jp_map(p),
    ensures
        p.probability == 200,
        p.provider matches SourceProvider::Mixed(list) && list@.len() == 2 && list@[0].0 == 600
            && list@[1].0 == 400 && (*list@[0].1 matches SourceProvider::Shared {
            source_count,
            ..
        } && source_count == 3) && (*list@[1].1 matches SourceProvider::PeriodicRefresh {
            source_count,
            interval,
            jitter,
        } && source_count == 1 && interval == 300_000_000_000 && jitter == 30_000_000_000),
{
    if let SourceProvider::Mixed(list) = p.provider {
        let views = choice_views(list@);
        assert(views.len() == list@.len());
        assert(views[0] == (list@[0].0, *list@[0].1));
        assert(views[1] == (list@[1].0, *list@[1].1));
    }
}

/// Three in five requests to mixed services add a layer: half of them a shared source,
/// three in ten one that is refreshed, and the others one of their own.
pub proof fn law_layers_of_mixed_services(p: SourcePattern)
    requires
        is_mixed_services(p),
    ensures
        p.probability == 600,
        p.provider matches SourceProvider::Mixed(list) && list@.len() == 3 && list@[0].0 == 500
            && list@[1].0 == 300 && list@[2].0 == 200 && *list@[0].1 is Shared && *list@[1].1
            is PeriodicRefresh && *list@[2].1 is OneShot,
{
    if let SourceProvider::Mixed(list) = p.provider {
        let views = choice_views(list@);
        assert(views.len() == list@.len());
        assert(views[0] == (list@[0].0, *list@[0].1));
        assert(views[1] == (list@[1].0, *list@[1].1));
        assert(views[2] == (list@[2].0, *list@[2].1));
    }
}

/// A large cluster has 25 nodes of 20 slots, of which 16 render at a time.
pub proof fn law_large_clusters_are_as_described(
    r: SimConfig,
    cluster: ClusterConfig,
    rate: u64,
    publish: Duration,
)
    requires
        is_large(r, cluster, rate, publish),
    ensures
        large_cluster().renderer_slots_per_node == 20,
        large_cluster().render_permits_per_node == Some(16usize),
        large_cluster().queue_capacity_multiplier == 4,
        r.node_count == 25,
        r.cluster == cluster,
        r.gossip.publish_interval == publish,
        r.workload.total_rate == rate,
        r.workload.style_count == 16,
        r.workload.tile_style_count == 2,
        r.workload.style_distribution == (StyleDist::Zipf { alpha: 1_200 }),
        r.workload.new_style_rate == 0,
        r.workload.warmup == 2_000_000_000,
        r.workload.burst_pattern is None,
        r.workload.source_pattern is Some,
{
}

/// Nodes publish ten times in a second by default.
pub proof fn law_gossip_is_published_ten_times_a_second(c: SimConfig)
    requires
        default_gossip(c),
    ensures
        nanos(c.gossip.publish_interval) * 10 == 1_000_000_000,
{
}

} // verus!
