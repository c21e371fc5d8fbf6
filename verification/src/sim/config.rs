//! What a simulation is made of.
//!
//! Spans are in nanoseconds. Rates, exponents, weights, multipliers and
//! probabilities are in thousandths.

use vstd::prelude::*;
use crate::config::{
    BlCapacityPolicy, ClusterConfig, CostConfig, CostRange, GossipConfig, RoutingConfig, Tier1Strategy,
};
use crate::sim::profile::CalibrationProfile;
use crate::time::{millis, nanos};

verus! {

/// How often styles, or sources, are asked for.
#[derive(Clone, Debug)]
pub enum StyleDist {
    Uniform,
    /// By rank, with this exponent.
    Zipf { alpha: u64 },
    /// By weight.
    Custom(Vec<u64>),
}

/// Where the sources of requests come from.
#[derive(Debug)]
pub enum SourceProvider {
    /// Some sources that are asked for again and again.
    Shared { source_count: usize, distribution: StyleDist },
    /// Sources that are replaced from time to time.
    PeriodicRefresh { source_count: usize, interval: u64, jitter: u64 },
    /// A new source for every request.
    OneShot,
    /// One of several providers, by weight.
    Mixed(Vec<(u64, Box<SourceProvider>)>),
}

/// How many requests add a source, and which.
#[derive(Debug)]
pub struct SourcePattern {
    pub probability: u64,
    pub provider: SourceProvider,
}

/// Times of more requests.
#[derive(Clone, Copy, Debug, PartialEq, Eq, Structural)]
pub struct BurstPattern {
    pub period: u64,
    pub duration: u64,
    pub multiplier: u64,
    pub style_focus: Option<u32>,
}

/// The most popular style changes places with another.
#[derive(Clone, Copy, Debug, PartialEq, Eq, Structural)]
pub struct StyleShift {
    pub at: u64,
    pub with: u32,
}

/// What is asked of the cluster.
#[derive(Debug)]
pub struct WorkloadConfig {
    pub style_count: usize,
    /// The styles before this one are rendered as tiles.
    pub tile_style_count: usize,
    pub style_distribution: StyleDist,
    /// New styles in a thousand seconds.
    pub new_style_rate: u64,
    /// Requests in a thousand seconds.
    pub total_rate: u64,
    pub duration: u64,
    /// The time at the start that no report counts.
    pub warmup: u64,
    pub source_pattern: Option<SourcePattern>,
    pub burst_pattern: Option<BurstPattern>,
    pub style_shift: Option<StyleShift>,
}

/// What a simulation is made of.
#[derive(Debug)]
pub struct SimConfig {
    pub node_count: usize,
    pub cpu_cores_per_node: usize,
    pub cluster: ClusterConfig,
    pub costs: CostConfig,
    pub gossip: GossipConfig,
    pub routing: RoutingConfig,
    pub workload: WorkloadConfig,
    pub seed: u64,
}

/// One second.
pub const SECOND: u64 = 1_000_000_000;

/// The cluster that simulations start from.
pub open spec fn default_cluster() -> ClusterConfig {
    ClusterConfig {
        renderer_slots_per_node: 4,
        render_permits_per_node: None,
        cpu_render_permits_per_node: None,
        bl_capacity: BlCapacityPolicy::Auto,
        queue_capacity_multiplier: 2,
        source_cache_capacity: 1,
        render_output_cache_capacity_bytes: 0,
    }
}

/// A range between two numbers of milliseconds.
pub open spec fn range_is(r: CostRange, low: nat, high: nat) -> bool {
    nanos(r.min) == low * 1_000_000 && nanos(r.max) == high * 1_000_000
}

/// The costs that simulations start from.
pub open spec fn default_costs(costs: CostConfig) -> bool {
    &&& range_is(costs.style_setup_cost, 200, 300)
    &&& range_is(costs.source_load_cost, 30, 70)
    &&& range_is(costs.render_cost, 5, 30)
    &&& nanos(costs.hop_latency) == 5_000_000
    &&& nanos(costs.sla) == 1_000_000_000
}

/// The workload that simulations start from.
pub open spec fn default_workload(w: WorkloadConfig) -> bool {
    &&& w.style_count == 50
    &&& w.tile_style_count == 0
    &&& w.style_distribution == (StyleDist::Zipf { alpha: 1_000 })
    &&& w.new_style_rate == 100
    &&& w.total_rate == 100_000
    &&& w.duration == 30 * SECOND
    &&& w.warmup == 2 * SECOND
    &&& w.source_pattern is None
    &&& w.burst_pattern is None
    &&& w.style_shift is None
}

/// What stays the same in all scenarios.
pub open spec fn default_rest(c: SimConfig) -> bool {
    &&& c.cpu_cores_per_node == 4
    &&& default_costs(c.costs)
    &&& c.routing == (RoutingConfig {
        tier1_strategy: Tier1Strategy::PowerOfTwo,
        tier3_enabled: true,
        drain_max_queue: 2,
    })
    &&& c.seed == 42
}

impl Default for SimConfig {
    fn default() -> (r: SimConfig)
        ensures
            r.node_count == 8,
            r.cluster == default_cluster(),
            default_rest(r),
            nanos(r.gossip.publish_interval) == 100_000_000,
            default_workload(r.workload),
    {
        SimConfig {
            node_count: 8,
            cpu_cores_per_node: 4,
            cluster: ClusterConfig {
                renderer_slots_per_node: 4,
                render_permits_per_node: None,
                cpu_render_permits_per_node: None,
                bl_capacity: BlCapacityPolicy::Auto,
                queue_capacity_multiplier: 2,
                source_cache_capacity: 1,
                render_output_cache_capacity_bytes: 0,
            },
            costs: CostConfig {
                style_setup_cost: CostRange::new(millis(200), millis(300)),
                source_load_cost: CostRange::new(millis(30), millis(70)),
                render_cost: CostRange::new(millis(5), millis(30)),
                hop_latency: millis(5),
                sla: millis(1_000),
            },
            gossip: GossipConfig { publish_interval: millis(100) },
            routing: RoutingConfig {
                tier1_strategy: Tier1Strategy::PowerOfTwo,
                tier3_enabled: true,
                drain_max_queue: 2,
            },
            workload: WorkloadConfig {
                style_count: 50,
                tile_style_count: 0,
                style_distribution: StyleDist::Zipf { alpha: 1_000 },
                new_style_rate: 100,
                total_rate: 100_000,
                duration: 30 * SECOND,
                warmup: 2 * SECOND,
                source_pattern: None,
                burst_pattern: None,
                style_shift: None,
            },
            seed: 42,
        }
    }
}

/// Why the node layout of a profile cannot be simulated.
#[derive(Clone, Copy, Debug, PartialEq, Eq, Structural)]
pub enum ProvenanceError {
    NoCores,
    NoSlots,
    ExecutionPermits,
    NativePermits,
}

/// What is said of a node layout that cannot be simulated.
pub open spec fn provenance_text(e: ProvenanceError) -> Seq<char> {
    match e {
        ProvenanceError::NoCores => "calibration profile has zero CPU cores per node"@,
        ProvenanceError::NoSlots => "calibration profile has zero renderer slots per node"@,
        ProvenanceError::ExecutionPermits =>
            "calibration execution permits must be in 1..=renderer slots"@,
        ProvenanceError::NativePermits =>
            "calibration native-render permits must be in 1..=renderer slots"@,
    }
}

impl ProvenanceError {
    /// What is said of the layout.
    pub fn message(self) -> (r: &'static str)
        ensures
            r@ == provenance_text(self),
    {
        match self {
            ProvenanceError::NoCores => "calibration profile has zero CPU cores per node",
            ProvenanceError::NoSlots => "calibration profile has zero renderer slots per node",
            ProvenanceError::ExecutionPermits => {
                "calibration execution permits must be in 1..=renderer slots"
            },
            ProvenanceError::NativePermits => {
                "calibration native-render permits must be in 1..=renderer slots"
            },
        }
    }
}

/// What is wrong with the node layout of a profile.
pub open spec fn provenance_fault(profile: CalibrationProfile) -> Option<ProvenanceError> {
    let p = profile.provenance;
    if p.cpu_cores_per_node == 0 {
        Some(ProvenanceError::NoCores)
    } else if p.renderer_slots_per_node == 0 {
        Some(ProvenanceError::NoSlots)
    } else if !(1 <= p.execution_permits_per_node <= p.renderer_slots_per_node) {
        Some(ProvenanceError::ExecutionPermits)
    } else if !(1 <= p.native_render_permits_per_node <= p.renderer_slots_per_node) {
        Some(ProvenanceError::NativePermits)
    } else {
        None
    }
}

/// Takes the node layout of a profile: costs measured on one machine mean little
/// on another.
pub fn apply_profile_provenance(profile: &CalibrationProfile, config: &mut SimConfig) -> (r: Result<
    (),
    ProvenanceError,
>)
    ensures
        match r {
            Ok(()) => provenance_fault(*profile) is None && *final(config) == (SimConfig {
                cpu_cores_per_node: profile.provenance.cpu_cores_per_node,
                cluster: ClusterConfig {
                    renderer_slots_per_node: profile.provenance.renderer_slots_per_node,
                    render_permits_per_node: Some(profile.provenance.execution_permits_per_node),
                    cpu_render_permits_per_node: Some(
                        profile.provenance.native_render_permits_per_node,
                    ),
                    ..old(config).cluster
                },
                ..*old(config)
            }),
            Err(e) => provenance_fault(*profile) == Some(e) && *final(config) == *old(config),
        },
{
    let p = &profile.provenance;
    if p.cpu_cores_per_node == 0 {
        return Err(ProvenanceError::NoCores);
    }
    if p.renderer_slots_per_node == 0 {
        return Err(ProvenanceError::NoSlots);
    }
    if p.execution_permits_per_node == 0 || p.execution_permits_per_node
        > p.renderer_slots_per_node {
        return Err(ProvenanceError::ExecutionPermits);
    }
    if p.native_render_permits_per_node == 0 || p.native_render_permits_per_node
        > p.renderer_slots_per_node {
        return Err(ProvenanceError::NativePermits);
    }
    config.cpu_cores_per_node = p.cpu_cores_per_node;
    config.cluster.renderer_slots_per_node = p.renderer_slots_per_node;
    config.cluster.render_permits_per_node = Some(p.execution_permits_per_node);
    config.cluster.cpu_render_permits_per_node = Some(p.native_render_permits_per_node);
    Ok(())
}

/// A profile is taken over just if its node had cores and slots, and permits of both kinds
/// for at least one slot and at most all; else the first of these that fails is named.
pub proof fn law_profiles_are_of_working_nodes(profile: CalibrationProfile)
    ensures
        provenance_fault(profile) is None <==> {
            let p = profile.provenance;
            &&& p.cpu_cores_per_node >= 1
            &&& p.renderer_slots_per_node >= 1
            &&& 1 <= p.execution_permits_per_node <= p.renderer_slots_per_node
            &&& 1 <= p.native_render_permits_per_node <= p.renderer_slots_per_node
        },
        provenance_fault(profile) == Some(ProvenanceError::NoCores)
            <==> profile.provenance.cpu_cores_per_node == 0,
        provenance_fault(profile) == Some(ProvenanceError::NoSlots)
            <==> profile.provenance.cpu_cores_per_node > 0
            && profile.provenance.renderer_slots_per_node == 0,
        provenance_fault(profile) == Some(ProvenanceError::NativePermits) ==> !(1
            <= profile.provenance.native_render_permits_per_node
            <= profile.provenance.renderer_slots_per_node),
        provenance_fault(profile) == Some(ProvenanceError::ExecutionPermits) ==> !(1
            <= profile.provenance.execution_permits_per_node
            <= profile.provenance.renderer_slots_per_node),
{
}

/// What is simulated by default: a cluster whose slots are all permitted to render, costs
/// of which setting up a style is the highest, and half a minute of a hundred requests in
/// a second.
pub proof fn law_defaults_are_as_documented(costs: CostConfig, w: WorkloadConfig)
    requires
        default_costs(costs),
        default_workload(w),
    ensures
        default_cluster().renderer_slots_per_node == 4,
        default_cluster().render_permits_per_node is None,
        default_cluster().cpu_render_permits_per_node is None,
        default_cluster().bl_capacity is Auto,
        default_cluster().queue_capacity_multiplier == 2,
        default_cluster().source_cache_capacity == 1,
        default_cluster().render_output_cache_capacity_bytes == 0,
        nanos(costs.style_setup_cost.min) == 200_000_000,
        nanos(costs.style_setup_cost.max) == 300_000_000,
        nanos(costs.source_load_cost.min) == 30_000_000,
        nanos(costs.source_load_cost.max) == 70_000_000,
        nanos(costs.render_cost.min) == 5_000_000,
        nanos(costs.render_cost.max) == 30_000_000,
        nanos(costs.hop_latency) == 5_000_000,
        nanos(costs.sla) == 1_000_000_000,
        w.style_count == 50,
        w.total_rate == 100_000,
        w.new_style_rate == 100,
        w.duration == 30_000_000_000,
        w.warmup == 2_000_000_000,
{
}

/// A fault says what is wrong with the node.
pub proof fn law_faults_of_a_node_are_told()
    ensures
        provenance_text(ProvenanceError::NoCores)
            == "calibration profile has zero CPU cores per node"@,
        provenance_text(ProvenanceError::NoSlots)
            == "calibration profile has zero renderer slots per node"@,
        provenance_text(ProvenanceError::ExecutionPermits)
            == "calibration execution permits must be in 1..=renderer slots"@,
        provenance_text(ProvenanceError::NativePermits)
            == "calibration native-render permits must be in 1..=renderer slots"@,
{
}

} // verus!
