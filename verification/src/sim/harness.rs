//! How a simulation is set up.

use vstd::prelude::*;
use crate::config::QueueLimits;
use crate::double::{
    count_double, divide, nearest, quotient, quotient_of, seconds, seconds_double, whole_double,
};
use crate::figures::{fraction, fraction_text, places, two_places_text};
use crate::sim::config::{BurstPattern, SimConfig, StyleDist};
use crate::sim::report_text::{span_debug, span_text};
use crate::text::{numeral, numeral_text};
use crate::time::{nanos, span};

verus! {

/// What spreads seeds apart.
pub const SEED_MIX: u64 = 0x9E37_79B9_7F4A_7C15;

/// The seed of a renderer.
pub open spec fn renderer_seed_of(seed: u64, node: u64, slot: u64) -> u64 {
    seed.wrapping_add(
        node.wrapping_mul(SEED_MIX).wrapping_add(
            slot.wrapping_mul(SEED_MIX.wrapping_mul(3)),
        ),
    )
}

/// The seed of a node's dispatcher.
pub open spec fn dispatcher_seed_of(seed: u64, node: u64) -> u64 {
    seed.wrapping_add(node.wrapping_add(1).wrapping_mul(SEED_MIX.wrapping_mul(5)))
}

/// What the nodes of a simulation share.
#[derive(Clone, Copy, Debug, PartialEq, Eq, Structural)]
pub struct ClusterPlan {
    pub node_count: usize,
    pub renderer_slots_per_node: usize,
    pub queue_limits: QueueLimits,
    pub render_permits: usize,
    pub cpu_render_permits: usize,
    /// The renders that may be on processors at once, on all nodes.
    pub cpu_render_permits_total: usize,
}

/// The seeds of one node.
#[derive(Debug)]
pub struct NodeSeeds {
    pub renderers: Vec<u64>,
    pub dispatcher: u64,
}

/// A simulation.
#[derive(Debug)]
pub struct Simulation {
    pub config: SimConfig,
}

impl Simulation {
    pub fn new(config: SimConfig) -> (r: Simulation)
        ensures
            r.config == config,
    {
        Simulation { config }
    }

    /// What the nodes share.
    pub fn plan(&self) -> (r: ClusterPlan)
        requires
            self.config.cluster.accepts_costs(self.config.costs),
            self.config.cluster.cpu_render_permits() * self.config.node_count <= usize::MAX,
        ensures
            r.node_count == self.config.node_count,
            r.renderer_slots_per_node == self.config.cluster.renderer_slots_per_node,
            r.queue_limits == self.config.cluster.limits(self.config.costs),
            r.render_permits == self.config.cluster.render_permits(),
            r.cpu_render_permits == self.config.cluster.cpu_render_permits(),
            r.cpu_render_permits_total == r.cpu_render_permits * r.node_count,
    {
        let cpu_render_permits: usize = self.config.cluster.resolved_cpu_render_permits_per_node();
        ClusterPlan {
            node_count: self.config.node_count,
            renderer_slots_per_node: self.config.cluster.renderer_slots_per_node,
            queue_limits: self.config.cluster.resolved_queue_limits(&self.config.costs),
            render_permits: self.config.cluster.resolved_render_permits_per_node(),
            cpu_render_permits,
            cpu_render_permits_total: cpu_render_permits * self.config.node_count,
        }
    }

    /// The seeds of a node: one for each renderer and one for its dispatcher.
    pub fn node_seeds(&self, node: usize) -> (r: NodeSeeds)
        requires
            node < self.config.node_count,
        ensures
            r.renderers@.len() == self.config.cluster.renderer_slots_per_node,
            forall|w: int|
                0 <= w < r.renderers@.len() ==> #[trigger] r.renderers@[w] == renderer_seed_of(
                    self.config.seed,
                    node as u64,
                    w as u64,
                ),
            r.dispatcher == dispatcher_seed_of(self.config.seed, node as u64),
    {
        let seed: u64 = self.config.seed;
        let mut renderers: Vec<u64> = Vec::new();
        let mut w: usize = 0;
        while w < self.config.cluster.renderer_slots_per_node
            invariant
                w <= self.config.cluster.renderer_slots_per_node,
                renderers@.len() == w,
                seed == self.config.seed,
                forall|k: int|
                    0 <= k < w ==> #[trigger] renderers@[k] == renderer_seed_of(
                        seed,
                        node as u64,
                        k as u64,
                    ),
            decreases self.config.cluster.renderer_slots_per_node - w,
        {
            let mixed: u64 = (node as u64).wrapping_mul(SEED_MIX).wrapping_add(
                (w as u64).wrapping_mul(SEED_MIX.wrapping_mul(3)),
            );
            renderers.push(seed.wrapping_add(mixed));
            w += 1;
        }
        let dispatcher: u64 = seed.wrapping_add(
            (node as u64).wrapping_add(1).wrapping_mul(SEED_MIX.wrapping_mul(5)),
        );
        NodeSeeds { renderers, dispatcher }
    }
}

/// A number of thousandths, as short as it can be written.
pub open spec fn thousandths(n: nat) -> Seq<char> {
    if n % 1_000 == 0 {
        numeral(n / 1_000)
    } else {
        numeral(n / 1_000) + "."@ + fraction(n % 1_000, 3)
    }
}

/// A number of thousandths with at least one place.
pub open spec fn pointed_thousandths(n: nat) -> Seq<char> {
    numeral(n / 1_000) + "."@ + fraction(n % 1_000, 3)
}

fn thousandths_text(n: u64) -> (r: String)
    ensures
        r@ == thousandths(n as nat),
{
    if n % 1_000 == 0 {
        numeral_text((n / 1_000) as u128)
    } else {
        pointed_thousandths_text(n)
    }
}

fn pointed_thousandths_text(n: u64) -> (r: String)
    ensures
        r@ == pointed_thousandths(n as nat),
{
    let mut out = numeral_text((n / 1_000) as u128);
    out.push_str(".");
    out.push_str(fraction_text((n % 1_000) as u128, 3).as_str());
    out
}

/// Weights in a row.
pub open spec fn weight_row(weights: Seq<u64>) -> Seq<char>
    decreases weights.len(),
{
    if weights.len() == 0 {
        Seq::empty()
    } else {
        let before = weight_row(weights.drop_last());
        (if weights.len() == 1 {
            before
        } else {
            before + ", "@
        }) + pointed_thousandths(weights.last() as nat)
    }
}

fn weight_row_text(weights: &Vec<u64>) -> (r: String)
    ensures
        r@ == weight_row(weights@),
{
    let mut out = String::new();
    let mut i: usize = 0;
    assert(weights@.take(0) =~= Seq::<u64>::empty());
    assert(out@ =~= weight_row(weights@.take(0)));
    while i < weights.len()
        invariant
            i <= weights@.len(),
            out@ == weight_row(weights@.take(i as int)),
        decreases weights.len() - i,
    {
        assert(weights@.take(i + 1).drop_last() =~= weights@.take(i as int));
        if i > 0 {
            out.push_str(", ");
        }
        out.push_str(pointed_thousandths_text(weights[i]).as_str());
        i += 1;
    }
    assert(weights@.take(i as int) =~= weights@);
    out
}

/// A distribution, as it is shown.
pub open spec fn dist_text(dist: StyleDist) -> Seq<char> {
    match dist {
        StyleDist::Uniform => "Uniform"@,
        StyleDist::Zipf { alpha } => "Zipf { alpha: "@ + pointed_thousandths(alpha as nat) + " }"@,
        StyleDist::Custom(weights) => "Custom(["@ + weight_row(weights@) + "])"@,
    }
}

impl StyleDist {
    /// The distribution, as it is shown.
    pub fn to_text(&self) -> (r: String)
        ensures
            r@ == dist_text(*self),
    {
        match self {
            StyleDist::Uniform => "Uniform".to_owned(),
            StyleDist::Zipf { alpha } => {
                let mut out = "Zipf { alpha: ".to_owned();
                out.push_str(pointed_thousandths_text(*alpha).as_str());
                out.push_str(" }");
                out
            },
            StyleDist::Custom(weights) => {
                let mut out = "Custom([".to_owned();
                out.push_str(weight_row_text(weights).as_str());
                out.push_str("])");
                out
            },
        }
    }
}

pub open spec fn focus_text(focus: Option<u32>) -> Seq<char> {
    match focus {
        Some(style) => "Some("@ + numeral(style as nat) + ")"@,
        None => "None"@,
    }
}

fn write_focus(focus: Option<u32>) -> (r: String)
    ensures
        r@ == focus_text(focus),
{
    match focus {
        Some(style) => {
            let mut out = "Some(".to_owned();
            out.push_str(numeral_text(style as u128).as_str());
            out.push_str(")");
            out
        },
        None => "None".to_owned(),
    }
}

pub open spec fn burst_line(burst: Option<BurstPattern>) -> Seq<char> {
    match burst {
        Some(b) => "burst:             period="@ + span_text(b.period as nat) + ", dur="@
            + span_text(b.duration as nat) + ", x"@ + thousandths(b.multiplier as nat)
            + ", focus="@ + focus_text(b.style_focus) + "\n"@,
        None => ""@,
    }
}

fn write_burst(burst: &Option<BurstPattern>) -> (r: String)
    ensures
        r@ == burst_line(*burst),
{
    match burst {
        Some(b) => {
            let mut out = "burst:             period=".to_owned();
            out.push_str(span_debug(span(b.period as u128)).as_str());
            out.push_str(", dur=");
            out.push_str(span_debug(span(b.duration as u128)).as_str());
            out.push_str(", x");
            out.push_str(thousandths_text(b.multiplier).as_str());
            out.push_str(", focus=");
            out.push_str(write_focus(b.style_focus).as_str());
            out.push_str("\n");
            out
        },
        None => "".to_owned(),
    }
}

/// A number per node and in all.
pub open spec fn per_node(n: nat, nodes: nat) -> Seq<char> {
    numeral(n) + " per node ("@ + numeral(n * nodes) + " total)\n"@
}

fn write_per_node(n: usize, nodes: usize) -> (r: String)
    requires
        n * nodes <= usize::MAX,
    ensures
        r@ == per_node(n as nat, nodes as nat),
{
    let mut out = numeral_text(n as u128);
    out.push_str(" per node (");
    out.push_str(numeral_text((n * nodes) as u128).as_str());
    out.push_str(" total)\n");
    out
}

/// The nodes of a cluster and their permits, line by line.
pub open spec fn cluster_lines(c: SimConfig) -> Seq<char> {
    let nodes = c.node_count as nat;
    "--- Config ---\nnodes:             "@ + numeral(nodes) + "\nrenderer slots:    "@ + per_node(
        c.cluster.renderer_slots_per_node as nat,
        nodes,
    ) + "render permits:    "@ + per_node(c.cluster.render_permits() as nat, nodes)
        + "CPU render permits:"@ + per_node(c.cluster.cpu_render_permits() as nat, nodes)
}

/// The costs and queue limits, line by line.
pub open spec fn cost_lines(c: SimConfig, limits: QueueLimits) -> Seq<char> {
    "style setup (S):   "@ + span_text(nanos(c.costs.style_setup_cost.min)) + "–"@ + span_text(
        nanos(c.costs.style_setup_cost.max),
    ) + "\nrender cost (P):   "@ + span_text(nanos(c.costs.render_cost.min)) + "–"@ + span_text(
        nanos(c.costs.render_cost.max),
    ) + "\nhop latency:       "@ + span_text(nanos(c.costs.hop_latency))
        + "\nsla (L):           "@ + span_text(nanos(c.costs.sla)) + "\nsoft queue limit:  "@
        + numeral(limits.soft as nat) + " per slot (BL/SLA target)\nhard queue limit:  "@
        + numeral(limits.hard as nat)
        + " per slot (backpressure cap)\ngossip:            chitchat publish="@ + span_text(
        nanos(c.gossip.publish_interval),
    ) + "\n"@
}

/// The renders per second that permits allow, to two places.
pub open spec fn max_throughput(permits: nat, mid: nat) -> Seq<char> {
    if mid == 0 {
        "inf"@
    } else {
        places(quotient(whole_double(permits), seconds(mid)), 2)
    }
}

/// The workload, line by line.
pub open spec fn workload_lines(c: SimConfig) -> Seq<char> {
    "styles:            "@ + numeral(c.workload.style_count as nat) + " initial (+"@ + thousandths(
        c.workload.new_style_rate as nat,
    ) + "/s new)\nstyle dist:        "@ + dist_text(c.workload.style_distribution) + "\n"@
        + burst_line(c.workload.burst_pattern) + "arrival rate:      "@ + places(
        nearest(c.workload.total_rate as nat, 1_000),
        2,
    ) + " req/s\nmax throughput:    "@ + max_throughput(
        (c.cluster.cpu_render_permits() * c.node_count) as nat,
        c.costs.render_cost.middle(),
    ) + " req/s (= total_cpu_render_permits / E[P])\nduration:          "@ + span_text(
        c.workload.duration as nat,
    ) + "\n\n"@
}

/// A configuration as it is shown before a run.
pub fn config_text(c: &SimConfig) -> (r: String)
    requires
        c.cluster.accepts_costs(c.costs),
        c.costs.render_cost.addable(),
        c.cluster.renderer_slots_per_node * c.node_count <= usize::MAX,
        c.cluster.render_permits() * c.node_count <= usize::MAX,
        c.cluster.cpu_render_permits() * c.node_count <= usize::MAX,
    ensures
        r@ == cluster_lines(*c) + cost_lines(*c, c.cluster.limits(c.costs)) + workload_lines(*c),
{
    let permits: usize = c.cluster.resolved_render_permits_per_node();
    let cpu_permits: usize = c.cluster.resolved_cpu_render_permits_per_node();
    let limits = c.cluster.resolved_queue_limits(&c.costs);
    let mut head = "--- Config ---\nnodes:             ".to_owned();
    head.push_str(numeral_text(c.node_count as u128).as_str());
    head.push_str("\nrenderer slots:    ");
    head.push_str(write_per_node(c.cluster.renderer_slots_per_node, c.node_count).as_str());
    head.push_str("render permits:    ");
    head.push_str(write_per_node(permits, c.node_count).as_str());
    head.push_str("CPU render permits:");
    head.push_str(write_per_node(cpu_permits, c.node_count).as_str());
    assert(head@ == cluster_lines(*c));
    let mut costs = "style setup (S):   ".to_owned();
    costs.push_str(span_debug(c.costs.style_setup_cost.min).as_str());
    costs.push_str("–");
    costs.push_str(span_debug(c.costs.style_setup_cost.max).as_str());
    costs.push_str("\nrender cost (P):   ");
    costs.push_str(span_debug(c.costs.render_cost.min).as_str());
    costs.push_str("–");
    costs.push_str(span_debug(c.costs.render_cost.max).as_str());
    costs.push_str("\nhop latency:       ");
    costs.push_str(span_debug(c.costs.hop_latency).as_str());
    costs.push_str("\nsla (L):           ");
    costs.push_str(span_debug(c.costs.sla).as_str());
    costs.push_str("\nsoft queue limit:  ");
    costs.push_str(numeral_text(limits.soft as u128).as_str());
    costs.push_str(" per slot (BL/SLA target)\nhard queue limit:  ");
    costs.push_str(numeral_text(limits.hard as u128).as_str());
    costs.push_str(" per slot (backpressure cap)\ngossip:            chitchat publish=");
    costs.push_str(span_debug(c.gossip.publish_interval).as_str());
    costs.push_str("\n");
    assert(costs@ == cost_lines(*c, limits));
    let mut work = "styles:            ".to_owned();
    work.push_str(numeral_text(c.workload.style_count as u128).as_str());
    work.push_str(" initial (+");
    work.push_str(thousandths_text(c.workload.new_style_rate).as_str());
    work.push_str("/s new)\nstyle dist:        ");
    work.push_str(c.workload.style_distribution.to_text().as_str());
    work.push_str("\n");
    work.push_str(write_burst(&c.workload.burst_pattern).as_str());
    work.push_str("arrival rate:      ");
    work.push_str(two_places_text(divide(c.workload.total_rate as u128, 1_000)).as_str());
    work.push_str(" req/s\nmax throughput:    ");
    let mid: u128 = c.costs.render_cost.mid().as_nanos();
    if mid == 0 {
        work.push_str("inf");
    } else {
        let total = count_double((cpu_permits * c.node_count) as u64);
        work.push_str(two_places_text(quotient_of(total, seconds_double(mid))).as_str());
    }
    work.push_str(" req/s (= total_cpu_render_permits / E[P])\nduration:          ");
    work.push_str(span_debug(span(c.workload.duration as u128)).as_str());
    work.push_str("\n\n");
    assert(work@ == workload_lines(*c));
    let mut out = head;
    out.push_str(costs.as_str());
    out.push_str(work.as_str());
    assert(out@ == cluster_lines(*c) + cost_lines(*c, limits) + workload_lines(*c));
    out
}

/// Thousandths are written as a whole number, with a fraction behind the point if there is
/// one, or always where a point is wanted.
pub proof fn law_thousandths_are_written_with_a_point(whole: nat, part: nat)
    requires
        part < 1_000,
    ensures
        part > 0 ==> thousandths(1_000 * whole + part) == numeral(whole) + "."@ + fraction(part, 3),
        thousandths(1_000 * whole) == numeral(whole),
        pointed_thousandths(1_000 * whole + part) == numeral(whole) + "."@ + fraction(part, 3),
{
    assert((1_000 * whole + part) / 1_000 == whole);
    assert((1_000 * whole + part) % 1_000 == part);
    assert((1_000 * whole) / 1_000 == whole);
    assert((1_000 * whole) % 1_000 == 0);
}

/// What a node has is written with what all nodes have together.
pub proof fn law_totals_are_written_for_all_nodes(n: nat, nodes: nat)
    ensures
        per_node(n, nodes) == numeral(n) + " per node ("@ + numeral(nodes * n) + " total)\n"@,
{
    assert(n * nodes == nodes * n) by (nonlinear_arith);
}

/// Weights are written in a row, with a comma between each two.
pub proof fn law_weights_are_written_in_a_row(weights: Seq<u64>, w: u64)
    ensures
        weights.len() > 0 ==> weight_row(weights.push(w)) == weight_row(weights) + ", "@
            + pointed_thousandths(w as nat),
        weight_row(seq![w]) == pointed_thousandths(w as nat),
{
    assert(weights.push(w).drop_last() =~= weights);
    assert(seq![w].drop_last() =~= Seq::<u64>::empty());
    assert(weight_row(Seq::<u64>::empty()) =~= Seq::<char>::empty());
    assert(Seq::<char>::empty() + pointed_thousandths(w as nat) =~= pointed_thousandths(w as nat));
}

/// The first slot of the first node is seeded with the seed itself.
pub proof fn law_the_seed_is_the_first(seed: u64)
    ensures
        renderer_seed_of(seed, 0, 0) == seed,
{
}

/// A distribution is written by its name, with its exponent or its weights.
pub proof fn law_distributions_are_written_by_name(alpha: u64, weights: Vec<u64>, style: u32)
    ensures
        dist_text(StyleDist::Uniform) == "Uniform"@,
        dist_text(StyleDist::Zipf { alpha }) == "Zipf { alpha: "@ + pointed_thousandths(
            alpha as nat,
        ) + " }"@,
        dist_text(StyleDist::Custom(weights)) == "Custom(["@ + weight_row(weights@) + "])"@,
        focus_text(Some(style)) == "Some("@ + numeral(style as nat) + ")"@,
        focus_text(None) == "None"@,
        burst_line(None) == ""@,
{
}

/// The lines of the configuration hold its numbers: the nodes with what each has, the costs
/// from the least to the most, and the limits.
pub proof fn law_configurations_are_written_out(c: SimConfig, limits: QueueLimits)
    ensures
        ("--- Config ---\nnodes:             "@ + numeral(c.node_count as nat)
            + "\nrenderer slots:    "@ + per_node(
            c.cluster.renderer_slots_per_node as nat,
            c.node_count as nat,
        ) + "render permits:    "@ + per_node(
            c.cluster.render_permits() as nat,
            c.node_count as nat,
        ) + "CPU render permits:"@ + per_node(
            c.cluster.cpu_render_permits() as nat,
            c.node_count as nat,
        )) == cluster_lines(c),
        cost_lines(c, limits) == "style setup (S):   "@ + span_text(
            nanos(c.costs.style_setup_cost.min),
        ) + "–"@ + span_text(nanos(c.costs.style_setup_cost.max)) + "\nrender cost (P):   "@
            + span_text(nanos(c.costs.render_cost.min)) + "–"@ + span_text(
            nanos(c.costs.render_cost.max),
        ) + "\nhop latency:       "@ + span_text(nanos(c.costs.hop_latency))
            + "\nsla (L):           "@ + span_text(nanos(c.costs.sla)) + "\nsoft queue limit:  "@
            + numeral(limits.soft as nat) + " per slot (BL/SLA target)\nhard queue limit:  "@
            + numeral(limits.hard as nat)
            + " per slot (backpressure cap)\ngossip:            chitchat publish="@ + span_text(
            nanos(c.gossip.publish_interval),
        ) + "\n"@,
        ("styles:            "@ + numeral(c.workload.style_count as nat)).is_prefix_of(
            workload_lines(c),
        ),
{
    let head = "styles:            "@ + numeral(c.workload.style_count as nat);
    assert(head =~= workload_lines(c).take(head.len() as int));
    assert(workload_lines(c).subrange(0, head.len() as int) =~= workload_lines(c).take(
        head.len() as int,
    ));
}

/// The most throughput is that of all permits at the middle cost, and without a cost there
/// is no most.
pub proof fn law_throughput_is_permits_by_cost(permits: nat, mid: nat)
    ensures
        mid > 0 ==> max_throughput(permits, mid) == places(
            quotient(whole_double(permits), nearest(mid, 1_000_000_000)),
            2,
        ),
        max_throughput(permits, 0) == "inf"@,
{
}

} // verus!
