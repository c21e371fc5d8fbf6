//! Configuration of a cluster, and what follows from it.

use vstd::prelude::*;
use rand_xoshiro::Xoshiro256PlusPlus;
use std::time::Duration;
use crate::chance::draw_between;
use crate::double::{count_double, quotient, quotient_of, whole_double};
use crate::figures::{places, two_places_text};
use crate::time::{max_nat, min_nat, monus, nanos, span, MAX_NANOS};

verus! {

/// A range of costs.
#[derive(Clone, Copy, Debug)]
pub struct CostRange {
    pub min: Duration,
    pub max: Duration,
}

/// A span in whole microseconds.
pub open spec fn micros(d: Duration) -> nat {
    nanos(d) / 1_000
}

/// The lower 64 bits.
pub open spec fn low64(n: nat) -> nat {
    n % 0x1_0000_0000_0000_0000
}

/// The lower 64 bits of a span in whole microseconds.
pub fn micros64(d: Duration) -> (r: u64)
    ensures
        r == low64(micros(d)),
{
    let us: u128 = d.as_nanos() / 1_000;
    (us % 0x1_0000_0000_0000_0000) as u64
}

impl CostRange {
    /// The middle of the range, in nanoseconds, rounded down.
    pub open spec fn middle(self) -> nat {
        (nanos(self.min) + nanos(self.max)) / 2
    }

    /// The bounds add up to a span.
    pub open spec fn addable(self) -> bool {
        nanos(self.min) + nanos(self.max) <= MAX_NANOS
    }

    /// The range of one cost.
    pub fn fixed(d: Duration) -> (r: CostRange)
        ensures
            r.min == d,
            r.max == d,
    {
        CostRange { min: d, max: d }
    }

    pub fn new(min: Duration, max: Duration) -> (r: CostRange)
        ensures
            r.min == min,
            r.max == max,
    {
        CostRange { min, max }
    }

    /// A cost within the range, in whole microseconds; the lower bound itself
    /// where the range is empty or a point.
    pub fn sample(&self, rng: &mut Xoshiro256PlusPlus) -> (r: Duration)
        requires
            micros(self.min) <= u64::MAX,
            micros(self.max) <= u64::MAX,
        ensures
            nanos(self.min) >= nanos(self.max) ==> r == self.min,
            nanos(self.min) < nanos(self.max) ==> exists|us: nat|
                micros(self.min) <= us <= micros(self.max) && nanos(r) == #[trigger] (us * 1_000),
    {
        if self.min.as_nanos() >= self.max.as_nanos() {
            return self.min;
        }
        let low: u64 = micros64(self.min);
        let high: u64 = micros64(self.max);
        let us: u64 = draw_between(rng, low, high);
        let r = self.from_draw(us);
        assert(nanos(r) == (us as nat) * 1_000);
        r
    }

    /// The cost of a draw in microseconds.
    pub fn from_draw(&self, us: u64) -> (r: Duration)
        ensures
            nanos(r) == us * 1_000,
    {
        span(us as u128 * 1_000)
    }

    /// Whether a cost can be drawn from the range: its bounds fit into whole
    /// microseconds.
    pub fn can_sample(&self) -> (r: bool)
        ensures
            r == (micros(self.min) <= u64::MAX && micros(self.max) <= u64::MAX),
    {
        let low: u128 = self.min.as_nanos() / 1_000;
        let high: u128 = self.max.as_nanos() / 1_000;
        low <= u64::MAX as u128 && high <= u64::MAX as u128
    }

    /// Whether the range has a middle: its bounds add up to a span.
    pub fn has_middle(&self) -> (r: bool)
        ensures
            r == self.addable(),
    {
        self.min.as_nanos() + self.max.as_nanos() <= MAX_NANOS
    }

    /// The middle of the range.
    pub fn mid(&self) -> (r: Duration)
        requires
            self.addable(),
        ensures
            nanos(r) == self.middle(),
    {
        let sum: u128 = self.min.as_nanos() + self.max.as_nanos();
        span(sum / 2)
    }
}

/// How the soft queue limit is chosen.
#[derive(Clone, Copy, Debug, PartialEq, Eq, Structural)]
pub enum BlCapacityPolicy {
    Fixed(usize),
    Auto,
}

#[derive(Clone, Copy, Debug, PartialEq, Eq, Structural)]
pub enum Tier1Strategy {
    WeightedRandom,
    PowerOfTwo,
}

/// The shape of every node of a cluster.
#[derive(Clone, Copy, Debug, PartialEq, Eq, Structural)]
pub struct ClusterConfig {
    /// Warm renderer slots per node.
    pub renderer_slots_per_node: usize,
    /// Slots that may execute at once; all of them if nothing is set.
    pub render_permits_per_node: Option<usize>,
    /// Slots that may be in the CPU-heavy stage at once; as many as may execute
    /// if nothing is set.
    pub cpu_render_permits_per_node: Option<usize>,
    /// How the soft queue limit is chosen.
    pub bl_capacity: BlCapacityPolicy,
    /// The hard queue limit is the soft one times this.
    pub queue_capacity_multiplier: usize,
    /// Sources that a slot keeps.
    pub source_cache_capacity: usize,
    /// Bytes of rendered images that a node keeps; zero keeps none.
    pub render_output_cache_capacity_bytes: u64,
}

/// The queue limits of a slot: routing prefers slots below `soft`; admission
/// ends at `hard`.
#[derive(Clone, Copy, Debug, PartialEq, Eq, Structural)]
pub struct QueueLimits {
    pub soft: usize,
    pub hard: usize,
}

/// What the stages of a task cost.
#[derive(Clone, Copy, Debug)]
pub struct CostConfig {
    pub style_setup_cost: CostRange,
    /// Loading one source.
    pub source_load_cost: CostRange,
    pub render_cost: CostRange,
    pub hop_latency: Duration,
    pub sla: Duration,
}

#[derive(Clone, Copy, Debug)]
pub struct GossipConfig {
    pub publish_interval: Duration,
}

#[derive(Clone, Copy, Debug, PartialEq, Eq, Structural)]
pub struct RoutingConfig {
    pub tier1_strategy: Tier1Strategy,
    pub tier3_enabled: bool,
    pub drain_max_queue: usize,
}

/// The microseconds that one render takes, at least one.
pub open spec fn render_micros(p: nat) -> nat {
    low64(max_nat(p / 1_000, 1))
}

/// `min(S/P, L/P - 1)`, at least one; all spans in nanoseconds.
pub open spec fn bl_capacity_of(s: nat, p: nat, l: nat) -> nat {
    let unit = render_micros(p);
    max_nat(min_nat(low64(s / 1_000) / unit, monus(low64(l / 1_000) / unit, 1)), 1)
}

/// The soft limit is at least one, and a slot for which setting up a style takes no
/// less and whose service level is no tighter has no lower one. A render that takes
/// no time counts as one microsecond. Sizes beyond the machine's are left out.
pub proof fn law_bl_capacity_grows(s: nat, larger_s: nat, p: nat, l: nat, larger_l: nat)
    requires
        s <= larger_s,
        l <= larger_l,
        larger_s / 1_000 <= u64::MAX,
        larger_l / 1_000 <= u64::MAX,
        p / 1_000 <= u64::MAX,
        bl_capacity_of(larger_s, p, larger_l) <= usize::MAX,
    ensures
        render_micros(p) > 0,
        render_micros(0) == 1,
        1 <= bl_capacity_of(s, p, l) as usize <= bl_capacity_of(larger_s, p, larger_l) as usize,
        1 <= bl_capacity_of(s, p, l) <= bl_capacity_of(larger_s, p, larger_l),
{
    let unit = render_micros(p);
    vstd::arithmetic::div_mod::lemma_div_is_ordered(s as int, larger_s as int, 1_000);
    vstd::arithmetic::div_mod::lemma_div_is_ordered(l as int, larger_l as int, 1_000);
    vstd::arithmetic::div_mod::lemma_div_is_ordered(
        (s / 1_000) as int,
        (larger_s / 1_000) as int,
        unit as int,
    );
    vstd::arithmetic::div_mod::lemma_div_is_ordered(
        (l / 1_000) as int,
        (larger_l / 1_000) as int,
        unit as int,
    );
}

/// The soft queue limit of a slot: as many renders as pay for one style setup,
/// but no more than leave a waiting task within the service level.
pub fn compute_bl_capacity(s: Duration, p: Duration, l: Duration) -> (r: usize)
    requires
        render_micros(nanos(p)) > 0,
    ensures
        r == bl_capacity_of(nanos(s), nanos(p), nanos(l)) as usize,
{
    let p_full: u128 = p.as_nanos() / 1_000;
    let p_floor: u128 = if p_full >= 1 {
        p_full
    } else {
        1
    };
    let p_us: u64 = (p_floor % 0x1_0000_0000_0000_0000) as u64;
    let by_latency: u64 = micros64(s) / p_us;
    let l_over_p: u64 = micros64(l) / p_us;
    let by_sla: u64 = l_over_p.saturating_sub(1);
    let smaller: u64 = if by_latency <= by_sla {
        by_latency
    } else {
        by_sla
    };
    let limit: u64 = if smaller >= 1 {
        smaller
    } else {
        1
    };
    assert(limit == bl_capacity_of(nanos(s), nanos(p), nanos(l)));
    #[verifier::truncate]
    let r: usize = limit as usize;
    r
}

pub open spec fn max_usize(a: usize, b: usize) -> usize {
    if a >= b {
        a
    } else {
        b
    }
}

pub open spec fn min_usize(a: usize, b: usize) -> usize {
    if a <= b {
        a
    } else {
        b
    }
}

/// The larger of two sizes.
pub fn larger(a: usize, b: usize) -> (r: usize)
    ensures
        r == max_usize(a, b),
{
    if a >= b {
        a
    } else {
        b
    }
}

/// The smaller of two sizes.
pub fn smaller(a: usize, b: usize) -> (r: usize)
    ensures
        r == min_usize(a, b),
{
    if a <= b {
        a
    } else {
        b
    }
}

/// More warm slots per render permit than production allows.
#[derive(Clone, Copy, Debug, PartialEq, Eq, Structural)]
pub struct StandbyRatioError {
    pub slots: usize,
    pub permits: usize,
}

/// What is said of too many warm slots.
pub open spec fn standby_text(e: StandbyRatioError) -> Seq<char> {
    "renderer_slots/render_permits ratio is "@ + places(
        quotient(whole_double(e.slots as nat), whole_double(e.permits as nat)),
        2,
    ) + "x; ratios above 1.5x are rejected by the production guardrail"@
}

impl StandbyRatioError {
    /// What is said of too many warm slots.
    pub fn message(&self) -> (r: String)
        requires
            self.permits > 0,
        ensures
            r@ == standby_text(*self),
    {
        let mut text = "renderer_slots/render_permits ratio is ".to_owned();
        let ratio = quotient_of(count_double(self.slots as u64), count_double(self.permits as u64));
        text.push_str(two_places_text(ratio).as_str());
        text.push_str("x; ratios above 1.5x are rejected by the production guardrail");
        text
    }
}

impl ClusterConfig {
    pub open spec fn render_permits(self) -> usize {
        let asked = match self.render_permits_per_node {
            Some(n) => n,
            None => self.renderer_slots_per_node,
        };
        min_usize(max_usize(asked, 1), max_usize(self.renderer_slots_per_node, 1))
    }

    pub open spec fn cpu_render_permits(self) -> usize {
        let asked = match self.cpu_render_permits_per_node {
            Some(n) => n,
            None => self.render_permits(),
        };
        min_usize(max_usize(asked, 1), self.render_permits())
    }

    /// The soft queue limit under given costs.
    pub open spec fn soft_limit(self, costs: CostConfig) -> usize {
        match self.bl_capacity {
            BlCapacityPolicy::Fixed(n) => n,
            BlCapacityPolicy::Auto => bl_capacity_of(
                costs.style_setup_cost.middle(),
                costs.render_cost.middle(),
                nanos(costs.sla),
            ) as usize,
        }
    }

    /// The costs can be computed with, as far as the policy asks for them.
    pub open spec fn accepts_costs(self, costs: CostConfig) -> bool {
        self.bl_capacity == BlCapacityPolicy::Auto ==> {
            &&& costs.style_setup_cost.addable()
            &&& costs.render_cost.addable()
            &&& render_micros(costs.render_cost.middle()) > 0
        }
    }

    /// Slots that may execute at once: at least one, and no more than slots.
    pub fn resolved_render_permits_per_node(&self) -> (r: usize)
        ensures
            r == self.render_permits(),
            r >= 1,
    {
        let asked: usize = self.render_permits_per_node.unwrap_or(self.renderer_slots_per_node);
        smaller(larger(asked, 1), larger(self.renderer_slots_per_node, 1))
    }

    /// Slots that may be in the CPU-heavy stage at once: at least one, and no
    /// more than may execute.
    pub fn resolved_cpu_render_permits_per_node(&self) -> (r: usize)
        ensures
            r == self.cpu_render_permits(),
            1 <= r <= self.render_permits(),
    {
        let permits: usize = self.resolved_render_permits_per_node();
        let asked: usize = self.cpu_render_permits_per_node.unwrap_or(permits);
        smaller(larger(asked, 1), permits)
    }

    /// The warm slots and the render permits that the standby ratio is of.
    pub fn standby_ratio(&self) -> (r: (usize, usize))
        ensures
            r == (self.renderer_slots_per_node, self.render_permits()),
    {
        (self.renderer_slots_per_node, self.resolved_render_permits_per_node())
    }

    /// Refuses more than one and a half warm slots per render permit.
    pub fn validate_standby_ratio(&self) -> (r: Result<(), StandbyRatioError>)
        ensures
            match r {
                Ok(()) => 2 * self.renderer_slots_per_node <= 3 * self.render_permits(),
                Err(e) => 2 * self.renderer_slots_per_node > 3 * self.render_permits() && e.slots
                    == self.renderer_slots_per_node && e.permits == self.render_permits(),
            },
    {
        let (slots, permits) = self.standby_ratio();
        if 2 * (slots as u128) > 3 * (permits as u128) {
            Err(StandbyRatioError { slots, permits })
        } else {
            Ok(())
        }
    }

    /// The soft queue limit of a slot.
    pub fn resolved_bl_capacity(&self, costs: &CostConfig) -> (r: usize)
        requires
            self.accepts_costs(*costs),
        ensures
            r == self.soft_limit(*costs),
    {
        match self.bl_capacity {
            BlCapacityPolicy::Fixed(n) => n,
            BlCapacityPolicy::Auto => compute_bl_capacity(
                costs.style_setup_cost.mid(),
                costs.render_cost.mid(),
                costs.sla,
            ),
        }
    }

    /// Both queue limits of a slot: the hard one is a multiple of the soft one, cut
    /// at the largest size.
    pub open spec fn limits(&self, costs: CostConfig) -> QueueLimits {
        let soft = self.soft_limit(costs);
        let hard = soft * max_usize(self.queue_capacity_multiplier, 1);
        QueueLimits {
            soft,
            hard: if hard > usize::MAX {
                usize::MAX
            } else {
                hard as usize
            },
        }
    }

    /// Both queue limits of a slot.
    pub fn resolved_queue_limits(&self, costs: &CostConfig) -> (r: QueueLimits)
        requires
            self.accepts_costs(*costs),
        ensures
            r == self.limits(*costs),
            r.soft <= r.hard,
    {
        let soft: usize = self.resolved_bl_capacity(costs);
        let times: usize = larger(self.queue_capacity_multiplier, 1);
        proof {
            assert(soft * times >= soft) by (nonlinear_arith)
                requires
                    times >= 1,
                    soft >= 0,
            ;
        }
        let hard: usize = match soft.checked_mul(times) {
            Some(product) => product,
            None => usize::MAX,
        };
        QueueLimits { soft, hard }
    }
}

/// Whatever the configuration asks for, a node can render: there is at least
/// one CPU permit, and never more of them than tasks that execute, nor more of
/// those than slots (or one).
pub proof fn law_permits_are_ordered(c: ClusterConfig)
    ensures
        1 <= c.cpu_render_permits() <= c.render_permits(),
        c.render_permits() <= max_usize(c.renderer_slots_per_node, 1),
{
}

/// With spans that 64 bits of microseconds hold, the soft limit never lets a
/// queue outlast the service level: `(limit + 1)` renders fit in it, unless the
/// limit is the least one.
pub proof fn law_soft_limit_keeps_the_service_level(s: nat, p: nat, l: nat)
    requires
        p >= 1_000,
        p / 1_000 <= u64::MAX,
        s / 1_000 <= u64::MAX,
        l / 1_000 <= u64::MAX,
    ensures
        bl_capacity_of(s, p, l) == 1 || (bl_capacity_of(s, p, l) + 1) * (p / 1_000) <= l / 1_000,
        bl_capacity_of(s, p, l) >= 1,
{
    let unit = p / 1_000;
    let n = bl_capacity_of(s, p, l);
    let q = (l / 1_000) / unit;
    assert(unit >= 1);
    if n > 1 {
        assert(n + 1 <= q);
        assert(q * unit <= l / 1_000) by (nonlinear_arith)
            requires
                q == (l / 1_000) / unit,
                unit >= 1,
        ;
        assert((n + 1) * unit <= q * unit) by (nonlinear_arith)
            requires
                n + 1 <= q,
        ;
    }
}

/// The soft limit is the largest number of renders that both fit in the time that setting
/// up a style takes and leave, with one more, the service level; but at least one.
pub proof fn law_the_soft_limit_is_the_largest(s: nat, p: nat, l: nat)
    requires
        p >= 1_000,
        p / 1_000 <= u64::MAX,
        s / 1_000 <= u64::MAX,
        l / 1_000 <= u64::MAX,
    ensures
        bl_capacity_of(s, p, l) == 1 || bl_capacity_of(s, p, l) * (p / 1_000) <= s / 1_000,
        (bl_capacity_of(s, p, l) + 1) * (p / 1_000) > s / 1_000 || (bl_capacity_of(s, p, l) + 2) * (
        p / 1_000) > l / 1_000,
{
    let unit = p / 1_000;
    let n = bl_capacity_of(s, p, l);
    let a = (s / 1_000) / unit;
    let b = (l / 1_000) / unit;
    assert(unit >= 1);
    assert(a * unit <= s / 1_000 < (a + 1) * unit) by (nonlinear_arith)
        requires
            a == (s / 1_000) / unit,
            unit >= 1,
    ;
    assert(b * unit <= l / 1_000 < (b + 1) * unit) by (nonlinear_arith)
        requires
            b == (l / 1_000) / unit,
            unit >= 1,
    ;
    if n > 1 {
        assert(n <= a);
        assert(n * unit <= a * unit) by (nonlinear_arith)
            requires
                n <= a,
        ;
    }
    if n >= a {
        assert((n + 1) * unit >= (a + 1) * unit) by (nonlinear_arith)
            requires
                n >= a,
        ;
    } else {
        assert(n + 1 >= b);
        assert((n + 2) * unit >= (b + 1) * unit) by (nonlinear_arith)
            requires
                n + 1 >= b,
        ;
    }
}

/// A node executes as many tasks as it was told to, and by default as many as it has
/// slots; but at least one, and no more than it has slots. It computes as many as it was
/// told to, and by default as many as it executes; but at least one, and no more than it
/// executes.
pub proof fn law_permits_are_what_was_asked_for(c: ClusterConfig)
    ensures
        c.render_permits_per_node matches Some(n) ==> {
            &&& 1 <= n <= c.renderer_slots_per_node ==> c.render_permits() == n
            &&& n == 0 ==> c.render_permits() == 1
            &&& n > c.renderer_slots_per_node >= 1 ==> c.render_permits()
                == c.renderer_slots_per_node
        },
        c.render_permits_per_node is None && c.renderer_slots_per_node >= 1 ==> c.render_permits()
            == c.renderer_slots_per_node,
        c.renderer_slots_per_node == 0 ==> c.render_permits() == 1,
        c.cpu_render_permits_per_node matches Some(n) ==> {
            &&& 1 <= n <= c.render_permits() ==> c.cpu_render_permits() == n
            &&& n == 0 ==> c.cpu_render_permits() == 1
            &&& n > c.render_permits() ==> c.cpu_render_permits() == c.render_permits()
        },
        c.cpu_render_permits_per_node is None ==> c.cpu_render_permits() == c.render_permits(),
{
}

/// A queue takes a fixed soft limit as it was given, and else the one that follows from
/// the middle costs and the service level. Its hard limit is the soft one times the
/// multiplier.
pub proof fn law_queue_limits_follow_the_configuration(c: ClusterConfig, costs: CostConfig)
    ensures
        c.bl_capacity matches BlCapacityPolicy::Fixed(n) ==> c.limits(costs).soft == n,
        c.bl_capacity is Auto && bl_capacity_of(
            costs.style_setup_cost.middle(),
            costs.render_cost.middle(),
            nanos(costs.sla),
        ) <= usize::MAX ==> c.limits(costs).soft == bl_capacity_of(
            costs.style_setup_cost.middle(),
            costs.render_cost.middle(),
            nanos(costs.sla),
        ),
        c.queue_capacity_multiplier >= 1 && c.limits(costs).soft * c.queue_capacity_multiplier
            <= usize::MAX ==> c.limits(costs).hard == c.limits(costs).soft
            * c.queue_capacity_multiplier,
        c.queue_capacity_multiplier == 0 ==> c.limits(costs).hard == c.limits(costs).soft,
        c.limits(costs).soft * c.queue_capacity_multiplier > usize::MAX ==> c.limits(costs).hard
            == usize::MAX,
{
    let soft = c.limits(costs).soft;
    assert(soft * 1 == soft) by (nonlinear_arith);
    assert(soft * 0 == 0) by (nonlinear_arith);
    if c.queue_capacity_multiplier == 0 {
        assert(max_usize(c.queue_capacity_multiplier, 1) == 1);
    } else {
        assert(max_usize(c.queue_capacity_multiplier, 1) == c.queue_capacity_multiplier);
    }
}

/// The middle of a range of costs lies halfway between its ends, and microseconds are
/// thousands of nanoseconds, rounded down.
pub proof fn law_costs_are_measured_in_the_middle(range: CostRange, d: Duration)
    ensures
        2 * range.middle() <= nanos(range.min) + nanos(range.max) <= 2 * range.middle() + 1,
        1_000 * micros(d) <= nanos(d) < 1_000 * micros(d) + 1_000,
        micros(d) <= u64::MAX ==> low64(micros(d)) == micros(d),
        range.addable() <==> nanos(range.min) + nanos(range.max) <= 18_446_744_073_709_551_615_999_999_999,
{
}

/// Costs matter only where the soft limit is to follow from them.
pub proof fn law_fixed_limits_take_any_costs(c: ClusterConfig, costs: CostConfig)
    ensures
        c.bl_capacity is Fixed ==> c.accepts_costs(costs),
        c.bl_capacity is Auto && nanos(costs.style_setup_cost.min) + nanos(
            costs.style_setup_cost.max,
        ) <= u64::MAX && nanos(costs.render_cost.min) + nanos(costs.render_cost.max) <= u64::MAX
            ==> c.accepts_costs(costs),
{
}

} // verus!
