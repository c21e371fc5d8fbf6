//! The simulated cluster: renderers that only take time, deliveries inside the
//! process, and gossip addresses.

use std::sync::Arc;
use std::time::Duration;
use vstd::prelude::*;
use rand_xoshiro::Xoshiro256PlusPlus;
use crate::chance::seeded;
use crate::config::{micros, CostRange};
use crate::http::internal::{ForwardError, ForwardFault};
use crate::options::text_views;
use crate::sim::empirical::{sampled_from, EmpiricalCostModel};
use crate::sim::histogram::MergedView;
use crate::sim::shapes::CalibrationRenderState;
use crate::text::{numeral, numeral_text};
use crate::time::{nanos, span};
use crate::types::{InternalTask, RenderOutput};

verus! {

/// A renderer that draws nothing and takes its time: as long as calibration says of
/// tasks like one, or else as a range of costs says.
pub struct StubRenderer {
    pub style_setup_cost: CostRange,
    pub source_load_cost: CostRange,
    pub render_cost: CostRange,
    pub calibration: Option<Arc<EmpiricalCostModel>>,
    /// The state that the next render is in.
    pub state: CalibrationRenderState,
    pub is_loaded: bool,
    pub rng: Xoshiro256PlusPlus,
}

/// The bounds of the range fit into whole microseconds.
pub open spec fn drawable(range: CostRange) -> bool {
    micros(range.min) <= u64::MAX && micros(range.max) <= u64::MAX
}

/// A time that the range gives.
pub open spec fn drawn_from(range: CostRange, d: Duration) -> bool {
    if nanos(range.min) >= nanos(range.max) {
        d == range.min
    } else {
        exists|us: nat|
            micros(range.min) <= us <= micros(range.max) && nanos(d) == #[trigger] (us * 1_000)
    }
}

/// The distribution gives times.
pub open spec fn has_times(choice: Option<MergedView>) -> bool {
    choice matches Some(m) && m.count > 0 && m.buckets.len() > 0
}

/// A time that the distribution gives, or else the range.
pub open spec fn timed_by(choice: Option<MergedView>, range: CostRange, d: Duration) -> bool {
    if has_times(choice) {
        nanos(d) <= u64::MAX && sampled_from(choice, Some(nanos(d) as u64))
    } else {
        drawn_from(range, d)
    }
}

/// The state of a renderer that sets up a style: it had one before, or not.
pub open spec fn setup_state(is_loaded: bool) -> CalibrationRenderState {
    if is_loaded {
        CalibrationRenderState::Swap
    } else {
        CalibrationRenderState::Cold
    }
}

/// The time that was sampled, or else one that the range gives.
fn time_of(sampled: Option<u64>, range: &CostRange, rng: &mut Xoshiro256PlusPlus) -> (r: Duration)
    requires
        drawable(*range),
    ensures
        match sampled {
            Some(ns) => nanos(r) == ns,
            None => drawn_from(*range, r),
        },
{
    match sampled {
        Some(ns) => span(ns as u128),
        None => range.sample(rng),
    }
}

impl StubRenderer {
    pub open spec fn wf(&self) -> bool {
        &&& drawable(self.style_setup_cost)
        &&& drawable(self.source_load_cost)
        &&& drawable(self.render_cost)
        &&& self.calibration matches Some(model) ==> model.wf()
    }

    pub open spec fn same_costs(&self, other: &StubRenderer) -> bool {
        &&& self.style_setup_cost == other.style_setup_cost
        &&& self.source_load_cost == other.source_load_cost
        &&& self.render_cost == other.render_cost
        &&& self.calibration == other.calibration
    }

    /// What calibration says of setting up the style of a task.
    pub open spec fn setup_choice(&self, task: InternalTask) -> Option<MergedView> {
        match self.calibration {
            Some(model) => model.style_choice(task, setup_state(self.is_loaded)),
            None => None,
        }
    }

    /// What calibration says of loading the source of a task.
    pub open spec fn source_choice(&self, task: InternalTask) -> Option<MergedView> {
        match self.calibration {
            Some(model) => model.source_choice(task.request.mode(), task.pixel_ratio),
            None => None,
        }
    }

    /// What calibration says of rendering a task.
    pub open spec fn render_choice(&self, task: InternalTask) -> Option<MergedView> {
        match self.calibration {
            Some(model) => model.render_choice(task, self.state),
            None => None,
        }
    }

    pub fn new(
        style_setup_cost: CostRange,
        source_load_cost: CostRange,
        render_cost: CostRange,
        seed: u64,
    ) -> (r: StubRenderer)
        ensures
            r.style_setup_cost == style_setup_cost,
            r.source_load_cost == source_load_cost,
            r.render_cost == render_cost,
            r.calibration is None,
            r.state == CalibrationRenderState::Cold,
            !r.is_loaded,
    {
        StubRenderer {
            style_setup_cost,
            source_load_cost,
            render_cost,
            calibration: None,
            state: CalibrationRenderState::Cold,
            is_loaded: false,
            rng: seeded(seed),
        }
    }

    /// Takes the times that calibration gives.
    pub fn with_calibration_model(self, calibration: Option<Arc<EmpiricalCostModel>>) -> (r:
        StubRenderer)
        ensures
            r == (StubRenderer { calibration, ..self }),
    {
        StubRenderer { calibration, ..self }
    }

    /// Sets up the style of a task: how long it takes this time.
    pub fn setup_time(&mut self, task: &InternalTask) -> (r: Duration)
        requires
            old(self).wf(),
        ensures
            timed_by(old(self).setup_choice(*task), old(self).style_setup_cost, r),
            final(self).same_costs(old(self)),
            final(self).state == setup_state(old(self).is_loaded),
            final(self).is_loaded,
    {
        self.state = if self.is_loaded {
            CalibrationRenderState::Swap
        } else {
            CalibrationRenderState::Cold
        };
        self.is_loaded = true;
        let sampled: Option<u64> = match &self.calibration {
            Some(model) => model.sample_style_setup(task, self.state, &mut self.rng),
            None => None,
        };
        time_of(sampled, &self.style_setup_cost, &mut self.rng)
    }

    /// Loads the source of a task: how long it takes this time.
    pub fn source_time(&mut self, task: &InternalTask) -> (r: Duration)
        requires
            old(self).wf(),
        ensures
            timed_by(old(self).source_choice(*task), old(self).source_load_cost, r),
            final(self).same_costs(old(self)),
            final(self).state == old(self).state,
            final(self).is_loaded == old(self).is_loaded,
    {
        let sampled: Option<u64> = match &self.calibration {
            Some(model) => {
                let mode = task.request.render_mode();
                model.sample_source_setup(mode, task.pixel_ratio, &mut self.rng)
            },
            None => None,
        };
        time_of(sampled, &self.source_load_cost, &mut self.rng)
    }

    /// Renders a task: how long it takes this time. The next render finds the
    /// renderer warm.
    pub fn render_time(&mut self, task: &InternalTask) -> (r: Duration)
        requires
            old(self).wf(),
        ensures
            timed_by(old(self).render_choice(*task), old(self).render_cost, r),
            final(self).same_costs(old(self)),
            final(self).state == CalibrationRenderState::Warm,
            final(self).is_loaded == old(self).is_loaded,
    {
        let sampled: Option<u64> = match &self.calibration {
            Some(model) => model.sample_render(task, self.state, &mut self.rng),
            None => None,
        };
        self.state = CalibrationRenderState::Warm;
        time_of(sampled, &self.render_cost, &mut self.rng)
    }

    /// The image of a task: no bytes, in the format that the task asks for.
    pub fn output(&self, task: &InternalTask) -> (r: RenderOutput)
        ensures
            r.bytes@ == Seq::<u8>::empty(),
            r.format == task.output_format,
    {
        RenderOutput { bytes: Vec::new(), format: task.output_format }
    }
}

/// Decides on a delivery after its hop: it fails when the task's budget is used
/// up, and when nobody of that name is there.
pub fn on_delivery(target: &str, now: u64, deadline: u64, is_registered: bool) -> (r: Result<
    (),
    ForwardError,
>)
    ensures
        match r {
            Ok(()) => now < deadline && is_registered,
            Err(e) => if now >= deadline {
                e@ == ForwardFault::Retryable("deadline_exceeded"@)
            } else {
                !is_registered && e@ == ForwardFault::Retryable("unknown node "@ + target@)
            },
        },
{
    if now >= deadline {
        return Err(ForwardError::Retryable("deadline_exceeded".to_owned()));
    }
    if !is_registered {
        let mut text = "unknown node ".to_owned();
        text.push_str(target);
        return Err(ForwardError::Retryable(text));
    }
    Ok(())
}

/// The gossip address of a node.
pub open spec fn address_of(node: nat) -> Seq<char> {
    "127.0.0.1:"@ + numeral(10_000 + node)
}

/// The gossip address of a node. There are ports for 55536 nodes.
pub fn gossip_address(node: u16) -> (r: String)
    requires
        node <= 55_535,
    ensures
        r@ == address_of(node as nat),
{
    let mut text = "127.0.0.1:".to_owned();
    text.push_str(numeral_text(10_000 + node as u128).as_str());
    text
}

/// The addresses of the first `n` nodes but one, in order.
pub open spec fn others(n: nat, node: nat) -> Seq<Seq<char>>
    decreases n,
{
    if n == 0 {
        seq![]
    } else {
        let rest = others((n - 1) as nat, node);
        if n - 1 == node {
            rest
        } else {
            rest.push(address_of((n - 1) as nat))
        }
    }
}

/// The addresses from which a node learns of the others.
pub fn seed_addresses(node_count: u16, node: u16) -> (r: Vec<String>)
    requires
        node_count <= 55_536,
    ensures
        text_views(r@) == others(node_count as nat, node as nat),
{
    let mut out: Vec<String> = Vec::new();
    let mut i: u16 = 0;
    assert(text_views(out@) =~= others(0, node as nat));
    while i < node_count
        invariant
            i <= node_count <= 55_536,
            text_views(out@) == others(i as nat, node as nat),
        decreases node_count - i,
    {
        if i != node {
            let ghost before = text_views(out@);
            out.push(gossip_address(i));
            assert(text_views(out@) =~= before.push(address_of(i as nat)));
        }
        i += 1;
    }
    out
}

/// A view of the cluster that is good for one moment: until time moves on or
/// somebody publishes.
#[derive(Clone, Debug)]
pub struct MomentaryView<V> {
    pub epoch: u64,
    pub cached: Option<(u64, u64, V)>,
}

impl<V> MomentaryView<V> {
    /// What is cached, with the time of its making.
    pub open spec fn current(&self, now: u64) -> Option<V> {
        match self.cached {
            Some((epoch, made, view)) => if epoch == self.epoch && made == now {
                Some(view)
            } else {
                None
            },
            None => None,
        }
    }

    pub fn new() -> (r: MomentaryView<V>)
        ensures
            r.epoch == 0,
            r.cached is None,
    {
        MomentaryView { epoch: 0, cached: None }
    }

    /// Somebody published: nothing that was cached before is read any more.
    pub fn on_set(&mut self)
        ensures
            final(self).epoch == if old(self).epoch == u64::MAX {
                0
            } else {
                (old(self).epoch + 1) as u64
            },
            final(self).cached is None,
            forall|now: u64| #[trigger] final(self).current(now) is None,
    {
        self.epoch = if self.epoch == u64::MAX {
            0
        } else {
            self.epoch + 1
        };
        self.cached = None;
    }

    /// The view of this moment, if it was already made.
    pub fn lookup(&self, now: u64) -> (r: Option<&V>)
        ensures
            match r {
                Some(view) => self.current(now) == Some(*view),
                None => self.current(now) is None,
            },
    {
        match &self.cached {
            Some((epoch, made, view)) => if *epoch == self.epoch && *made == now {
                Some(view)
            } else {
                None
            },
            None => None,
        }
    }

    /// Keeps a view that was made at `made`, unless somebody published while it
    /// was being made.
    pub fn store(&mut self, epoch: u64, made: u64, view: V)
        ensures
            final(self).epoch == old(self).epoch,
            final(self).cached == if epoch == old(self).epoch {
                Some((epoch, made, view))
            } else {
                old(self).cached
            },
    {
        if epoch == self.epoch {
            self.cached = Some((epoch, made, view));
        }
    }
}

/// A node is told of every other node, at its own address, and not of itself.
pub proof fn law_nodes_are_told_of_the_others(n: nat, node: nat, other: nat)
    ensures
        other < n && other != node ==> others(n, node).contains(address_of(other)),
        node < n ==> others(n, node).len() == n - 1,
        node >= n ==> others(n, node).len() == n,
    decreases n,
{
    if n > 0 {
        law_nodes_are_told_of_the_others((n - 1) as nat, node, other);
        let rest = others((n - 1) as nat, node);
        let all = others(n, node);
        if n - 1 != node {
            assert(all[rest.len() as int] == address_of((n - 1) as nat));
            if rest.contains(address_of(other)) {
                let i = choose|i: int| 0 <= i < rest.len() && rest[i] == address_of(other);
                assert(all[i] == address_of(other));
            }
        }
    }
}

/// A node's address is a port of its own on this machine.
pub proof fn law_addresses_are_local(node: nat)
    ensures
        address_of(node) == "127.0.0.1:"@ + numeral(10_000 + node),
{
}

/// A slot that was loaded swaps, and one that was not starts cold.
pub proof fn law_loaded_slots_swap()
    ensures
        setup_state(true) == CalibrationRenderState::Swap,
        setup_state(false) == CalibrationRenderState::Cold,
{
}

/// A view that was made is current at its own moment only, and only until the next
/// change.
pub proof fn law_views_last_a_moment<V>(epoch: u64, made: u64, view: V, later: u64, now: u64)
    ensures
        (MomentaryView { epoch, cached: Some((epoch, made, view)) }).current(made) == Some(view),
        now != made ==> (MomentaryView { epoch, cached: Some((epoch, made, view)) }).current(now)
            is None,
        later != epoch ==> (MomentaryView {
            epoch: later,
            cached: Some((epoch, made, view)),
        }).current(now) is None,
{
}

/// A cost that was drawn lies within its range, to the microsecond; a range without
/// extent has its one cost.
pub proof fn law_drawn_costs_lie_in_their_range(range: CostRange, d: Duration)
    requires
        drawn_from(range, d),
    ensures
        nanos(range.min) >= nanos(range.max) ==> d == range.min,
        nanos(range.min) < nanos(range.max) ==> nanos(d) % 1_000 == 0 && nanos(range.min) / 1_000
            <= nanos(d) / 1_000 <= nanos(range.max) / 1_000,
{
    if nanos(range.min) < nanos(range.max) {
        let us = choose|us: nat|
            micros(range.min) <= us <= micros(range.max) && nanos(d) == #[trigger] (us * 1_000);
        assert(nanos(d) == us * 1_000);
    }
}

/// Measured times are drawn from what was measured, and where nothing was, from the range
/// that the configuration gives.
pub proof fn law_measured_times_come_first(m: MergedView, range: CostRange, d: Duration)
    ensures
        timed_by(None, range, d) <==> drawn_from(range, d),
        m.count > 0 && m.buckets.len() > 0 && timed_by(Some(m), range, d) ==> nanos(d) <= u64::MAX
            && sampled_from(Some(m), Some(nanos(d) as u64)),
        m.count == 0 ==> (timed_by(Some(m), range, d) <==> drawn_from(range, d)),
{
}

/// A renderer with a model takes its times from the model: those of a style by whether it
/// is loaded, those of a source by mode and scale, and those of a render by its state. One
/// without a model has none.
pub proof fn law_models_give_the_times(renderer: StubRenderer, task: InternalTask)
    ensures
        renderer.calibration matches Some(model) ==> {
            &&& renderer.is_loaded ==> renderer.setup_choice(task) == model.style_choice(
                task,
                CalibrationRenderState::Swap,
            )
            &&& !renderer.is_loaded ==> renderer.setup_choice(task) == model.style_choice(
                task,
                CalibrationRenderState::Cold,
            )
            &&& renderer.source_choice(task) == model.source_choice(
                task.request.mode(),
                task.pixel_ratio,
            )
            &&& renderer.render_choice(task) == model.render_choice(task, renderer.state)
        },
        renderer.calibration is None ==> renderer.setup_choice(task) is None
            && renderer.source_choice(task) is None && renderer.render_choice(task) is None,
{
}

/// Renderers of the same costs agree in every range and in the model.
pub proof fn law_costs_are_compared_whole(a: StubRenderer, b: StubRenderer)
    ensures
        a.same_costs(&b) <==> a.style_setup_cost == b.style_setup_cost && a.source_load_cost
            == b.source_load_cost && a.render_cost == b.render_cost && a.calibration
            == b.calibration,
{
}

} // verus!
