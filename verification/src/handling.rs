//! How a node handles a task, from its arrival to its answer.
//!
//! The steps that wait for others (the dispatcher, the preparer of styles, the
//! worker pool and the peers) are left to the caller, who performs each step and
//! reports what came of it.

use vstd::prelude::*;
use crate::metrics::registry::{changes_of, NodeMetrics};
use crate::metrics::{outcome_changes, single, Change, Family, Scope, UpdateView};
use crate::node::{
    admission_outcome, admit_forwarded, admit_incoming, count_of, fail, failure, finish_local, forward_count,
    forward_start, local_result, reject, rejection, time_left, Admission, Arrival, Failover,
    ForwardAction, ForwardCandidate, LocalRun, PeerReply, MAX_FORWARDING_HOPS,
};
use crate::cache_key::{task_key, words_of};
use crate::render_cache::{cache_hit_outcome, image, may_be_kept, weight, RenderOutputCache};
use crate::types::{
    CachePolicy, CompletedInfo, FailureKind, InternalTask, ProcessError, RejectionReason, RenderOutput,
    RouteTier, TaskOutcome, TaskResult,
};

verus! {

/// What a node keeps while it handles tasks.
pub struct NodeState {
    pub id: String,
    pub cache: RenderOutputCache,
    pub metrics: NodeMetrics,
}

/// Who sent a task.
#[derive(Clone, Copy, Debug, PartialEq, Eq, Structural)]
pub enum Sender {
    Client,
    /// A peer, which chose the route. The style must be known at the task's
    /// version.
    Peer { style_known: bool, route_tier: RouteTier, drain_worker: Option<usize> },
}

impl Sender {
    pub open spec fn scope_of(self) -> Scope {
        match self {
            Sender::Client => Scope::Ingress,
            Sender::Peer { .. } => Scope::Forwarded,
        }
    }

    /// The sender may send tasks of this style.
    pub open spec fn knows_style(self) -> bool {
        match self {
            Sender::Client => true,
            Sender::Peer { style_known, .. } => style_known,
        }
    }

    fn is_style_known(self) -> (r: bool)
        ensures
            r == self.knows_style(),
    {
        match self {
            Sender::Client => true,
            Sender::Peer { style_known, .. } => style_known,
        }
    }

    fn scope(self) -> (r: Scope)
        ensures
            r == self.scope_of(),
    {
        match self {
            Sender::Client => Scope::Ingress,
            Sender::Peer { .. } => Scope::Forwarded,
        }
    }
}

/// What the dispatcher decided.
#[derive(Debug)]
pub enum Decision {
    Local { route_tier: RouteTier, worker_hint: Option<usize> },
    Forward { route_tier: RouteTier, candidates: Vec<ForwardCandidate> },
    Reject { reason: RejectionReason },
}

/// What a peer made of a task that was sent to it.
#[derive(Debug)]
pub enum ForwardReply {
    /// It answered, and its answer is the outcome.
    Answered(TaskOutcome),
    /// It rejected the task for a reason that another peer may not have.
    Busy { reason: RejectionReason },
    /// The task did not reach it, but might on another try.
    Unreachable,
    /// The exchange failed for good.
    Broken,
}

impl ForwardReply {
    pub open spec fn kind_of(self) -> PeerReply {
        match self {
            ForwardReply::Answered(_) => PeerReply::Answered,
            ForwardReply::Busy { reason } => PeerReply::Busy { reason },
            ForwardReply::Unreachable => PeerReply::Unreachable,
            ForwardReply::Broken => PeerReply::Broken,
        }
    }

    fn kind(&self) -> (r: PeerReply)
        ensures
            r == self.kind_of(),
    {
        match self {
            ForwardReply::Answered(_) => PeerReply::Answered,
            ForwardReply::Busy { reason } => PeerReply::Busy { reason: *reason },
            ForwardReply::Unreachable => PeerReply::Unreachable,
            ForwardReply::Broken => PeerReply::Broken,
        }
    }
}

/// What the node does next with a task.
#[derive(Debug)]
pub enum Step {
    /// Ask the dispatcher where to render the task.
    Decide,
    /// Prepare the style of the task.
    Prepare,
    /// Hand the task to the worker pool.
    Process { route_tier: RouteTier, worker_hint: Option<usize> },
    /// Send the task to a peer, with this count of hops.
    Send { node_id: String, drain_worker: Option<usize>, route_tier: RouteTier, hops: u8 },
    /// Answer.
    Answer(TaskOutcome),
}

/// What the node waits for.
#[derive(Debug)]
pub enum Stage {
    Deciding,
    /// The style; a full queue is then rejected for this reason.
    Preparing { route_tier: RouteTier, worker_hint: Option<usize>, if_full: RejectionReason },
    /// The worker pool.
    Processing { if_full: RejectionReason },
    /// A peer's reply.
    Forwarding { route_tier: RouteTier, candidates: Vec<ForwardCandidate>, failover: Failover },
    /// Nothing: the task was answered.
    Over,
}

/// A task on its way through the node.
#[derive(Debug)]
pub struct TaskRun {
    pub scope: Scope,
    pub stage: Stage,
}

impl TaskRun {
    /// A task that was sent to a peer may be forwarded, and went to one of the
    /// candidates.
    pub open spec fn wf(&self, task: InternalTask) -> bool {
        self.stage matches Stage::Forwarding { candidates, failover, .. } ==> failover.wf()
            && failover.candidates == candidates@.len() && task.forwarding_hops
            < MAX_FORWARDING_HOPS
    }
}

/// What a lookup in the output cache counts, where it counts.
pub open spec fn miss_changes(looked: bool) -> Seq<UpdateView> {
    if looked {
        seq![single(Family::RenderOutputCache, "miss"@, Change::Count)]
    } else {
        Seq::empty()
    }
}

/// The image of a task is kept in the output cache.
pub open spec fn is_kept(cache: &RenderOutputCache, task: InternalTask, outcome: TaskOutcome) -> bool {
    cache.is_on() && may_be_kept(task.source) && outcome.result is Completed
}

/// What the end of a task counts.
pub open spec fn end_changes(kept: bool, scope: Scope, outcome: TaskOutcome) -> Seq<UpdateView> {
    if kept {
        seq![single(Family::RenderOutputCache, "insert"@, Change::Count)] + outcome_changes(
            scope,
            outcome,
        )
    } else {
        outcome_changes(scope, outcome)
    }
}

/// The outcome of a task that was answered from the cache at `now`.
pub open spec fn is_cache_hit(
    node_id: Seq<char>,
    task: InternalTask,
    now: u64,
    outcome: TaskOutcome,
) -> bool {
    &&& outcome.task_id == task.id
    &&& outcome.request_id@ == task.request_id@
    &&& outcome.arrived_at == task.arrived_at
    &&& outcome.had_source == (task.source is Some)
    &&& outcome.deadline_stage is None
    &&& outcome.result matches TaskResult::Completed { info, .. } && info.node_id@ == node_id
        && info == (CompletedInfo {
        node_id: info.node_id,
        worker_id: None,
        route_tier: RouteTier::RenderCacheHit,
        started_at: task.arrived_at,
        cpu_started_at: now,
        cpu_completed_at: now,
        completed_at: now,
        style_swap: false,
        cold_start: false,
        source_loaded: false,
        admitted_at_overflow: false,
    })
}

impl NodeState {
    pub open spec fn wf(&self) -> bool {
        self.metrics.wf()
    }

    /// Only the counts changed, and by these updates.
    pub open spec fn counted(&self, before: &NodeState, updates: Seq<UpdateView>) -> bool {
        &&& self.wf()
        &&& self.id == before.id
        &&& self.cache == before.cache
        &&& self.metrics.was_told(&before.metrics, updates)
    }

    /// The task ended with this outcome, after the updates in `first`: its image
    /// is kept if it may be, and the outcome is counted.
    pub open spec fn ended(
        &self,
        before: &NodeState,
        first: Seq<UpdateView>,
        scope: Scope,
        task: InternalTask,
        outcome: TaskOutcome,
    ) -> bool {
        let kept = is_kept(&before.cache, task, outcome);
        &&& self.wf()
        &&& self.id == before.id
        &&& self.metrics.was_told(&before.metrics, first + end_changes(kept, scope, outcome))
        &&& self.cache.is_on() == before.cache.is_on()
        &&& self.cache.limit() == before.cache.limit()
        &&& !kept ==> self.cache == before.cache
        &&& kept ==> self.cache.puts() == before.cache.puts().insert(
            words_of(task_key(task)),
            image(outcome.result->output),
        )
        &&& kept ==> self.cache.weighed() == before.cache.weighed() + weight(
            outcome.result->output.bytes@.len(),
        )
    }

    /// Keeps the image of a task, if there is one that may be kept, and counts
    /// the outcome.
    fn finish(
        &mut self,
        scope: Scope,
        task: &InternalTask,
        outcome: &TaskOutcome,
        Ghost(start): Ghost<NodeState>,
        Ghost(first): Ghost<Seq<UpdateView>>,
    )
        requires
            old(self).counted(&start, first),
        ensures
            final(self).ended(&start, first, scope, *task, *outcome),
    {
        let ghost counted = *self;
        let ghost kept = is_kept(&self.cache, *task, *outcome);
        if self.cache.insert_from_outcome(task, outcome) {
            self.metrics.record_render_output_cache_insert();
        }
        let ghost inserted = self.metrics;
        let ghost insertion: Seq<UpdateView> = if kept {
            seq![single(Family::RenderOutputCache, "insert"@, Change::Count)]
        } else {
            Seq::empty()
        };
        assert(inserted.was_told(&counted.metrics, insertion)) by {
            if !kept {
                inserted.lemma_told_nothing();
            }
        }
        self.metrics.record_outcome(scope, outcome);
        proof {
            inserted.lemma_told_in_turn(&start.metrics, &counted.metrics, first, insertion);
            let last = outcome_changes(scope, *outcome);
            self.metrics.lemma_told_in_turn(&start.metrics, &inserted, first + insertion, last);
            assert(first + insertion + last =~= first + end_changes(kept, scope, *outcome));
        }
    }

    /// The first step of a task: those of unknown styles and those past their
    /// deadline are rejected, images that are kept are served, and nothing is
    /// rendered on a node without a fit renderer. Nothing is said of which images
    /// the cache still has once it was given more than it can hold.
    pub fn arrive(&mut self, task: &InternalTask, sender: Sender, now: u64, can_render: bool) -> (r: (
        TaskRun,
        Step,
    ))
        requires
            old(self).wf(),
        ensures
            final(self).wf(),
            r.0.wf(*task),
            r.0.scope == sender.scope_of(),
            r.1 is Answer == (r.0.stage is Over),
            !sender.knows_style() ==> r.1 == Step::Answer(
                rejection(*task, RejectionReason::UnknownStyle),
            ) && final(self).counted(
                old(self),
                outcome_changes(
                    sender.scope_of(),
                    rejection(*task, RejectionReason::UnknownStyle),
                ),
            ),
            sender.knows_style() && now >= task.deadline ==> r.1 == Step::Answer(
                rejection(*task, RejectionReason::DeadlineExceeded),
            ) && final(self).counted(
                old(self),
                outcome_changes(
                    sender.scope_of(),
                    rejection(*task, RejectionReason::DeadlineExceeded),
                ),
            ),
            sender.knows_style() && now < task.deadline ==> old(self).goes_on(
                final(self),
                *task,
                sender,
                now,
                can_render,
                r.0,
                r.1,
            ),
    {
        let kept = if sender.is_style_known() && now < task.deadline {
            self.cache.get(task)
        } else {
            None
        };
        self.arrive_from(task, sender, now, can_render, kept)
    }

    /// The first step of a task for which the output cache has `kept`, or nothing.
    pub fn arrive_from(
        &mut self,
        task: &InternalTask,
        sender: Sender,
        now: u64,
        can_render: bool,
        kept: Option<RenderOutput>,
    ) -> (r: (TaskRun, Step))
        requires
            old(self).wf(),
        ensures
            final(self).wf(),
            r.0.wf(*task),
            r.0.scope == sender.scope_of(),
            r.1 is Answer == (r.0.stage is Over),
            !sender.knows_style() ==> r.1 == Step::Answer(
                rejection(*task, RejectionReason::UnknownStyle),
            ) && final(self).counted(
                old(self),
                outcome_changes(
                    sender.scope_of(),
                    rejection(*task, RejectionReason::UnknownStyle),
                ),
            ),
            sender.knows_style() && now >= task.deadline ==> r.1 == Step::Answer(
                rejection(*task, RejectionReason::DeadlineExceeded),
            ) && final(self).counted(
                old(self),
                outcome_changes(
                    sender.scope_of(),
                    rejection(*task, RejectionReason::DeadlineExceeded),
                ),
            ),
            sender.knows_style() && now < task.deadline ==> old(self).goes_on_from(
                kept,
                final(self),
                *task,
                sender,
                now,
                can_render,
                r.0,
                r.1,
            ),
    {
        let ghost start = *self;
        let scope = sender.scope();
        let style_known = sender.is_style_known();
        let arrival = Arrival {
            now,
            style_known,
            cached: kept.is_some(),
            cacheable: self.cache.is_enabled_for(task),
            can_render,
        };
        let admission = match sender {
            Sender::Client => admit_incoming(task, arrival),
            Sender::Peer { .. } => admit_forwarded(task, arrival),
        };
        if let Some(outcome) = admission_outcome(task, admission) {
            let looked: bool = match admission {
                Admission::Shed { count_miss } => count_miss,
                _ => false,
            };
            self.count_miss(looked);
            let ghost missed = self.metrics;
            self.metrics.record_outcome(scope, &outcome);
            proof {
                let told = outcome_changes(scope, outcome);
                self.metrics.lemma_told_in_turn(
                    &start.metrics,
                    &missed,
                    miss_changes(looked),
                    told,
                );
                assert(!looked ==> miss_changes(looked) + told =~= told);
            }
            return (TaskRun { scope, stage: Stage::Over }, Step::Answer(outcome));
        }
        match (admission, kept) {
            (Admission::ServeCached, Some(output)) => {
                self.metrics.record_render_output_cache_hit();
                let ghost hit = self.metrics;
                let outcome = cache_hit_outcome(self.id.clone(), task, output, now);
                self.metrics.record_outcome(scope, &outcome);
                proof {
                    self.metrics.lemma_told_in_turn(
                        &start.metrics,
                        &hit,
                        seq![single(Family::RenderOutputCache, "hit"@, Change::Count)],
                        outcome_changes(scope, outcome),
                    );
                }
                (TaskRun { scope, stage: Stage::Over }, Step::Answer(outcome))
            },
            _ => {
                self.count_miss(arrival.cacheable);
                match sender {
                    Sender::Client => (TaskRun { scope, stage: Stage::Deciding }, Step::Decide),
                    Sender::Peer { route_tier, drain_worker, .. } => (
                        TaskRun {
                            scope,
                            stage: Stage::Preparing {
                                route_tier,
                                worker_hint: drain_worker,
                                if_full: RejectionReason::QueueFull,
                            },
                        },
                        Step::Prepare,
                    ),
                }
            },
        }
    }

    fn count_miss(&mut self, looked: bool)
        requires
            old(self).wf(),
        ensures
            final(self).counted(old(self), miss_changes(looked)),
    {
        if looked {
            self.metrics.record_render_output_cache_miss();
        } else {
            proof {
                self.metrics.lemma_told_nothing();
            }
        }
    }

    /// The step of a task that is neither late nor of an unknown style, and for which
    /// the output cache has `kept`, or nothing.
    pub open spec fn goes_on_from(
        &self,
        kept: Option<RenderOutput>,
        after: &NodeState,
        task: InternalTask,
        sender: Sender,
        now: u64,
        can_render: bool,
        run: TaskRun,
        step: Step,
    ) -> bool {
        let missed = miss_changes(self.cache.is_on() && may_be_kept(task.source));
        match kept {
            Some(output) => {
                &&& step is Answer
                &&& is_cache_hit(self.id@, task, now, step->Answer_0)
                &&& step->Answer_0.result->output == output
                &&& after.counted(
                    self,
                    seq![single(Family::RenderOutputCache, "hit"@, Change::Count)]
                        + outcome_changes(sender.scope_of(), step->Answer_0),
                )
            },
            None => if !can_render {
                let outcome = rejection(task, RejectionReason::NoCapacity);
                step == Step::Answer(outcome) && after.counted(
                    self,
                    missed + outcome_changes(sender.scope_of(), outcome),
                )
            } else {
                after.counted(self, missed) && match sender {
                    Sender::Client => step is Decide && run.stage is Deciding,
                    Sender::Peer { route_tier, drain_worker, .. } => step is Prepare && run.stage
                        == (Stage::Preparing {
                        route_tier,
                        worker_hint: drain_worker,
                        if_full: RejectionReason::QueueFull,
                    }),
                }
            },
        }
    }

    /// The step of a task that is neither late nor of an unknown style.
    pub open spec fn goes_on(
        &self,
        after: &NodeState,
        task: InternalTask,
        sender: Sender,
        now: u64,
        can_render: bool,
        run: TaskRun,
        step: Step,
    ) -> bool {
        let missed = miss_changes(self.cache.is_on() && may_be_kept(task.source));
        match step {
            Step::Answer(outcome) => if outcome.result is Completed {
                &&& is_cache_hit(self.id@, task, now, outcome)
                &&& self.cache.puts().contains_key(words_of(task_key(task)))
                &&& self.cache.puts()[words_of(task_key(task))] == image(outcome.result->output)
                &&& after.counted(
                    self,
                    seq![single(Family::RenderOutputCache, "hit"@, Change::Count)]
                        + outcome_changes(sender.scope_of(), outcome),
                )
            } else {
                &&& !can_render
                &&& !self.cache.surely_has(words_of(task_key(task)))
                &&& outcome == rejection(task, RejectionReason::NoCapacity)
                &&& after.counted(self, missed + outcome_changes(sender.scope_of(), outcome))
            },
            Step::Decide => can_render && !self.cache.surely_has(words_of(task_key(task)))
                && sender == Sender::Client && run.stage is Deciding && after.counted(self, missed),
            Step::Prepare => can_render && !self.cache.surely_has(words_of(task_key(task)))
                && after.counted(self, missed) && match sender {
                Sender::Peer { route_tier, drain_worker, .. } => run.stage == (Stage::Preparing {
                    route_tier,
                    worker_hint: drain_worker,
                    if_full: RejectionReason::QueueFull,
                }),
                Sender::Client => false,
            },
            _ => false,
        }
    }

    /// What follows an action of the failover, after the updates in `first`.
    pub open spec fn acted(
        &self,
        before: &NodeState,
        first: Seq<UpdateView>,
        task: InternalTask,
        route_tier: RouteTier,
        candidates: Seq<ForwardCandidate>,
        failover: Failover,
        action: ForwardAction,
        run: TaskRun,
        step: Step,
    ) -> bool {
        match action {
            ForwardAction::Reject { reason } => {
                &&& step == Step::Answer(rejection(task, reason))
                &&& run.stage is Over
                &&& self.ended(before, first, run.scope, task, rejection(task, reason))
            },
            ForwardAction::Send { candidate, hops } => {
                &&& step matches Step::Send { node_id, drain_worker, route_tier: tier, hops: h }
                    && node_id@ == candidates[candidate as int].node_id@ && drain_worker
                    == candidates[candidate as int].drain_worker && tier == route_tier && h == hops
                &&& run.stage matches Stage::Forwarding {
                    route_tier: tier,
                    candidates: left,
                    failover: now,
                } && tier == route_tier && left@ == candidates && now == failover
                &&& self.counted(before, first)
            },
            ForwardAction::RunLocally { if_full } => {
                &&& step is Prepare
                &&& run.stage == (Stage::Preparing {
                    route_tier: RouteTier::Tier4Overflow,
                    worker_hint: None,
                    if_full,
                })
                &&& self.counted(before, first)
            },
            ForwardAction::Deliver => true,
        }
    }

    fn act(
        &mut self,
        run: &mut TaskRun,
        task: &InternalTask,
        route_tier: RouteTier,
        candidates: Vec<ForwardCandidate>,
        failover: Failover,
        action: ForwardAction,
        Ghost(start): Ghost<NodeState>,
        Ghost(first): Ghost<Seq<UpdateView>>,
    ) -> (r: Step)
        requires
            old(self).counted(&start, first),
            !(action is Deliver),
            action matches ForwardAction::Send { candidate, .. } ==> candidate < candidates@.len()
                && failover.wf() && failover.candidates == candidates@.len()
                && task.forwarding_hops < MAX_FORWARDING_HOPS,
        ensures
            final(self).wf(),
            final(run).wf(*task),
            final(run).scope == old(run).scope,
            r is Answer == (final(run).stage is Over),
            final(self).acted(
                &start,
                first,
                *task,
                route_tier,
                candidates@,
                failover,
                action,
                *final(run),
                r,
            ),
    {
        match action {
            ForwardAction::Send { candidate, hops } => {
                let node_id = candidates[candidate].node_id.clone();
                let drain_worker = candidates[candidate].drain_worker;
                run.stage = Stage::Forwarding { route_tier, candidates, failover };
                Step::Send { node_id, drain_worker, route_tier, hops }
            },
            ForwardAction::RunLocally { if_full } => {
                run.stage = Stage::Preparing {
                    route_tier: RouteTier::Tier4Overflow,
                    worker_hint: None,
                    if_full,
                };
                Step::Prepare
            },
            ForwardAction::Reject { reason } => {
                let outcome = reject(task, reason);
                self.finish(run.scope, task, &outcome, Ghost(start), Ghost(first));
                run.stage = Stage::Over;
                Step::Answer(outcome)
            },
            ForwardAction::Deliver => {
                run.stage = Stage::Deciding;
                Step::Decide
            },
        }
    }

    /// Goes on after the dispatcher's decision.
    pub fn on_decision(
        &mut self,
        run: &mut TaskRun,
        task: &InternalTask,
        decision: Decision,
        now: u64,
    ) -> (r: Step)
        requires
            old(self).wf(),
            old(run).stage is Deciding,
        ensures
            final(self).wf(),
            final(run).wf(*task),
            final(run).scope == old(run).scope,
            r is Answer == (final(run).stage is Over),
            match decision {
                Decision::Local { route_tier, worker_hint } => {
                    &&& r is Prepare
                    &&& final(run).stage == (Stage::Preparing {
                        route_tier,
                        worker_hint,
                        if_full: RejectionReason::QueueFull,
                    })
                    &&& *final(self) == *old(self)
                },
                Decision::Forward { route_tier, candidates } => {
                    let action = forward_start(
                        *task,
                        candidates@.len() as usize,
                        time_left(*task, now),
                    );
                    final(self).acted(
                        old(self),
                        Seq::empty(),
                        *task,
                        route_tier,
                        candidates@,
                        Failover::fresh(candidates@.len() as usize).sent(action),
                        action,
                        *final(run),
                        r,
                    )
                },
                Decision::Reject { reason } => {
                    &&& r == Step::Answer(rejection(*task, reason))
                    &&& final(self).ended(
                        old(self),
                        Seq::empty(),
                        old(run).scope,
                        *task,
                        rejection(*task, reason),
                    )
                },
            },
    {
        let ghost start = *self;
        let ghost first = Seq::<UpdateView>::empty();
        proof {
            self.metrics.lemma_told_nothing();
        }
        match decision {
            Decision::Local { route_tier, worker_hint } => {
                run.stage = Stage::Preparing {
                    route_tier,
                    worker_hint,
                    if_full: RejectionReason::QueueFull,
                };
                Step::Prepare
            },
            Decision::Forward { route_tier, candidates } => {
                let (failover, action) = Failover::start(task, candidates.len(), now);
                self.act(
                    run,
                    task,
                    route_tier,
                    candidates,
                    failover,
                    action,
                    Ghost(start),
                    Ghost(first),
                )
            },
            Decision::Reject { reason } => {
                let outcome = reject(task, reason);
                self.finish(run.scope, task, &outcome, Ghost(start), Ghost(first));
                run.stage = Stage::Over;
                Step::Answer(outcome)
            },
        }
    }

    /// Goes on once the style is prepared, or could not be.
    pub fn on_prepared(
        &mut self,
        run: &mut TaskRun,
        task: &InternalTask,
        prepared: Result<(), (String, FailureKind)>,
    ) -> (r: Step)
        requires
            old(self).wf(),
            old(run).stage is Preparing,
        ensures
            final(self).wf(),
            final(run).wf(*task),
            final(run).scope == old(run).scope,
            r is Answer == (final(run).stage is Over),
            match prepared {
                Ok(()) => {
                    &&& r == (Step::Process {
                        route_tier: old(run).stage->Preparing_route_tier,
                        worker_hint: old(run).stage->Preparing_worker_hint,
                    })
                    &&& final(run).stage == (Stage::Processing {
                        if_full: old(run).stage->Preparing_if_full,
                    })
                    &&& *final(self) == *old(self)
                },
                Err((error, kind)) => {
                    &&& r == Step::Answer(failure(*task, error, kind))
                    &&& final(self).ended(
                        old(self),
                        Seq::empty(),
                        old(run).scope,
                        *task,
                        failure(*task, error, kind),
                    )
                },
            },
    {
        let ghost start = *self;
        proof {
            self.metrics.lemma_told_nothing();
        }
        match prepared {
            Ok(()) => match run.stage {
                Stage::Preparing { route_tier, worker_hint, if_full } => {
                    run.stage = Stage::Processing { if_full };
                    Step::Process { route_tier, worker_hint }
                },
                _ => Step::Decide,
            },
            Err((error, kind)) => {
                let outcome = fail(task, error, kind);
                self.finish(
                    run.scope,
                    task,
                    &outcome,
                    Ghost(start),
                    Ghost(Seq::<UpdateView>::empty()),
                );
                run.stage = Stage::Over;
                Step::Answer(outcome)
            },
        }
    }

    /// Ends a task with what the worker pool made of it.
    pub fn on_processed(
        &mut self,
        run: &mut TaskRun,
        task: &InternalTask,
        processed: Result<TaskOutcome, ProcessError>,
    ) -> (r: TaskOutcome)
        requires
            old(self).wf(),
            old(run).stage is Processing,
        ensures
            local_result(
                *task,
                match processed {
                    Ok(outcome) => LocalRun::Ran { outcome },
                    Err(err) => LocalRun::Refused { err },
                },
                old(run).stage->Processing_if_full,
                r,
            ),
            final(run).stage is Over,
            final(run).scope == old(run).scope,
            final(self).ended(old(self), Seq::empty(), old(run).scope, *task, r),
    {
        let ghost start = *self;
        proof {
            self.metrics.lemma_told_nothing();
        }
        let if_full: RejectionReason = match run.stage {
            Stage::Processing { if_full } => if_full,
            _ => RejectionReason::QueueFull,
        };
        let ran = match processed {
            Ok(outcome) => LocalRun::Ran { outcome },
            Err(err) => LocalRun::Refused { err },
        };
        let outcome = finish_local(task, ran, if_full);
        self.finish(run.scope, task, &outcome, Ghost(start), Ghost(Seq::<UpdateView>::empty()));
        run.stage = Stage::Over;
        outcome
    }

    /// Goes on after a peer's reply: its answer is the outcome, counted from when the
    /// task arrived here, and after any other reply the next candidate is tried.
    pub fn on_reply(
        &mut self,
        run: &mut TaskRun,
        task: &InternalTask,
        reply: ForwardReply,
        now: u64,
    ) -> (r: Step)
        requires
            old(self).wf(),
            old(run).wf(*task),
            old(run).stage is Forwarding,
        ensures
            final(self).wf(),
            final(run).wf(*task),
            final(run).scope == old(run).scope,
            r is Answer == (final(run).stage is Over),
            reply matches ForwardReply::Answered(outcome) ==> r == Step::Answer(
                arrived(*task, outcome),
            ) && final(self).ended(
                old(self),
                seq![attempt_change(reply.kind_of())],
                old(run).scope,
                *task,
                arrived(*task, outcome),
            ),
            !(reply is Answered) ==> {
                let failover = old(run).stage->Forwarding_failover.after(reply.kind_of());
                let action = failover.next_action(task.forwarding_hops, time_left(*task, now));
                final(self).acted(
                    old(self),
                    seq![attempt_change(reply.kind_of())],
                    *task,
                    old(run).stage->Forwarding_route_tier,
                    old(run).stage->Forwarding_candidates@,
                    failover.sent(action),
                    action,
                    *final(run),
                    r,
                )
            },
    {
        let ghost start = *self;
        let kind = reply.kind();
        let ghost first = seq![attempt_change(kind)];
        self.metrics.record_forward(forward_count(kind));
        let mut stage = Stage::Over;
        std::mem::swap(&mut stage, &mut run.stage);
        match (reply, stage) {
            (ForwardReply::Answered(outcome), _) => {
                let outcome = TaskOutcome { arrived_at: task.arrived_at, ..outcome };
                self.finish(run.scope, task, &outcome, Ghost(start), Ghost(first));
                Step::Answer(outcome)
            },
            (_, Stage::Forwarding { route_tier, candidates, failover }) => {
                let mut failover = failover;
                let action = failover.on_reply(task, kind, now);
                self.act(
                    run,
                    task,
                    route_tier,
                    candidates,
                    failover,
                    action,
                    Ghost(start),
                    Ghost(first),
                )
            },
            _ => Step::Decide,
        }
    }
}

/// An outcome of a peer as that of a task that arrived here.
pub open spec fn arrived(task: InternalTask, outcome: TaskOutcome) -> TaskOutcome {
    TaskOutcome { arrived_at: task.arrived_at, ..outcome }
}

/// What an exchange with a peer counts.
pub open spec fn attempt_change(reply: PeerReply) -> UpdateView {
    single(Family::Forwards, NodeMetrics::attempt_text(count_of(reply)), Change::Count)
}

/// A request that comes again, and is answered from the cache, gets the image that
/// was rendered for it last.
pub proof fn law_a_repeated_request_gets_its_image(
    before: NodeState,
    after: NodeState,
    updates: Seq<UpdateView>,
    scope: Scope,
    task: InternalTask,
    outcome: TaskOutcome,
    later: NodeState,
    again: InternalTask,
    sender: Sender,
    now: u64,
    can_render: bool,
    run: TaskRun,
    answer: TaskOutcome,
)
    requires
        after.ended(&before, updates, scope, task, outcome),
        is_kept(&before.cache, task, outcome),
        task_key(again) == task_key(task),
        after.goes_on(&later, again, sender, now, can_render, run, Step::Answer(answer)),
        answer.result is Completed,
    ensures
        image(answer.result->output) == image(outcome.result->output),
{
}

/// A request that comes again is answered from the cache, with the image that was
/// rendered for it last, if the cache still has it: nobody renders it again, and
/// nobody else is asked.
pub proof fn law_a_repeated_request_is_served_what_is_kept(
    before: NodeState,
    after: NodeState,
    updates: Seq<UpdateView>,
    scope: Scope,
    task: InternalTask,
    outcome: TaskOutcome,
    later: NodeState,
    again: InternalTask,
    sender: Sender,
    now: u64,
    can_render: bool,
    kept: RenderOutput,
    run: TaskRun,
    step: Step,
)
    requires
        after.ended(&before, updates, scope, task, outcome),
        is_kept(&before.cache, task, outcome),
        task_key(again) == task_key(task),
        after.cache.puts()[words_of(task_key(again))] == image(kept),
        after.goes_on_from(Some(kept), &later, again, sender, now, can_render, run, step),
    ensures
        step is Answer,
        step->Answer_0.task_id == again.id,
        step->Answer_0.result is Completed,
        step->Answer_0.result->info.route_tier == RouteTier::RenderCacheHit,
        step->Answer_0.result->info.worker_id is None,
        image(step->Answer_0.result->output) == image(outcome.result->output),
{
}

/// A request that comes again is answered from the cache, with the image that was
/// rendered for it last, while all images that were kept so far fit.
pub proof fn law_a_repeated_request_is_served_while_images_fit(
    before: NodeState,
    after: NodeState,
    updates: Seq<UpdateView>,
    scope: Scope,
    task: InternalTask,
    outcome: TaskOutcome,
    later: NodeState,
    again: InternalTask,
    sender: Sender,
    now: u64,
    can_render: bool,
    run: TaskRun,
    step: Step,
)
    requires
        after.ended(&before, updates, scope, task, outcome),
        is_kept(&before.cache, task, outcome),
        before.cache.weighed() + weight(outcome.result->output.bytes@.len())
            <= before.cache.limit(),
        task_key(again) == task_key(task),
        after.goes_on(&later, again, sender, now, can_render, run, step),
    ensures
        step matches Step::Answer(answer) && answer.result is Completed && image(
            answer.result->output,
        ) == image(outcome.result->output),
{
}

/// A task whose image was never kept goes on: a client's to where it is decided who
/// renders it, and a peer's to be rendered here, by the worker that the peer named. A
/// node that cannot render turns it away.
pub proof fn law_tasks_without_an_image_go_on(
    before: NodeState,
    after: NodeState,
    task: InternalTask,
    sender: Sender,
    now: u64,
    can_render: bool,
    run: TaskRun,
    step: Step,
)
    requires
        before.goes_on(&after, task, sender, now, can_render, run, step),
        !before.cache.puts().contains_key(words_of(task_key(task))),
    ensures
        can_render && sender is Client ==> step is Decide && run.stage is Deciding,
        can_render ==> (sender matches Sender::Peer { route_tier, drain_worker, .. } ==> step
            is Prepare && (run.stage matches Stage::Preparing {
            route_tier: tier,
            worker_hint,
            if_full,
        } && tier == route_tier && worker_hint == drain_worker && if_full
            == RejectionReason::QueueFull)),
        !can_render ==> (step matches Step::Answer(outcome) && outcome.result == (
        TaskResult::Rejected { reason: RejectionReason::NoCapacity }) && outcome.task_id == task.id),
        after.id == before.id,
        after.cache == before.cache,
{
}

/// An answer from the cache is the image that was kept for the request, and says that it
/// came from there, at once, without a worker.
pub proof fn law_answers_from_the_cache_say_so(
    before: NodeState,
    after: NodeState,
    task: InternalTask,
    sender: Sender,
    now: u64,
    can_render: bool,
    run: TaskRun,
    outcome: TaskOutcome,
)
    requires
        before.goes_on(&after, task, sender, now, can_render, run, Step::Answer(outcome)),
        outcome.result is Completed,
    ensures
        before.cache.puts().contains_key(words_of(task_key(task))),
        before.cache.puts()[words_of(task_key(task))].bytes == outcome.result->output.bytes@,
        before.cache.puts()[words_of(task_key(task))].format == outcome.result->output.format,
        outcome.task_id == task.id,
        outcome.request_id@ == task.request_id@,
        outcome.arrived_at == task.arrived_at,
        outcome.result->info.route_tier == RouteTier::RenderCacheHit,
        outcome.result->info.node_id@ == before.id@,
        outcome.result->info.worker_id is None,
        outcome.result->info.completed_at == now,
        outcome.result->info.started_at == task.arrived_at,
        !outcome.result->info.style_swap,
        !outcome.result->info.cold_start,
{
}

/// What is decided of a forward is what is done: a task is sent to the node that was
/// chosen, with its tier and hops; a task that is turned away is told why; and a task that
/// nobody took is rendered here by any worker, as one too many.
pub proof fn law_forwards_go_where_they_were_sent(
    node: NodeState,
    before: NodeState,
    first: Seq<UpdateView>,
    task: InternalTask,
    route_tier: RouteTier,
    candidates: Seq<ForwardCandidate>,
    failover: Failover,
    action: ForwardAction,
    run: TaskRun,
    step: Step,
)
    requires
        node.acted(
            &before,
            first,
            task,
            route_tier,
            candidates,
            failover,
            action,
            run,
            step,
        ),
    ensures
        action matches ForwardAction::Send { candidate, hops: wanted } ==> (step matches Step::Send {
            node_id,
            drain_worker,
            route_tier: tier,
            hops,
        } && node_id@ == candidates[candidate as int].node_id@ && drain_worker
            == candidates[candidate as int].drain_worker && tier == route_tier && hops == wanted),
        action matches ForwardAction::Reject { reason } ==> (step matches Step::Answer(outcome)
            && outcome.result == (TaskResult::Rejected { reason })),
        action matches ForwardAction::RunLocally { if_full: wanted } ==> step is Prepare && (
        run.stage matches Stage::Preparing { route_tier: tier, worker_hint, if_full } && tier
            == RouteTier::Tier4Overflow && worker_hint is None && if_full == wanted),
{
}

/// A task is answered as its peer answered it, and counts from when it came here.
pub proof fn law_answers_of_peers_are_passed_on(task: InternalTask, outcome: TaskOutcome)
    ensures
        arrived(task, outcome).result == outcome.result,
        arrived(task, outcome).task_id == outcome.task_id,
        arrived(task, outcome).request_id == outcome.request_id,
        arrived(task, outcome).deadline_stage == outcome.deadline_stage,
        arrived(task, outcome).arrived_at == task.arrived_at,
{
}

/// A node keeps the image of a task that it answered just if it keeps images, the task's
/// source allows it, and there is one; it is then found under the task's own key.
pub proof fn law_rendered_images_are_kept(
    node: NodeState,
    before: NodeState,
    first: Seq<UpdateView>,
    scope: Scope,
    task: InternalTask,
    outcome: TaskOutcome,
)
    requires
        node.ended(&before, first, scope, task, outcome),
    ensures
        before.cache.is_on() && task.source is None && outcome.result is Completed ==> {
            &&& node.cache.puts().contains_key(words_of(task_key(task)))
            &&& node.cache.puts()[words_of(task_key(task))].bytes == outcome.result->output.bytes@
            &&& node.cache.puts()[words_of(task_key(task))].format == outcome.result->output.format
        },
        before.cache.is_on() && outcome.result is Completed && (task.source matches Some(source)
            && source.policy == CachePolicy::Cacheable) ==> {
            &&& node.cache.puts().contains_key(words_of(task_key(task)))
            &&& node.cache.puts()[words_of(task_key(task))].bytes == outcome.result->output.bytes@
        },
        task.source matches Some(source) && source.policy != CachePolicy::Cacheable ==> node.cache
            == before.cache,
        !(outcome.result is Completed) ==> node.cache == before.cache,
        node.id == before.id,
        node.cache.is_on() == before.cache.is_on(),
        node.cache.limit() == before.cache.limit(),
{
}

/// A task that ends is counted: what came before, the image if it was kept, and the
/// outcome.
pub proof fn law_ended_tasks_are_counted(
    node: NodeState,
    before: NodeState,
    first: Seq<UpdateView>,
    scope: Scope,
    task: InternalTask,
    outcome: TaskOutcome,
    family: Family,
)
    requires
        node.ended(&before, first, scope, task, outcome),
        !(outcome.result is Completed),
    ensures
        node.metrics.log(family) == before.metrics.log(family) + changes_of(
            first + outcome_changes(scope, outcome),
            family,
        ),
{
}

/// Clients come in at the front, and peers by way of forwarding; a client's style is taken
/// to be known, and of a peer's it is asked.
pub proof fn law_senders_are_told_apart(style_known: bool, tier: RouteTier, worker: Option<usize>)
    ensures
        Sender::Client.scope_of() == Scope::Ingress,
        Sender::Client.knows_style(),
        (Sender::Peer { style_known, route_tier: tier, drain_worker: worker }).scope_of()
            == Scope::Forwarded,
        (Sender::Peer { style_known, route_tier: tier, drain_worker: worker }).knows_style()
            == style_known,
{
}

/// A reply counts for what it is.
pub proof fn law_replies_have_their_kind(outcome: TaskOutcome, reason: RejectionReason)
    ensures
        ForwardReply::Answered(outcome).kind_of() == PeerReply::Answered,
        (ForwardReply::Busy { reason }).kind_of() == (PeerReply::Busy { reason }),
        ForwardReply::Unreachable.kind_of() == PeerReply::Unreachable,
        ForwardReply::Broken.kind_of() == PeerReply::Broken,
{
}

/// An attempt counts as a success if it was answered, as fatal if it broke, and as one that
/// may be repeated otherwise.
pub proof fn law_attempts_are_counted(reason: RejectionReason, reply: PeerReply)
    ensures
        attempt_change(reply).family == Family::Forwards,
        attempt_change(reply).change == Change::Count,
        attempt_change(PeerReply::Answered).labels == seq!["success"@],
        attempt_change(PeerReply::Busy { reason }).labels == seq!["retryable"@],
        attempt_change(PeerReply::Unreachable).labels == seq!["retryable"@],
        attempt_change(PeerReply::Broken).labels == seq!["fatal"@],
{
}

/// A look that found nothing counts as a miss, and one that was not made does not count. An
/// image that was kept counts as an insertion, before the outcome.
pub proof fn law_looks_and_insertions_are_counted(scope: Scope, outcome: TaskOutcome)
    ensures
        miss_changes(false).len() == 0,
        miss_changes(true).len() == 1,
        miss_changes(true)[0].family == Family::RenderOutputCache,
        miss_changes(true)[0].labels == seq!["miss"@],
        miss_changes(true)[0].change == Change::Count,
        end_changes(false, scope, outcome) == outcome_changes(scope, outcome),
        end_changes(true, scope, outcome).len() == outcome_changes(scope, outcome).len() + 1,
        end_changes(true, scope, outcome)[0].labels == seq!["insert"@],
        end_changes(true, scope, outcome)[0].family == Family::RenderOutputCache,
        end_changes(true, scope, outcome).skip(1) == outcome_changes(scope, outcome),
{
    assert(end_changes(true, scope, outcome).skip(1) =~= outcome_changes(scope, outcome));
}

/// An answer from the cache counts as a hit, and then as what it is.
pub proof fn law_answers_from_the_cache_count_as_hits(
    before: NodeState,
    after: NodeState,
    task: InternalTask,
    sender: Sender,
    now: u64,
    can_render: bool,
    run: TaskRun,
    outcome: TaskOutcome,
    family: Family,
)
    requires
        before.goes_on(&after, task, sender, now, can_render, run, Step::Answer(outcome)),
        outcome.result is Completed,
    ensures
        after.metrics.log(family) == before.metrics.log(family) + changes_of(
            seq![
                UpdateView {
                    family: Family::RenderOutputCache,
                    labels: seq!["hit"@],
                    change: Change::Count,
                },
            ] + outcome_changes(sender.scope_of(), outcome),
            family,
        ),
{
}

} // verus!
