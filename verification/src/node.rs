//! How a node takes a task: from its own clients, or forwarded by a peer.
//!
//! What a node does is a sequence of steps. Each step is a decision on what has
//! happened so far; between the steps the caller sends, waits and renders.

use vstd::prelude::*;
use std::time::Duration;
use crate::time::{longer, max_nat, millis, min_nat, nanos, shorter};
use crate::types::{
    FailureKind, InternalTask, ProcessError, RejectionReason, TaskOutcome, TaskResult,
};

verus! {

/// A task with less time left than this is not forwarded, in nanoseconds.
pub const MIN_FORWARD_BUDGET: u64 = 200_000_000;

/// How often a task may be forwarded.
pub const MAX_FORWARDING_HOPS: u8 = 1;

/// The longest time that a view of the cluster is kept, in milliseconds.
pub const MAX_CLUSTER_VIEW_CACHE_TTL_MS: u64 = 10;

/// The shortest time that a view of the cluster is kept, in milliseconds.
pub const MIN_CLUSTER_VIEW_CACHE_TTL_MS: u64 = 1;

/// How long a view of the cluster is kept.
pub fn cluster_view_cache_ttl(publish_interval: Duration) -> (r: Duration)
    ensures
        nanos(r) == max_nat(min_nat(nanos(publish_interval), 10_000_000), 1_000_000),
{
    let longest = millis(MAX_CLUSTER_VIEW_CACHE_TTL_MS);
    let shortest = millis(MIN_CLUSTER_VIEW_CACHE_TTL_MS);
    longer(shorter(publish_interval, longest), shortest)
}

/// A view of the cluster, and until when it may be used.
#[derive(Debug)]
pub struct CachedView<V> {
    pub expires_at: u64,
    pub view: V,
}

/// The last view of the cluster.
#[derive(Debug)]
pub struct ClusterViewCache<V> {
    pub ttl: u64,
    pub cached: Option<CachedView<V>>,
}

impl<V> ClusterViewCache<V> {
    /// The kept view, if it may still be used.
    pub open spec fn fresh(self, now: u64) -> Option<V> {
        match self.cached {
            Some(c) => if c.expires_at > now {
                Some(c.view)
            } else {
                None
            },
            None => None,
        }
    }

    pub fn new(ttl: u64) -> (r: ClusterViewCache<V>)
        ensures
            r.ttl == ttl,
            r.cached is None,
    {
        ClusterViewCache { ttl, cached: None }
    }

    /// The kept view, if it may still be used.
    pub fn lookup(&self, now: u64) -> (r: Option<&V>)
        ensures
            match r {
                Some(v) => self.fresh(now) == Some(*v),
                None => self.fresh(now) is None,
            },
    {
        match &self.cached {
            Some(c) => {
                if c.expires_at > now {
                    Some(&c.view)
                } else {
                    None
                }
            },
            None => None,
        }
    }

    /// Keeps a loaded view, unless a fresh one was kept meanwhile: then that one
    /// stays.
    pub fn store(&mut self, now: u64, view: V)
        requires
            now + old(self).ttl <= u64::MAX,
        ensures
            final(self).ttl == old(self).ttl,
            old(self).fresh(now) is Some ==> *final(self) == *old(self),
            old(self).fresh(now) is None ==> final(self).cached == Some(
                (CachedView { expires_at: (now + old(self).ttl) as u64, view }),
            ),
    {
        if self.lookup(now).is_none() {
            self.cached = Some(CachedView { expires_at: now + self.ttl, view });
        }
    }
}

/// A loaded view is used until its time is over and no longer.
pub proof fn law_stored_view_expires<V>(ttl: u64, view: V, stored: u64, now: u64)
    requires
        stored + ttl <= u64::MAX,
        stored <= now,
    ensures
        (ClusterViewCache {
            ttl,
            cached: Some(CachedView { expires_at: (stored + ttl) as u64, view }),
        }).fresh(now) == if now - stored < ttl {
            Some(view)
        } else {
            None
        },
{
}

/// A task that ended without an image.
pub open spec fn ended(
    task_id: u64,
    request_id: String,
    arrived_at: u64,
    had_source: bool,
    result: TaskResult,
) -> TaskOutcome {
    TaskOutcome { task_id, request_id, arrived_at, had_source, deadline_stage: None, result }
}

/// The outcome of a rejected task.
pub open spec fn rejection(task: InternalTask, reason: RejectionReason) -> TaskOutcome {
    ended(
        task.id,
        task.request_id,
        task.arrived_at,
        task.source is Some,
        TaskResult::Rejected { reason },
    )
}

/// The outcome of a failed task.
pub open spec fn failure(task: InternalTask, error: String, kind: FailureKind) -> TaskOutcome {
    ended(
        task.id,
        task.request_id,
        task.arrived_at,
        task.source is Some,
        TaskResult::Failed { error, kind },
    )
}

pub fn outcome(
    task_id: u64,
    request_id: String,
    arrived_at: u64,
    had_source: bool,
    result: TaskResult,
) -> (r: TaskOutcome)
    ensures
        r == ended(task_id, request_id, arrived_at, had_source, result),
{
    TaskOutcome { task_id, request_id, arrived_at, had_source, deadline_stage: None, result }
}

/// Rejects a task.
pub fn reject(task: &InternalTask, reason: RejectionReason) -> (r: TaskOutcome)
    ensures
        r == rejection(*task, reason),
{
    outcome(
        task.id,
        task.request_id.clone(),
        task.arrived_at,
        task.source.is_some(),
        TaskResult::Rejected { reason },
    )
}

/// Fails a task.
pub fn fail(task: &InternalTask, error: String, kind: FailureKind) -> (r: TaskOutcome)
    ensures
        r == failure(*task, error, kind),
{
    outcome(
        task.id,
        task.request_id.clone(),
        task.arrived_at,
        task.source.is_some(),
        TaskResult::Failed { error, kind },
    )
}

/// The outcome of a task that the worker pool did not process: `full` if its
/// queue was full.
pub open spec fn unprocessed(
    task: InternalTask,
    err: ProcessError,
    full: RejectionReason,
    r: TaskOutcome,
) -> bool {
    match err {
        ProcessError::QueueFull => r == rejection(task, full),
        ProcessError::QueueDisconnected => exists|error: String|
            error@ == "worker queue disconnected"@ && r == #[trigger] failure(
                task,
                error,
                FailureKind::Other,
            ),
    }
}

/// The outcome of a task that the worker pool did not process.
pub fn outcome_from_process_error(task: &InternalTask, err: ProcessError) -> (r: TaskOutcome)
    ensures
        unprocessed(*task, err, RejectionReason::QueueFull, r),
{
    match err {
        ProcessError::QueueFull => reject(task, RejectionReason::QueueFull),
        ProcessError::QueueDisconnected => {
            let error = "worker queue disconnected".to_owned();
            let r = fail(task, error, FailureKind::Other);
            assert(r == failure(*task, error, FailureKind::Other));
            r
        },
    }
}

/// The time left before the deadline.
pub open spec fn time_left(task: InternalTask, now: u64) -> nat {
    if task.deadline > now {
        (task.deadline - now) as nat
    } else {
        0
    }
}

/// Whether too little time is left to forward a task.
pub fn forward_budget_too_small(task: &InternalTask, now: u64) -> (r: bool)
    ensures
        r == (time_left(*task, now) < MIN_FORWARD_BUDGET),
{
    task.deadline.saturating_sub(now) < MIN_FORWARD_BUDGET
}

/// What the node knows when a task arrives.
#[derive(Clone, Copy, Debug, PartialEq, Eq, Structural)]
pub struct Arrival {
    pub now: u64,
    /// Whether the style is known at the task's version.
    pub style_known: bool,
    /// Whether the image is in the output cache.
    pub cached: bool,
    /// Whether the output cache takes images of such tasks.
    pub cacheable: bool,
    /// Whether a renderer is fit to start.
    pub can_render: bool,
}

/// What the node does with a task that arrived.
#[derive(Clone, Copy, Debug, PartialEq, Eq, Structural)]
pub enum Admission {
    Reject { reason: RejectionReason },
    /// Answer with the cached image.
    ServeCached,
    /// Go on; the output cache missed if `count_miss` is set.
    Proceed { count_miss: bool },
    /// Do not start a render on a node that has no fit renderer.
    Shed { count_miss: bool },
}

/// The order of the tests on arrival: the deadline comes before the cache, and
/// the cache before the state of the renderers.
pub open spec fn admission(deadline: u64, arrival: Arrival) -> Admission {
    if arrival.now >= deadline {
        Admission::Reject { reason: RejectionReason::DeadlineExceeded }
    } else if arrival.cached {
        Admission::ServeCached
    } else if !arrival.can_render {
        Admission::Shed { count_miss: arrival.cacheable }
    } else {
        Admission::Proceed { count_miss: arrival.cacheable }
    }
}

/// What to do with a task from a client.
pub fn admit_incoming(task: &InternalTask, arrival: Arrival) -> (r: Admission)
    ensures
        r == admission(task.deadline, arrival),
{
    if arrival.now >= task.deadline {
        Admission::Reject { reason: RejectionReason::DeadlineExceeded }
    } else if arrival.cached {
        Admission::ServeCached
    } else if !arrival.can_render {
        Admission::Shed { count_miss: arrival.cacheable }
    } else {
        Admission::Proceed { count_miss: arrival.cacheable }
    }
}

/// What to do with a task that a peer forwarded: its style must be known, and
/// then it is taken like any other.
pub fn admit_forwarded(task: &InternalTask, arrival: Arrival) -> (r: Admission)
    ensures
        r == if !arrival.style_known {
            (Admission::Reject { reason: RejectionReason::UnknownStyle })
        } else {
            admission(task.deadline, arrival)
        },
{
    if !arrival.style_known {
        Admission::Reject { reason: RejectionReason::UnknownStyle }
    } else {
        admit_incoming(task, arrival)
    }
}

/// The reason behind a rejection on arrival; a shed task finds no capacity.
pub open spec fn admission_rejection(a: Admission) -> Option<RejectionReason> {
    match a {
        Admission::Reject { reason } => Some(reason),
        Admission::Shed { .. } => Some(RejectionReason::NoCapacity),
        _ => None,
    }
}

/// The outcome of a task that ends on arrival without an image.
pub fn admission_outcome(task: &InternalTask, a: Admission) -> (r: Option<TaskOutcome>)
    ensures
        match r {
            Some(o) => admission_rejection(a) matches Some(reason) && o == rejection(*task, reason),
            None => admission_rejection(a) is None,
        },
{
    match a {
        Admission::Reject { reason } => Some(reject(task, reason)),
        Admission::Shed { .. } => Some(reject(task, RejectionReason::NoCapacity)),
        _ => None,
    }
}

/// A cached image is served even by a node that cannot render, and a node that
/// cannot render starts none.
pub proof fn law_degraded_node_serves_only_its_cache(deadline: u64, arrival: Arrival)
    requires
        !arrival.can_render,
        arrival.now < deadline,
    ensures
        arrival.cached ==> admission(deadline, arrival) == Admission::ServeCached,
        !arrival.cached ==> admission_rejection(admission(deadline, arrival)) == Some(
            RejectionReason::NoCapacity,
        ),
{
}

/// A task past its deadline is rejected, cached or not.
pub proof fn law_deadline_comes_before_the_cache(deadline: u64, arrival: Arrival)
    requires
        arrival.now >= deadline,
    ensures
        admission_rejection(admission(deadline, arrival)) == Some(
            RejectionReason::DeadlineExceeded,
        ),
{
}

/// What happened when the node set out to render a task itself.
#[derive(Debug)]
pub enum LocalRun {
    /// The style could not be prepared.
    Unprepared { error: String, kind: FailureKind },
    Ran { outcome: TaskOutcome },
    Refused { err: ProcessError },
}

/// The outcome of a local render, where a full queue counts as `full`.
pub open spec fn local_result(
    task: InternalTask,
    run: LocalRun,
    full: RejectionReason,
    r: TaskOutcome,
) -> bool {
    match run {
        LocalRun::Unprepared { error, kind } => r == failure(task, error, kind),
        LocalRun::Ran { outcome } => r == outcome,
        LocalRun::Refused { err } => unprocessed(task, err, full, r),
    }
}

/// A peer that may take a task.
#[derive(Clone, Debug, PartialEq, Eq)]
pub struct ForwardCandidate {
    pub node_id: String,
    pub drain_worker: Option<usize>,
}

/// What a peer made of a forwarded task.
#[derive(Clone, Copy, Debug, PartialEq, Eq, Structural)]
pub enum PeerReply {
    /// It answered, and its answer is the outcome.
    Answered,
    /// It rejected the task for a reason that another peer may not have.
    Busy { reason: RejectionReason },
    /// The task did not reach it, but might on another try.
    Unreachable,
    /// The exchange failed for good.
    Broken,
}

/// Which attempt is counted.
#[derive(Clone, Copy, Debug, PartialEq, Eq, Structural)]
pub enum ForwardCount {
    Success,
    Retryable,
    Fatal,
}

pub open spec fn count_of(reply: PeerReply) -> ForwardCount {
    match reply {
        PeerReply::Answered => ForwardCount::Success,
        PeerReply::Busy { .. } => ForwardCount::Retryable,
        PeerReply::Unreachable => ForwardCount::Retryable,
        PeerReply::Broken => ForwardCount::Fatal,
    }
}

/// How an attempt is counted.
pub fn forward_count(reply: PeerReply) -> (r: ForwardCount)
    ensures
        r == count_of(reply),
{
    match reply {
        PeerReply::Answered => ForwardCount::Success,
        PeerReply::Busy { .. } => ForwardCount::Retryable,
        PeerReply::Unreachable => ForwardCount::Retryable,
        PeerReply::Broken => ForwardCount::Fatal,
    }
}

/// What the node does next with a task that it forwards.
#[derive(Clone, Copy, Debug, PartialEq, Eq, Structural)]
pub enum ForwardAction {
    Reject { reason: RejectionReason },
    /// Send the task to a candidate, with this count of hops.
    Send { candidate: usize, hops: u8 },
    /// The answer of the last peer is the outcome.
    Deliver,
    /// Render here, in the overflow tier; if that queue is full too, reject for
    /// this reason.
    RunLocally { if_full: RejectionReason },
}

/// What forwarding has come to so far.
#[derive(Clone, Copy, Debug, PartialEq, Eq, Structural)]
pub struct Failover {
    /// How many candidates there are.
    pub candidates: usize,
    /// The candidates that were sent the task.
    pub tried: usize,
    /// The last reason for which a busy peer rejected it.
    pub last_busy: Option<RejectionReason>,
    /// Whether an exchange failed.
    pub transport_failed: bool,
}

impl Failover {
    /// What happens after the candidates tried so far, with `left` nanoseconds
    /// to go.
    pub open spec fn next_action(self, hops: u8, left: nat) -> ForwardAction {
        if self.tried < self.candidates {
            if left < MIN_FORWARD_BUDGET {
                ForwardAction::Reject { reason: RejectionReason::DeadlineTooClose }
            } else {
                ForwardAction::Send { candidate: self.tried, hops: (hops + 1) as u8 }
            }
        } else {
            match self.last_busy {
                Some(reason) => ForwardAction::RunLocally { if_full: reason },
                None => if self.transport_failed {
                    ForwardAction::Reject { reason: RejectionReason::ForwardFailed }
                } else {
                    ForwardAction::Reject { reason: RejectionReason::NoCapacity }
                },
            }
        }
    }

    /// The state after a reply.
    pub open spec fn after(self, reply: PeerReply) -> Failover {
        match reply {
            PeerReply::Answered => self,
            PeerReply::Busy { reason } => Failover { last_busy: Some(reason), ..self },
            PeerReply::Unreachable => Failover { transport_failed: true, ..self },
            PeerReply::Broken => Failover { transport_failed: true, ..self },
        }
    }

    /// The state once a send is under way.
    pub open spec fn sent(self, action: ForwardAction) -> Failover {
        if action is Send {
            Failover { tried: (self.tried + 1) as usize, ..self }
        } else {
            self
        }
    }

    pub open spec fn wf(self) -> bool {
        self.tried <= self.candidates
    }

    pub open spec fn fresh(candidates: usize) -> Failover {
        Failover { candidates, tried: 0, last_busy: None, transport_failed: false }
    }

    fn proceed(&mut self, task: &InternalTask, now: u64) -> (r: ForwardAction)
        requires
            old(self).wf(),
            task.forwarding_hops < MAX_FORWARDING_HOPS,
        ensures
            r == old(self).next_action(task.forwarding_hops, time_left(*task, now)),
            *final(self) == old(self).sent(r),
            final(self).wf(),
    {
        if self.tried < self.candidates {
            if forward_budget_too_small(task, now) {
                ForwardAction::Reject { reason: RejectionReason::DeadlineTooClose }
            } else {
                let candidate: usize = self.tried;
                self.tried = candidate + 1;
                ForwardAction::Send { candidate, hops: task.forwarding_hops + 1 }
            }
        } else {
            match self.last_busy {
                Some(reason) => ForwardAction::RunLocally { if_full: reason },
                None => {
                    if self.transport_failed {
                        ForwardAction::Reject { reason: RejectionReason::ForwardFailed }
                    } else {
                        ForwardAction::Reject { reason: RejectionReason::NoCapacity }
                    }
                },
            }
        }
    }

    /// Sets out to forward a task to one of `candidates` peers.
    pub fn start(task: &InternalTask, candidates: usize, now: u64) -> (r: (Failover, ForwardAction))
        ensures
            r.0.wf(),
            r.1 == forward_start(*task, candidates, time_left(*task, now)),
            r.0 == Failover::fresh(candidates).sent(r.1),
    {
        let mut state = Failover {
            candidates,
            tried: 0,
            last_busy: None,
            transport_failed: false,
        };
        if task.forwarding_hops >= MAX_FORWARDING_HOPS {
            return (
                state,
                ForwardAction::Reject { reason: RejectionReason::HopLimitExceeded },
            );
        }
        if forward_budget_too_small(task, now) {
            return (
                state,
                ForwardAction::Reject { reason: RejectionReason::DeadlineTooClose },
            );
        }
        let action = state.proceed(task, now);
        (state, action)
    }

    /// Goes on after the reply of the peer that was sent the task last.
    pub fn on_reply(&mut self, task: &InternalTask, reply: PeerReply, now: u64) -> (r:
        ForwardAction)
        requires
            old(self).wf(),
            task.forwarding_hops < MAX_FORWARDING_HOPS,
        ensures
            final(self).wf(),
            reply == PeerReply::Answered ==> r == ForwardAction::Deliver && *final(self) == *old(self),
            reply != PeerReply::Answered ==> r == old(self).after(reply).next_action(
                task.forwarding_hops,
                time_left(*task, now),
            ) && *final(self) == old(self).after(reply).sent(r),
    {
        match reply {
            PeerReply::Answered => {
                return ForwardAction::Deliver;
            },
            PeerReply::Busy { reason } => {
                self.last_busy = Some(reason);
            },
            PeerReply::Unreachable => {
                self.transport_failed = true;
            },
            PeerReply::Broken => {
                self.transport_failed = true;
            },
        }
        self.proceed(task, now)
    }
}

/// The first step of forwarding a task with `left` nanoseconds to go.
pub open spec fn forward_start(task: InternalTask, candidates: usize, left: nat) -> ForwardAction {
    if task.forwarding_hops >= MAX_FORWARDING_HOPS {
        ForwardAction::Reject { reason: RejectionReason::HopLimitExceeded }
    } else if left < MIN_FORWARD_BUDGET {
        ForwardAction::Reject { reason: RejectionReason::DeadlineTooClose }
    } else {
        Failover::fresh(candidates).next_action(task.forwarding_hops, left)
    }
}

/// The outcome of a task that this node set out to render: `if_full` where the queue of
/// the worker was full.
pub fn finish_local(task: &InternalTask, run: LocalRun, if_full: RejectionReason) -> (r:
    TaskOutcome)
    ensures
        local_result(*task, run, if_full, r),
{
    match run {
        LocalRun::Unprepared { error, kind } => fail(task, error, kind),
        LocalRun::Ran { outcome } => outcome,
        LocalRun::Refused { err } => match err {
            ProcessError::QueueFull => reject(task, if_full),
            _ => outcome_from_process_error(task, err),
        },
    }
}

/// One exchange with a peer: its reply, and the time left afterwards.
pub struct Exchange {
    pub reply: PeerReply,
    pub left: nat,
}

/// Where forwarding stands after `n` exchanges that did not deliver.
pub open spec fn state_after(candidates: usize, log: Seq<Exchange>, n: int, hops: u8) -> Failover
    decreases n,
{
    if n <= 0 {
        Failover { tried: 1, ..Failover::fresh(candidates) }
    } else {
        let before = state_after(candidates, log, n - 1, hops).after(log[n - 1].reply);
        before.sent(before.next_action(hops, log[n - 1].left))
    }
}

/// The action after `n` exchanges, at least one.
pub open spec fn action_after(
    candidates: usize,
    log: Seq<Exchange>,
    n: int,
    hops: u8,
) -> ForwardAction {
    let last = log[n - 1];
    if last.reply == PeerReply::Answered {
        ForwardAction::Deliver
    } else {
        state_after(candidates, log, n - 1, hops).after(last.reply).next_action(hops, last.left)
    }
}

/// The exchanges so far neither delivered nor ran out of time.
pub open spec fn undelivered(log: Seq<Exchange>, n: int) -> bool {
    forall|i: int|
        0 <= i < n ==> (#[trigger] log[i]).reply != PeerReply::Answered && log[i].left
            >= MIN_FORWARD_BUDGET
}

/// The reason of the last busy reply among the first `n`.
pub open spec fn last_busy_of(log: Seq<Exchange>, n: int) -> Option<RejectionReason>
    decreases n,
{
    if n <= 0 {
        None
    } else {
        match log[n - 1].reply {
            PeerReply::Busy { reason } => Some(reason),
            _ => last_busy_of(log, n - 1),
        }
    }
}

/// Whether one of the first `n` exchanges failed.
pub open spec fn failed_of(log: Seq<Exchange>, n: int) -> bool {
    exists|i: int|
        0 <= i < n && ((#[trigger] log[i]).reply == PeerReply::Unreachable || log[i].reply
            == PeerReply::Broken)
}

proof fn lemma_state_after(candidates: usize, log: Seq<Exchange>, n: int, hops: u8)
    requires
        0 <= n < candidates,
        n <= log.len(),
        undelivered(log, n),
    ensures
        state_after(candidates, log, n, hops).candidates == candidates,
        state_after(candidates, log, n, hops).tried == n + 1,
        state_after(candidates, log, n, hops).last_busy == last_busy_of(log, n),
        state_after(candidates, log, n, hops).transport_failed == failed_of(log, n),
    decreases n,
{
    if n > 0 {
        assert(undelivered(log, n - 1));
        lemma_state_after(candidates, log, n - 1, hops);
        let x = log[n - 1];
        assert(x.reply != PeerReply::Answered);
        if failed_of(log, n - 1) {
            let i = choose|i: int|
                0 <= i < n - 1 && ((#[trigger] log[i]).reply == PeerReply::Unreachable
                    || log[i].reply == PeerReply::Broken);
            assert(0 <= i < n);
        }
    }
}

/// While time remains and nobody has answered, the task goes to the candidates
/// one after another, in their order, to each of them once.
pub proof fn law_candidates_are_tried_in_order(
    candidates: usize,
    log: Seq<Exchange>,
    n: int,
    hops: u8,
)
    requires
        1 <= n <= log.len(),
        undelivered(log, n),
        n < candidates,
        hops < 1,
    ensures
        action_after(candidates, log, n, hops) == (ForwardAction::Send {
            candidate: n as usize,
            hops: (hops + 1) as u8,
        }),
{
    assert(undelivered(log, n - 1));
    lemma_state_after(candidates, log, n - 1, hops);
}

/// When every candidate has been tried in vain: a busy one means that the node
/// renders the task itself, and that a full queue is then answered with the last
/// busy peer's reason; with none busy the task is rejected as a failed forward.
pub proof fn law_exhausted_failover(candidates: usize, log: Seq<Exchange>, hops: u8)
    requires
        1 <= candidates == log.len(),
        undelivered(log, log.len() as int),
        hops < 1,
    ensures
        match last_busy_of(log, log.len() as int) {
            Some(reason) => action_after(candidates, log, log.len() as int, hops) == (
            ForwardAction::RunLocally { if_full: reason }),
            None => action_after(candidates, log, log.len() as int, hops) == (
            ForwardAction::Reject { reason: RejectionReason::ForwardFailed }),
        },
{
    let n = log.len() as int;
    assert(undelivered(log, n - 1));
    lemma_state_after(candidates, log, n - 1, hops);
    assert(log[n - 1].reply != PeerReply::Answered);
    if failed_of(log, n - 1) {
        let i = choose|i: int|
            0 <= i < n - 1 && ((#[trigger] log[i]).reply == PeerReply::Unreachable || log[i].reply
                == PeerReply::Broken);
        assert(0 <= i < n);
    }
}

/// A task is forwarded at most as often as the hop limit allows: whatever is
/// sent on carries a count of hops within the limit, and a task that carries the
/// limit is rejected.
pub proof fn law_hops_are_bounded(task: InternalTask, candidates: usize, left: nat)
    ensures
        forward_start(task, candidates, left) matches ForwardAction::Send { hops, .. } ==> hops <= 1
            && hops == task.forwarding_hops + 1,
        task.forwarding_hops >= 1 ==> forward_start(task, candidates, left) == (
        ForwardAction::Reject { reason: RejectionReason::HopLimitExceeded }),
{
}

/// Nothing is sent with too little time left.
pub proof fn law_no_send_near_the_deadline(state: Failover, hops: u8, left: nat)
    requires
        left < 200_000_000,
    ensures
        !(state.next_action(hops, left) is Send),
{
}

/// A run of forwarding as `start` and `on_reply` make it: the first action with the
/// state that it leaves, and then one action and one state for every reply.
pub open spec fn is_forwarding(
    task: InternalTask,
    candidates: usize,
    first_left: nat,
    log: Seq<Exchange>,
    actions: Seq<ForwardAction>,
    states: Seq<Failover>,
) -> bool {
    &&& actions.len() == log.len() + 1
    &&& states.len() == log.len() + 1
    &&& actions[0] == forward_start(task, candidates, first_left)
    &&& states[0] == Failover::fresh(candidates).sent(actions[0])
    &&& forall|i: int|
        #![trigger log[i]]
        0 <= i < log.len() ==> {
            &&& actions[i + 1] == states[i].after(log[i].reply).next_action(
                task.forwarding_hops,
                log[i].left,
            )
            &&& states[i + 1] == states[i].after(log[i].reply).sent(actions[i + 1])
        }
}

/// A task that was not forwarded before, with time enough left and at least one
/// candidate, is first sent to the dispatcher's first choice.
pub proof fn law_the_first_choice_is_asked_first(task: InternalTask, candidates: usize, left: nat)
    requires
        task.forwarding_hops == 0,
        left >= 200_000_000,
        candidates >= 1,
    ensures
        forward_start(task, candidates, left) is Send,
        forward_start(task, candidates, left)->candidate == 0,
        forward_start(task, candidates, left)->hops == 1,
        Failover::fresh(candidates).sent(forward_start(task, candidates, left)).tried == 1,
{
}

/// While nobody answers and time remains, the candidates are asked from the first
/// to the last, each exactly once, counted from the start of the run: the action
/// at `i` sends the task to candidate `i`. When all were asked, nobody is asked
/// again.
pub proof fn law_a_run_asks_every_candidate_once_in_order(
    task: InternalTask,
    candidates: usize,
    first_left: nat,
    log: Seq<Exchange>,
    actions: Seq<ForwardAction>,
    states: Seq<Failover>,
    i: int,
)
    requires
        task.forwarding_hops == 0,
        candidates >= 1,
        first_left >= 200_000_000,
        is_forwarding(task, candidates, first_left, log, actions, states),
        forall|k: int|
            0 <= k < log.len() ==> (#[trigger] log[k]).reply != PeerReply::Answered && log[k].left
                >= 200_000_000,
        0 <= i < actions.len(),
    ensures
        i < candidates ==> actions[i] is Send && actions[i]->candidate == i && actions[i]->hops
            == 1,
        i >= candidates ==> !(actions[i] is Send),
        states[i].candidates == candidates,
        i < candidates ==> states[i].tried == i + 1,
        i >= candidates ==> states[i].tried == candidates,
    decreases i,
{
    if i > 0 {
        law_a_run_asks_every_candidate_once_in_order(
            task,
            candidates,
            first_left,
            log,
            actions,
            states,
            i - 1,
        );
        assert(log[i - 1].reply != PeerReply::Answered);
    }
}

/// A run in which every candidate was asked in vain ends here: the task is rendered
/// by this node if a candidate was busy, and a full queue is then answered with the
/// reason of the one that was busy last. If none was busy, forwarding has failed.
pub proof fn law_a_run_in_vain_ends_here(
    task: InternalTask,
    candidates: usize,
    first_left: nat,
    log: Seq<Exchange>,
    actions: Seq<ForwardAction>,
    states: Seq<Failover>,
    busy: int,
)
    requires
        task.forwarding_hops == 0,
        1 <= candidates == log.len(),
        first_left >= 200_000_000,
        is_forwarding(task, candidates, first_left, log, actions, states),
        forall|k: int|
            0 <= k < log.len() ==> (#[trigger] log[k]).reply != PeerReply::Answered && log[k].left
                >= 200_000_000,
        -1 <= busy < log.len(),
        busy >= 0 ==> log[busy].reply is Busy,
        forall|k: int| busy < k < log.len() ==> !((#[trigger] log[k]).reply is Busy),
    ensures
        busy >= 0 ==> actions.last() is RunLocally && actions.last()->if_full
            == log[busy].reply->reason,
        busy < 0 ==> actions.last() == (ForwardAction::Reject {
            reason: RejectionReason::ForwardFailed,
        }),
{
    let n = log.len() as int;
    lemma_what_a_run_remembers(task, candidates, first_left, log, actions, states, busy, n - 1);
    law_a_run_asks_every_candidate_once_in_order(
        task,
        candidates,
        first_left,
        log,
        actions,
        states,
        n - 1,
    );
    assert(log[n - 1].reply != PeerReply::Answered);
}

proof fn lemma_what_a_run_remembers(
    task: InternalTask,
    candidates: usize,
    first_left: nat,
    log: Seq<Exchange>,
    actions: Seq<ForwardAction>,
    states: Seq<Failover>,
    busy: int,
    i: int,
)
    requires
        is_forwarding(task, candidates, first_left, log, actions, states),
        forall|k: int| 0 <= k < log.len() ==> (#[trigger] log[k]).reply != PeerReply::Answered,
        -1 <= busy < log.len(),
        busy >= 0 ==> log[busy].reply is Busy,
        forall|k: int| busy < k < log.len() ==> !((#[trigger] log[k]).reply is Busy),
        0 <= i <= log.len(),
    ensures
        busy >= 0 && i > busy ==> states[i].last_busy == Some(log[busy].reply->reason),
        busy < 0 ==> states[i].last_busy is None,
        busy < 0 && i > 0 ==> states[i].transport_failed,
    decreases i,
{
    if i > 0 {
        lemma_what_a_run_remembers(
            task,
            candidates,
            first_left,
            log,
            actions,
            states,
            busy,
            i - 1,
        );
        assert(log[i - 1].reply != PeerReply::Answered);
    }
}

/// Forwarding is refused for the hops before it is refused for the time, and without
/// a candidate there is no capacity.
pub proof fn law_forwarding_is_refused_in_order(task: InternalTask, candidates: usize, left: nat)
    ensures
        task.forwarding_hops >= 1 ==> forward_start(task, candidates, left) == (
        ForwardAction::Reject { reason: RejectionReason::HopLimitExceeded }),
        task.forwarding_hops == 0 && left < 200_000_000 ==> forward_start(task, candidates, left)
            == (ForwardAction::Reject { reason: RejectionReason::DeadlineTooClose }),
        task.forwarding_hops == 0 && left >= 200_000_000 && candidates == 0 ==> forward_start(
            task,
            candidates,
            left,
        ) == (ForwardAction::Reject { reason: RejectionReason::NoCapacity }),
{
}

/// Only an answer counts as a success, and only an exchange that failed for good as
/// fatal.
pub proof fn law_replies_are_counted_for_what_they_are(reply: PeerReply)
    ensures
        count_of(reply) == ForwardCount::Success <==> reply is Answered,
        count_of(reply) == ForwardCount::Fatal <==> reply is Broken,
        count_of(reply) == ForwardCount::Retryable <==> reply is Busy || reply is Unreachable,
{
}

/// The outcome of a task that is not rendered belongs to the task: it has the task's
/// id, request and time of arrival, says whether the task had a source, and holds
/// the reason or the error that it was given.
pub proof fn law_outcomes_belong_to_their_task(
    task: InternalTask,
    reason: RejectionReason,
    error: String,
    kind: FailureKind,
)
    ensures
        rejection(task, reason).task_id == task.id,
        rejection(task, reason).request_id == task.request_id,
        rejection(task, reason).arrived_at == task.arrived_at,
        rejection(task, reason).had_source <==> task.source is Some,
        rejection(task, reason).deadline_stage is None,
        rejection(task, reason).result is Rejected,
        rejection(task, reason).result->reason == reason,
        failure(task, error, kind).task_id == task.id,
        failure(task, error, kind).request_id == task.request_id,
        failure(task, error, kind).arrived_at == task.arrived_at,
        failure(task, error, kind).had_source <==> task.source is Some,
        failure(task, error, kind).deadline_stage is None,
        failure(task, error, kind).result is Failed,
        failure(task, error, kind).result->error == error,
        failure(task, error, kind).result->kind == kind,
{
}

/// A local render ends as it went: a style that could not be prepared fails the task,
/// an outcome is handed on untouched, a full queue rejects the task for the reason
/// that was asked for, and a queue that is gone fails it.
pub proof fn law_local_renders_end_as_they_went(
    task: InternalTask,
    run: LocalRun,
    full: RejectionReason,
    r: TaskOutcome,
)
    requires
        local_result(task, run, full, r),
    ensures
        run is Unprepared ==> r.result is Failed && r.result->error == run->error && r.result->kind
            == run->kind && r.task_id == task.id,
        run is Ran ==> r == run->outcome,
        run is Refused && run->err == ProcessError::QueueFull ==> r.result is Rejected
            && r.result->reason == full && r.task_id == task.id,
        run is Refused && run->err == ProcessError::QueueDisconnected ==> r.result is Failed
            && r.result->error@ == "worker queue disconnected"@ && r.result->kind
            == FailureKind::Other && r.task_id == task.id,
{
}

/// A task that is in time, is not in the cache, and finds a renderer fit to start goes
/// on; the lookup counts as a miss just where such images are kept.
pub proof fn law_tasks_in_time_go_on(deadline: u64, arrival: Arrival)
    requires
        arrival.now < deadline,
        arrival.can_render,
        !arrival.cached,
    ensures
        admission(deadline, arrival) is Proceed,
        admission(deadline, arrival)->Proceed_count_miss == arrival.cacheable,
{
}

/// The time that is left and the time that has passed make up the time to the
/// deadline; past it nothing is left.
pub proof fn law_time_runs_out(task: InternalTask, now: u64)
    ensures
        now <= task.deadline ==> now + time_left(task, now) == task.deadline,
        now >= task.deadline ==> time_left(task, now) == 0,
{
}

} // verus!
