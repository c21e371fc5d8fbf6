//! What a node counts and how long things take.

pub mod registry;

use vstd::prelude::*;
use crate::types::{
    CompletedInfo, DeadlineStage, RejectionReason, RenderMode, RouteTier, Scale, TaskOutcome,
    TaskResult,
};

verus! {

/// One renderer worker at the time of a scrape.
#[derive(Clone, Debug)]
pub struct WorkerGaugeSample {
    pub worker: String,
    pub style_id: String,
    pub render_mode: &'static str,
    pub scale: &'static str,
    pub queue_depth: i64,
    pub loaded: bool,
}

/// A node at the time of a scrape.
#[derive(Clone, Debug)]
pub struct RuntimeGauges {
    pub node_id: String,
    pub workers: Vec<WorkerGaugeSample>,
    /// Live members, if the node tracks membership.
    pub membership_live: Option<i64>,
    pub cpu_permits_inuse: i64,
    pub draining: bool,
}

pub open spec fn tier_text(tier: RouteTier) -> Seq<char> {
    match tier {
        RouteTier::RenderCacheHit => "render_cache_hit"@,
        RouteTier::Tier1WarmTracking => "tier1_warm_tracking"@,
        RouteTier::Tier2HrwBl => "tier2_hrw_bl"@,
        RouteTier::Tier3DrainSwap => "tier3_drain_swap"@,
        RouteTier::Tier4Overflow => "tier4_overflow"@,
    }
}

pub open spec fn reason_text(reason: RejectionReason) -> Seq<char> {
    match reason {
        RejectionReason::QueueFull => "queue_full"@,
        RejectionReason::NoCapacity => "no_capacity"@,
        RejectionReason::DrainTooSlow => "drain_too_slow"@,
        RejectionReason::UnknownStyle => "unknown_style"@,
        RejectionReason::HopLimitExceeded => "hop_limit_exceeded"@,
        RejectionReason::ForwardFailed => "forward_failed"@,
        RejectionReason::DeadlineTooClose => "deadline_too_close"@,
        RejectionReason::DeadlineExceeded => "deadline_exceeded"@,
    }
}

pub open spec fn stage_text(stage: DeadlineStage) -> Seq<char> {
    match stage {
        DeadlineStage::AcquireRenderPermit => "acquire_render_permit"@,
        DeadlineStage::StyleSwap => "style_swap"@,
        DeadlineStage::EnsureSource => "ensure_source"@,
        DeadlineStage::AcquireCpuPermit => "acquire_cpu_permit"@,
        DeadlineStage::Render => "render"@,
    }
}

/// How a tier is written in labels.
pub fn route_tier_label(tier: RouteTier) -> (r: &'static str)
    ensures
        r@ == tier_text(tier),
{
    match tier {
        RouteTier::RenderCacheHit => "render_cache_hit",
        RouteTier::Tier1WarmTracking => "tier1_warm_tracking",
        RouteTier::Tier2HrwBl => "tier2_hrw_bl",
        RouteTier::Tier3DrainSwap => "tier3_drain_swap",
        RouteTier::Tier4Overflow => "tier4_overflow",
    }
}

/// How a reason is written in labels.
pub fn rejection_reason_label(reason: RejectionReason) -> (r: &'static str)
    ensures
        r@ == reason_text(reason),
{
    match reason {
        RejectionReason::QueueFull => "queue_full",
        RejectionReason::NoCapacity => "no_capacity",
        RejectionReason::DrainTooSlow => "drain_too_slow",
        RejectionReason::UnknownStyle => "unknown_style",
        RejectionReason::HopLimitExceeded => "hop_limit_exceeded",
        RejectionReason::ForwardFailed => "forward_failed",
        RejectionReason::DeadlineTooClose => "deadline_too_close",
        RejectionReason::DeadlineExceeded => "deadline_exceeded",
    }
}

/// How a stage is written in labels.
pub fn deadline_stage_label(stage: DeadlineStage) -> (r: &'static str)
    ensures
        r@ == stage_text(stage),
{
    match stage {
        DeadlineStage::AcquireRenderPermit => "acquire_render_permit",
        DeadlineStage::StyleSwap => "style_swap",
        DeadlineStage::EnsureSource => "ensure_source",
        DeadlineStage::AcquireCpuPermit => "acquire_cpu_permit",
        DeadlineStage::Render => "render",
    }
}

/// Whether a task came from a client or from a peer.
#[derive(Clone, Copy, Debug, PartialEq, Eq, Structural)]
pub enum Scope {
    Ingress,
    Forwarded,
}

impl Scope {
    pub open spec fn text(self) -> Seq<char> {
        match self {
            Scope::Ingress => "ingress"@,
            Scope::Forwarded => "forwarded"@,
        }
    }

    pub fn label(self) -> (r: &'static str)
        ensures
            r@ == self.text(),
    {
        match self {
            Scope::Ingress => "ingress",
            Scope::Forwarded => "forwarded",
        }
    }
}

/// The families of series that a node keeps.
#[derive(Clone, Copy, Debug, PartialEq, Eq, Structural)]
pub enum Family {
    Completed,
    Rejected,
    Failed,
    RequestDuration,
    CpuRenderDuration,
    StyleSwaps,
    ColdStarts,
    SourceCache,
    RenderOutputCache,
    Forwards,
    AdmissionOverflow,
    DeadlineExceeded,
}

impl Family {
    /// How many labels a series of the family has.
    pub open spec fn arity(self) -> nat {
        match self {
            Family::Completed => 2,
            Family::Rejected => 2,
            Family::RequestDuration => 2,
            _ => 1,
        }
    }

    /// The family is a distribution of durations; the others are counts.
    pub open spec fn is_histogram(self) -> bool {
        self == Family::RequestDuration || self == Family::CpuRenderDuration
    }
}

/// What happens to a series.
#[derive(Clone, Copy, Debug, PartialEq, Eq, Structural)]
pub enum Change {
    /// The series comes into being, without a value or at zero.
    Create,
    /// The count goes up by one.
    Count,
    /// A duration in nanoseconds is observed.
    Observe(u64),
}

/// A change of one series.
#[derive(Clone, Debug)]
pub struct MetricUpdate {
    pub family: Family,
    pub labels: Vec<&'static str>,
    pub change: Change,
}

pub struct UpdateView {
    pub family: Family,
    pub labels: Seq<Seq<char>>,
    pub change: Change,
}

pub open spec fn texts(labels: Seq<&'static str>) -> Seq<Seq<char>> {
    Seq::new(labels.len(), |i: int| labels[i]@)
}

impl View for MetricUpdate {
    type V = UpdateView;

    open spec fn view(&self) -> UpdateView {
        UpdateView { family: self.family, labels: texts(self.labels@), change: self.change }
    }
}

pub open spec fn update_views(updates: Seq<MetricUpdate>) -> Seq<UpdateView> {
    Seq::new(updates.len(), |i: int| updates[i]@)
}

pub open spec fn single(family: Family, a: Seq<char>, change: Change) -> UpdateView {
    UpdateView { family, labels: seq![a], change }
}

pub open spec fn pair(family: Family, a: Seq<char>, b: Seq<char>, change: Change) -> UpdateView {
    UpdateView { family, labels: seq![a, b], change }
}

/// One update if the condition holds.
pub open spec fn only_if(condition: bool, update: UpdateView) -> Seq<UpdateView> {
    if condition {
        seq![update]
    } else {
        Seq::empty()
    }
}

/// The time from `a` to `b`, none if `b` is earlier.
pub open spec fn elapsed(a: u64, b: u64) -> u64 {
    if b >= a {
        (b - a) as u64
    } else {
        0
    }
}

/// What a completed task changes.
pub open spec fn completed_updates(
    scope: Scope,
    arrived_at: u64,
    had_source: bool,
    info: CompletedInfo,
) -> Seq<UpdateView> {
    let s = scope.text();
    let tier = tier_text(info.route_tier);
    seq![
        pair(Family::Completed, s, tier, Change::Count),
        pair(
            Family::RequestDuration,
            s,
            tier,
            Change::Observe(elapsed(arrived_at, info.completed_at)),
        ),
    ] + only_if(
        info.route_tier != RouteTier::RenderCacheHit,
        single(
            Family::CpuRenderDuration,
            s,
            Change::Observe(elapsed(info.cpu_started_at, info.cpu_completed_at)),
        ),
    ) + only_if(info.style_swap, single(Family::StyleSwaps, s, Change::Count)) + only_if(
        info.cold_start,
        single(Family::ColdStarts, s, Change::Count),
    ) + only_if(
        had_source,
        single(
            Family::SourceCache,
            if info.source_loaded {
                "miss"@
            } else {
                "hit"@
            },
            Change::Count,
        ),
    ) + only_if(
        info.admitted_at_overflow,
        single(Family::AdmissionOverflow, s, Change::Count),
    )
}

/// What a task changes when it ends.
pub open spec fn outcome_changes(scope: Scope, outcome: TaskOutcome) -> Seq<UpdateView> {
    match outcome.result {
        TaskResult::Completed { info, .. } => completed_updates(
            scope,
            outcome.arrived_at,
            outcome.had_source,
            info,
        ),
        TaskResult::Rejected { reason } => {
            seq![pair(Family::Rejected, scope.text(), reason_text(reason), Change::Count)]
                + match outcome.deadline_stage {
                Some(stage) => only_if(
                    reason == RejectionReason::DeadlineExceeded,
                    single(Family::DeadlineExceeded, stage_text(stage), Change::Count),
                ),
                None => Seq::empty(),
            }
        },
        TaskResult::Failed { .. } => {
            seq![single(Family::Failed, scope.text(), Change::Count)]
        },
    }
}

fn one(family: Family, a: &'static str, change: Change) -> (r: MetricUpdate)
    ensures
        r@ == single(family, a@, change),
{
    let mut labels: Vec<&'static str> = Vec::new();
    labels.push(a);
    let r = MetricUpdate { family, labels, change };
    assert(r@.labels =~= seq![a@]);
    r
}

fn two(family: Family, a: &'static str, b: &'static str, change: Change) -> (r: MetricUpdate)
    ensures
        r@ == pair(family, a@, b@, change),
{
    let mut labels: Vec<&'static str> = Vec::new();
    labels.push(a);
    labels.push(b);
    let r = MetricUpdate { family, labels, change };
    assert(r@.labels =~= seq![a@, b@]);
    r
}

fn append(out: &mut Vec<MetricUpdate>, update: MetricUpdate)
    ensures
        update_views(final(out)@) == update_views(old(out)@) + seq![update@],
{
    let ghost before = out@;
    out.push(update);
    assert(update_views(out@) =~= update_views(before) + seq![update@]);
}

fn append_if(out: &mut Vec<MetricUpdate>, condition: bool, update: MetricUpdate)
    ensures
        update_views(final(out)@) == update_views(old(out)@) + only_if(condition, update@),
{
    if condition {
        append(out, update);
    } else {
        assert(update_views(out@) =~= update_views(out@) + Seq::<UpdateView>::empty());
    }
}

/// The time from `a` to `b`.
pub fn time_between(a: u64, b: u64) -> (r: u64)
    ensures
        r == elapsed(a, b),
{
    b.saturating_sub(a)
}

fn updates_of_completed(
    scope: Scope,
    arrived_at: u64,
    had_source: bool,
    info: &CompletedInfo,
) -> (r: Vec<MetricUpdate>)
    ensures
        update_views(r@) == completed_updates(scope, arrived_at, had_source, *info),
{
    let s = scope.label();
    let tier = route_tier_label(info.route_tier);
    let mut out: Vec<MetricUpdate> = Vec::new();
    append(&mut out, two(Family::Completed, s, tier, Change::Count));
    append(
        &mut out,
        two(
            Family::RequestDuration,
            s,
            tier,
            Change::Observe(time_between(arrived_at, info.completed_at)),
        ),
    );
    append_if(
        &mut out,
        info.route_tier != RouteTier::RenderCacheHit,
        one(
            Family::CpuRenderDuration,
            s,
            Change::Observe(time_between(info.cpu_started_at, info.cpu_completed_at)),
        ),
    );
    append_if(&mut out, info.style_swap, one(Family::StyleSwaps, s, Change::Count));
    append_if(&mut out, info.cold_start, one(Family::ColdStarts, s, Change::Count));
    let source = if info.source_loaded {
        "miss"
    } else {
        "hit"
    };
    append_if(&mut out, had_source, one(Family::SourceCache, source, Change::Count));
    append_if(
        &mut out,
        info.admitted_at_overflow,
        one(Family::AdmissionOverflow, s, Change::Count),
    );
    assert(update_views(out@) =~= completed_updates(scope, arrived_at, had_source, *info));
    out
}

/// What a task changes when it ends.
pub fn outcome_updates(scope: Scope, outcome: &TaskOutcome) -> (r: Vec<MetricUpdate>)
    ensures
        update_views(r@) == outcome_changes(scope, *outcome),
{
    match &outcome.result {
        TaskResult::Completed { info, .. } => updates_of_completed(
            scope,
            outcome.arrived_at,
            outcome.had_source,
            info,
        ),
        TaskResult::Rejected { reason } => {
            let mut out: Vec<MetricUpdate> = Vec::new();
            append(
                &mut out,
                two(
                    Family::Rejected,
                    scope.label(),
                    rejection_reason_label(*reason),
                    Change::Count,
                ),
            );
            if let Some(stage) = outcome.deadline_stage {
                append_if(
                    &mut out,
                    *reason == RejectionReason::DeadlineExceeded,
                    one(Family::DeadlineExceeded, deadline_stage_label(stage), Change::Count),
                );
            }
            assert(update_views(out@) =~= outcome_changes(scope, *outcome));
            out
        },
        TaskResult::Failed { .. } => {
            let mut out: Vec<MetricUpdate> = Vec::new();
            append(&mut out, one(Family::Failed, scope.label(), Change::Count));
            assert(update_views(out@) =~= outcome_changes(scope, *outcome));
            out
        },
    }
}

pub open spec fn all_tiers() -> Seq<RouteTier> {
    seq![
        RouteTier::RenderCacheHit,
        RouteTier::Tier1WarmTracking,
        RouteTier::Tier2HrwBl,
        RouteTier::Tier3DrainSwap,
        RouteTier::Tier4Overflow,
    ]
}

pub open spec fn all_reasons() -> Seq<RejectionReason> {
    seq![
        RejectionReason::QueueFull,
        RejectionReason::NoCapacity,
        RejectionReason::DrainTooSlow,
        RejectionReason::UnknownStyle,
        RejectionReason::HopLimitExceeded,
        RejectionReason::ForwardFailed,
        RejectionReason::DeadlineTooClose,
        RejectionReason::DeadlineExceeded,
    ]
}

pub open spec fn all_stages() -> Seq<DeadlineStage> {
    seq![
        DeadlineStage::AcquireRenderPermit,
        DeadlineStage::StyleSwap,
        DeadlineStage::EnsureSource,
        DeadlineStage::AcquireCpuPermit,
        DeadlineStage::Render,
    ]
}

/// Every tier.
pub fn route_tiers() -> (r: Vec<RouteTier>)
    ensures
        r@ == all_tiers(),
{
    vec![
        RouteTier::RenderCacheHit,
        RouteTier::Tier1WarmTracking,
        RouteTier::Tier2HrwBl,
        RouteTier::Tier3DrainSwap,
        RouteTier::Tier4Overflow,
    ]
}

/// Every reason.
pub fn rejection_reasons() -> (r: Vec<RejectionReason>)
    ensures
        r@ == all_reasons(),
{
    vec![
        RejectionReason::QueueFull,
        RejectionReason::NoCapacity,
        RejectionReason::DrainTooSlow,
        RejectionReason::UnknownStyle,
        RejectionReason::HopLimitExceeded,
        RejectionReason::ForwardFailed,
        RejectionReason::DeadlineTooClose,
        RejectionReason::DeadlineExceeded,
    ]
}

/// Every stage.
pub fn deadline_stages() -> (r: Vec<DeadlineStage>)
    ensures
        r@ == all_stages(),
{
    vec![
        DeadlineStage::AcquireRenderPermit,
        DeadlineStage::StyleSwap,
        DeadlineStage::EnsureSource,
        DeadlineStage::AcquireCpuPermit,
        DeadlineStage::Render,
    ]
}

/// The series of the first `n` tiers.
pub open spec fn tier_series(scope: Scope, n: int) -> Seq<UpdateView>
    decreases n,
{
    if n <= 0 {
        Seq::empty()
    } else {
        tier_series(scope, n - 1) + seq![
            pair(
                Family::Completed,
                scope.text(),
                tier_text(all_tiers()[n - 1]),
                Change::Create,
            ),
        ] + seq![
            pair(
                Family::RequestDuration,
                scope.text(),
                tier_text(all_tiers()[n - 1]),
                Change::Create,
            ),
        ]
    }
}

/// The series of the first `n` reasons.
pub open spec fn reason_series(scope: Scope, n: int) -> Seq<UpdateView>
    decreases n,
{
    if n <= 0 {
        Seq::empty()
    } else {
        reason_series(scope, n - 1) + seq![
            pair(
                Family::Rejected,
                scope.text(),
                reason_text(all_reasons()[n - 1]),
                Change::Create,
            ),
        ]
    }
}

/// The series of the first `n` stages.
pub open spec fn stage_series(n: int) -> Seq<UpdateView>
    decreases n,
{
    if n <= 0 {
        Seq::empty()
    } else {
        stage_series(n - 1) + seq![
            single(Family::DeadlineExceeded, stage_text(all_stages()[n - 1]), Change::Create),
        ]
    }
}

/// The series of a scope.
pub open spec fn scope_series(scope: Scope) -> Seq<UpdateView> {
    let s = scope.text();
    seq![
        single(Family::Failed, s, Change::Create),
        single(Family::StyleSwaps, s, Change::Create),
        single(Family::ColdStarts, s, Change::Create),
        single(Family::AdmissionOverflow, s, Change::Create),
        single(Family::CpuRenderDuration, s, Change::Create),
    ] + tier_series(scope, 5) + reason_series(scope, 8)
}

/// The series that have no scope.
pub open spec fn shared_series() -> Seq<UpdateView> {
    seq![
        single(Family::SourceCache, "hit"@, Change::Create),
        single(Family::SourceCache, "miss"@, Change::Create),
        single(Family::RenderOutputCache, "hit"@, Change::Create),
        single(Family::RenderOutputCache, "miss"@, Change::Create),
        single(Family::RenderOutputCache, "insert"@, Change::Create),
        single(Family::Forwards, "success"@, Change::Create),
        single(Family::Forwards, "retryable"@, Change::Create),
        single(Family::Forwards, "fatal"@, Change::Create),
    ] + stage_series(5)
}

/// Every series that a node ever keeps.
pub open spec fn all_series() -> Seq<UpdateView> {
    scope_series(Scope::Ingress) + scope_series(Scope::Forwarded) + shared_series()
}

fn append_scope(out: &mut Vec<MetricUpdate>, scope: Scope)
    ensures
        update_views(final(out)@) == update_views(old(out)@) + scope_series(scope),
{
    let ghost start = update_views(out@);
    let s = scope.label();
    append(out, one(Family::Failed, s, Change::Create));
    append(out, one(Family::StyleSwaps, s, Change::Create));
    append(out, one(Family::ColdStarts, s, Change::Create));
    append(out, one(Family::AdmissionOverflow, s, Change::Create));
    append(out, one(Family::CpuRenderDuration, s, Change::Create));
    let ghost fixed = update_views(out@);
    let tiers = route_tiers();
    let mut i: usize = 0;
    assert(update_views(out@) =~= fixed + tier_series(scope, 0));
    while i < tiers.len()
        invariant
            i <= tiers@.len(),
            tiers@ == all_tiers(),
            s@ == scope.text(),
            update_views(out@) == fixed + tier_series(scope, i as int),
        decreases tiers.len() - i,
    {
        let tier = route_tier_label(tiers[i]);
        append(out, two(Family::Completed, s, tier, Change::Create));
        append(out, two(Family::RequestDuration, s, tier, Change::Create));
        i += 1;
        assert(update_views(out@) =~= fixed + tier_series(scope, i as int));
    }
    let ghost with_tiers = update_views(out@);
    let reasons = rejection_reasons();
    let mut j: usize = 0;
    assert(update_views(out@) =~= with_tiers + reason_series(scope, 0));
    while j < reasons.len()
        invariant
            j <= reasons@.len(),
            reasons@ == all_reasons(),
            s@ == scope.text(),
            update_views(out@) == with_tiers + reason_series(scope, j as int),
        decreases reasons.len() - j,
    {
        append(out, two(Family::Rejected, s, rejection_reason_label(reasons[j]), Change::Create));
        j += 1;
        assert(update_views(out@) =~= with_tiers + reason_series(scope, j as int));
    }
    assert(update_views(out@) =~= start + scope_series(scope));
}

/// Brings every series into being, so that none appears only with its first
/// change.
pub fn zero_series() -> (r: Vec<MetricUpdate>)
    ensures
        update_views(r@) == all_series(),
{
    let mut out: Vec<MetricUpdate> = Vec::new();
    append_scope(&mut out, Scope::Ingress);
    append_scope(&mut out, Scope::Forwarded);
    append(&mut out, one(Family::SourceCache, "hit", Change::Create));
    append(&mut out, one(Family::SourceCache, "miss", Change::Create));
    append(&mut out, one(Family::RenderOutputCache, "hit", Change::Create));
    append(&mut out, one(Family::RenderOutputCache, "miss", Change::Create));
    append(&mut out, one(Family::RenderOutputCache, "insert", Change::Create));
    append(&mut out, one(Family::Forwards, "success", Change::Create));
    append(&mut out, one(Family::Forwards, "retryable", Change::Create));
    append(&mut out, one(Family::Forwards, "fatal", Change::Create));
    let ghost fixed = update_views(out@);
    let stages = deadline_stages();
    let mut i: usize = 0;
    assert(update_views(out@) =~= fixed + stage_series(0));
    while i < stages.len()
        invariant
            i <= stages@.len(),
            stages@ == all_stages(),
            update_views(out@) == fixed + stage_series(i as int),
        decreases stages.len() - i,
    {
        append(
            &mut out,
            one(Family::DeadlineExceeded, deadline_stage_label(stages[i]), Change::Create),
        );
        i += 1;
        assert(update_views(out@) =~= fixed + stage_series(i as int));
    }
    assert(update_views(out@) =~= all_series());
    out
}

/// The series that an update changes was brought into being at the start.
pub open spec fn starts_at_zero(u: UpdateView) -> bool {
    all_series().contains(UpdateView { change: Change::Create, ..u })
}

proof fn lemma_tier_series(scope: Scope, n: int, k: int)
    requires
        0 <= k < n <= 5,
    ensures
        tier_series(scope, n).contains(
            pair(Family::Completed, scope.text(), tier_text(all_tiers()[k]), Change::Create),
        ),
        tier_series(scope, n).contains(
            pair(Family::RequestDuration, scope.text(), tier_text(all_tiers()[k]), Change::Create),
        ),
    decreases n,
{
    let a = pair(Family::Completed, scope.text(), tier_text(all_tiers()[k]), Change::Create);
    let b = pair(Family::RequestDuration, scope.text(), tier_text(all_tiers()[k]), Change::Create);
    let s = tier_series(scope, n);
    let before = tier_series(scope, n - 1);
    if k == n - 1 {
        assert(s[before.len() as int] == a);
        assert(s[before.len() as int + 1] == b);
    } else {
        lemma_tier_series(scope, n - 1, k);
        let i = choose|i: int| 0 <= i < before.len() && before[i] == a;
        let j = choose|j: int| 0 <= j < before.len() && before[j] == b;
        assert(s[i] == a);
        assert(s[j] == b);
    }
}

proof fn lemma_reason_series(scope: Scope, n: int, k: int)
    requires
        0 <= k < n <= 8,
    ensures
        reason_series(scope, n).contains(
            pair(Family::Rejected, scope.text(), reason_text(all_reasons()[k]), Change::Create),
        ),
    decreases n,
{
    let a = pair(Family::Rejected, scope.text(), reason_text(all_reasons()[k]), Change::Create);
    let s = reason_series(scope, n);
    let before = reason_series(scope, n - 1);
    if k == n - 1 {
        assert(s[before.len() as int] == a);
    } else {
        lemma_reason_series(scope, n - 1, k);
        let i = choose|i: int| 0 <= i < before.len() && before[i] == a;
        assert(s[i] == a);
    }
}

proof fn lemma_stage_series(n: int, k: int)
    requires
        0 <= k < n <= 5,
    ensures
        stage_series(n).contains(
            single(Family::DeadlineExceeded, stage_text(all_stages()[k]), Change::Create),
        ),
    decreases n,
{
    let a = single(Family::DeadlineExceeded, stage_text(all_stages()[k]), Change::Create);
    let s = stage_series(n);
    let before = stage_series(n - 1);
    if k == n - 1 {
        assert(s[before.len() as int] == a);
    } else {
        lemma_stage_series(n - 1, k);
        let i = choose|i: int| 0 <= i < before.len() && before[i] == a;
        assert(s[i] == a);
    }
}

proof fn lemma_in_all(part: Seq<UpdateView>, pre: Seq<UpdateView>, post: Seq<UpdateView>, u: UpdateView)
    requires
        part.contains(u),
    ensures
        (pre + part + post).contains(u),
{
    let i = choose|i: int| 0 <= i < part.len() && part[i] == u;
    assert((pre + part + post)[pre.len() + i] == u);
}

proof fn lemma_scope_starts(scope: Scope, u: UpdateView)
    requires
        scope_series(scope).contains(u),
    ensures
        all_series().contains(u),
{
    let none = Seq::<UpdateView>::empty();
    match scope {
        Scope::Ingress => {
            lemma_in_all(
                scope_series(Scope::Ingress),
                none,
                scope_series(Scope::Forwarded) + shared_series(),
                u,
            );
            assert(all_series() =~= none + scope_series(Scope::Ingress) + (scope_series(
                Scope::Forwarded,
            ) + shared_series()));
        },
        Scope::Forwarded => {
            lemma_in_all(
                scope_series(Scope::Forwarded),
                scope_series(Scope::Ingress),
                shared_series(),
                u,
            );
        },
    }
}

proof fn lemma_shared_starts(u: UpdateView)
    requires
        shared_series().contains(u),
    ensures
        all_series().contains(u),
{
    let none = Seq::<UpdateView>::empty();
    let pre = scope_series(Scope::Ingress) + scope_series(Scope::Forwarded);
    lemma_in_all(shared_series(), pre, none, u);
    assert(all_series() =~= pre + shared_series() + none);
}

proof fn lemma_tier_starts(scope: Scope, tier: RouteTier)
    ensures
        starts_at_zero(pair(Family::Completed, scope.text(), tier_text(tier), Change::Create)),
        starts_at_zero(pair(Family::RequestDuration, scope.text(), tier_text(tier), Change::Create)),
{
    let k = match tier {
        RouteTier::RenderCacheHit => 0int,
        RouteTier::Tier1WarmTracking => 1,
        RouteTier::Tier2HrwBl => 2,
        RouteTier::Tier3DrainSwap => 3,
        RouteTier::Tier4Overflow => 4,
    };
    assert(all_tiers()[k] == tier);
    lemma_tier_series(scope, 5, k);
    let s = scope.text();
    let head = seq![
        single(Family::Failed, s, Change::Create),
        single(Family::StyleSwaps, s, Change::Create),
        single(Family::ColdStarts, s, Change::Create),
        single(Family::AdmissionOverflow, s, Change::Create),
        single(Family::CpuRenderDuration, s, Change::Create),
    ];
    let a = pair(Family::Completed, s, tier_text(tier), Change::Create);
    let b = pair(Family::RequestDuration, s, tier_text(tier), Change::Create);
    lemma_in_all(tier_series(scope, 5), head, reason_series(scope, 8), a);
    lemma_in_all(tier_series(scope, 5), head, reason_series(scope, 8), b);
    lemma_scope_starts(scope, a);
    lemma_scope_starts(scope, b);
}

proof fn lemma_reason_starts(scope: Scope, reason: RejectionReason)
    ensures
        starts_at_zero(pair(Family::Rejected, scope.text(), reason_text(reason), Change::Create)),
{
    let k = match reason {
        RejectionReason::QueueFull => 0int,
        RejectionReason::NoCapacity => 1,
        RejectionReason::DrainTooSlow => 2,
        RejectionReason::UnknownStyle => 3,
        RejectionReason::HopLimitExceeded => 4,
        RejectionReason::ForwardFailed => 5,
        RejectionReason::DeadlineTooClose => 6,
        RejectionReason::DeadlineExceeded => 7,
    };
    assert(all_reasons()[k] == reason);
    lemma_reason_series(scope, 8, k);
    let s = scope.text();
    let head = seq![
        single(Family::Failed, s, Change::Create),
        single(Family::StyleSwaps, s, Change::Create),
        single(Family::ColdStarts, s, Change::Create),
        single(Family::AdmissionOverflow, s, Change::Create),
        single(Family::CpuRenderDuration, s, Change::Create),
    ];
    let none = Seq::<UpdateView>::empty();
    let a = pair(Family::Rejected, s, reason_text(reason), Change::Create);
    lemma_in_all(reason_series(scope, 8), head + tier_series(scope, 5), none, a);
    assert(scope_series(scope) =~= head + tier_series(scope, 5) + reason_series(scope, 8) + none);
    lemma_scope_starts(scope, a);
}

proof fn lemma_stage_starts(stage: DeadlineStage)
    ensures
        starts_at_zero(single(Family::DeadlineExceeded, stage_text(stage), Change::Create)),
{
    let k = match stage {
        DeadlineStage::AcquireRenderPermit => 0int,
        DeadlineStage::StyleSwap => 1,
        DeadlineStage::EnsureSource => 2,
        DeadlineStage::AcquireCpuPermit => 3,
        DeadlineStage::Render => 4,
    };
    assert(all_stages()[k] == stage);
    lemma_stage_series(5, k);
    let a = single(Family::DeadlineExceeded, stage_text(stage), Change::Create);
    let s = stage_series(5);
    let i = choose|i: int| 0 <= i < s.len() && s[i] == a;
    assert(shared_series()[8 + i] == a);
    lemma_shared_starts(a);
}

proof fn lemma_fixed_starts(scope: Scope)
    ensures
        starts_at_zero(single(Family::Failed, scope.text(), Change::Create)),
        starts_at_zero(single(Family::StyleSwaps, scope.text(), Change::Create)),
        starts_at_zero(single(Family::ColdStarts, scope.text(), Change::Create)),
        starts_at_zero(single(Family::AdmissionOverflow, scope.text(), Change::Create)),
        starts_at_zero(single(Family::CpuRenderDuration, scope.text(), Change::Create)),
        starts_at_zero(single(Family::SourceCache, "hit"@, Change::Create)),
        starts_at_zero(single(Family::SourceCache, "miss"@, Change::Create)),
{
    let s = scope.text();
    let all = scope_series(scope);
    assert(all[0] == single(Family::Failed, s, Change::Create));
    assert(all[1] == single(Family::StyleSwaps, s, Change::Create));
    assert(all[2] == single(Family::ColdStarts, s, Change::Create));
    assert(all[3] == single(Family::AdmissionOverflow, s, Change::Create));
    assert(all[4] == single(Family::CpuRenderDuration, s, Change::Create));
    lemma_scope_starts(scope, all[0]);
    lemma_scope_starts(scope, all[1]);
    lemma_scope_starts(scope, all[2]);
    lemma_scope_starts(scope, all[3]);
    lemma_scope_starts(scope, all[4]);
    assert(shared_series()[0] == single(Family::SourceCache, "hit"@, Change::Create));
    assert(shared_series()[1] == single(Family::SourceCache, "miss"@, Change::Create));
    lemma_shared_starts(shared_series()[0]);
    lemma_shared_starts(shared_series()[1]);
}

/// Whatever outcome is recorded, the series that it changes were brought into
/// being at the start: no series appears only with its first change.
pub proof fn law_every_series_starts_at_zero(scope: Scope, outcome: TaskOutcome, i: int)
    requires
        0 <= i < outcome_changes(scope, outcome).len(),
    ensures
        starts_at_zero(outcome_changes(scope, outcome)[i]),
{
    lemma_fixed_starts(scope);
    match outcome.result {
        TaskResult::Completed { info, .. } => {
            lemma_tier_starts(scope, info.route_tier);
            lemma_completed_hold(
                scope,
                outcome.arrived_at,
                outcome.had_source,
                info,
                |u: UpdateView| starts_at_zero(u),
            );
        },
        TaskResult::Rejected { reason } => {
            lemma_reason_starts(scope, reason);
            if let Some(stage) = outcome.deadline_stage {
                lemma_stage_starts(stage);
            }
        },
        TaskResult::Failed { .. } => {},
    }
}

/// An update has as many labels as its family, and only durations are observed.
pub open spec fn fits(u: UpdateView) -> bool {
    &&& u.labels.len() == u.family.arity()
    &&& u.family.is_histogram() == (u.change is Observe)
}

spec fn all_hold(s: Seq<UpdateView>, p: spec_fn(UpdateView) -> bool) -> bool {
    forall|i: int| 0 <= i < s.len() ==> p(#[trigger] s[i])
}

proof fn lemma_hold_only_if(
    s: Seq<UpdateView>,
    condition: bool,
    u: UpdateView,
    p: spec_fn(UpdateView) -> bool,
)
    requires
        all_hold(s, p),
        condition ==> p(u),
    ensures
        all_hold(s + only_if(condition, u), p),
{
    let t = s + only_if(condition, u);
    assert forall|i: int| 0 <= i < t.len() implies p(#[trigger] t[i]) by {
        if i < s.len() {
            assert(t[i] == s[i]);
        }
    }
}

proof fn lemma_completed_hold(
    scope: Scope,
    arrived_at: u64,
    had_source: bool,
    info: CompletedInfo,
    p: spec_fn(UpdateView) -> bool,
)
    requires
        p(pair(Family::Completed, scope.text(), tier_text(info.route_tier), Change::Count)),
        p(
            pair(
                Family::RequestDuration,
                scope.text(),
                tier_text(info.route_tier),
                Change::Observe(elapsed(arrived_at, info.completed_at)),
            ),
        ),
        info.route_tier != RouteTier::RenderCacheHit ==> p(
            single(
                Family::CpuRenderDuration,
                scope.text(),
                Change::Observe(elapsed(info.cpu_started_at, info.cpu_completed_at)),
            ),
        ),
        p(single(Family::StyleSwaps, scope.text(), Change::Count)),
        p(single(Family::ColdStarts, scope.text(), Change::Count)),
        p(single(Family::SourceCache, "miss"@, Change::Count)),
        p(single(Family::SourceCache, "hit"@, Change::Count)),
        p(single(Family::AdmissionOverflow, scope.text(), Change::Count)),
    ensures
        all_hold(completed_updates(scope, arrived_at, had_source, info), p),
{
    let s = scope.text();
    let tier = tier_text(info.route_tier);
    let a = seq![
        pair(Family::Completed, s, tier, Change::Count),
        pair(
            Family::RequestDuration,
            s,
            tier,
            Change::Observe(elapsed(arrived_at, info.completed_at)),
        ),
    ];
    assert(all_hold(a, p));
    let cpu = single(
        Family::CpuRenderDuration,
        s,
        Change::Observe(elapsed(info.cpu_started_at, info.cpu_completed_at)),
    );
    let is_render = info.route_tier != RouteTier::RenderCacheHit;
    lemma_hold_only_if(a, is_render, cpu, p);
    let b = a + only_if(is_render, cpu);
    let swap = single(Family::StyleSwaps, s, Change::Count);
    lemma_hold_only_if(b, info.style_swap, swap, p);
    let c = b + only_if(info.style_swap, swap);
    let cold = single(Family::ColdStarts, s, Change::Count);
    lemma_hold_only_if(c, info.cold_start, cold, p);
    let d = c + only_if(info.cold_start, cold);
    let label = if info.source_loaded {
        "miss"@
    } else {
        "hit"@
    };
    let source = single(Family::SourceCache, label, Change::Count);
    lemma_hold_only_if(d, had_source, source, p);
    let e = d + only_if(had_source, source);
    lemma_hold_only_if(
        e,
        info.admitted_at_overflow,
        single(Family::AdmissionOverflow, s, Change::Count),
        p,
    );
}

/// Every update has as many labels as its family, counts are counted, and
/// durations are observed.
pub proof fn law_updates_fit_their_family(scope: Scope, outcome: TaskOutcome, i: int)
    requires
        0 <= i < outcome_changes(scope, outcome).len(),
    ensures
        fits(outcome_changes(scope, outcome)[i]),
{
    match outcome.result {
        TaskResult::Completed { info, .. } => {
            lemma_completed_hold(
                scope,
                outcome.arrived_at,
                outcome.had_source,
                info,
                |u: UpdateView| fits(u),
            );
        },
        _ => {},
    }
}

/// A cache hit counts as a completed request but never as render time.
pub proof fn law_cache_hit_has_no_render_time(scope: Scope, outcome: TaskOutcome, i: int)
    requires
        outcome.result matches TaskResult::Completed { info, .. } && info.route_tier
            == RouteTier::RenderCacheHit,
        0 <= i < outcome_changes(scope, outcome).len(),
    ensures
        outcome_changes(scope, outcome)[i].family != Family::CpuRenderDuration,
{
    if let TaskResult::Completed { info, .. } = outcome.result {
        lemma_completed_hold(
            scope,
            outcome.arrived_at,
            outcome.had_source,
            info,
            |u: UpdateView| u.family != Family::CpuRenderDuration,
        );
    }
}

/// The profile that a worker has loaded.
#[derive(Clone, Debug)]
pub struct LoadedProfile {
    pub style_id: String,
    pub render_mode: RenderMode,
    pub scale: Scale,
}

/// A worker at the time of a scrape; without a profile the mode and scale are
/// `none` and the style is empty.
pub fn worker_gauge_sample(worker: String, profile: &Option<LoadedProfile>, queue_depth: i64) -> (r:
    WorkerGaugeSample)
    ensures
        r.worker == worker,
        r.queue_depth == queue_depth,
        r.loaded == (profile is Some),
        match profile {
            Some(p) => r.style_id@ == p.style_id@ && r.render_mode@ == p.render_mode.text()
                && r.scale@ == p.scale.text(),
            None => r.style_id@ == Seq::<char>::empty() && r.render_mode@ == "none"@ && r.scale@
                == "none"@,
        },
{
    match profile {
        Some(p) => WorkerGaugeSample {
            worker,
            style_id: p.style_id.clone(),
            render_mode: p.render_mode.as_gossip_value(),
            scale: p.scale.as_gossip_value(),
            queue_depth,
            loaded: true,
        },
        None => WorkerGaugeSample {
            worker,
            style_id: String::new(),
            render_mode: "none",
            scale: "none",
            queue_depth,
            loaded: false,
        },
    }
}

/// The changes tell of a family.
pub open spec fn tells_of(changes: Seq<UpdateView>, family: Family) -> bool {
    exists|i: int| 0 <= i < changes.len() && (#[trigger] changes[i]).family == family
}

proof fn lemma_tells_both(a: Seq<UpdateView>, b: Seq<UpdateView>, family: Family)
    ensures
        tells_of(a + b, family) <==> tells_of(a, family) || tells_of(b, family),
{
    let both = a + b;
    if tells_of(a, family) {
        let i = choose|i: int| 0 <= i < a.len() && (#[trigger] a[i]).family == family;
        assert(both[i].family == family);
    }
    if tells_of(b, family) {
        let i = choose|i: int| 0 <= i < b.len() && (#[trigger] b[i]).family == family;
        assert(both[a.len() + i].family == family);
    }
    if tells_of(both, family) {
        let i = choose|i: int| 0 <= i < both.len() && (#[trigger] both[i]).family == family;
        if i < a.len() {
            assert(a[i].family == family);
        } else {
            assert(b[i - a.len()].family == family);
        }
    }
}

proof fn lemma_tells_if(condition: bool, update: UpdateView, family: Family)
    ensures
        tells_of(only_if(condition, update), family) <==> condition && update.family == family,
{
    if condition {
        assert(only_if(condition, update)[0] == update);
    }
}

/// A completed task is counted under its scope and its tier, with the time from when it
/// arrived to when it was completed.
pub proof fn law_completed_tasks_are_counted(scope: Scope, outcome: TaskOutcome)
    requires
        outcome.result is Completed,
    ensures
        outcome_changes(scope, outcome).len() >= 2,
        outcome_changes(scope, outcome)[0].family == Family::Completed,
        outcome_changes(scope, outcome)[0].change == Change::Count,
        outcome_changes(scope, outcome)[0].labels == seq![
            scope.text(),
            tier_text(outcome.result->info.route_tier),
        ],
        outcome_changes(scope, outcome)[1].family == Family::RequestDuration,
        outcome_changes(scope, outcome)[1].labels == seq![
            scope.text(),
            tier_text(outcome.result->info.route_tier),
        ],
        outcome.arrived_at <= outcome.result->info.completed_at ==> (outcome_changes(
            scope,
            outcome,
        )[1].change matches Change::Observe(ns) && ns == outcome.result->info.completed_at
            - outcome.arrived_at),
{
}

/// What a completed task did besides is counted just if it did it: a render that took
/// time, a change of style, a cold start, a source, and an overflow.
pub proof fn law_completed_tasks_tell_what_they_did(scope: Scope, outcome: TaskOutcome)
    requires
        outcome.result is Completed,
    ensures
        tells_of(outcome_changes(scope, outcome), Family::CpuRenderDuration)
            <==> outcome.result->info.route_tier != RouteTier::RenderCacheHit,
        tells_of(outcome_changes(scope, outcome), Family::StyleSwaps)
            <==> outcome.result->info.style_swap,
        tells_of(outcome_changes(scope, outcome), Family::ColdStarts)
            <==> outcome.result->info.cold_start,
        tells_of(outcome_changes(scope, outcome), Family::SourceCache) <==> outcome.had_source,
        tells_of(outcome_changes(scope, outcome), Family::AdmissionOverflow)
            <==> outcome.result->info.admitted_at_overflow,
        !tells_of(outcome_changes(scope, outcome), Family::Rejected),
        !tells_of(outcome_changes(scope, outcome), Family::Failed),
        !tells_of(outcome_changes(scope, outcome), Family::DeadlineExceeded),
{
    lemma_what_is_told(scope, outcome, Family::CpuRenderDuration);
    lemma_what_is_told(scope, outcome, Family::StyleSwaps);
    lemma_what_is_told(scope, outcome, Family::ColdStarts);
    lemma_what_is_told(scope, outcome, Family::SourceCache);
    lemma_what_is_told(scope, outcome, Family::AdmissionOverflow);
    lemma_what_is_told(scope, outcome, Family::Rejected);
    lemma_what_is_told(scope, outcome, Family::Failed);
    lemma_what_is_told(scope, outcome, Family::DeadlineExceeded);
}

proof fn lemma_what_is_told(scope: Scope, outcome: TaskOutcome, family: Family)
    requires
        outcome.result is Completed,
    ensures
        tells_of(outcome_changes(scope, outcome), family) <==> {
            let info = outcome.result->info;
            ||| family == Family::Completed
            ||| family == Family::RequestDuration
            ||| family == Family::CpuRenderDuration && info.route_tier != RouteTier::RenderCacheHit
            ||| family == Family::StyleSwaps && info.style_swap
            ||| family == Family::ColdStarts && info.cold_start
            ||| family == Family::SourceCache && outcome.had_source
            ||| family == Family::AdmissionOverflow && info.admitted_at_overflow
        },
{
    let info = outcome.result->info;
    let s = scope.text();
    let tier = tier_text(info.route_tier);
    let always = seq![
        pair(Family::Completed, s, tier, Change::Count),
        pair(
            Family::RequestDuration,
            s,
            tier,
            Change::Observe(elapsed(outcome.arrived_at, info.completed_at)),
        ),
    ];
    assert(always[0].family == Family::Completed && always[1].family == Family::RequestDuration);
    let render = single(
        Family::CpuRenderDuration,
        s,
        Change::Observe(elapsed(info.cpu_started_at, info.cpu_completed_at)),
    );
    let source = single(
        Family::SourceCache,
        if info.source_loaded {
            "miss"@
        } else {
            "hit"@
        },
        Change::Count,
    );
    let a = only_if(info.route_tier != RouteTier::RenderCacheHit, render);
    let b = only_if(info.style_swap, single(Family::StyleSwaps, s, Change::Count));
    let c = only_if(info.cold_start, single(Family::ColdStarts, s, Change::Count));
    let d = only_if(outcome.had_source, source);
    let e = only_if(info.admitted_at_overflow, single(Family::AdmissionOverflow, s, Change::Count));
    lemma_tells_if(info.route_tier != RouteTier::RenderCacheHit, render, family);
    lemma_tells_if(info.style_swap, single(Family::StyleSwaps, s, Change::Count), family);
    lemma_tells_if(info.cold_start, single(Family::ColdStarts, s, Change::Count), family);
    lemma_tells_if(outcome.had_source, source, family);
    lemma_tells_if(
        info.admitted_at_overflow,
        single(Family::AdmissionOverflow, s, Change::Count),
        family,
    );
    lemma_tells_both(always, a, family);
    lemma_tells_both(always + a, b, family);
    lemma_tells_both(always + a + b, c, family);
    lemma_tells_both(always + a + b + c, d, family);
    lemma_tells_both(always + a + b + c + d, e, family);
    assert(outcome_changes(scope, outcome) == always + a + b + c + d + e);
}

/// The time to compute is counted from its start to its end, a source that was loaded as a
/// miss, and one that was not as a hit.
pub proof fn law_renders_and_sources_are_counted(scope: Scope, outcome: TaskOutcome, i: int)
    requires
        outcome.result is Completed,
        0 <= i < outcome_changes(scope, outcome).len(),
    ensures
        outcome_changes(scope, outcome)[i].family == Family::CpuRenderDuration
            && outcome.result->info.cpu_started_at <= outcome.result->info.cpu_completed_at ==> (
        outcome_changes(scope, outcome)[i].change matches Change::Observe(ns) && ns
            == outcome.result->info.cpu_completed_at - outcome.result->info.cpu_started_at),
        outcome_changes(scope, outcome)[i].family == Family::SourceCache
            && outcome.result->info.source_loaded ==> outcome_changes(scope, outcome)[i].labels
            == seq!["miss"@],
        outcome_changes(scope, outcome)[i].family == Family::SourceCache
            && !outcome.result->info.source_loaded ==> outcome_changes(scope, outcome)[i].labels
            == seq!["hit"@],
{
}

/// A rejected task is counted under its scope and its reason, and with it the stage in
/// which its deadline passed, if it did; a failed task is counted under its scope.
pub proof fn law_other_tasks_are_counted(scope: Scope, outcome: TaskOutcome)
    requires
        !(outcome.result is Completed),
    ensures
        outcome.result matches TaskResult::Rejected { reason } ==> {
            &&& outcome_changes(scope, outcome)[0].family == Family::Rejected
            &&& outcome_changes(scope, outcome)[0].change == Change::Count
            &&& outcome_changes(scope, outcome)[0].labels == seq![scope.text(), reason_text(reason)]
            &&& reason == RejectionReason::DeadlineExceeded && outcome.deadline_stage is Some ==> {
                &&& outcome_changes(scope, outcome).len() == 2
                &&& outcome_changes(scope, outcome)[1].family == Family::DeadlineExceeded
                &&& outcome_changes(scope, outcome)[1].change == Change::Count
                &&& outcome_changes(scope, outcome)[1].labels == seq![
                    stage_text(outcome.deadline_stage->0),
                ]
            }
            &&& reason != RejectionReason::DeadlineExceeded || outcome.deadline_stage is None
                ==> outcome_changes(scope, outcome).len() == 1
        },
        outcome.result is Failed ==> {
            &&& outcome_changes(scope, outcome).len() == 1
            &&& outcome_changes(scope, outcome)[0].family == Family::Failed
            &&& outcome_changes(scope, outcome)[0].change == Change::Count
            &&& outcome_changes(scope, outcome)[0].labels == seq![scope.text()]
        },
{
}

/// Tiers, reasons, stages and scopes go by their names.
pub proof fn law_labels_are_names()
    ensures
        tier_text(RouteTier::RenderCacheHit) == "render_cache_hit"@,
        tier_text(RouteTier::Tier1WarmTracking) == "tier1_warm_tracking"@,
        tier_text(RouteTier::Tier2HrwBl) == "tier2_hrw_bl"@,
        tier_text(RouteTier::Tier3DrainSwap) == "tier3_drain_swap"@,
        tier_text(RouteTier::Tier4Overflow) == "tier4_overflow"@,
        reason_text(RejectionReason::QueueFull) == "queue_full"@,
        reason_text(RejectionReason::NoCapacity) == "no_capacity"@,
        reason_text(RejectionReason::DrainTooSlow) == "drain_too_slow"@,
        reason_text(RejectionReason::UnknownStyle) == "unknown_style"@,
        reason_text(RejectionReason::HopLimitExceeded) == "hop_limit_exceeded"@,
        reason_text(RejectionReason::ForwardFailed) == "forward_failed"@,
        reason_text(RejectionReason::DeadlineTooClose) == "deadline_too_close"@,
        reason_text(RejectionReason::DeadlineExceeded) == "deadline_exceeded"@,
        stage_text(DeadlineStage::AcquireRenderPermit) == "acquire_render_permit"@,
        stage_text(DeadlineStage::StyleSwap) == "style_swap"@,
        stage_text(DeadlineStage::EnsureSource) == "ensure_source"@,
        stage_text(DeadlineStage::AcquireCpuPermit) == "acquire_cpu_permit"@,
        stage_text(DeadlineStage::Render) == "render"@,
        Scope::Ingress.text() == "ingress"@,
        Scope::Forwarded.text() == "forwarded"@,
{
}

/// Every tier, every reason and every stage is listed, once.
pub proof fn law_all_are_listed(tier: RouteTier, reason: RejectionReason, stage: DeadlineStage)
    ensures
        all_tiers().contains(tier),
        all_tiers().no_duplicates(),
        all_reasons().contains(reason),
        all_reasons().no_duplicates(),
        all_stages().contains(stage),
        all_stages().no_duplicates(),
{
    assert(all_tiers()[0] == RouteTier::RenderCacheHit);
    assert(all_tiers()[1] == RouteTier::Tier1WarmTracking);
    assert(all_tiers()[2] == RouteTier::Tier2HrwBl);
    assert(all_tiers()[3] == RouteTier::Tier3DrainSwap);
    assert(all_tiers()[4] == RouteTier::Tier4Overflow);
    assert(all_reasons()[0] == RejectionReason::QueueFull);
    assert(all_reasons()[1] == RejectionReason::NoCapacity);
    assert(all_reasons()[2] == RejectionReason::DrainTooSlow);
    assert(all_reasons()[3] == RejectionReason::UnknownStyle);
    assert(all_reasons()[4] == RejectionReason::HopLimitExceeded);
    assert(all_reasons()[5] == RejectionReason::ForwardFailed);
    assert(all_reasons()[6] == RejectionReason::DeadlineTooClose);
    assert(all_reasons()[7] == RejectionReason::DeadlineExceeded);
    assert(all_stages()[0] == DeadlineStage::AcquireRenderPermit);
    assert(all_stages()[1] == DeadlineStage::StyleSwap);
    assert(all_stages()[2] == DeadlineStage::EnsureSource);
    assert(all_stages()[3] == DeadlineStage::AcquireCpuPermit);
    assert(all_stages()[4] == DeadlineStage::Render);
}

/// The time between two points is their distance, and none where the second is not later.
pub proof fn law_time_between_is_the_distance(a: u64, b: u64)
    ensures
        a <= b ==> a + elapsed(a, b) == b,
        a >= b ==> elapsed(a, b) == 0,
{
}

/// What an update shows is what it changes.
pub proof fn law_updates_show_their_fields(update: MetricUpdate, i: int)
    requires
        0 <= i < update.labels@.len(),
    ensures
        update@.family == update.family,
        update@.change == update.change,
        update@.labels.len() == update.labels@.len(),
        update@.labels[i] == update.labels@[i]@,
{
}

} // verus!
