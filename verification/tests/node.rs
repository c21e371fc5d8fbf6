//! Admission, failover and the cluster view of a node.

use biei::node::{
    admission_outcome, admit_forwarded, admit_incoming, cluster_view_cache_ttl, fail,
    finish_local, forward_budget_too_small, forward_count,
    outcome_from_process_error, Admission, Arrival, ClusterViewCache, Failover, ForwardAction,
    ForwardCount, LocalRun, PeerReply,
};
use biei::types::{
    FailureKind, ImageFormat, InternalTask, ProcessError, RejectionReason, RenderRequest, Scale,
    StyleRevision, TaskOutcome, TaskResult,
};
use std::time::Duration;

const SECOND: u64 = 1_000_000_000;

fn task(hops: u8) -> InternalTask {
    InternalTask {
        id: 42,
        request_id: "node-test".to_string(),
        style: StyleRevision { id: "missing/style".to_string(), version: 1 },
        source: None,
        request: RenderRequest::Tile { z: 0, x: 0, y: 0, tile_size: 512 },
        pixel_ratio: Scale::X2,
        output_format: ImageFormat::Png,
        arrived_at: 0,
        deadline: SECOND,
        forwarding_hops: hops,
    }
}

fn arrival() -> Arrival {
    Arrival { now: 0, style_known: true, cached: false, cacheable: true, can_render: true }
}

fn reason(outcome: &TaskOutcome) -> Option<RejectionReason> {
    match &outcome.result {
        TaskResult::Rejected { reason } => Some(*reason),
        _ => None,
    }
}

#[test]
fn cluster_view_cache_reuses_recent_snapshot() {
    let mut calls = 0;
    let mut cache: ClusterViewCache<u32> = ClusterViewCache::new(SECOND);
    let mut views = Vec::new();
    for now in [10, 11] {
        if cache.lookup(now).is_none() {
            calls += 1;
            cache.store(now, calls);
        }
        views.push(*cache.lookup(now).expect("a view"));
    }

    assert_eq!(calls, 1);
    assert_eq!(views[0], views[1]);
}

#[test]
fn views_expire_and_fresh_ones_stay() {
    let mut cache: ClusterViewCache<u32> = ClusterViewCache::new(5);
    cache.store(10, 1);
    cache.store(12, 2);
    assert_eq!(cache.lookup(14), Some(&1));
    assert_eq!(cache.lookup(15), None);
    cache.store(15, 3);
    assert_eq!(cache.lookup(19), Some(&3));
    assert_eq!(cluster_view_cache_ttl(Duration::from_secs(60)), Duration::from_millis(10));
    assert_eq!(cluster_view_cache_ttl(Duration::ZERO), Duration::from_millis(1));
    assert_eq!(cluster_view_cache_ttl(Duration::from_millis(4)), Duration::from_millis(4));
}

#[test]
fn handle_forwarded_unknown_style_uses_unknown_style_rejection() {
    let admission = admit_forwarded(&task(0), Arrival { style_known: false, ..arrival() });
    let outcome = admission_outcome(&task(0), admission).expect("rejected");

    assert!(matches!(
        outcome.result,
        TaskResult::Rejected { reason: RejectionReason::UnknownStyle }
    ));
}

#[test]
fn tasks_are_admitted_in_order_of_the_tests() {
    assert_eq!(admit_incoming(&task(0), arrival()), Admission::Proceed { count_miss: true });
    let late = Arrival { now: SECOND, cached: true, ..arrival() };
    assert_eq!(
        admit_incoming(&task(0), late),
        Admission::Reject { reason: RejectionReason::DeadlineExceeded }
    );
    let degraded = Arrival { can_render: false, cacheable: false, ..arrival() };
    let shed = admit_forwarded(&task(0), degraded);
    assert_eq!(shed, Admission::Shed { count_miss: false });
    let outcome = admission_outcome(&task(0), shed).expect("rejected");
    assert_eq!(reason(&outcome), Some(RejectionReason::NoCapacity));
    assert_eq!(outcome.task_id, 42);
    let cached = Arrival { can_render: false, cached: true, ..arrival() };
    assert_eq!(admit_incoming(&task(0), cached), Admission::ServeCached);
    assert!(admission_outcome(&task(0), Admission::ServeCached).is_none());
}

#[test]
fn candidates_are_tried_in_order() {
    let busy = PeerReply::Busy { reason: RejectionReason::QueueFull };
    let (mut failover, action) = Failover::start(&task(0), 2, 0);
    assert_eq!(action, ForwardAction::Send { candidate: 0, hops: 1 });
    let action = failover.on_reply(&task(0), busy, 0);
    assert_eq!(action, ForwardAction::Send { candidate: 1, hops: 1 });
    let action = failover.on_reply(&task(0), PeerReply::Unreachable, 0);
    assert_eq!(action, ForwardAction::RunLocally { if_full: RejectionReason::QueueFull });

    let (mut failover, _) = Failover::start(&task(0), 1, 0);
    assert_eq!(
        failover.on_reply(&task(0), PeerReply::Broken, 0),
        ForwardAction::Reject { reason: RejectionReason::ForwardFailed }
    );
    let (mut failover, _) = Failover::start(&task(0), 1, 0);
    assert_eq!(failover.on_reply(&task(0), PeerReply::Answered, 0), ForwardAction::Deliver);
    assert_eq!(
        Failover::start(&task(0), 0, 0).1,
        ForwardAction::Reject { reason: RejectionReason::NoCapacity }
    );
}

#[test]
fn hops_and_time_bound_forwarding() {
    assert_eq!(
        Failover::start(&task(1), 3, 0).1,
        ForwardAction::Reject { reason: RejectionReason::HopLimitExceeded }
    );
    assert!(forward_budget_too_small(&task(0), SECOND));
    assert!(!forward_budget_too_small(&task(0), 0));
    assert_eq!(
        Failover::start(&task(0), 3, SECOND).1,
        ForwardAction::Reject { reason: RejectionReason::DeadlineTooClose }
    );
    let (mut failover, _) = Failover::start(&task(0), 2, 0);
    assert_eq!(
        failover.on_reply(&task(0), PeerReply::Unreachable, SECOND),
        ForwardAction::Reject { reason: RejectionReason::DeadlineTooClose }
    );
}

#[test]
fn attempts_are_counted_by_their_end() {
    assert_eq!(forward_count(PeerReply::Answered), ForwardCount::Success);
    assert_eq!(forward_count(PeerReply::Unreachable), ForwardCount::Retryable);
    assert_eq!(
        forward_count(PeerReply::Busy { reason: RejectionReason::NoCapacity }),
        ForwardCount::Retryable
    );
    assert_eq!(forward_count(PeerReply::Broken), ForwardCount::Fatal);
}

#[test]
fn local_renders_end_as_the_pool_says() {
    let full = outcome_from_process_error(&task(0), ProcessError::QueueFull);
    assert_eq!(reason(&full), Some(RejectionReason::QueueFull));
    let gone = finish_local(
        &task(0),
        LocalRun::Refused { err: ProcessError::QueueDisconnected },
        RejectionReason::QueueFull,
    );
    assert!(matches!(
        gone.result,
        TaskResult::Failed { error, kind: FailureKind::Other }
            if error == "worker queue disconnected"
    ));
    let overflow = finish_local(
        &task(0),
        LocalRun::Refused { err: ProcessError::QueueFull },
        RejectionReason::NoCapacity,
    );
    assert_eq!(reason(&overflow), Some(RejectionReason::NoCapacity));
    let unprepared = finish_local(
        &task(0),
        LocalRun::Unprepared { error: "no style".to_string(), kind: FailureKind::RenderTimeout },
        RejectionReason::QueueFull,
    );
    assert!(matches!(
        unprepared.result,
        TaskResult::Failed { kind: FailureKind::RenderTimeout, .. }
    ));
    let ran = fail(&task(0), "e".to_string(), FailureKind::Other);
    let delivered =
        finish_local(&task(0), LocalRun::Ran { outcome: ran }, RejectionReason::QueueFull);
    assert_eq!(delivered.request_id, "node-test");
}
