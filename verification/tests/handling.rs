//! Tasks on their way through a node.

use biei::handling::{Decision, ForwardReply, NodeState, Sender, Stage, Step, TaskRun};
use biei::metrics::registry::NodeMetrics;
use biei::node::ForwardCandidate;
use biei::render_cache::RenderOutputCache;
use biei::types::{
    CompletedInfo, FailureKind, ImageFormat, InternalTask, ProcessError, RejectionReason,
    RenderOutput, RenderRequest, RouteTier, Scale, StyleRevision, TaskOutcome, TaskResult,
};

const SECOND: u64 = 1_000_000_000;

fn node(cache_bytes: u64) -> NodeState {
    NodeState {
        id: "node-1".to_string(),
        cache: RenderOutputCache::new(cache_bytes),
        metrics: NodeMetrics::new().expect("metrics"),
    }
}

fn task(id: u64, request_id: &str) -> InternalTask {
    InternalTask {
        id,
        request_id: request_id.to_string(),
        style: StyleRevision { id: "cached/style".to_string(), version: 1 },
        source: None,
        request: RenderRequest::Tile { z: 0, x: 0, y: 0, tile_size: 512 },
        pixel_ratio: Scale::X1,
        output_format: ImageFormat::Png,
        arrived_at: 0,
        deadline: SECOND,
        forwarding_hops: 0,
    }
}

fn peer() -> Sender {
    Sender::Peer {
        style_known: true,
        route_tier: RouteTier::Tier2HrwBl,
        drain_worker: Some(0),
    }
}

/// An image whose one byte is the length of the request's id.
fn rendered(task: &InternalTask) -> TaskOutcome {
    TaskOutcome {
        task_id: task.id,
        request_id: task.request_id.clone(),
        arrived_at: task.arrived_at,
        had_source: false,
        deadline_stage: None,
        result: TaskResult::Completed {
            info: CompletedInfo {
                node_id: "node-1".to_string(),
                worker_id: Some(0),
                route_tier: RouteTier::Tier2HrwBl,
                started_at: 0,
                cpu_started_at: 0,
                cpu_completed_at: 1,
                completed_at: 1,
                style_swap: false,
                cold_start: false,
                source_loaded: false,
                admitted_at_overflow: false,
            },
            output: RenderOutput {
                bytes: vec![task.request_id.len() as u8],
                format: ImageFormat::Png,
            },
        },
    }
}

/// Runs a task on this node alone, counting the renders.
fn run(node: &mut NodeState, task: &InternalTask, sender: Sender, renders: &mut u32) -> TaskOutcome {
    let (mut run, mut step) = node.arrive(task, sender, 1, true);
    loop {
        step = match step {
            Step::Answer(outcome) => return outcome,
            Step::Decide => {
                let decision =
                    Decision::Local { route_tier: RouteTier::Tier2HrwBl, worker_hint: None };
                node.on_decision(&mut run, task, decision, 1)
            }
            Step::Prepare => node.on_prepared(&mut run, task, Ok(())),
            Step::Process { .. } => {
                *renders += 1;
                return node.on_processed(&mut run, task, Ok(rendered(task)));
            }
            Step::Send { .. } => panic!("nobody to send to"),
        };
    }
}

#[test]
fn handle_incoming_serves_repeated_render_from_output_cache() {
    let mut renders = 0;
    let mut node = node(1024 * 1024);

    let first = run(&mut node, &task(1, "first"), Sender::Client, &mut renders);
    let second = run(&mut node, &task(2, "second"), Sender::Client, &mut renders);

    assert!(matches!(first.result, TaskResult::Completed { .. }));
    assert_eq!(renders, 1);
    let TaskResult::Completed { info, output } = second.result else {
        panic!("second request should be completed from cache");
    };
    assert_eq!(info.route_tier, RouteTier::RenderCacheHit);
    assert_eq!(output.bytes, vec![5]);
    let text = node.metrics.render_prometheus();
    assert!(text.contains("biei_render_output_cache_total{outcome=\"hit\"} 1"));
    assert!(text.contains("biei_render_output_cache_total{outcome=\"miss\"} 1"));
    assert!(text.contains("biei_render_output_cache_total{outcome=\"insert\"} 1"));
}

#[test]
fn handle_forwarded_serves_repeated_render_from_output_cache() {
    let mut renders = 0;
    let mut node = node(1024 * 1024);

    let first = run(&mut node, &task(1, "first"), peer(), &mut renders);
    let second = run(&mut node, &task(2, "second"), peer(), &mut renders);

    assert!(matches!(first.result, TaskResult::Completed { .. }));
    assert_eq!(renders, 1);
    let TaskResult::Completed { info, output } = second.result else {
        panic!("second forwarded request should be completed from cache");
    };
    assert_eq!(info.route_tier, RouteTier::RenderCacheHit);
    assert_eq!(output.bytes, vec![5]);
    assert_eq!(renders, 1);
}

#[test]
fn repeated_requests_are_served_while_images_fit() {
    let mut node = node(100);
    let mut renders = 0;
    let tile = |x: u32, id: &str| InternalTask {
        request: RenderRequest::Tile { z: 8, x, y: 0, tile_size: 512 },
        ..task(1, id)
    };
    for x in 0..100 {
        run(&mut node, &tile(x, "first"), Sender::Client, &mut renders);
    }
    for x in 0..100 {
        let outcome = run(&mut node, &tile(x, "again, longer"), Sender::Client, &mut renders);
        assert!(matches!(
            outcome.result,
            TaskResult::Completed { output, .. } if output.bytes == vec![5]
        ));
    }
    assert_eq!(renders, 100);
}

#[test]
fn what_is_kept_is_served() {
    let mut node = node(100);
    let t = task(3, "again");
    let output = RenderOutput { bytes: vec![1, 2], format: ImageFormat::Png };
    let (run, step) = node.arrive_from(&t, Sender::Client, 1, false, Some(output));
    let Step::Answer(outcome) = step else {
        panic!("what is kept answers");
    };
    assert_eq!(outcome.task_id, 3);
    assert!(matches!(
        outcome.result,
        TaskResult::Completed { info, output }
            if info.route_tier == RouteTier::RenderCacheHit
                && info.worker_id.is_none()
                && output.bytes == vec![1, 2]
    ));
    assert!(matches!(run.stage, Stage::Over));
    assert!(matches!(node.arrive_from(&t, Sender::Client, 1, true, None).1, Step::Decide));
    assert!(matches!(node.arrive_from(&t, peer(), 1, true, None).1, Step::Prepare));
    assert_eq!(
        reason(node.arrive_from(&t, peer(), 1, false, None).1),
        Some(RejectionReason::NoCapacity)
    );
}

#[test]
fn styles_are_prepared_before_the_queue_is_asked() {
    let mut node = node(0);
    let t = task(1, "first");
    let (mut run, step) = node.arrive(&t, peer(), 0, true);
    assert!(matches!(step, Step::Prepare));
    let step = node.on_prepared(&mut run, &t, Ok(()));
    assert!(matches!(
        step,
        Step::Process { route_tier: RouteTier::Tier2HrwBl, worker_hint: Some(0) }
    ));

    let (mut run, _) = node.arrive(&t, peer(), 0, true);
    let failed = Err(("no style".to_string(), FailureKind::StyleUnavailable));
    let Step::Answer(outcome) = node.on_prepared(&mut run, &t, failed) else {
        panic!("a task without its style ends");
    };
    assert!(matches!(
        outcome.result,
        TaskResult::Failed { kind: FailureKind::StyleUnavailable, .. }
    ));
    assert!(matches!(run.stage, Stage::Over));
}

fn reason(step: Step) -> Option<RejectionReason> {
    match step {
        Step::Answer(outcome) => match outcome.result {
            TaskResult::Rejected { reason } => Some(reason),
            _ => None,
        },
        _ => None,
    }
}

#[test]
fn tasks_may_end_on_arrival() {
    let mut node = node(1024);
    let t = task(1, "first");
    let unknown = Sender::Peer {
        style_known: false,
        route_tier: RouteTier::Tier2HrwBl,
        drain_worker: None,
    };
    assert_eq!(reason(node.arrive(&t, unknown, 0, true).1), Some(RejectionReason::UnknownStyle));
    assert_eq!(
        reason(node.arrive(&t, Sender::Client, SECOND, true).1),
        Some(RejectionReason::DeadlineExceeded)
    );
    assert_eq!(
        reason(node.arrive(&t, Sender::Client, 0, false).1),
        Some(RejectionReason::NoCapacity)
    );
    let text = node.metrics.render_prometheus();
    assert!(text.contains("reason=\"unknown_style\",scope=\"forwarded\"} 1"));
    assert!(text.contains("reason=\"no_capacity\",scope=\"ingress\"} 1"));
}

fn forwarding(node: &mut NodeState, t: &InternalTask) -> (TaskRun, Step) {
    let (mut run, _) = node.arrive(t, Sender::Client, 0, true);
    let candidate = |id: &str| ForwardCandidate { node_id: id.to_string(), drain_worker: Some(3) };
    let decision = Decision::Forward {
        route_tier: RouteTier::Tier3DrainSwap,
        candidates: vec![candidate("a"), candidate("b")],
    };
    let step = node.on_decision(&mut run, t, decision, 0);
    (run, step)
}

#[test]
fn peers_are_tried_until_one_answers() {
    let mut node = node(1024);
    let t = task(1, "first");
    let (mut run, step) = forwarding(&mut node, &t);
    assert!(matches!(
        step,
        Step::Send { node_id, drain_worker: Some(3), route_tier: RouteTier::Tier3DrainSwap, hops: 1 }
            if node_id == "a"
    ));
    let step = node.on_reply(&mut run, &t, ForwardReply::Unreachable, 0);
    assert!(matches!(step, Step::Send { node_id, .. } if node_id == "b"));
    let answer = TaskOutcome { arrived_at: 77, ..rendered(&t) };
    let step = node.on_reply(&mut run, &t, ForwardReply::Answered(answer), 0);
    assert!(matches!(step, Step::Answer(outcome) if outcome.arrived_at == t.arrived_at));
    let text = node.metrics.render_prometheus();
    assert!(text.contains("biei_forwards_total{outcome=\"retryable\"} 1"));
    assert!(text.contains("biei_forwards_total{outcome=\"success\"} 1"));
    // The image of the peer is kept here too.
    assert!(matches!(
        node.arrive(&t, Sender::Client, 0, true).1,
        Step::Answer(TaskOutcome { result: TaskResult::Completed { .. }, .. })
    ));
}

#[test]
fn busy_peers_leave_the_task_to_this_node() {
    let mut node = node(0);
    let t = task(1, "first");
    let (mut run, _) = forwarding(&mut node, &t);
    let busy = || ForwardReply::Busy { reason: RejectionReason::DrainTooSlow };
    node.on_reply(&mut run, &t, busy(), 0);
    assert!(matches!(node.on_reply(&mut run, &t, busy(), 0), Step::Prepare));
    assert!(matches!(
        node.on_prepared(&mut run, &t, Ok(())),
        Step::Process { route_tier: RouteTier::Tier4Overflow, worker_hint: None }
    ));
    let outcome = node.on_processed(&mut run, &t, Err(ProcessError::QueueFull));
    assert_eq!(reason(Step::Answer(outcome)), Some(RejectionReason::DrainTooSlow));

    let (mut run, _) = forwarding(&mut node, &t);
    node.on_reply(&mut run, &t, ForwardReply::Broken, 0);
    let step = node.on_reply(&mut run, &t, ForwardReply::Unreachable, 0);
    assert_eq!(reason(step), Some(RejectionReason::ForwardFailed));
    let (mut run, _) = node.arrive(&t, Sender::Client, 0, true);
    let rejected = Decision::Reject { reason: RejectionReason::NoCapacity };
    assert_eq!(
        reason(node.on_decision(&mut run, &t, rejected, 0)),
        Some(RejectionReason::NoCapacity)
    );
}
