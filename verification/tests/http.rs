//! Endpoints, previews, replies and forwarding.

use biei::http::adapter::{
    endpoint, health_ok, is_preview_path, public_step, readyz, refuse_forward, refuse_metrics,
    request_id_from_headers, Endpoint, HttpMethod, Listener, PublicStep, MAX_PUBLIC_PATH_BYTES,
};
use biei::http::ingress::{
    internal_error_response, is_static_path, is_unsigned, response_for_render, HttpIngress,
};
use biei::http::internal::{
    check_reply, finish_reply, is_json_content_type, plan_forward, refuse_forwarded, send_error,
    ForwardError, PeerOutcome, SendFailure,
};
use biei::http::path::{path_parts, resolve_style_id};
use biei::http::preview::{begin_preview, escape_html, escape_json_string, finish_preview};
use biei::http::response::{
    response_from_outcome, status_for_outcome, IngressResponse, HTML_CONTENT_TYPE,
};
use biei::options::{parse_style_templates, StyleCatalog};
use biei::renderer::StyleAvailabilityError;
use biei::types::{
    CompletedInfo, FailureKind, ImageFormat, RejectionReason, RenderOutput, RendererError,
    RouteTier, TaskOutcome, TaskResult,
};
use std::time::Duration;

fn text(response: &IngressResponse) -> &str {
    std::str::from_utf8(&response.body).expect("text body")
}

fn catalog(templates: &str) -> StyleCatalog {
    StyleCatalog { templates: parse_style_templates(templates).expect("templates parse") }
}

fn carto_catalog() -> StyleCatalog {
    catalog("carto=https://basemaps.cartocdn.com/gl/{style_id}/style.json")
}

fn template_catalog() -> StyleCatalog {
    catalog("http://provider.test/styles/{style_id}/style.json")
}

fn preview(
    catalog: &StyleCatalog,
    path: &str,
    checked: Result<(), StyleAvailabilityError>,
) -> IngressResponse {
    match begin_preview(catalog, path) {
        Ok(revision) => finish_preview(revision.id, checked),
        Err(response) => response,
    }
}

#[test]
fn is_preview_path_matches_preview_suffix_only() {
    // Two-segment style + preview
    assert!(is_preview_path("/carto/voyager-gl-style/preview"));
    assert!(is_preview_path("/foo/bar/preview/"));
    // Single-segment style + preview
    assert!(is_preview_path("/voyager-gl-style/preview"));
    // Tile path: last segment is not "preview"
    assert!(!is_preview_path("/carto/voyager/0/0/0@2x.png"));
    // preview not last segment
    assert!(!is_preview_path("/foo/preview/bar"));
    // Too few segments
    assert!(!is_preview_path("/preview"));
    // Too many segments
    assert!(!is_preview_path("/foo/bar/baz/preview"));
    // Empty / root
    assert!(!is_preview_path("/"));
    assert!(!is_preview_path(""));
}

#[test]
fn maps_ingress_concurrency_limit_to_retryable_503() {
    let response = IngressResponse::json(503, "ingress_busy", "").with_retry_after("1");

    assert_eq!(response.status, 503);
    assert_eq!(response.headers, vec![("Retry-After", "1".to_string())]);
    assert!(text(&response).contains("ingress_busy"));
}

#[test]
fn maps_ingress_drain_to_service_draining_label() {
    let response = IngressResponse::json(503, "service_draining", "").with_retry_after("2");

    assert_eq!(response.status, 503);
    assert_eq!(response.headers, vec![("Retry-After", "2".to_string())]);
    assert!(text(&response).contains("service_draining"));
}

#[test]
fn json_content_type_accepts_optional_parameters() {
    assert!(is_json_content_type(Some("application/json")));
    assert!(is_json_content_type(Some("Application/JSON; charset=utf-8")));
    assert!(!is_json_content_type(Some("application/octet-stream")));
    assert!(!is_json_content_type(None));
}

#[test]
fn public_listener_hides_internal_endpoints() {
    for path in ["/metrics", "/_internal/healthz", "/_internal/metrics", "/_internal/forward"] {
        assert_eq!(endpoint(Listener::Public, path), Endpoint::NotFound, "{path}");
    }
    assert_eq!(endpoint(Listener::Public, "/livez"), Endpoint::Health);
    assert_eq!(health_ok(HttpMethod::Get).status, 200);
}

#[test]
fn internal_listener_does_not_serve_public_render_paths() {
    assert_eq!(
        endpoint(Listener::Internal, "/carto/voyager-gl-style/0/0/0.png"),
        Endpoint::NotFound
    );
    assert_eq!(endpoint(Listener::Internal, "/livez"), Endpoint::NotFound);
}

#[test]
fn combined_listener_serves_everything() {
    assert_eq!(endpoint(Listener::Combined, "/_internal/healthz"), Endpoint::Health);
    assert_eq!(endpoint(Listener::Combined, "/_internal/readyz"), Endpoint::Ready);
    assert_eq!(endpoint(Listener::Combined, "/_internal/metrics"), Endpoint::Metrics);
    assert_eq!(endpoint(Listener::Combined, "/_internal/forward"), Endpoint::Forward);
    assert_eq!(endpoint(Listener::Combined, "/metrics"), Endpoint::Render);
}

#[test]
fn public_path_limit_rejects_oversized_paths_before_ingress() {
    let long_path = format!("/{}", "x".repeat(MAX_PUBLIC_PATH_BYTES + 1));
    assert!(matches!(
        public_step(HttpMethod::Get, &long_path, false),
        PublicStep::Refuse(reply) if reply.status == 414
    ));
}

#[test]
fn public_path_limit_accepts_exact_8192_bytes() {
    let exact_path = format!("/{}", "x".repeat(MAX_PUBLIC_PATH_BYTES - 1));
    assert!(matches!(
        public_step(HttpMethod::Get, &exact_path, false),
        PublicStep::Refuse(reply) if reply.status != 414
    ));
}

#[test]
fn ready_endpoint_reports_not_ready_while_draining() {
    assert_eq!(readyz(HttpMethod::Get, Some(false), None).status, 200);
    assert_eq!(readyz(HttpMethod::Get, Some(true), None).status, 503);
    assert_eq!(readyz(HttpMethod::Get, None, Some(false)).status, 503);
    assert_eq!(readyz(HttpMethod::Post, None, None).status, 405);
}

#[test]
fn endpoints_take_one_method() {
    assert_eq!(refuse_metrics(HttpMethod::Post, true).map(|r| r.status), Some(405));
    assert_eq!(refuse_metrics(HttpMethod::Get, false).map(|r| r.body), Some("metrics disabled"));
    assert!(refuse_metrics(HttpMethod::Get, true).is_none());
    assert_eq!(refuse_forward(HttpMethod::Get, true).map(|r| r.status), Some(405));
    assert_eq!(
        refuse_forward(HttpMethod::Post, false).map(|r| r.body),
        Some("internal forward disabled")
    );
    assert!(refuse_forward(HttpMethod::Post, true).is_none());
}

#[test]
fn empty_request_ids_are_no_ids() {
    assert_eq!(request_id_from_headers(Some("req-123")), Some("req-123".to_string()));
    assert_eq!(request_id_from_headers(Some("")), None);
    assert_eq!(request_id_from_headers(None), None);
}

#[test]
fn preview_returns_html_for_known_style() {
    let response = preview(&carto_catalog(), "/carto/voyager-gl-style/preview", Ok(()));

    assert_eq!(response.status, 200);
    assert_eq!(response.content_type, HTML_CONTENT_TYPE);
    assert!(response
        .headers
        .iter()
        .any(|(name, value)| *name == "Cache-Control" && value == "max-age=300"));
    let body = text(&response);
    assert!(body.contains("maplibre-gl"));
    assert!(body.contains("carto/voyager-gl-style · biei preview"));
    assert!(body.contains(r#""carto/voyager-gl-style""#));
    assert!(body.contains("/{z}/{x}/{y}@2x.webp"));
    assert!(!body.contains("@2x.png"));
}

#[test]
fn preview_supports_single_segment_style_id() {
    let response = preview(&template_catalog(), "/voyager-gl-style/preview", Ok(()));
    assert_eq!(response.status, 200);
    assert!(text(&response).contains("voyager-gl-style · biei preview"));
}

#[test]
fn preview_returns_404_for_unknown_style() {
    let response = preview(&carto_catalog(), "/unknown/style/preview", Ok(()));

    assert_eq!(response.status, 404);
    assert!(text(&response).contains("unknown_style"));
}

#[test]
fn preview_returns_404_when_template_style_missing_at_provider() {
    let missing = StyleAvailabilityError::NotFound(RendererError::StyleLoadFailed {
        style_id: "ghost-style".to_string(),
        source: "provider returned 404".to_string(),
    });
    let response = preview(&template_catalog(), "/ghost-style/preview", Err(missing));

    assert_eq!(response.status, 404);
    assert!(text(&response).contains("unknown_style"));
}

#[test]
fn preview_serves_html_when_template_style_exists() {
    let response = preview(&template_catalog(), "/real-style/preview", Ok(()));
    assert_eq!(response.status, 200);
    assert!(text(&response).contains("real-style · biei preview"));
}

#[test]
fn preview_returns_503_when_style_check_is_transiently_unavailable() {
    let response = preview(
        &template_catalog(),
        "/flaky-style/preview",
        Err(StyleAvailabilityError::Unavailable(RendererError::Timeout)),
    );
    assert_eq!(response.status, 503);
    assert!(text(&response).contains("style_unavailable"));
}

#[test]
fn preview_rejects_malformed_path() {
    for path in [
        "/preview",
        "/carto/voyager-gl-style/0/0/0",
        "/carto/voyager-gl-style",
        "/carto/voyager-gl-style/foo/preview",
    ] {
        let response = preview(&carto_catalog(), path, Ok(()));
        assert_eq!(response.status, 400, "expected 400 for {path}");
        assert!(
            text(&response).contains("invalid_preview_path"),
            "expected invalid_preview_path detail for {path}"
        );
    }
}

#[test]
fn preview_rejects_path_traversal_segments() {
    let response = preview(&carto_catalog(), "/../voyager-gl-style/preview", Ok(()));
    assert_eq!(response.status, 400);
}

#[test]
fn escapes_keep_pages_and_scripts_whole() {
    assert_eq!(escape_html("<a href='x'>&\""), "&lt;a href=&#39;x&#39;&gt;&amp;&quot;");
    assert_eq!(escape_json_string("a\"\\\n\r\t\u{1}\u{9f}"), r#""a\"\\\n\r\t\u0001\u009f""#);
    assert_eq!(escape_json_string("</script>"), r#""\u003c/script>""#);
}

#[test]
fn error_bodies_are_json() {
    let response = IngressResponse::json(503, "queue_full", "");
    assert_eq!(text(&response), r#"{"error":"queue_full","detail":""}"#);
}

fn kind(path: &str, names_tile: bool) -> bool {
    is_static_path(&path_parts(path), names_tile)
}

#[test]
fn static_paths_are_told_by_their_suffix() {
    assert!(!kind("/carto/static/8/227/100.png", true));
    assert!(kind("/carto/static/8/227/100.txt", false));
    assert!(kind("/carto/gl/voyager-gl-style/static/none/139.767,35.681,11,0,0/320x240.png", false));
    assert!(kind("/carto/static/auto/256x256.png", false));
    assert!(!kind("/static/auto/256x256.png", false));
    assert!(!kind("/carto/voyager/0/0/0.png", true));
}

#[test]
fn unsigned_numbers_are_read_as_rust_reads_them() {
    let chars = |s: &str| s.chars().collect::<Vec<char>>();
    assert!(is_unsigned(&chars("255"), 255));
    assert!(is_unsigned(&chars("+007"), 255));
    assert!(!is_unsigned(&chars("256"), 255));
    assert!(!is_unsigned(&chars("-1"), 255));
    assert!(!is_unsigned(&chars("+"), 255));
    assert!(!is_unsigned(&chars(""), 255));
    assert!(is_unsigned(&chars("4294967295"), u32::MAX));
    assert!(!is_unsigned(&chars("4294967296"), u32::MAX));
}

#[test]
fn style_ids_are_checked_component_by_component() {
    let parts = path_parts("//a//b/");
    assert_eq!(resolve_style_id(&parts).expect("id"), "a/b");
    assert_eq!(resolve_style_id(&[]).expect("id"), "");
    let err = resolve_style_id(&path_parts("a/x..y")).expect_err("dots");
    assert!(format!("{err:?}").contains("style_id must not contain `..`"));
    let err = resolve_style_id(&[Vec::new()]).expect_err("empty");
    assert!(format!("{err:?}").contains("style_id must not be empty"));
}

#[test]
fn ingress_lets_in_as_many_as_fit() {
    let mut ingress = HttpIngress::with_drain_and_limit(Duration::from_secs(2), 0);
    assert!(ingress.acquire_admission(false, "a").is_ok());
    let busy = ingress.acquire_admission(true, "b").expect_err("full");
    assert!(text(&busy).contains("ingress_busy"));
    assert_eq!(busy.headers[1], ("x-request-id", "b".to_string()));
    ingress.release_admission();
    let draining = ingress.acquire_admission(true, "c").expect_err("draining");
    assert!(text(&draining).contains("service_draining"));
    assert!(ingress.acquire_admission(false, "d").is_ok());
    assert_eq!(ingress.take_task_id(), 1);
    assert_eq!(ingress.take_task_id(), 2);
}

fn outcome(result: TaskResult) -> TaskOutcome {
    TaskOutcome {
        task_id: 1,
        request_id: "req".to_string(),
        arrived_at: 0,
        had_source: false,
        deadline_stage: None,
        result,
    }
}

fn rejected(reason: RejectionReason) -> TaskOutcome {
    outcome(TaskResult::Rejected { reason })
}

#[test]
fn want_of_capacity_on_a_degraded_node_has_its_own_code() {
    let degraded = response_for_render(rejected(RejectionReason::NoCapacity), false, "req");
    assert_eq!(degraded.status, 503);
    assert!(text(&degraded).contains("renderer_degraded"));
    let full = response_for_render(rejected(RejectionReason::NoCapacity), true, "req");
    assert!(text(&full).contains("no_capacity"));
    let other = response_for_render(rejected(RejectionReason::QueueFull), false, "req");
    assert!(text(&other).contains("queue_full"));
    assert_eq!(internal_error_response("req").status, 500);
}

#[test]
fn outcomes_have_their_statuses() {
    let status = |reason| status_for_outcome(&TaskResult::Rejected { reason });
    assert_eq!(status(RejectionReason::UnknownStyle), 404);
    assert_eq!(status(RejectionReason::DeadlineTooClose), 504);
    assert_eq!(status(RejectionReason::DeadlineExceeded), 504);
    assert_eq!(status(RejectionReason::HopLimitExceeded), 500);
    assert_eq!(status(RejectionReason::ForwardFailed), 503);
    let failed = |kind| status_for_outcome(&TaskResult::Failed { error: String::new(), kind });
    assert_eq!(failed(FailureKind::RenderTimeout), 504);
    assert_eq!(failed(FailureKind::SourceUnavailable), 502);
    assert_eq!(failed(FailureKind::Other), 500);
}

#[test]
fn images_are_sent_as_they_are() {
    let response = response_from_outcome(outcome(TaskResult::Completed {
        info: CompletedInfo {
            node_id: "n".to_string(),
            worker_id: None,
            route_tier: RouteTier::Tier2HrwBl,
            started_at: 0,
            cpu_started_at: 0,
            cpu_completed_at: 0,
            completed_at: 0,
            style_swap: false,
            cold_start: false,
            source_loaded: false,
            admitted_at_overflow: false,
        },
        output: RenderOutput { bytes: vec![1, 2], format: ImageFormat::Webp },
    }));
    assert_eq!(response.status, 200);
    assert_eq!(response.content_type, "image/webp");
    assert_eq!(response.body, vec![1, 2]);
    assert_eq!(response.headers, vec![("x-request-id", "req".to_string())]);
}

#[test]
fn forwarded_requests_must_be_json_to_a_node_that_takes_them() {
    assert_eq!(refuse_forwarded(None, true).map(|r| r.status), Some(415));
    assert_eq!(
        refuse_forwarded(Some("application/json"), true).map(|r| r.body),
        Some("draining")
    );
    assert!(refuse_forwarded(Some("application/json"), false).is_none());
}

#[test]
fn forward_plans_bound_the_time() {
    let plan = plan_forward("n", Some("127.0.0.1:8080"), 0).expect("plan");
    assert_eq!(plan.url, "http://127.0.0.1:8080/_internal/forward");
    assert_eq!(plan.timeout_ms, 1);
    assert_eq!(plan_forward("n", Some("a"), 700).expect("plan").timeout_ms, 700);
    assert_eq!(plan_forward("n", Some("a"), 90_000).expect("plan").timeout_ms, 30_000);
    assert_eq!(
        plan_forward("peer-a", None, 1).expect_err("no address"),
        ForwardError::Retryable("no advertise address for node peer-a".to_string())
    );
}

#[test]
fn only_requests_that_did_not_arrive_may_go_elsewhere() {
    let failure = |is_timeout, is_connect, is_request| {
        send_error(SendFailure { is_timeout, is_connect, is_request, message: "m".to_string() })
    };
    assert!(matches!(failure(true, false, false), ForwardError::Retryable(_)));
    assert!(matches!(failure(false, true, false), ForwardError::Retryable(_)));
    assert!(matches!(failure(false, false, true), ForwardError::Retryable(_)));
    assert!(matches!(failure(false, false, false), ForwardError::Fatal(_)));
}

#[test]
fn replies_without_our_body_are_fatal() {
    let framed = Some("application/x-biei-forward-response; v=1");
    assert!(check_reply("200 OK", framed).is_ok());
    assert_eq!(
        check_reply("503 Service Unavailable", Some("text/plain")),
        Err(ForwardError::Fatal(
            "peer returned 503 Service Unavailable without application/x-biei-forward-response \
             response body"
                .to_string()
        ))
    );
    assert!(check_reply("400 Bad Request", None).is_err());
}

#[test]
fn images_come_with_success() {
    let completed = |format| PeerOutcome::Completed { format };
    let image = finish_reply(true, "200 OK", completed(Some(ImageFormat::Png)), vec![137, 80])
        .expect("image")
        .expect("output");
    assert_eq!(image, RenderOutput { bytes: vec![137, 80], format: ImageFormat::Png });
    assert!(finish_reply(true, "200 OK", completed(None), Vec::new()).is_err());
    assert!(finish_reply(false, "500", completed(Some(ImageFormat::Png)), Vec::new()).is_err());
    let full = PeerOutcome::Rejected(RejectionReason::QueueFull);
    assert_eq!(finish_reply(false, "503", full, Vec::new()), Ok(None));
    assert!(finish_reply(true, "200 OK", full, Vec::new()).is_err());
}
