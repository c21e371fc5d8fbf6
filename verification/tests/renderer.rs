//! Renderer threads, slots, profiles and resources.

use std::sync::Arc;
use biei::overlay::path::{PinOverlay, PinSize};
use biei::overlay::polyline::LngLat;
use biei::overlay::StaticOverlay;
use biei::decimal::Decimal;
use biei::renderer::actor::{
    abandoned, actor_reply, error_invalidates_loaded_state, on_owner_gone, on_thread_exit,
    panic_error, panic_payload_message, plan_render, renderer_error_is_actor_panic, try_abandon,
    Abandon, ActiveRenderer, ActorState, Camera, NativeBackend, PanicPayload, Preparation,
    RendererKey,
    ThreadHandle, ThreadStatus, Waited, ONE_BITS, TWO_BITS,
};
use biei::renderer::file_source::{
    attempt_outcome, can_request, complete_deferred_refresh, finish_fetch, first_step,
    interrupted, kind_label, max_resource_bytes, negative_step, on_head, redirect_step,
    refresh_deferral, request_headers, CacheAction, CachePolicy, FetchAttempt, FetchLoop,
    FetchReply, FileSourceIoPermits, FlightKey, FlightRole, FlightTable, HeadStep,
    NetworkIoObservation, Priority, PriorResponse, RedirectStep, RequestStep, ResourceKind,
    ResourceRequest, ResourceRequestKey, ResponseHead, RetryLimits, RetryStep, StoragePolicy,
    MAX_REFRESH_DEFERRAL,
};
use biei::renderer::loads::{
    on_signal, prefer, revision_key, JsonLoadSignal, JsonLoads, JsonLookup, WaitStep,
};
use biei::renderer::negative::{NegativeCache, NegativeEntry};
use biei::renderer::pin::{
    ceil_div_u32, parse_hex_rgb, pin_auto_padding_inset, pin_image_id, pin_image_ids,
    pin_image_size,
};
use biei::renderer::profile::{
    body_text, check_destination, check_style_file, check_style_json, check_tileset_url,
    is_permanent_profile_http_status, not_a_local_path, on_body_error, on_file_error,
    on_send_failed, on_status, resolve_tile_url, rewrite_tileset_source_json,
    source_url_from_addlayer_source, style_location, unregistered, validate_tileset_json,
    BodyReadError, Document, DocumentReader, ProfileFetchError, StyleLocation,
};
use biei::renderer::slot::{prepared_style, RendererSlot, SlotStep};
use biei::renderer::supervisor::{RendererActorSupervisor, RendererHealth};
use biei::renderer::{
    NoopProfilePreparer, PreparedProfile, ProfilePreparer, StyleAvailabilityError,
};
use biei::types::{
    AddLayerSource, ImageFormat, InternalTask, Padding, Positioning, RenderMode, RenderRequest,
    RendererError, Scale, StyleRevision,
};

fn revision() -> StyleRevision {
    StyleRevision { id: "carto/voyager".to_string(), version: 1 }
}

fn task(request: RenderRequest) -> InternalTask {
    InternalTask {
        id: 9,
        request_id: "maplibre-test".to_string(),
        style: revision(),
        source: None,
        request,
        pixel_ratio: Scale::X1,
        output_format: ImageFormat::Webp,
        arrived_at: 0,
        deadline: 1_000_000_000,
        forwarding_hops: 0,
    }
}

fn tile_task() -> InternalTask {
    task(RenderRequest::Tile { z: 3, x: 1, y: 2, tile_size: 256 })
}

fn reason(error: &RendererError) -> &str {
    match error {
        RendererError::StyleLoadFailed { source, .. } => source,
        RendererError::RenderFailed(message) => message,
        _ => "",
    }
}

#[test]
fn orphan_budget_is_fair_across_workers() {
    let mut supervisor = RendererActorSupervisor::new(2);

    assert!(supervisor.try_reserve_orphan(7));
    assert!(
        !supervisor.try_reserve_orphan(7),
        "one hot worker must not consume another slot's orphan budget"
    );
    assert!(supervisor.try_reserve_orphan(8));
    assert_eq!(supervisor.snapshot().orphaned_threads, 2);

    supervisor.release_orphan(7);
    assert!(supervisor.try_reserve_orphan(7));
    supervisor.release_orphan(7);
    supervisor.release_orphan(8);
    assert_eq!(supervisor.snapshot().orphaned_threads, 0);
}

#[test]
fn unavailable_slot_sheds_readiness_before_process_recovery() {
    let mut supervisor = RendererActorSupervisor::new(2);
    let mut first_slot_available = true;

    supervisor.set_slot_available(&mut first_slot_available, false);

    assert!(
        !supervisor.is_ready(),
        "a degraded pod must stop accepting new work before restart"
    );
    assert!(
        !supervisor.is_livable(),
        "a permanently lost slot at exhausted budget needs process recovery"
    );
}

#[test]
fn one_lost_slot_with_budget_remaining_requires_process_recovery() {
    let mut supervisor = RendererActorSupervisor::new(16);
    let mut lost_slot_available = true;

    assert!(supervisor.try_reserve_orphan(3));
    supervisor.set_slot_available(&mut lost_slot_available, false);

    let health = supervisor.snapshot();
    assert_eq!(health.available_slots, 15);
    assert_eq!(health.orphaned_threads, 1);
    assert!(
        !supervisor.is_ready(),
        "one unavailable slot must shed traffic before liveness restarts the pod"
    );
    assert!(
        !supervisor.is_livable(),
        "an unavailable slot must not remain hidden behind unused global orphan budget"
    );
}

#[test]
fn health_distinguishes_active_provider_failure_from_internal_loss() {
    let mut supervisor = RendererActorSupervisor::new(2);
    assert_eq!(supervisor.health(), RendererHealth::Full);
    assert!(supervisor.can_start_render());

    let mut slot_available = true;
    supervisor.set_slot_available(&mut slot_available, false);
    assert_eq!(supervisor.health(), RendererHealth::InternalUnrecoverable);
    assert!(!supervisor.is_ready());
    assert!(!supervisor.is_livable());

    supervisor.set_external_evidence(true);
    assert_eq!(supervisor.health(), RendererHealth::ExternalDegraded);
    assert!(
        supervisor.is_ready(),
        "external degradation must keep cached responses reachable"
    );
    assert!(supervisor.is_livable());
    assert!(
        supervisor.can_start_render(),
        "the remaining healthy slot still renders while externally degraded"
    );

    supervisor.set_external_evidence(false);
    assert_eq!(supervisor.health(), RendererHealth::InternalUnrecoverable);
}

#[test]
fn continuing_provider_evidence_never_becomes_restart_pressure() {
    let mut supervisor = RendererActorSupervisor::new(2);
    supervisor.set_external_evidence(true);
    let mut slot_available = true;
    supervisor.set_slot_available(&mut slot_available, false);

    assert_eq!(supervisor.health(), RendererHealth::ExternalDegraded);
    assert!(supervisor.is_livable());

    supervisor.set_slot_available(&mut slot_available, true);
    assert_eq!(supervisor.health(), RendererHealth::Full);
}

#[test]
fn one_lost_slot_does_not_stop_the_remaining_healthy_slots() {
    let mut supervisor = RendererActorSupervisor::new(3);
    assert!(supervisor.can_start_render());

    let mut a = true;
    supervisor.set_slot_available(&mut a, false);
    assert_ne!(supervisor.health(), RendererHealth::Full);
    assert!(
        supervisor.can_start_render(),
        "healthy slots keep rendering while one slot is down"
    );

    let mut b = true;
    supervisor.set_slot_available(&mut b, false);
    let mut c = true;
    supervisor.set_slot_available(&mut c, false);
    assert!(
        !supervisor.can_start_render(),
        "with no slot available the pod finally stops starting native work"
    );
}

#[test]
fn health_states_have_labels() {
    assert_eq!(RendererHealth::Full.as_str(), "full");
    assert_eq!(RendererHealth::ExternalDegraded.as_str(), "external_degraded");
    assert_eq!(RendererHealth::InternalUnrecoverable.as_str(), "internal_unrecoverable");
}

#[test]
fn abandoned_threads_are_bounded_and_released_on_exit() {
    let mut supervisor = RendererActorSupervisor::new(1);
    let mut first = ThreadStatus::Running;
    let mut second = ThreadStatus::Running;

    let action = try_abandon(&mut supervisor, 17, ThreadHandle::Live, &mut first);
    assert_eq!(action, Abandon::Detach);
    assert!(abandoned(action));
    assert_eq!(supervisor.snapshot().orphaned_threads, 1);

    let action = try_abandon(&mut supervisor, 18, ThreadHandle::Live, &mut second);
    assert_eq!(action, Abandon::Refused);
    assert!(!abandoned(action), "orphan budget must prevent unbounded detached threads");

    on_thread_exit(&mut supervisor, 17, &mut first);
    assert_eq!(supervisor.snapshot().orphaned_threads, 0);
}

#[test]
fn threads_that_ended_need_no_budget() {
    let mut supervisor = RendererActorSupervisor::new(1);
    let mut status = ThreadStatus::Running;
    assert_eq!(
        try_abandon(&mut supervisor, 1, ThreadHandle::Ended, &mut status),
        Abandon::Join
    );
    assert_eq!(
        try_abandon(&mut supervisor, 1, ThreadHandle::Gone, &mut status),
        Abandon::Nothing
    );
    assert_eq!(supervisor.snapshot().orphaned_threads, 0);

    on_owner_gone(&mut supervisor, 1, &mut status);
    assert_eq!(supervisor.snapshot().orphaned_threads, 1);
    on_thread_exit(&mut supervisor, 1, &mut status);
    assert_eq!(supervisor.snapshot().orphaned_threads, 0);
    assert_eq!(status, ThreadStatus::Finished);
}

#[test]
fn only_a_loaded_style_renders() {
    let mut actor = ActorState::new();
    assert_eq!(
        actor.check_ready(&revision()),
        Err(RendererError::StyleNotReady { style_id: "carto/voyager".to_string(), version: 1 })
    );
    assert!(!actor.on_loaded(revision(), true));
    assert_eq!(actor.check_ready(&revision()), Ok(()));
    let newer = StyleRevision { id: "carto/voyager".to_string(), version: 2 };
    assert!(actor.check_ready(&newer).is_err());

    assert!(!actor.on_rendered(None, true));
    assert_eq!(actor.check_ready(&revision()), Ok(()));
    let failed = RendererError::RenderFailed("test render failure".to_string());
    assert!(actor.on_rendered(Some(&failed), true));
    assert!(actor.check_ready(&revision()).is_err());

    assert!(!actor.on_loaded(revision(), true));
    assert!(actor.on_loaded(revision(), false));
    assert!(actor.check_ready(&revision()).is_err());
}

#[test]
fn panics_clear_the_loaded_style() {
    let text = PanicPayload::Text("synthetic renderer panic".to_string());
    let error = panic_error("render", &panic_payload_message(&text));
    assert_eq!(reason(&error), "renderer actor panicked during render: synthetic renderer panic");
    assert!(renderer_error_is_actor_panic(&error));
    assert_eq!(panic_payload_message(&PanicPayload::Other), "non-string panic payload");

    let mut actor = ActorState::new();
    actor.on_loaded(revision(), true);
    assert!(actor.on_rendered(Some(&error), false));
    assert!(actor.check_ready(&revision()).is_err());

    assert!(!renderer_error_is_actor_panic(&RendererError::Timeout));
    assert!(!error_invalidates_loaded_state(&RendererError::RenderFailed(String::new())));
    assert!(error_invalidates_loaded_state(&RendererError::Timeout));
}

#[test]
fn replies_end_with_the_deadline_or_the_thread() {
    assert_eq!(actor_reply(Waited::Replied(Ok(3))), Ok(3));
    assert_eq!(actor_reply::<u8>(Waited::Dropped), Err(RendererError::ActorDead));
    assert_eq!(actor_reply::<u8>(Waited::TimedOut), Err(RendererError::Timeout));
}

#[test]
fn renders_are_planned() {
    let key = RendererKey::new(RenderMode::Tile, Scale::X1);
    assert_eq!(key.pixel_ratio_bits, ONE_BITS);
    assert_eq!(RendererKey::new(RenderMode::Tile, Scale::X2).pixel_ratio_bits, TWO_BITS);
    assert_eq!(f32::from_bits(ONE_BITS), 1.0);
    assert_eq!(f32::from_bits(TWO_BITS), 2.0);

    let plan = plan_render(&tile_task(), &Some(revision()), &None).expect("plan");
    assert_eq!(plan.preparation, Preparation::Build);
    assert_eq!(plan.camera, Camera::Tile { z: 3, x: 1, y: 2 });
    assert_eq!((plan.size.width, plan.size.height), (256, 256));

    let ready = Some(ActiveRenderer { key, loaded_style: Some(revision()) });
    let plan = plan_render(&tile_task(), &Some(revision()), &ready).expect("plan");
    assert_eq!(plan.preparation, Preparation::Ready);
    let empty = Some(ActiveRenderer { key, loaded_style: None });
    let plan = plan_render(&tile_task(), &Some(revision()), &empty).expect("plan");
    assert_eq!(plan.preparation, Preparation::LoadStyle);

    let padding = Padding { top: 1, right: 2, bottom: 3, left: 4 };
    let auto = |width| {
        task(RenderRequest::StaticImage {
            positioning: Positioning::Auto,
            width,
            height: 10,
            overlays: Vec::new(),
            before_layer: None,
            padding,
            addlayer: None,
        })
    };
    let plan = plan_render(&auto(20), &Some(revision()), &ready).expect("plan");
    assert_eq!(plan.preparation, Preparation::Build);
    assert_eq!(plan.camera, Camera::FitOverlays { padding });

    let error = plan_render(&auto(0), &Some(revision()), &None).expect_err("no extent");
    assert_eq!(reason(&error), "render size must be non-zero");
    let error = plan_render(&auto(20), &None, &None).expect_err("no style");
    assert_eq!(reason(&error), "style has not been loaded in renderer backend");
}

#[test]
fn renderer_requires_prepared_style() {
    let err = prepared_style(&tile_task(), None).expect_err("prepared style is required");

    assert!(matches!(err, RendererError::StyleLoadFailed { .. }));
    let prepared = PreparedProfile {
        revision: revision(),
        style_json: "{}".to_string(),
        addlayer_source: None,
    };
    assert!(prepared_style(&tile_task(), Some(prepared)).is_ok());
}

#[test]
fn autonomous_repair_restores_slot_without_another_render_task() {
    let mut supervisor = RendererActorSupervisor::new(1);
    let mut slot = RendererSlot::new();
    slot.retire_after_current();
    assert_eq!(slot.on_abandon(&mut supervisor, false), Err(RendererError::ActorDead));
    assert_eq!(supervisor.health(), RendererHealth::InternalUnrecoverable);
    assert_eq!(slot.step(false), SlotStep::ReplaceRetiring);

    assert_eq!(slot.on_replacement(&mut supervisor, Ok(())), Ok(()));
    assert_eq!(supervisor.health(), RendererHealth::Full);
    assert_eq!(slot.step(true), SlotStep::Ready);
    assert_eq!(slot.step(false), SlotStep::ReplaceFinished);
    assert!(slot.is_alive(true));
}

#[test]
fn exhaustion_is_counted_once() {
    let mut supervisor = RendererActorSupervisor::new(2);
    let mut slot = RendererSlot::new();
    slot.retire_after_current();
    assert!(!slot.is_alive(true));
    assert!(slot.on_abandon(&mut supervisor, false).is_err());
    assert!(slot.on_abandon(&mut supervisor, false).is_err());
    assert_eq!(supervisor.snapshot().replacements_exhausted, 1);
    assert_eq!(
        slot.on_replacement(&mut supervisor, Err(RendererError::ActorDead)),
        Err(RendererError::ActorDead)
    );
    let snapshot = supervisor.snapshot();
    assert_eq!(snapshot.replacements_failed, 1);
    assert_eq!(snapshot.available_slots, 1);
    assert_eq!(slot.on_abandon(&mut supervisor, true), Ok(()));
}

#[test]
fn preparers_need_not_fetch() {
    assert!(matches!(NoopProfilePreparer.prepare_profile(&tile_task()), Ok(None)));
    assert_eq!(NoopProfilePreparer.ensure_style_available(&revision()), Ok(()));
}

#[test]
fn profile_http_status_only_negative_caches_deterministic_client_errors() {
    assert!(is_permanent_profile_http_status(404));
    assert!(is_permanent_profile_http_status(410));
    assert!(!is_permanent_profile_http_status(408));
    assert!(!is_permanent_profile_http_status(429));
    assert!(!is_permanent_profile_http_status(503));
}

#[test]
fn tile_template_resolution_preserves_only_tile_placeholders() {
    let resolved = resolve_tile_url(
        "style",
        "https://tiles.example.test/a/b/tileset.json",
        "tiles/{z}/{x}/{y}%20a.pbf",
    )
    .expect("base parses")
    .expect("tile template resolves");

    assert_eq!(resolved, "https://tiles.example.test/a/b/tiles/{z}/{x}/{y}%20a.pbf");
}

#[test]
fn absolute_tile_urls_stay_as_they_are() {
    let resolve = |tile: &str| {
        resolve_tile_url("style", "https://tiles.example.test/t.json", tile).expect("base parses")
    };
    assert_eq!(
        resolve("http://other.test/{z}/{x}/{y}.png").expect("resolves"),
        "http://other.test/{z}/{x}/{y}.png"
    );
    assert!(resolve("file:///etc/{z}").is_err());
    assert!(resolve_tile_url("style", "no base", "t/{z}").is_none());
}

fn rain(json: &str) -> AddLayerSource {
    AddLayerSource { tileset_id: "rain".to_string(), json: json.to_string() }
}

#[test]
fn sources_get_their_tiles_and_lose_their_url() {
    let source = rain(r#"{"type":"vector","url":"https://t.test/rain/style.json"}"#);
    assert_eq!(
        source_url_from_addlayer_source("s", &source).expect("url"),
        "https://t.test/rain/style.json"
    );
    let json = rewrite_tileset_source_json(
        "s",
        &source,
        "https://t.test/rain/style.json",
        "https://t.test/rain/style.json",
        r#"{"tiles":["tiles/{z}/{x}/{y}.pbf"],"minzoom":1,"maxzoom":10}"#,
    )
    .expect("rewritten");
    let value: serde_json::Value = serde_json::from_str(&json).expect("parses");
    assert!(value.get("url").is_none(), "TileJSON URL is not sent to worker");
    assert_eq!(value["type"].as_str(), Some("vector"));
    assert_eq!(value["minzoom"].as_u64(), Some(1));
    assert_eq!(value["maxzoom"].as_u64(), Some(10));
    assert_eq!(
        value["tiles"][0].as_str(),
        Some("https://t.test/rain/tiles/{z}/{x}/{y}.pbf")
    );
}

#[test]
fn bad_sources_are_refused() {
    let url = "https://t.test/style.json";
    let rewrite = |source: &str, tilejson: &str| {
        rewrite_tileset_source_json("s", &rain(source), url, url, tilejson).expect_err("refused")
    };
    let tiles = r#"{"tiles":["a"]}"#;
    assert_eq!(reason(&rewrite("[]", tiles)), "addlayer source JSON must be an object");
    assert!(reason(&rewrite("{", tiles)).starts_with("addlayer source JSON parse failed: "));
    assert!(matches!(rewrite("{}", "[1]"), RendererError::StyleLoadFailed { .. }));
    assert!(matches!(rewrite("{}", r#"{"tiles":[1]}"#), RendererError::StyleLoadFailed { .. }));
    let missing = source_url_from_addlayer_source("s", &rain("{}")).expect_err("no url");
    assert_eq!(reason(&missing), "addlayer source JSON is missing TileJSON URL");
}

#[test]
fn tilesets_need_tiles() {
    assert!(validate_tileset_json("s", r#"{"tiles":["a","b"]}"#).is_ok());
    for (json, why) in [
        ("{}", "tileset JSON must contain a non-empty `tiles` array"),
        (r#"{"tiles":[]}"#, "tileset JSON must contain a non-empty `tiles` array"),
        (r#"{"tiles":["a",1]}"#, "tileset JSON contains a non-string tile URL"),
    ] {
        let error = validate_tileset_json("s", json).expect_err("refused");
        assert_eq!(reason(&error.error), why);
        assert!(error.negative_cacheable);
    }
    assert!(check_tileset_url("s", "https://t.test", "https://t.test").is_ok());
    assert!(check_tileset_url("s", "ftp://t.test", "ftp://t.test").is_err());
    assert!(check_tileset_url("s", "nonsense", "nonsense").is_err());
}

#[test]
fn styles_come_from_the_web_or_a_file() {
    assert!(matches!(style_location("s", "https://a.test/s.json"), Ok(StyleLocation::Http)));
    assert!(matches!(style_location("s", "/tmp/style.json"), Ok(StyleLocation::Path)));
    assert!(style_location("s", "ftp://a.test/s.json").is_err());
    let error = not_a_local_path("s", "file://host/x");
    assert!(error.negative_cacheable);
    assert!(unregistered(&revision()).negative_cacheable);
}

#[test]
fn fetch_failures_say_whether_they_last() {
    let status = |status, text| {
        on_status(Document::Style, "s", "http://a.test/x", status, text).expect_err("failure")
    };
    let missing = status(404, "404 Not Found");
    assert!(missing.negative_cacheable, "4xx is definitive and cacheable");
    assert!(matches!(missing.error, RendererError::StyleLoadFailed { .. }));
    assert!(!status(503, "503 Service Unavailable").negative_cacheable);
    assert!(on_status(Document::Style, "s", "u", 204, "204 No Content").is_ok());

    let blocked = check_destination(Document::Tileset, "s", "http://127.0.0.1", false)
        .expect_err("blocked");
    assert_eq!(reason(&blocked.error), "blocked tileset URL destination: http://127.0.0.1");
    assert!(blocked.negative_cacheable);
    assert!(check_destination(Document::Style, "s", "u", true).is_ok());

    let sent = on_send_failed(Document::Style, "s", "u", "connect");
    assert_eq!(reason(&sent.error), "style GET failed for u (connect)");
    assert!(!sent.negative_cacheable);

    let timeout = on_body_error(Document::Style, "s", "u", BodyReadError::Timeout);
    assert_eq!(timeout.error, RendererError::Timeout);
    assert!(!timeout.negative_cacheable);
    let large = BodyReadError::TooLarge("too large".to_string());
    assert!(on_body_error(Document::Style, "s", "u", large).negative_cacheable);
    let broken = BodyReadError::Transport("reset".to_string());
    assert!(!on_body_error(Document::Style, "s", "u", broken).negative_cacheable);
}

#[test]
fn availability_follows_the_fetch() {
    let not_found = ProfileFetchError::permanent(RendererError::ActorDead);
    assert_eq!(
        not_found.into_availability_error(),
        StyleAvailabilityError::NotFound(RendererError::ActorDead)
    );
    let unavailable = ProfileFetchError::transient(RendererError::ActorDead);
    assert_eq!(
        unavailable.into_availability_error(),
        StyleAvailabilityError::Unavailable(RendererError::ActorDead)
    );
}

#[test]
fn documents_must_be_text_and_json() {
    assert_eq!(body_text(Document::Style, "s", b"{}".to_vec()).expect("text"), "{}");
    let error = body_text(Document::Style, "s", vec![0xff]).expect_err("no text");
    assert!(reason(&error.error).starts_with("style JSON is not UTF-8: invalid utf-8"));
    let error = check_style_json("s", "not-json").expect_err("no JSON");
    assert!(matches!(error.error, RendererError::StyleLoadFailed { .. }));
    assert!(error.negative_cacheable, "parse failure is definitive");
    assert!(check_style_json("s", "{}").is_ok());
    assert!(check_style_file("s", "/x", true, 2_097_152).is_ok());
    let error = check_style_file("s", "/x", true, 2_097_153).expect_err("too large");
    assert_eq!(reason(&error.error), "style JSON exceeds 2097152 bytes");
    let error = check_style_file("s", "/x", false, 0).expect_err("no file");
    assert_eq!(reason(&error.error), "style path is not a file: /x");
    let error = on_file_error("s", "read", "/x", "denied");
    assert_eq!(reason(&error.error), "style file read failed for /x: denied");
    assert!(!error.negative_cacheable);
}

#[test]
fn documents_are_fetched_once() {
    let mut loads = JsonLoads::styles();
    assert!(matches!(loads.lookup("a"), JsonLookup::Load));
    assert!(matches!(loads.lookup("a"), JsonLookup::Wait));
    assert!(matches!(loads.lookup("b"), JsonLookup::Load));
    loads.store("a", &Ok("{}".to_string()));
    assert!(matches!(loads.lookup("a"), JsonLookup::Ready(text) if text.as_str() == "{}"));
    loads.abort("b");
    assert!(matches!(loads.lookup("b"), JsonLookup::Load));
}

#[test]
fn lasting_failures_are_remembered() {
    let mut loads = JsonLoads::tilesets();
    assert!(matches!(loads.lookup("a"), JsonLookup::Load));
    loads.store("a", &Err(ProfileFetchError::permanent(RendererError::ActorDead)));
    assert!(matches!(
        loads.lookup("a"),
        JsonLookup::Negative(error) if *error == RendererError::ActorDead
    ));
    assert!(matches!(loads.lookup("b"), JsonLookup::Load));
    loads.store("b", &Err(ProfileFetchError::transient(RendererError::Timeout)));
    assert!(matches!(loads.lookup("b"), JsonLookup::Load));
}

#[test]
fn failures_go_before_documents_or_behind_them() {
    let failed = || Some(Arc::new(RendererError::ActorDead));
    let known = || Some(Arc::new("{}".to_string()));
    assert!(matches!(
        prefer(true, failed(), known()),
        Some(JsonLookup::Negative(error)) if *error == RendererError::ActorDead
    ));
    assert!(matches!(
        prefer(false, failed(), known()),
        Some(JsonLookup::Ready(text)) if text.as_str() == "{}"
    ));
    assert!(matches!(prefer(true, None, known()), Some(JsonLookup::Ready(_))));
    assert!(matches!(prefer(false, failed(), None), Some(JsonLookup::Negative(_))));
    assert!(prefer(true, None, None).is_none());
    assert!(prefer(false, None, None).is_none());
}

#[test]
fn styles_fail_first_and_tilesets_are_known_first() {
    let failed = || Some(Arc::new(RendererError::ActorDead));
    let known = || Some(Arc::new("{}".to_string()));
    let mut styles = JsonLoads::styles();
    assert!(matches!(styles.lookup_with("a", failed(), known()), JsonLookup::Negative(_)));
    let mut tilesets = JsonLoads::tilesets();
    assert!(matches!(tilesets.lookup_with("a", failed(), known()), JsonLookup::Ready(_)));
    assert!(matches!(tilesets.lookup_with("a", failed(), None), JsonLookup::Negative(_)));
    assert!(matches!(styles.lookup_with("a", None, known()), JsonLookup::Ready(_)));
    assert!(matches!(styles.lookup_with("a", None, None), JsonLookup::Load));
    assert!(matches!(styles.lookup_with("a", None, None), JsonLookup::Wait));
}

#[test]
fn documents_are_read_up_to_their_limit() {
    let mut reader = DocumentReader::new(Document::Style);
    reader.on_chunk("s", "http://x", b"{\"a\":").expect("fits");
    reader.on_chunk("s", "http://x", b"1}").expect("fits");
    assert_eq!(reader.finish("s").expect("text"), "{\"a\":1}");

    let mut reader = DocumentReader::new(Document::Tileset);
    reader.on_chunk("s", "http://x", &vec![b' '; Document::Tileset.max_bytes()]).expect("fits");
    let error = reader.on_chunk("s", "http://x", b" ").expect_err("too large");
    assert!(error.negative_cacheable);
    assert!(matches!(
        error.error,
        RendererError::StyleLoadFailed { source, .. } if source == "body exceeds 1048576 bytes"
    ));
    assert_eq!(reader.finish("s").expect("text").len(), 1_048_576);

    let mut reader = DocumentReader::new(Document::Style);
    reader.on_chunk("s", "http://x", &[0xff]).expect("fits");
    assert!(reader.finish("s").expect_err("no text").negative_cacheable);
}

#[test]
fn what_the_caches_have_is_not_fetched() {
    let mut loads = JsonLoads::styles();
    let ready = Some(JsonLookup::Ready(Arc::new("{}".to_string())));
    assert!(matches!(
        loads.lookup_from("a", ready.clone()),
        JsonLookup::Ready(text) if text.as_str() == "{}"
    ));
    assert!(matches!(loads.lookup_from("a", None), JsonLookup::Load));
    assert!(matches!(loads.lookup_from("a", None), JsonLookup::Wait));
    assert!(matches!(loads.lookup_from("a", ready), JsonLookup::Ready(_)));
    assert!(matches!(loads.lookup_from("b", None), JsonLookup::Load));
}

#[test]
fn rejected_styles_are_forgotten_for_a_while() {
    let mut loads = JsonLoads::styles();
    let key = revision_key(&revision());
    assert!(matches!(loads.lookup(&key), JsonLookup::Load));
    loads.store(&key, &Ok("{}".to_string()));
    loads.mark_load_failed(&key, "carto/voyager");
    assert!(matches!(
        loads.lookup(&key),
        JsonLookup::Negative(error) if matches!(*error, RendererError::StyleLoadFailed { .. })
    ));
}

#[test]
fn revisions_have_their_own_keys() {
    let key = |id: &str, version| revision_key(&StyleRevision { id: id.to_string(), version });
    assert_ne!(key("a", 11), key("a1", 1));
    assert_ne!(key("a", 1), key("a", 2));
    assert_eq!(key("a/b", 3), key("a/b", 3));
}

#[test]
fn waiting_ends_with_a_signal() {
    assert!(matches!(on_signal(JsonLoadSignal::Pending), WaitStep::KeepWaiting));
    assert!(matches!(on_signal(JsonLoadSignal::Aborted), WaitStep::LookUpAgain));
    assert!(matches!(
        on_signal(JsonLoadSignal::Ready("x".to_string())),
        WaitStep::Done(Ok(text)) if text == "x"
    ));
    let failed = ProfileFetchError::transient(RendererError::Timeout);
    assert!(matches!(on_signal(JsonLoadSignal::Failed(failed)), WaitStep::Done(Err(_))));
}

fn pin(size: PinSize, label: Option<&str>, color: &str) -> PinOverlay {
    PinOverlay {
        size,
        label: label.map(str::to_string),
        color: color.to_string(),
        coordinate: LngLat { lon: Decimal::from_scaled(0, 0), lat: Decimal::from_scaled(0, 0) },
    }
}

#[test]
fn pins_share_images() {
    let small = pin(PinSize::Small, None, "4c78a8");
    let large = pin(PinSize::Large, Some("a"), "fff");
    assert_eq!(pin_image_id(&small), "biei-pin-s-dot-4c78a8-x2");
    assert_eq!(pin_image_id(&large), "biei-pin-l-a-fff-x2");
    let overlays = [
        StaticOverlay::Pin(small.clone()),
        StaticOverlay::Pin(large),
        StaticOverlay::Pin(small),
    ];
    assert_eq!(
        pin_image_ids(&overlays),
        vec!["biei-pin-s-dot-4c78a8-x2".to_string(), "biei-pin-l-a-fff-x2".to_string()]
    );
}

#[test]
fn pins_at_the_edge_need_room() {
    assert_eq!(pin_image_size(PinSize::Medium), (60, 68));
    assert_eq!(
        pin_auto_padding_inset(PinSize::Large),
        Padding { top: 46, right: 26, bottom: 0, left: 26 }
    );
    assert_eq!(ceil_div_u32(7, 2), 4);
    assert_eq!(ceil_div_u32(u32::MAX, 1), u16::MAX);
}

#[test]
fn colours_are_read_from_hex() {
    assert_eq!(parse_hex_rgb("4C78a8"), Ok((0x4c, 0x78, 0xa8)));
    assert_eq!(parse_hex_rgb("f0a"), Ok((0xff, 0x00, 0xaa)));
    assert!(parse_hex_rgb("12345").is_err());
    assert!(parse_hex_rgb("gg0000").is_err());
}

fn request() -> ResourceRequest {
    ResourceRequest {
        url: "https://a.test/x".to_string(),
        kind: ResourceKind::Tile,
        priority: Priority::Regular,
        storage_policy: StoragePolicy::Permanent,
        has_cache: true,
        has_network: true,
        data_range: None,
        tile: None,
        minimum_update_interval: 5,
    }
}

fn head(status: u16) -> ResponseHead {
    ResponseHead {
        status,
        content_length: None,
        retry: None,
        negative_cache_ttl: Some(15),
        cache_policy: CachePolicy::Store,
        materialized: false,
    }
}

fn nothing() -> PriorResponse {
    PriorResponse { etag: None, modified: None }
}

#[test]
fn requests_carry_range_and_validator() {
    let headers = request_headers(
        Some((3, 17)),
        &PriorResponse { etag: None, modified: Some(784_111_777) },
    );
    assert_eq!((headers[0].name, headers[0].value.as_str()), ("range", "bytes=3-17"));
    assert_eq!(
        (headers[1].name, headers[1].value.as_str()),
        ("if-modified-since", "Sun, 06 Nov 1994 08:49:37 GMT")
    );
    let headers = request_headers(
        None,
        &PriorResponse { etag: Some("e".to_string()), modified: Some(1) },
    );
    assert_eq!(headers.len(), 1);
    assert_eq!((headers[0].name, headers[0].value.as_str()), ("if-none-match", "e"));
}

#[test]
fn heads_decide() {
    let HeadStep::Done(attempt) = on_head(ResourceKind::Tile, head(404), &nothing()) else {
        panic!("a missing resource has no body");
    };
    assert_eq!(attempt.negative_cache_ttl, Some(15));
    assert!(attempt.retry.is_none());

    let HeadStep::Done(attempt) = on_head(ResourceKind::Tile, head(304), &nothing()) else {
        panic!("an unchanged resource has no body");
    };
    assert!(matches!(
        attempt.response,
        FetchReply::Error(text) if text == "HTTP 304 received without a prior validator"
    ));
    let prior = PriorResponse { etag: Some("e".to_string()), modified: None };
    let HeadStep::Done(attempt) = on_head(ResourceKind::Tile, head(304), &prior) else {
        panic!("an unchanged resource has no body");
    };
    assert!(matches!(attempt.response, FetchReply::Http { status: 304, .. }));

    let mut large = head(200);
    large.content_length = Some(16_777_217);
    let HeadStep::Done(attempt) = on_head(ResourceKind::Tile, large, &nothing()) else {
        panic!("a large body is not read");
    };
    assert!(matches!(
        attempt.response,
        FetchReply::Error(text) if text == "resource body too large: 16777217 bytes"
    ));
}

#[test]
fn bodies_are_their_chunks() {
    let HeadStep::ReadBody(mut reader) = on_head(ResourceKind::Style, head(200), &nothing()) else {
        panic!("a body is read");
    };
    assert!(reader.on_chunk(&vec![1, 2]).is_none());
    assert!(reader.on_chunk(&vec![]).is_none());
    assert!(reader.on_chunk(&vec![3]).is_none());
    let attempt = reader.finish();
    assert!(matches!(
        attempt.response,
        FetchReply::Http { status: 200, body } if body == vec![1, 2, 3]
    ));
    assert_eq!(attempt.cache_policy, CachePolicy::Store);

    let HeadStep::ReadBody(mut reader) = on_head(ResourceKind::Style, head(200), &nothing()) else {
        panic!("a body is read");
    };
    assert!(reader.on_chunk(&vec![0; 4_194_304]).is_none());
    assert!(reader.on_chunk(&vec![0]).is_some());
    assert_eq!(max_resource_bytes(ResourceKind::Unknown), 8_388_608);
}

#[test]
fn retries_end_with_the_window() {
    let limits = RetryLimits { max_delay: 10, window: 100 };
    let mut fetch = FetchLoop::new(Priority::Regular, StoragePolicy::Permanent);
    assert!(fetch.watches_slowness());
    let failed = interrupted(true);
    assert_eq!(attempt_outcome(failed.retry, "error"), "timeout");
    let step = fetch.on_attempt(&failed, 0, 50, limits);
    assert_eq!(step.next, RetryStep::Wait { delay: 10 });
    assert!(fetch.evidence);
    assert!(!fetch.watches_slowness());
    let step = fetch.on_attempt(&interrupted(false), 95, 6, limits);
    assert_eq!(step.next, RetryStep::Finish);
    let done = FetchAttempt::done(FetchReply::Error("e".to_string()));
    assert_eq!(fetch.on_attempt(&done, 0, 1, limits).next, RetryStep::Finish);
    assert_eq!(attempt_outcome(done.retry, "error"), "error");

    let mut prefetch = FetchLoop::new(Priority::Low, StoragePolicy::Volatile);
    assert!(!prefetch.watches_slowness());
    prefetch.on_attempt(&failed, 0, 1, limits);
    assert!(!prefetch.evidence);
}

#[test]
fn attempts_leave_the_cache_as_they_say() {
    let http = || FetchReply::Http { status: 200, body: Vec::new() };
    let store = FetchAttempt::done_with_cache(http(), CachePolicy::Store);
    assert_eq!(finish_fetch(&store), CacheAction::StoreResponse);
    let remove = FetchAttempt::done_with_cache(http(), CachePolicy::Remove);
    assert_eq!(finish_fetch(&remove), CacheAction::Invalidate);
    assert_eq!(finish_fetch(&FetchAttempt::done(http())), CacheAction::Keep);
    let materialized = FetchAttempt { cache_materialized: true, ..store };
    assert_eq!(finish_fetch(&materialized), CacheAction::StoreMaterialized);
}

#[test]
fn fresh_resources_are_deferred() {
    assert_eq!(first_step(&request(), None, 0), None);
    let deferral = first_step(&request(), Some(12), 10).expect("deferred");
    assert_eq!((deferral.wait, deferral.capped), (5, false));
    assert_eq!(complete_deferred_refresh(deferral, None), None);
    assert_eq!(complete_deferred_refresh(deferral, Some(20)), Some(Some(20)));
    let long = refresh_deferral(u64::MAX, 0, 0);
    assert_eq!((long.wait, long.capped), (MAX_REFRESH_DEFERRAL, true));
    assert_eq!(complete_deferred_refresh(long, None), Some(None));
    let volatile = ResourceRequest { storage_policy: StoragePolicy::Volatile, ..request() };
    assert_eq!(first_step(&volatile, Some(12), 10), None);
}

#[test]
fn missing_resources_are_not_fetched_again_at_once() {
    assert_eq!(negative_step(&request(), Some(11), 10), RequestStep::AnswerNegative);
    assert_eq!(negative_step(&request(), Some(10), 10), RequestStep::ForgetNegativeAndFetch);
    assert_eq!(negative_step(&request(), None, 10), RequestStep::Fetch);
    assert!(can_request(&request(), true));
    assert!(!can_request(&request(), false));
}

#[test]
fn redirects_are_followed_a_while() {
    assert_eq!(redirect_step(9, true), RedirectStep::Follow);
    assert_eq!(redirect_step(10, true), RedirectStep::TooMany);
    assert_eq!(redirect_step(0, false), RedirectStep::Blocked);
}

#[test]
fn one_request_leads() {
    let key = |persistent| FlightKey {
        resource: ResourceRequestKey::from_request(&request()),
        persistent,
        priority: Priority::Regular,
        semantics: String::new(),
    };
    let mut flights = FlightTable::new();
    assert_eq!(flights.join(key(true)), FlightRole::Leader);
    assert_eq!(flights.join(key(true)), FlightRole::Waiter);
    assert_eq!(flights.join(key(false)), FlightRole::Leader);
    flights.complete(&key(true));
    assert_eq!(flights.join(key(true)), FlightRole::Leader);
    assert_eq!(kind_label(ResourceKind::SpriteJson), "sprite_json");
}

#[test]
fn io_permits_follow_the_renders() {
    let few = FileSourceIoPermits::for_render_permits(2);
    assert_eq!((few.regular, few.body), (64, 24));
    let many = FileSourceIoPermits::for_render_permits(100);
    assert_eq!((many.regular, many.body), (800, 400));
    let clamped = FileSourceIoPermits { regular: 0, body: 0 }.clamped();
    assert_eq!((clamped.regular, clamped.body), (1, 1));
    assert_eq!(FileSourceIoPermits::default().regular, 64);
}

#[test]
fn network_time_adds_up() {
    let mut observed = NetworkIoObservation::new(true);
    assert_eq!(observed.slow_after(), Some(1_000_000_000));
    observed.record(400_000_000);
    assert_eq!(observed.slow_after(), Some(600_000_000));
    observed.record(u64::MAX);
    assert_eq!(observed.elapsed(), u64::MAX);
    assert_eq!(observed.slow_after(), Some(0));
    assert_eq!(NetworkIoObservation::new(false).slow_after(), None);
}

#[test]
fn missing_resources_are_remembered_until_they_expire() {
    let mut cache = NegativeCache::new();
    let missing = || FetchReply::Http { status: 404, body: Vec::new() };
    assert!(cache.answer(&request(), 5).is_none());
    cache.remember(&request(), missing(), 10);
    let entry = cache.answer(&request(), 9).expect("remembered");
    assert_eq!(entry.reply, missing());
    let other = ResourceRequest { data_range: Some((0, 1)), ..request() };
    assert!(cache.answer(&other, 9).is_none());
    let explicit = ResourceRequest { has_cache: false, ..request() };
    assert!(cache.answer(&explicit, 9).is_none());
    assert!(cache.answer(&request(), 10).is_none());
    assert!(cache.answer(&request(), 9).is_none(), "what expired is forgotten");
}

#[test]
fn only_entries_that_have_not_expired_answer() {
    let mut cache = NegativeCache::new();
    let missing = || FetchReply::Http { status: 404, body: Vec::new() };
    let entry = || Some(Arc::new(NegativeEntry { reply: missing(), expires_at: 10 }));
    let found = cache.answer_from(&request(), entry(), 9).expect("not expired");
    assert_eq!(found.reply, missing());
    assert_eq!(found.expires_at, 10);
    assert!(cache.answer_from(&request(), None, 9).is_none());
    let explicit = ResourceRequest { has_cache: false, ..request() };
    assert!(cache.answer_from(&explicit, entry(), 9).is_none());

    cache.remember(&request(), missing(), 20);
    assert!(cache.answer_from(&explicit, entry(), 10).is_none());
    assert!(cache.answer(&request(), 10).is_some(), "nothing was forgotten");
    assert!(cache.answer_from(&request(), entry(), 10).is_none());
    assert!(cache.answer(&request(), 10).is_none(), "what expired is forgotten");
}

#[test]
fn native_renderers_are_built_loaded_and_reset() {
    let mut backend = NativeBackend::new();
    assert!(plan_render(&tile_task(), &backend.style, &backend.active).is_err());

    backend.set_style(revision());
    let plan = plan_render(&tile_task(), &backend.style, &backend.active).expect("plan");
    assert_eq!(plan.preparation, Preparation::Build);
    backend.on_prepared(&plan, false);
    assert!(backend.active.is_none(), "a renderer that was not built is not there");
    backend.on_prepared(&plan, true);
    let plan = plan_render(&tile_task(), &backend.style, &backend.active).expect("plan");
    assert_eq!(plan.preparation, Preparation::Ready);

    backend.set_style(StyleRevision { id: revision().id, version: revision().version + 1 });
    let plan = plan_render(&tile_task(), &backend.style, &backend.active).expect("plan");
    assert_eq!(plan.preparation, Preparation::LoadStyle);
    backend.on_prepared(&plan, true);
    let plan = plan_render(&tile_task(), &backend.style, &backend.active).expect("plan");
    assert_eq!(plan.preparation, Preparation::Ready);

    backend.reset();
    assert!(backend.style.is_none());
    backend.set_style(revision());
    let plan = plan_render(&tile_task(), &backend.style, &backend.active).expect("plan");
    assert_eq!(plan.preparation, Preparation::LoadStyle);
}
