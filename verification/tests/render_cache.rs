//! Rendered images and their keys.

use biei::cache_key::RenderCacheKey;
use biei::decimal::Decimal;
use biei::overlay::path::{PathOverlay, PinOverlay, PinSize};
use biei::overlay::polyline::LngLat;
use biei::overlay::{parse_static_overlays, StaticOverlay};
use biei::render_cache::{cache_hit_outcome, RenderOutputCache};
use biei::types::{
    AddLayer, CachePolicy, CompletedInfo, ImageFormat, InternalTask, Padding, Positioning,
    RejectionReason, RenderOutput, RenderRequest, RouteTier, Scale, SourceRef, StyleRevision,
    TaskOutcome, TaskResult,
};

const NOW: u64 = 5_000_000_000;

fn task(y: u32, source: Option<SourceRef>) -> InternalTask {
    InternalTask {
        id: 1,
        request_id: "cache-test".to_string(),
        style: StyleRevision { id: "style".to_string(), version: 1 },
        source,
        request: RenderRequest::Tile { z: 0, x: 0, y, tile_size: 512 },
        pixel_ratio: Scale::X1,
        output_format: ImageFormat::Png,
        arrived_at: NOW,
        deadline: NOW + 1_000_000_000,
        forwarding_hops: 0,
    }
}

fn output(bytes: &[u8], format: ImageFormat) -> RenderOutput {
    RenderOutput { bytes: bytes.to_vec(), format }
}

fn completed_outcome(task: &InternalTask, output: RenderOutput) -> TaskOutcome {
    TaskOutcome {
        task_id: task.id,
        request_id: task.request_id.clone(),
        arrived_at: task.arrived_at,
        had_source: task.source.is_some(),
        deadline_stage: None,
        result: TaskResult::Completed {
            info: CompletedInfo {
                node_id: "node-0".to_string(),
                worker_id: Some(0),
                route_tier: RouteTier::Tier1WarmTracking,
                started_at: task.arrived_at,
                cpu_started_at: NOW,
                cpu_completed_at: NOW,
                completed_at: NOW,
                style_swap: false,
                cold_start: false,
                source_loaded: false,
                admitted_at_overflow: false,
            },
            output,
        },
    }
}

fn center() -> Positioning {
    Positioning::Center {
        lon: 139.0_f64.to_bits(),
        lat: 35.0_f64.to_bits(),
        zoom: 10.0_f64.to_bits(),
        bearing: 0.0_f32.to_bits(),
        pitch: 0.0_f32.to_bits(),
    }
}

fn static_request(
    positioning: Positioning,
    overlays: Vec<StaticOverlay>,
    before_layer: Option<String>,
    padding: Padding,
    addlayer: Option<AddLayer>,
) -> RenderRequest {
    RenderRequest::StaticImage {
        positioning,
        width: 512,
        height: 512,
        overlays,
        before_layer,
        padding,
        addlayer,
    }
}

fn with_request(request: RenderRequest) -> InternalTask {
    let mut t = task(0, None);
    t.request = request;
    t
}

fn key(task: &InternalTask) -> RenderCacheKey {
    RenderCacheKey::from_task(task)
}

fn whole(n: i64) -> Decimal {
    Decimal::from_scaled(n, 0)
}

#[test]
fn cache_key_separates_request_identity() {
    assert_ne!(key(&task(0, None)), key(&task(1, None)));
}

#[test]
fn cache_key_separates_scale_format_positioning_and_style_version() {
    let base_key = key(&task(0, None));
    let mut scaled = task(0, None);
    scaled.pixel_ratio = Scale::X2;
    let mut webp = task(0, None);
    webp.output_format = ImageFormat::Webp;
    let mut newer_style = task(0, None);
    newer_style.style.version += 1;
    let static_image =
        with_request(static_request(center(), Vec::new(), None, Padding::default(), None));

    assert_ne!(base_key, key(&scaled));
    assert_ne!(base_key, key(&webp));
    assert_ne!(base_key, key(&newer_style));
    assert_ne!(base_key, key(&static_image));
}

#[test]
fn cache_key_separates_static_overlays() {
    let base = with_request(static_request(center(), Vec::new(), None, Padding::default(), None));
    let path = StaticOverlay::Path(PathOverlay {
        stroke_width: Some(whole(5)),
        stroke_color: Some("f44".to_string()),
        stroke_opacity: Some(whole(1)),
        fill_color: None,
        fill_opacity: None,
        coordinates: vec![
            LngLat { lon: whole(139), lat: whole(35) },
            LngLat { lon: whole(140), lat: whole(36) },
        ],
    });
    let with_path =
        with_request(static_request(center(), vec![path], None, Padding::default(), None));

    assert_ne!(key(&base), key(&with_path));
}

fn addlayer(hash: u64) -> AddLayer {
    AddLayer {
        json: r#"{"id":"x","type":"fill","source":"s"}"#.to_string(),
        hash,
        source: None,
    }
}

#[test]
fn cache_key_separates_static_by_addlayer_hash() {
    let request = |addlayer| {
        with_request(static_request(center(), Vec::new(), None, Padding::default(), addlayer))
    };
    let base = request(None);
    let with_addlayer = request(Some(addlayer(123)));
    let with_other_addlayer = request(Some(addlayer(456)));

    assert_ne!(key(&base), key(&with_addlayer));
    assert_ne!(key(&with_addlayer), key(&with_other_addlayer));
}

#[test]
fn cache_key_separates_static_before_layer_and_padding() {
    let bbox = || Positioning::Bbox {
        min_lon: 139.0_f64.to_bits(),
        min_lat: 35.0_f64.to_bits(),
        max_lon: 140.0_f64.to_bits(),
        max_lat: 36.0_f64.to_bits(),
    };
    let base = with_request(static_request(bbox(), Vec::new(), None, Padding::default(), None));
    let before_layer = with_request(static_request(
        bbox(),
        Vec::new(),
        Some("labels".to_string()),
        Padding::default(),
        None,
    ));
    let padded = with_request(static_request(
        bbox(),
        Vec::new(),
        None,
        Padding { top: 10, right: 20, bottom: 30, left: 40 },
        None,
    ));

    assert_ne!(key(&base), key(&before_layer));
    assert_ne!(key(&base), key(&padded));
}

#[test]
fn insert_and_get_roundtrip_render_output() {
    let mut cache = RenderOutputCache::new(1024);
    let t = task(0, None);
    let outcome = completed_outcome(&t, output(&[1, 2, 3], ImageFormat::Png));

    assert!(cache.insert_from_outcome(&t, &outcome));
    assert_eq!(cache.get(&t), Some(output(&[1, 2, 3], ImageFormat::Png)));
}

#[test]
fn disabled_cache_never_hits_or_inserts() {
    let mut cache = RenderOutputCache::new(0);
    let t = task(0, None);
    let outcome = completed_outcome(&t, output(&[1, 2, 3], ImageFormat::Png));

    assert!(!cache.is_enabled_for(&t));
    assert!(!cache.insert_from_outcome(&t, &outcome));
    assert_eq!(cache.get(&t), None);
}

#[test]
fn cache_hit_outcome_has_no_worker_and_records_request_latency() {
    let t = task(0, None);
    let outcome =
        cache_hit_outcome("node-0".to_string(), &t, output(&[1], ImageFormat::Png), NOW + 7);
    let TaskResult::Completed { info, .. } = outcome.result else {
        panic!("expected completed cache hit");
    };

    assert_eq!(info.worker_id, None);
    assert_eq!(info.route_tier, RouteTier::RenderCacheHit);
    assert_eq!(info.started_at, t.arrived_at);
    assert!(info.completed_at >= t.arrived_at);
}

#[test]
fn one_shot_sources_are_not_cacheable() {
    let cache = RenderOutputCache::new(1024);
    let t = task(0, Some(SourceRef { hash: 42, policy: CachePolicy::OneShot }));

    assert!(!cache.is_enabled_for(&t));
}

#[test]
fn an_image_answers_only_its_own_request() {
    let mut cache = RenderOutputCache::new(1024);
    let t = task(0, None);
    let other = task(1, None);
    cache.insert_from_outcome(&t, &completed_outcome(&t, output(&[1], ImageFormat::Png)));
    cache.insert_from_outcome(&t, &completed_outcome(&t, output(&[2], ImageFormat::Png)));

    assert_eq!(cache.get(&t), Some(output(&[2], ImageFormat::Png)));
    assert_eq!(cache.get(&other), None);
}

#[test]
fn images_stay_while_all_of_them_fit() {
    let mut cache = RenderOutputCache::new(2_000);
    let picture = |y: u32| output(&[y as u8, (y >> 8) as u8], ImageFormat::Png);
    for y in 0..1_000 {
        let t = task(y, None);
        assert!(cache.insert_from_outcome(&t, &completed_outcome(&t, picture(y))));
        assert_eq!(cache.get(&t), Some(picture(y)));
    }
    for y in 0..1_000 {
        assert_eq!(cache.get(&task(y, None)), Some(picture(y)));
    }
}

#[test]
fn only_completed_tasks_are_kept() {
    let mut cache = RenderOutputCache::new(1024);
    let t = task(0, None);
    let outcome = TaskOutcome {
        task_id: 1,
        request_id: t.request_id.clone(),
        arrived_at: NOW,
        had_source: false,
        deadline_stage: None,
        result: TaskResult::Rejected { reason: RejectionReason::QueueFull },
    };

    assert!(!cache.insert_from_outcome(&t, &outcome));
    assert_eq!(cache.get(&t), None);
}

#[test]
fn the_same_number_has_one_key() {
    let pin = |lon: Decimal| {
        with_request(static_request(
            center(),
            vec![StaticOverlay::Pin(PinOverlay {
                size: PinSize::Small,
                label: None,
                color: "4c78a8".to_string(),
                coordinate: LngLat { lon, lat: whole(0) },
            })],
            None,
            Padding::default(),
            None,
        ))
    };

    assert_eq!(key(&pin(whole(1200))), key(&pin(Decimal::from_scaled(12, 2))));
    assert_ne!(key(&pin(whole(1200))), key(&pin(whole(12))));
    assert_ne!(key(&pin(whole(12))), key(&pin(whole(-12))));
}

#[test]
fn geojson_is_told_apart_by_its_text() {
    let request = |geojson: &str| {
        let overlays = parse_static_overlays(geojson).expect("overlay parses");
        with_request(static_request(center(), overlays, None, Padding::default(), None))
    };
    let feature = |lon: &str| {
        format!(
            "geojson(%7B%22type%22%3A%22Feature%22%2C%22geometry%22%3A%7B%22type%22%3A\
             %22Point%22%2C%22coordinates%22%3A%5B{lon}%2C2%5D%7D%7D)"
        )
    };

    assert_eq!(key(&request(&feature("1"))), key(&request(&feature("%20%201"))));
    assert_ne!(key(&request(&feature("1"))), key(&request(&feature("3"))));
}
