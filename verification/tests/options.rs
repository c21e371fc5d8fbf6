//! Options, style templates and catalogs.

use biei::options::{
    auto_node_id, is_namespace_key, parse_duration, parse_style_templates, SPAN_TOO_LONG,
    standby_slots_for_cores, validate_tileset_url_template, GivenOptions, HostDefaults, IpAddress,
    Options, OptionsError, SocketAddress,
};
use biei::types::StyleRevision;
use std::time::Duration;

const STYLES: &str = "http://style-api.test/styles/{style_id}/style.json";

fn any_address(port: u16) -> SocketAddress {
    SocketAddress { ip: IpAddress::V4(0), port }
}

fn loopback(port: u16) -> SocketAddress {
    SocketAddress { ip: IpAddress::V4(0x7f00_0001), port }
}

fn given(style_templates: &str) -> GivenOptions {
    GivenOptions {
        style_templates: style_templates.to_string(),
        tileset_url_template: "https://tiles.example.test/{tileset_id}/tileset.json".to_string(),
        cluster: false,
        http_bind: any_address(8080),
        internal_port: 8081,
        internal_advertise_addr: None,
        gossip_bind: any_address(7946),
        gossip_seeds: Vec::new(),
        node_id: None,
        cores: None,
        sla: Duration::from_secs(30),
        maplibre_cache_path: None,
        debug_renderer_slots: None,
        debug_render_permits: None,
        debug_cpu_render_permits: None,
        source_cache_capacity: 2,
        render_output_cache_bytes: 0,
    }
}

fn host() -> HostDefaults {
    HostDefaults {
        cores: 4,
        node_id: "host-1-2".to_string(),
        maplibre_cache_path: "/var/cache/biei.sqlite".to_string(),
    }
}

fn resolve(given: GivenOptions) -> Result<Options, OptionsError> {
    Options::from_cli(given, host())
}

fn revision(id: &str) -> StyleRevision {
    StyleRevision { id: id.to_string(), version: 1 }
}

#[test]
fn rejects_template_without_placeholder() {
    let err = resolve(given("http://style-api.test/styles/static/style.json"))
        .expect_err("placeholder is required");

    assert!(err.message().contains("must contain {style_id}"));
}

#[test]
fn rejects_non_http_template() {
    let err = resolve(given("file:///styles/{style_id}/style.json"))
        .expect_err("only http/https are accepted");

    assert!(err.message().contains("scheme"));
}

#[test]
fn rejects_tileset_template_without_placeholder() {
    let mut options = given(STYLES);
    options.tileset_url_template = "https://tiles.example.test/static/tileset.json".to_string();
    let err = resolve(options).expect_err("tileset placeholder is required");

    assert!(err.message().contains("must contain {tileset_id}"));
}

#[test]
fn builds_tileset_catalog_with_raw_replacement() {
    let opts = resolve(given(STYLES)).expect("options parse");

    assert_eq!(
        opts.build_tileset_catalog().resolve_url("analysis/hrnowc/sample"),
        "https://tiles.example.test/analysis/hrnowc/sample/tileset.json"
    );
}

#[test]
fn cores_expand_to_slots_and_permits() {
    let mut options = given(STYLES);
    options.cores = Some(16);
    options.node_id = Some("biei-0".to_string());
    let opts = resolve(options).expect("options parse");

    assert_eq!(opts.cores, 16);
    assert_eq!(opts.renderer_slots_per_node, 20);
    assert_eq!(opts.render_permits_per_node, 16);
    assert_eq!(opts.cpu_render_permits_per_node, 16);
    assert_eq!(opts.node_id, "biei-0");
    assert_eq!(opts.maplibre_cache_path, host().maplibre_cache_path);
    assert!(!opts.cluster);
}

#[test]
fn parses_maplibre_cache_path() {
    let mut options = given(STYLES);
    options.maplibre_cache_path = Some("/tmp/custom-biei-cache.sqlite".to_string());
    let opts = resolve(options).expect("options parse");

    assert_eq!(opts.maplibre_cache_path, "/tmp/custom-biei-cache.sqlite");
}

#[test]
fn parses_cache_capacity_knobs() {
    let mut options = given(STYLES);
    options.source_cache_capacity = 4;
    options.render_output_cache_bytes = 1_048_576;
    let opts = resolve(options).expect("options parse");

    assert_eq!(opts.source_cache_capacity, 4);
    assert_eq!(opts.render_output_cache_capacity_bytes, 1_048_576);
    assert_eq!(opts.cluster_config().source_cache_capacity, 4);
    assert_eq!(opts.cluster_config().render_output_cache_capacity_bytes, 1_048_576);
}

#[test]
fn debug_overrides_are_hidden_but_work() {
    let mut options = given(STYLES);
    options.cores = Some(16);
    options.debug_renderer_slots = Some(24);
    options.debug_render_permits = Some(12);
    options.debug_cpu_render_permits = Some(8);
    let opts = resolve(options).expect("options parse");

    assert_eq!(opts.renderer_slots_per_node, 24);
    assert_eq!(opts.render_permits_per_node, 12);
    assert_eq!(opts.cpu_render_permits_per_node, 8);
}

#[test]
fn parses_cluster_advertise_addr() {
    let mut options = given(STYLES);
    options.cluster = true;
    options.internal_advertise_addr = Some(loopback(18080));
    let opts = resolve(options).expect("options parse");

    assert!(opts.cluster);
    assert_eq!(opts.internal_advertise_addr, loopback(18080));
}

#[test]
fn rejects_gossip_seeds_without_cluster_flag() {
    let mut options = given(STYLES);
    options.gossip_seeds = vec!["127.0.0.1:7946".to_string()];
    let err = resolve(options).expect_err("cluster intent must be explicit");

    assert!(err.message().contains("use --cluster"));
}

#[test]
fn rejects_cluster_with_wildcard_advertise_addr() {
    let mut options = given(STYLES);
    options.cluster = true;
    let err = resolve(options).expect_err("cluster peers need a reachable advertise address");

    assert!(err.message().contains("non-wildcard --internal-advertise-addr"));
}

#[test]
fn accepts_cluster_seed_node_without_gossip_seeds() {
    let mut options = given(STYLES);
    options.cluster = true;
    options.internal_advertise_addr = Some(loopback(8080));
    let opts = resolve(options).expect("seed node can start without seeds");

    assert!(opts.cluster);
    assert!(opts.gossip_seeds.is_empty());
    assert_eq!(opts.internal_advertise_addr, loopback(8080));
}

#[test]
fn accepts_cluster_join_node_with_gossip_seeds() {
    let mut options = given(STYLES);
    options.cluster = true;
    options.gossip_seeds = vec!["127.0.0.1:7946".to_string()];
    options.internal_advertise_addr = Some(loopback(8080));
    let opts = resolve(options).expect("cluster join options parse");

    assert!(opts.cluster);
    assert_eq!(opts.gossip_seeds, vec!["127.0.0.1:7946"]);
    assert_eq!(opts.internal_advertise_addr, loopback(8080));
}

#[test]
fn parses_namespace_and_default_templates() {
    let spec = parse_style_templates(
        "gl=https://basemaps.cartocdn.com/gl/{style_id}/style.json; \
         example=https://styles.example.test/{style_id}/style.json; \
         default=https://fallback.example/{style_id}/style.json",
    )
    .expect("spec parses");

    assert_eq!(
        spec.namespaces,
        vec![
            (
                "gl".to_string(),
                "https://basemaps.cartocdn.com/gl/{style_id}/style.json".to_string()
            ),
            (
                "example".to_string(),
                "https://styles.example.test/{style_id}/style.json".to_string()
            ),
        ]
    );
    assert_eq!(
        spec.default.as_deref(),
        Some("https://fallback.example/{style_id}/style.json")
    );
}

#[test]
fn bare_single_template_is_the_default() {
    let spec = parse_style_templates("https://basemaps.cartocdn.com/{style_id}/style.json")
        .expect("bare spec parses");
    assert!(spec.namespaces.is_empty());
    assert_eq!(
        spec.default.as_deref(),
        Some("https://basemaps.cartocdn.com/{style_id}/style.json")
    );
}

#[test]
fn bare_template_with_query_equals_is_not_a_namespace() {
    // The `=` lives in the query string; the left side has `:`/`/`, so it is
    // not a namespace key and the whole entry becomes the default.
    let spec = parse_style_templates("https://styles.example/{style_id}/style.json?key=abc123")
        .expect("query template parses");
    assert!(spec.namespaces.is_empty());
    assert_eq!(
        spec.default.as_deref(),
        Some("https://styles.example/{style_id}/style.json?key=abc123")
    );
}

#[test]
fn rejects_multiple_default_templates() {
    let err = parse_style_templates(
        "https://a.example/{style_id}/style.json;default=https://b.example/{style_id}/style.json",
    )
    .expect_err("two defaults are ambiguous");
    assert!(err.message().contains("multiple default templates"));
}

#[test]
fn rejects_duplicate_namespace() {
    let err = parse_style_templates(
        "gl=https://a.example/{style_id}/style.json;gl=https://b.example/{style_id}/style.json",
    )
    .expect_err("duplicate namespace");
    assert!(err.message().contains("duplicate namespace"));
}

#[test]
fn rejects_empty_spec() {
    let err = parse_style_templates("  ;; ").expect_err("no templates");
    assert!(err.message().contains("at least one template"));
}

#[test]
fn namespace_template_resolves_through_catalog() {
    let opts = resolve(given("gl=https://basemaps.cartocdn.com/gl/{style_id}/style.json"))
        .expect("options parse");
    let catalog = opts.build_style_catalog();

    assert_eq!(
        catalog.style_url(&revision("gl/voyager-gl-style")).expect("namespace resolves"),
        "https://basemaps.cartocdn.com/gl/voyager-gl-style/style.json"
    );
    // No default: an unmatched namespace is unknown.
    assert_eq!(catalog.resolve_latest(&revision("other/foo")), None);
    assert!(!catalog.accepts_revision(&revision("other/foo")));
}

#[test]
fn builds_lazy_style_catalog_with_raw_replacement() {
    let opts = resolve(given(STYLES)).expect("options parse");
    let catalog = opts.build_style_catalog();

    assert_eq!(catalog.resolve_latest(&revision("carto/voyager")), Some(1));
    assert!(catalog.accepts_revision(&revision("carto/voyager")));
    let later = StyleRevision { version: 2, ..revision("carto/voyager") };
    assert!(!catalog.accepts_revision(&later));
    assert_eq!(
        catalog.style_url(&revision("carto/voyager")).expect("definition exists"),
        "http://style-api.test/styles/carto/voyager/style.json"
    );
}

#[test]
fn template_that_is_no_url_is_refused() {
    let err = resolve(given("not a url {style_id}")).expect_err("not a URL");
    assert!(matches!(err, OptionsError::Templates(_)));
    assert_eq!(err.message(), "parse style template for default");
    assert_eq!(err.reason().map(String::as_str), Some("relative URL without a base"));
    let err = resolve(given("http://tiles.test:port/{style_id}")).expect_err("not a port");
    assert_eq!(err.reason().map(String::as_str), Some("invalid port number"));
    let err = resolve(given("http://tiles.test/")).expect_err("no placeholder");
    assert_eq!(err.reason(), None);
    let err = validate_tileset_url_template("{tileset_id}").expect_err("relative URL");
    assert_eq!(err.message(), "parse --tileset-url-template");
    assert_eq!(err.reason().map(String::as_str), Some("relative URL without a base"));
}

#[test]
fn namespaces_are_plain_words() {
    assert!(is_namespace_key(&['g', 'l']));
    assert!(!is_namespace_key(&['a', '/']));
    assert!(!is_namespace_key(&[]));
}

#[test]
fn five_slots_stand_by_for_four_cores() {
    assert_eq!(standby_slots_for_cores(1), 1);
    assert_eq!(standby_slots_for_cores(4), 5);
    assert_eq!(standby_slots_for_cores(5), 7);
}

#[test]
fn node_ids_fall_back_to_process_and_time() {
    assert_eq!(auto_node_id(Some("a".to_string()), 7, 9), "a");
    assert_eq!(auto_node_id(Some(String::new()), 7, 9), "node-7-9");
    assert_eq!(auto_node_id(None, 7, 9), "node-7-9");
}

#[test]
fn durations_are_read_as_people_write_them() {
    assert_eq!(parse_duration("1m 30s"), Ok(Duration::from_secs(90)));
    assert!(parse_duration("soon").is_err());
    assert_eq!(parse_duration("1000000000000ns"), Ok(Duration::from_secs(1_000)));
    assert_eq!(parse_duration("1 2.5 ms"), Ok(Duration::from_micros(12_500)));
    assert_eq!(parse_duration("2years"), Ok(Duration::from_secs(63_115_200)));
}

#[test]
fn spans_beyond_a_duration_are_refused() {
    let longest = "18446744073709551615s";
    assert_eq!(parse_duration(longest), Ok(Duration::from_secs(u64::MAX)));
    assert_eq!(
        parse_duration("18446744073709551615s 999ms"),
        Ok(Duration::new(u64::MAX, 999_000_000))
    );
    assert_eq!(
        parse_duration("18446744073709551615.5s"),
        Ok(Duration::new(u64::MAX, 500_000_000))
    );
    assert_eq!(
        parse_duration("18446744073709551615.999 999 998s 1ns"),
        Ok(Duration::new(u64::MAX, 999_999_999))
    );
    for text in [
        "18446744073709551615.999999999s 1ns",
        "18446744073709551615s 1000ms",
        "18446744073709551615s1000ms",
        "1844674407370955161 5 s 1000 ms",
        "18446744073709551614s 1s 1s",
        "18446744073709551616s",
        "584542046091years",
        "999999999999999999999999999999999999999999s",
    ] {
        assert_eq!(parse_duration(text), Err(SPAN_TOO_LONG.to_string()), "{text}");
    }
    // The longest number of years still reads, and a long number of nothing is refused
    // for its unit.
    assert!(parse_duration("584542046090years").is_ok());
    assert!(parse_duration("7 parsecs").is_err_and(|text| text.contains("unknown time unit")));
}

#[test]
fn permits_never_exceed_slots() {
    let mut options = given(STYLES);
    options.debug_renderer_slots = Some(1);
    options.debug_render_permits = Some(6);
    options.debug_cpu_render_permits = Some(9);
    let opts = resolve(options).expect("options parse");

    assert_eq!(opts.render_permits_per_node, 6);
    assert_eq!(opts.renderer_slots_per_node, 6);
    assert_eq!(opts.cpu_render_permits_per_node, 6);
}
