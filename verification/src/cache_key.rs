//! The key of a rendered image: what tells requests for different images apart.
//!
//! A key is a row of whole numbers. Every part of a request is written so that
//! it can be read back, so two requests have the same row exactly when they ask
//! for the same image.

use vstd::prelude::*;
use crate::decimal::{lemma_nat_of_append, moderate, nat_of, pow10, Decimal};
use crate::json::{compact_json, json_tree, to_text};
use crate::overlay::{StaticOverlay};
use crate::overlay::path::{PathOverlay, PinOverlay, PinSize};
use crate::overlay::polyline::LngLat;
use crate::text::chars_of;
use crate::types::{
    AddLayer, ImageFormat, InternalTask, Padding, Positioning, RenderRequest, Scale, SourceRef,
};

verus! {

/// A decimal number in its shortest form: no zero at either end of the digits.
pub struct NumberKey {
    pub negative: bool,
    pub digits: Seq<u8>,
    pub scale: int,
}

pub struct PointKey {
    pub lon: NumberKey,
    pub lat: NumberKey,
}

pub struct PathKey {
    pub stroke_width: Option<NumberKey>,
    pub stroke_color: Option<Seq<char>>,
    pub stroke_opacity: Option<NumberKey>,
    pub fill_color: Option<Seq<char>>,
    pub fill_opacity: Option<NumberKey>,
    pub coordinates: Seq<PointKey>,
}

pub struct PinKey {
    pub size: PinSize,
    pub label: Option<Seq<char>>,
    pub color: Seq<char>,
    pub coordinate: PointKey,
}

/// GeoJSON is told apart by its serialized text.
pub enum OverlayKey {
    Path(PathKey),
    GeoJson(Seq<char>),
    Pin(PinKey),
}

pub enum RequestKey {
    Tile { z: u8, x: u32, y: u32, tile_size: u16 },
    StaticImage {
        positioning: Positioning,
        width: u16,
        height: u16,
        overlays: Seq<OverlayKey>,
        before_layer: Option<Seq<char>>,
        padding: Padding,
        addlayer_hash: Option<u64>,
    },
}

/// What a rendered image depends on.
pub struct KeyView {
    pub style_id: Seq<char>,
    pub style_version: u64,
    pub request: RequestKey,
    pub scale: Scale,
    pub output_format: ImageFormat,
    pub source_hash: Option<u64>,
}

/// The digits without the zeros in front.
pub open spec fn unpadded(d: Seq<u8>) -> Seq<u8>
    decreases d.len(),
{
    if d.len() > 0 && d[0] == 0 {
        unpadded(d.skip(1))
    } else {
        d
    }
}

/// How many zeros end the digits.
pub open spec fn trailing(d: Seq<u8>) -> nat
    decreases d.len(),
{
    if d.len() > 0 && d.last() == 0 {
        trailing(d.drop_last()) + 1
    } else {
        0
    }
}

/// The shortest digits and scale of a number. A scale that is not moderate is
/// left as it is.
pub open spec fn shortest(d: Seq<u8>, scale: int) -> (Seq<u8>, int) {
    let core = unpadded(d);
    let n = trailing(core);
    if core.len() == 0 {
        (core, 0)
    } else if moderate(scale) {
        (core.take(core.len() - n), scale + n)
    } else {
        (core, scale)
    }
}

pub open spec fn number_key(d: Decimal) -> NumberKey {
    let (digits, scale) = shortest(d.digits@, d.scale as int);
    NumberKey { negative: d.negative, digits, scale }
}

pub open spec fn optional_number_key(d: Option<Decimal>) -> Option<NumberKey> {
    match d {
        Some(d) => Some(number_key(d)),
        None => None,
    }
}

pub open spec fn optional_text_key(s: Option<String>) -> Option<Seq<char>> {
    match s {
        Some(s) => Some(s@),
        None => None,
    }
}

pub open spec fn point_key(p: LngLat) -> PointKey {
    PointKey { lon: number_key(p.lon), lat: number_key(p.lat) }
}

pub open spec fn point_keys(points: Seq<LngLat>) -> Seq<PointKey> {
    Seq::new(points.len(), |i: int| point_key(points[i]))
}

pub open spec fn path_key(path: PathOverlay) -> PathKey {
    PathKey {
        stroke_width: optional_number_key(path.stroke_width),
        stroke_color: optional_text_key(path.stroke_color),
        stroke_opacity: optional_number_key(path.stroke_opacity),
        fill_color: optional_text_key(path.fill_color),
        fill_opacity: optional_number_key(path.fill_opacity),
        coordinates: point_keys(path.coordinates@),
    }
}

pub open spec fn pin_key(pin: PinOverlay) -> PinKey {
    PinKey {
        size: pin.size,
        label: optional_text_key(pin.label),
        color: pin.color@,
        coordinate: point_key(pin.coordinate),
    }
}

pub open spec fn overlay_key(overlay: StaticOverlay) -> OverlayKey {
    match overlay {
        StaticOverlay::Path(path) => OverlayKey::Path(path_key(path)),
        StaticOverlay::GeoJson(geojson) => OverlayKey::GeoJson(
            compact_json(json_tree(geojson.feature_collection)),
        ),
        StaticOverlay::Pin(pin) => OverlayKey::Pin(pin_key(pin)),
    }
}

pub open spec fn overlay_keys(overlays: Seq<StaticOverlay>) -> Seq<OverlayKey> {
    Seq::new(overlays.len(), |i: int| overlay_key(overlays[i]))
}

pub open spec fn addlayer_hash(addlayer: Option<AddLayer>) -> Option<u64> {
    match addlayer {
        Some(addlayer) => Some(addlayer.hash),
        None => None,
    }
}

pub open spec fn source_hash(source: Option<SourceRef>) -> Option<u64> {
    match source {
        Some(source) => Some(source.hash),
        None => None,
    }
}

pub open spec fn request_key(request: RenderRequest) -> RequestKey {
    match request {
        RenderRequest::Tile { z, x, y, tile_size } => RequestKey::Tile { z, x, y, tile_size },
        RenderRequest::StaticImage {
            positioning,
            width,
            height,
            overlays,
            before_layer,
            padding,
            addlayer,
        } => RequestKey::StaticImage {
            positioning,
            width,
            height,
            overlays: overlay_keys(overlays@),
            before_layer: optional_text_key(before_layer),
            padding,
            addlayer_hash: addlayer_hash(addlayer),
        },
    }
}

/// What the image of a task depends on.
pub open spec fn task_key(task: InternalTask) -> KeyView {
    KeyView {
        style_id: task.style.id@,
        style_version: task.style.version,
        request: request_key(task.request),
        scale: task.pixel_ratio,
        output_format: task.output_format,
        source_hash: source_hash(task.source),
    }
}

/// One word in front of the others.
pub open spec fn word(w: int, rest: Seq<int>) -> Seq<int> {
    seq![w] + rest
}

pub open spec fn flag(b: bool) -> int {
    if b {
        1
    } else {
        0
    }
}

pub open spec fn char_codes(s: Seq<char>) -> Seq<int> {
    Seq::new(s.len(), |i: int| s[i] as int)
}

pub open spec fn digit_codes(d: Seq<u8>) -> Seq<int> {
    Seq::new(d.len(), |i: int| d[i] as int)
}

/// A text: its length, then its characters.
pub open spec fn text_words(s: Seq<char>, rest: Seq<int>) -> Seq<int> {
    word(s.len() as int, char_codes(s) + rest)
}

pub open spec fn optional_text_words(s: Option<Seq<char>>, rest: Seq<int>) -> Seq<int> {
    match s {
        Some(s) => word(1, text_words(s, rest)),
        None => word(0, rest),
    }
}

pub open spec fn optional_hash_words(hash: Option<u64>, rest: Seq<int>) -> Seq<int> {
    match hash {
        Some(hash) => word(1, word(hash as int, rest)),
        None => word(0, rest),
    }
}

/// A number: its sign, its scale, and its digits behind their count.
pub open spec fn number_words(n: NumberKey, rest: Seq<int>) -> Seq<int> {
    word(
        flag(n.negative),
        word(n.scale, word(n.digits.len() as int, digit_codes(n.digits) + rest)),
    )
}

pub open spec fn optional_number_words(n: Option<NumberKey>, rest: Seq<int>) -> Seq<int> {
    match n {
        Some(n) => word(1, number_words(n, rest)),
        None => word(0, rest),
    }
}

pub open spec fn point_words(p: PointKey, rest: Seq<int>) -> Seq<int> {
    number_words(p.lon, number_words(p.lat, rest))
}

pub open spec fn points_words(points: Seq<PointKey>, rest: Seq<int>) -> Seq<int>
    decreases points.len(),
{
    if points.len() == 0 {
        rest
    } else {
        point_words(points[0], points_words(points.skip(1), rest))
    }
}

pub open spec fn path_words(p: PathKey, rest: Seq<int>) -> Seq<int> {
    optional_number_words(
        p.stroke_width,
        optional_text_words(
            p.stroke_color,
            optional_number_words(
                p.stroke_opacity,
                optional_text_words(
                    p.fill_color,
                    optional_number_words(
                        p.fill_opacity,
                        word(p.coordinates.len() as int, points_words(p.coordinates, rest)),
                    ),
                ),
            ),
        ),
    )
}

pub open spec fn pin_size_word(size: PinSize) -> int {
    match size {
        PinSize::Small => 0,
        PinSize::Medium => 1,
        PinSize::Large => 2,
    }
}

pub open spec fn pin_words(p: PinKey, rest: Seq<int>) -> Seq<int> {
    word(
        pin_size_word(p.size),
        optional_text_words(p.label, text_words(p.color, point_words(p.coordinate, rest))),
    )
}

/// An overlay behind the word that says which kind it is.
pub open spec fn overlay_words(overlay: OverlayKey, rest: Seq<int>) -> Seq<int> {
    match overlay {
        OverlayKey::Path(path) => word(0, path_words(path, rest)),
        OverlayKey::GeoJson(text) => word(1, text_words(text, rest)),
        OverlayKey::Pin(pin) => word(2, pin_words(pin, rest)),
    }
}

pub open spec fn overlays_words(overlays: Seq<OverlayKey>, rest: Seq<int>) -> Seq<int>
    decreases overlays.len(),
{
    if overlays.len() == 0 {
        rest
    } else {
        overlay_words(overlays[0], overlays_words(overlays.skip(1), rest))
    }
}

pub open spec fn positioning_words(positioning: Positioning, rest: Seq<int>) -> Seq<int> {
    match positioning {
        Positioning::Center { lon, lat, zoom, bearing, pitch } => word(
            0,
            word(
                lon as int,
                word(
                    lat as int,
                    word(zoom as int, word(bearing as int, word(pitch as int, rest))),
                ),
            ),
        ),
        Positioning::Bbox { min_lon, min_lat, max_lon, max_lat } => word(
            1,
            word(
                min_lon as int,
                word(min_lat as int, word(max_lon as int, word(max_lat as int, rest))),
            ),
        ),
        Positioning::Auto => word(2, rest),
    }
}

pub open spec fn padding_words(padding: Padding, rest: Seq<int>) -> Seq<int> {
    word(
        padding.top as int,
        word(padding.right as int, word(padding.bottom as int, word(padding.left as int, rest))),
    )
}

pub open spec fn request_words(request: RequestKey, rest: Seq<int>) -> Seq<int> {
    match request {
        RequestKey::Tile { z, x, y, tile_size } => word(
            0,
            word(z as int, word(x as int, word(y as int, word(tile_size as int, rest)))),
        ),
        RequestKey::StaticImage {
            positioning,
            width,
            height,
            overlays,
            before_layer,
            padding,
            addlayer_hash,
        } => word(
            1,
            positioning_words(
                positioning,
                word(
                    width as int,
                    word(
                        height as int,
                        word(
                            overlays.len() as int,
                            overlays_words(
                                overlays,
                                optional_text_words(
                                    before_layer,
                                    padding_words(
                                        padding,
                                        optional_hash_words(addlayer_hash, rest),
                                    ),
                                ),
                            ),
                        ),
                    ),
                ),
            ),
        ),
    }
}

pub open spec fn scale_word(scale: Scale) -> int {
    match scale {
        Scale::X1 => 1,
        Scale::X2 => 2,
    }
}

pub open spec fn format_word(format: ImageFormat) -> int {
    match format {
        ImageFormat::Png => 0,
        ImageFormat::Webp => 1,
        ImageFormat::Jpeg => 2,
    }
}

/// The row of numbers that stands for a key.
pub open spec fn key_words(key: KeyView) -> Seq<int> {
    text_words(
        key.style_id,
        word(
            key.style_version as int,
            request_words(
                key.request,
                word(
                    scale_word(key.scale),
                    word(
                        format_word(key.output_format),
                        optional_hash_words(key.source_hash, Seq::empty()),
                    ),
                ),
            ),
        ),
    )
}

pub proof fn lemma_word(a: int, b: int, r: Seq<int>, s: Seq<int>)
    requires
        word(a, r) == word(b, s),
    ensures
        a == b,
        r == s,
{
    assert(word(a, r)[0] == a);
    assert(word(b, s)[0] == b);
    assert(word(a, r).skip(1) =~= r);
    assert(word(b, s).skip(1) =~= s);
}

pub proof fn lemma_text(a: Seq<char>, b: Seq<char>, r: Seq<int>, s: Seq<int>)
    requires
        text_words(a, r) == text_words(b, s),
    ensures
        a == b,
        r == s,
{
    lemma_word(a.len() as int, b.len() as int, char_codes(a) + r, char_codes(b) + s);
    let x = char_codes(a) + r;
    let y = char_codes(b) + s;
    assert forall|i: int| 0 <= i < a.len() implies a[i] == b[i] by {
        assert(x[i] == a[i] as int);
        assert(y[i] == b[i] as int);
    }
    assert(a =~= b);
    assert(x.skip(a.len() as int) =~= r);
    assert(y.skip(b.len() as int) =~= s);
}

proof fn lemma_optional_text(
    a: Option<Seq<char>>,
    b: Option<Seq<char>>,
    r: Seq<int>,
    s: Seq<int>,
)
    requires
        optional_text_words(a, r) == optional_text_words(b, s),
    ensures
        a == b,
        r == s,
{
    match (a, b) {
        (Some(x), Some(y)) => {
            lemma_word(1, 1, text_words(x, r), text_words(y, s));
            lemma_text(x, y, r, s);
        },
        (Some(x), None) => lemma_word(1, 0, text_words(x, r), s),
        (None, Some(y)) => lemma_word(0, 1, r, text_words(y, s)),
        (None, None) => lemma_word(0, 0, r, s),
    }
}

proof fn lemma_optional_hash(a: Option<u64>, b: Option<u64>, r: Seq<int>, s: Seq<int>)
    requires
        optional_hash_words(a, r) == optional_hash_words(b, s),
    ensures
        a == b,
        r == s,
{
    match (a, b) {
        (Some(x), Some(y)) => {
            lemma_word(1, 1, word(x as int, r), word(y as int, s));
            lemma_word(x as int, y as int, r, s);
        },
        (Some(x), None) => lemma_word(1, 0, word(x as int, r), s),
        (None, Some(y)) => lemma_word(0, 1, r, word(y as int, s)),
        (None, None) => lemma_word(0, 0, r, s),
    }
}

proof fn lemma_number(a: NumberKey, b: NumberKey, r: Seq<int>, s: Seq<int>)
    requires
        number_words(a, r) == number_words(b, s),
    ensures
        a == b,
        r == s,
{
    let x = digit_codes(a.digits) + r;
    let y = digit_codes(b.digits) + s;
    let p = word(a.digits.len() as int, x);
    let q = word(b.digits.len() as int, y);
    lemma_word(flag(a.negative), flag(b.negative), word(a.scale, p), word(b.scale, q));
    lemma_word(a.scale, b.scale, p, q);
    lemma_word(a.digits.len() as int, b.digits.len() as int, x, y);
    assert forall|i: int| 0 <= i < a.digits.len() implies a.digits[i] == b.digits[i] by {
        assert(x[i] == a.digits[i] as int);
        assert(y[i] == b.digits[i] as int);
    }
    assert(a.digits =~= b.digits);
    assert(x.skip(a.digits.len() as int) =~= r);
    assert(y.skip(b.digits.len() as int) =~= s);
}

proof fn lemma_optional_number(
    a: Option<NumberKey>,
    b: Option<NumberKey>,
    r: Seq<int>,
    s: Seq<int>,
)
    requires
        optional_number_words(a, r) == optional_number_words(b, s),
    ensures
        a == b,
        r == s,
{
    match (a, b) {
        (Some(x), Some(y)) => {
            lemma_word(1, 1, number_words(x, r), number_words(y, s));
            lemma_number(x, y, r, s);
        },
        (Some(x), None) => lemma_word(1, 0, number_words(x, r), s),
        (None, Some(y)) => lemma_word(0, 1, r, number_words(y, s)),
        (None, None) => lemma_word(0, 0, r, s),
    }
}

proof fn lemma_point(a: PointKey, b: PointKey, r: Seq<int>, s: Seq<int>)
    requires
        point_words(a, r) == point_words(b, s),
    ensures
        a == b,
        r == s,
{
    lemma_number(a.lon, b.lon, number_words(a.lat, r), number_words(b.lat, s));
    lemma_number(a.lat, b.lat, r, s);
}

proof fn lemma_points(a: Seq<PointKey>, b: Seq<PointKey>, r: Seq<int>, s: Seq<int>)
    requires
        a.len() == b.len(),
        points_words(a, r) == points_words(b, s),
    ensures
        a == b,
        r == s,
    decreases a.len(),
{
    if a.len() == 0 {
        assert(a =~= b);
    } else {
        lemma_point(a[0], b[0], points_words(a.skip(1), r), points_words(b.skip(1), s));
        lemma_points(a.skip(1), b.skip(1), r, s);
        assert forall|i: int| 0 <= i < a.len() implies a[i] == b[i] by {
            if i > 0 {
                assert(a[i] == a.skip(1)[i - 1]);
                assert(b[i] == b.skip(1)[i - 1]);
            }
        }
        assert(a =~= b);
    }
}

proof fn lemma_path(a: PathKey, b: PathKey, r: Seq<int>, s: Seq<int>)
    requires
        path_words(a, r) == path_words(b, s),
    ensures
        a == b,
        r == s,
{
    let a6 = points_words(a.coordinates, r);
    let b6 = points_words(b.coordinates, s);
    let a5 = word(a.coordinates.len() as int, a6);
    let b5 = word(b.coordinates.len() as int, b6);
    let a4 = optional_number_words(a.fill_opacity, a5);
    let b4 = optional_number_words(b.fill_opacity, b5);
    let a3 = optional_text_words(a.fill_color, a4);
    let b3 = optional_text_words(b.fill_color, b4);
    let a2 = optional_number_words(a.stroke_opacity, a3);
    let b2 = optional_number_words(b.stroke_opacity, b3);
    let a1 = optional_text_words(a.stroke_color, a2);
    let b1 = optional_text_words(b.stroke_color, b2);
    lemma_optional_number(a.stroke_width, b.stroke_width, a1, b1);
    lemma_optional_text(a.stroke_color, b.stroke_color, a2, b2);
    lemma_optional_number(a.stroke_opacity, b.stroke_opacity, a3, b3);
    lemma_optional_text(a.fill_color, b.fill_color, a4, b4);
    lemma_optional_number(a.fill_opacity, b.fill_opacity, a5, b5);
    lemma_word(a.coordinates.len() as int, b.coordinates.len() as int, a6, b6);
    lemma_points(a.coordinates, b.coordinates, r, s);
}

proof fn lemma_pin(a: PinKey, b: PinKey, r: Seq<int>, s: Seq<int>)
    requires
        pin_words(a, r) == pin_words(b, s),
    ensures
        a == b,
        r == s,
{
    let a3 = point_words(a.coordinate, r);
    let b3 = point_words(b.coordinate, s);
    let a2 = text_words(a.color, a3);
    let b2 = text_words(b.color, b3);
    let a1 = optional_text_words(a.label, a2);
    let b1 = optional_text_words(b.label, b2);
    lemma_word(pin_size_word(a.size), pin_size_word(b.size), a1, b1);
    lemma_optional_text(a.label, b.label, a2, b2);
    lemma_text(a.color, b.color, a3, b3);
    lemma_point(a.coordinate, b.coordinate, r, s);
}

pub open spec fn overlay_kind(overlay: OverlayKey) -> int {
    match overlay {
        OverlayKey::Path(_) => 0,
        OverlayKey::GeoJson(_) => 1,
        OverlayKey::Pin(_) => 2,
    }
}

pub open spec fn overlay_body(overlay: OverlayKey, rest: Seq<int>) -> Seq<int> {
    match overlay {
        OverlayKey::Path(path) => path_words(path, rest),
        OverlayKey::GeoJson(text) => text_words(text, rest),
        OverlayKey::Pin(pin) => pin_words(pin, rest),
    }
}

proof fn lemma_overlay(a: OverlayKey, b: OverlayKey, r: Seq<int>, s: Seq<int>)
    requires
        overlay_words(a, r) == overlay_words(b, s),
    ensures
        a == b,
        r == s,
{
    lemma_word(overlay_kind(a), overlay_kind(b), overlay_body(a, r), overlay_body(b, s));
    match (a, b) {
        (OverlayKey::Path(x), OverlayKey::Path(y)) => lemma_path(x, y, r, s),
        (OverlayKey::GeoJson(x), OverlayKey::GeoJson(y)) => lemma_text(x, y, r, s),
        (OverlayKey::Pin(x), OverlayKey::Pin(y)) => lemma_pin(x, y, r, s),
        _ => {},
    }
}

proof fn lemma_overlays(a: Seq<OverlayKey>, b: Seq<OverlayKey>, r: Seq<int>, s: Seq<int>)
    requires
        a.len() == b.len(),
        overlays_words(a, r) == overlays_words(b, s),
    ensures
        a == b,
        r == s,
    decreases a.len(),
{
    if a.len() == 0 {
        assert(a =~= b);
    } else {
        lemma_overlay(a[0], b[0], overlays_words(a.skip(1), r), overlays_words(b.skip(1), s));
        lemma_overlays(a.skip(1), b.skip(1), r, s);
        assert forall|i: int| 0 <= i < a.len() implies a[i] == b[i] by {
            if i > 0 {
                assert(a[i] == a.skip(1)[i - 1]);
                assert(b[i] == b.skip(1)[i - 1]);
            }
        }
        assert(a =~= b);
    }
}

pub open spec fn positioning_kind(positioning: Positioning) -> int {
    match positioning {
        Positioning::Center { .. } => 0,
        Positioning::Bbox { .. } => 1,
        Positioning::Auto => 2,
    }
}

proof fn lemma_positioning_kind(positioning: Positioning, rest: Seq<int>)
    ensures
        positioning_words(positioning, rest)[0] == positioning_kind(positioning),
{
    match positioning {
        Positioning::Center { .. } => {},
        Positioning::Bbox { .. } => {},
        Positioning::Auto => {},
    }
}

proof fn lemma_positioning(a: Positioning, b: Positioning, r: Seq<int>, s: Seq<int>)
    requires
        positioning_words(a, r) == positioning_words(b, s),
    ensures
        a == b,
        r == s,
{
    lemma_positioning_kind(a, r);
    lemma_positioning_kind(b, s);
    match (a, b) {
        (
            Positioning::Center { lon, lat, zoom, bearing, pitch },
            Positioning::Center { lon: lon2, lat: lat2, zoom: zoom2, bearing: bearing2, pitch: pitch2 },
        ) => {
            let a4 = word(pitch as int, r);
            let b4 = word(pitch2 as int, s);
            let a3 = word(bearing as int, a4);
            let b3 = word(bearing2 as int, b4);
            let a2 = word(zoom as int, a3);
            let b2 = word(zoom2 as int, b3);
            let a1 = word(lat as int, a2);
            let b1 = word(lat2 as int, b2);
            lemma_word(0, 0, word(lon as int, a1), word(lon2 as int, b1));
            lemma_word(lon as int, lon2 as int, a1, b1);
            lemma_word(lat as int, lat2 as int, a2, b2);
            lemma_word(zoom as int, zoom2 as int, a3, b3);
            lemma_word(bearing as int, bearing2 as int, a4, b4);
            lemma_word(pitch as int, pitch2 as int, r, s);
        },
        (
            Positioning::Bbox { min_lon, min_lat, max_lon, max_lat },
            Positioning::Bbox { min_lon: w, min_lat: e, max_lon: t, max_lat: o },
        ) => {
            let a3 = word(max_lat as int, r);
            let b3 = word(o as int, s);
            let a2 = word(max_lon as int, a3);
            let b2 = word(t as int, b3);
            let a1 = word(min_lat as int, a2);
            let b1 = word(e as int, b2);
            lemma_word(1, 1, word(min_lon as int, a1), word(w as int, b1));
            lemma_word(min_lon as int, w as int, a1, b1);
            lemma_word(min_lat as int, e as int, a2, b2);
            lemma_word(max_lon as int, t as int, a3, b3);
            lemma_word(max_lat as int, o as int, r, s);
        },
        (Positioning::Auto, Positioning::Auto) => lemma_word(2, 2, r, s),
        _ => {},
    }
}

proof fn lemma_padding(a: Padding, b: Padding, r: Seq<int>, s: Seq<int>)
    requires
        padding_words(a, r) == padding_words(b, s),
    ensures
        a == b,
        r == s,
{
    let a3 = word(a.left as int, r);
    let b3 = word(b.left as int, s);
    let a2 = word(a.bottom as int, a3);
    let b2 = word(b.bottom as int, b3);
    let a1 = word(a.right as int, a2);
    let b1 = word(b.right as int, b2);
    lemma_word(a.top as int, b.top as int, a1, b1);
    lemma_word(a.right as int, b.right as int, a2, b2);
    lemma_word(a.bottom as int, b.bottom as int, a3, b3);
    lemma_word(a.left as int, b.left as int, r, s);
}

proof fn lemma_request_kind(request: RequestKey, rest: Seq<int>)
    ensures
        request_words(request, rest)[0] == flag(request is StaticImage),
{
    match request {
        RequestKey::Tile { .. } => {},
        RequestKey::StaticImage { .. } => {},
    }
}

proof fn lemma_request(a: RequestKey, b: RequestKey, r: Seq<int>, s: Seq<int>)
    requires
        request_words(a, r) == request_words(b, s),
    ensures
        a == b,
        r == s,
{
    match (a, b) {
        (
            RequestKey::Tile { z, x, y, tile_size },
            RequestKey::Tile { z: z2, x: x2, y: y2, tile_size: t2 },
        ) => {
            let a3 = word(tile_size as int, r);
            let b3 = word(t2 as int, s);
            let a2 = word(y as int, a3);
            let b2 = word(y2 as int, b3);
            let a1 = word(x as int, a2);
            let b1 = word(x2 as int, b2);
            lemma_word(0, 0, word(z as int, a1), word(z2 as int, b1));
            lemma_word(z as int, z2 as int, a1, b1);
            lemma_word(x as int, x2 as int, a2, b2);
            lemma_word(y as int, y2 as int, a3, b3);
            lemma_word(tile_size as int, t2 as int, r, s);
        },
        (
            RequestKey::StaticImage {
                positioning,
                width,
                height,
                overlays,
                before_layer,
                padding,
                addlayer_hash,
            },
            RequestKey::StaticImage {
                positioning: positioning2,
                width: width2,
                height: height2,
                overlays: overlays2,
                before_layer: before_layer2,
                padding: padding2,
                addlayer_hash: hash2,
            },
        ) => {
            let a7 = optional_hash_words(addlayer_hash, r);
            let b7 = optional_hash_words(hash2, s);
            let a6 = padding_words(padding, a7);
            let b6 = padding_words(padding2, b7);
            let a5 = optional_text_words(before_layer, a6);
            let b5 = optional_text_words(before_layer2, b6);
            let a4 = overlays_words(overlays, a5);
            let b4 = overlays_words(overlays2, b5);
            let a3 = word(overlays.len() as int, a4);
            let b3 = word(overlays2.len() as int, b4);
            let a2 = word(height as int, a3);
            let b2 = word(height2 as int, b3);
            let a1 = word(width as int, a2);
            let b1 = word(width2 as int, b2);
            lemma_word(
                1,
                1,
                positioning_words(positioning, a1),
                positioning_words(positioning2, b1),
            );
            lemma_positioning(positioning, positioning2, a1, b1);
            lemma_word(width as int, width2 as int, a2, b2);
            lemma_word(height as int, height2 as int, a3, b3);
            lemma_word(overlays.len() as int, overlays2.len() as int, a4, b4);
            lemma_overlays(overlays, overlays2, a5, b5);
            lemma_optional_text(before_layer, before_layer2, a6, b6);
            lemma_padding(padding, padding2, a7, b7);
            lemma_optional_hash(addlayer_hash, hash2, r, s);
        },
        _ => {
            lemma_request_kind(a, r);
            lemma_request_kind(b, s);
        },
    }
}

/// Keys have the same words exactly when they are the same: requests that differ
/// in anything that an image depends on never share a key.
pub proof fn law_keys_tell_images_apart(a: KeyView, b: KeyView)
    ensures
        key_words(a) == key_words(b) <==> a == b,
{
    if key_words(a) == key_words(b) {
        let a4 = optional_hash_words(a.source_hash, Seq::empty());
        let b4 = optional_hash_words(b.source_hash, Seq::empty());
        let a3 = word(format_word(a.output_format), a4);
        let b3 = word(format_word(b.output_format), b4);
        let a2 = word(scale_word(a.scale), a3);
        let b2 = word(scale_word(b.scale), b3);
        let a1 = request_words(a.request, a2);
        let b1 = request_words(b.request, b2);
        lemma_text(
            a.style_id,
            b.style_id,
            word(a.style_version as int, a1),
            word(b.style_version as int, b1),
        );
        lemma_word(a.style_version as int, b.style_version as int, a1, b1);
        lemma_request(a.request, b.request, a2, b2);
        lemma_word(scale_word(a.scale), scale_word(b.scale), a3, b3);
        lemma_word(format_word(a.output_format), format_word(b.output_format), a4, b4);
        lemma_optional_hash(a.source_hash, b.source_hash, Seq::empty(), Seq::empty());
    }
}

proof fn lemma_unpadded(d: Seq<u8>)
    ensures
        nat_of(unpadded(d)) == nat_of(d),
        unpadded(d).len() <= d.len(),
        unpadded(d) == d.skip(d.len() - unpadded(d).len()),
    decreases d.len(),
{
    if d.len() > 0 && d[0] == 0 {
        lemma_unpadded(d.skip(1));
        let zero = seq![0u8];
        lemma_nat_of_append(zero, d.skip(1));
        assert(zero + d.skip(1) =~= d);
        reveal_with_fuel(nat_of, 2);
        assert(nat_of(zero) * pow10(d.skip(1).len()) == 0) by (nonlinear_arith)
            requires
                nat_of(zero) == 0,
        ;
        let u = unpadded(d);
        assert(d.skip(1).skip(d.len() - 1 - u.len()) =~= d.skip(d.len() - u.len()));
    } else {
        assert(d.skip(0) =~= d);
    }
}

proof fn lemma_trailing(d: Seq<u8>)
    ensures
        trailing(d) <= d.len(),
        nat_of(d) == nat_of(d.take(d.len() - trailing(d))) * pow10(trailing(d)),
    decreases d.len(),
{
    if d.len() > 0 && d.last() == 0 {
        let e = d.drop_last();
        let n = trailing(e);
        lemma_trailing(e);
        assert(e.take(e.len() - n) =~= d.take(d.len() - trailing(d)));
        let x = nat_of(e.take(e.len() - n));
        let p = pow10(n);
        assert(pow10(n + 1) == 10 * p);
        assert(x * p * 10 == x * (10 * p)) by (nonlinear_arith);
    } else {
        assert(d.take(d.len() as int) =~= d);
        assert(nat_of(d) * pow10(0) == nat_of(d)) by (nonlinear_arith)
            requires
                pow10(0) == 1,
        ;
    }
}

/// The shortest form of a number is the same number.
pub proof fn law_shortest_form_keeps_the_value(d: Seq<u8>, scale: int)
    ensures
        nat_of(d) == 0 || shortest(d, scale).1 >= scale,
        nat_of(d) == 0 || nat_of(d) == nat_of(shortest(d, scale).0) * pow10(
            (shortest(d, scale).1 - scale) as nat,
        ),
        shortest(d, scale).0.len() == 0 ==> nat_of(d) == 0,
{
    let core = unpadded(d);
    lemma_unpadded(d);
    lemma_trailing(core);
    if core.len() > 0 && moderate(scale) {
        let kept = core.take(core.len() - trailing(core));
        if kept.len() == 0 {
            assert(nat_of(kept) * pow10(trailing(core)) == 0) by (nonlinear_arith)
                requires
                    nat_of(kept) == 0,
            ;
        }
    } else if core.len() > 0 {
        assert(nat_of(core) * pow10(0) == nat_of(core)) by (nonlinear_arith)
            requires
                pow10(0) == 1,
        ;
    }
}

/// Words that are held last first: pushing one puts it in front.
pub open spec fn backwards(words: Seq<i128>) -> Seq<int> {
    Seq::new(words.len(), |i: int| words[words.len() - 1 - i] as int)
}

pub(crate) fn put(words: &mut Vec<i128>, w: i128)
    ensures
        backwards(final(words)@) == word(w as int, backwards(old(words)@)),
{
    let ghost before = words@;
    words.push(w);
    assert(backwards(words@) =~= word(w as int, backwards(before)));
}

fn code_point(c: char) -> (r: i128)
    ensures
        r as int == c as int,
{
    c as u32 as i128
}

pub(crate) fn put_text(words: &mut Vec<i128>, text: &str)
    ensures
        backwards(final(words)@) == text_words(text@, backwards(old(words)@)),
{
    let chars = chars_of(text);
    let len = chars.len();
    let mut i: usize = len;
    let ghost rest = backwards(words@);
    assert(char_codes(chars@.skip(i as int)) + rest =~= rest);
    while i > 0
        invariant
            i <= len,
            len == chars.len(),
            backwards(words@) == char_codes(chars@.skip(i as int)) + rest,
        decreases i,
    {
        let ghost tail = char_codes(chars@.skip(i as int)) + rest;
        i -= 1;
        put(words, code_point(chars[i]));
        assert(word(chars@[i as int] as int, tail) =~= char_codes(chars@.skip(i as int)) + rest);
    }
    assert(chars@.skip(0) =~= text@);
    put(words, len as i128);
}

fn put_optional_text(words: &mut Vec<i128>, text: &Option<String>)
    ensures
        backwards(final(words)@) == optional_text_words(
            optional_text_key(*text),
            backwards(old(words)@),
        ),
{
    match text {
        Some(text) => {
            put_text(words, text.as_str());
            put(words, 1);
        },
        None => put(words, 0),
    }
}

fn put_optional_hash(words: &mut Vec<i128>, hash: Option<u64>)
    ensures
        backwards(final(words)@) == optional_hash_words(hash, backwards(old(words)@)),
{
    match hash {
        Some(hash) => {
            put(words, hash as i128);
            put(words, 1);
        },
        None => put(words, 0),
    }
}

fn put_number(words: &mut Vec<i128>, number: &Decimal)
    ensures
        backwards(final(words)@) == number_words(number_key(*number), backwards(old(words)@)),
{
    let ghost d = number.digits@;
    let len = number.digits.len();
    let mut start: usize = 0;
    assert(d.skip(0) =~= d);
    while start < len && number.digits[start] == 0
        invariant
            start <= len,
            len == number.digits.len(),
            d == number.digits@,
            unpadded(d.skip(start as int)) == unpadded(d),
        decreases len - start,
    {
        assert(d.skip(start as int).skip(1) =~= d.skip(start + 1));
        start += 1;
    }
    let ghost core = unpadded(d);
    assert(core == d.skip(start as int));
    let is_moderate = -0x1_0000_0000_0000_0000_0000 <= number.scale && number.scale
        <= 0x1_0000_0000_0000_0000_0000;
    let mut end: usize = len;
    assert(core.take(core.len() as int) =~= core);
    while is_moderate && end > start && number.digits[end - 1] == 0
        invariant
            start <= end <= len,
            len == number.digits.len(),
            d == number.digits@,
            core == d.skip(start as int),
            trailing(core) == trailing(core.take(end - start)) + (len - end),
            !is_moderate ==> end == len,
        decreases end,
    {
        let ghost part = core.take(end - start);
        assert(part.last() == d[end - 1]);
        assert(part.drop_last() =~= core.take(end - 1 - start));
        end -= 1;
    }
    proof {
        let part = core.take(end - start);
        if end > start {
            assert(part.last() == d[end - 1]);
        }
    }
    let scale: i128 = if start == len {
        0
    } else if is_moderate {
        number.scale + (len - end) as i128
    } else {
        number.scale
    };
    let ghost kept = shortest(d, number.scale as int).0;
    assert(kept =~= d.subrange(start as int, end as int));
    let ghost rest = backwards(words@);
    let mut i: usize = end;
    assert(digit_codes(d.subrange(end as int, end as int)) + rest =~= rest);
    while i > start
        invariant
            start <= i <= end <= len,
            len == number.digits.len(),
            d == number.digits@,
            backwards(words@) == digit_codes(d.subrange(i as int, end as int)) + rest,
        decreases i,
    {
        let ghost tail = digit_codes(d.subrange(i as int, end as int)) + rest;
        i -= 1;
        put(words, number.digits[i] as i128);
        assert(word(d[i as int] as int, tail) =~= digit_codes(d.subrange(i as int, end as int))
            + rest);
    }
    put(words, (end - start) as i128);
    put(words, scale);
    put(
        words,
        if number.negative {
            1
        } else {
            0
        },
    );
}

fn put_optional_number(words: &mut Vec<i128>, number: &Option<Decimal>)
    ensures
        backwards(final(words)@) == optional_number_words(
            optional_number_key(*number),
            backwards(old(words)@),
        ),
{
    match number {
        Some(number) => {
            put_number(words, number);
            put(words, 1);
        },
        None => put(words, 0),
    }
}

fn put_point(words: &mut Vec<i128>, point: &LngLat)
    ensures
        backwards(final(words)@) == point_words(point_key(*point), backwards(old(words)@)),
{
    put_number(words, &point.lat);
    put_number(words, &point.lon);
}

fn put_path(words: &mut Vec<i128>, path: &PathOverlay)
    ensures
        backwards(final(words)@) == path_words(path_key(*path), backwards(old(words)@)),
{
    let len = path.coordinates.len();
    let ghost rest = backwards(words@);
    let ghost points = point_keys(path.coordinates@);
    let mut i: usize = len;
    while i > 0
        invariant
            i <= len,
            len == path.coordinates.len(),
            points == point_keys(path.coordinates@),
            backwards(words@) == points_words(points.skip(i as int), rest),
        decreases i,
    {
        let ghost tail = points.skip(i as int);
        i -= 1;
        put_point(words, &path.coordinates[i]);
        assert(points.skip(i as int).skip(1) =~= tail);
    }
    assert(points.skip(0) =~= points);
    put(words, len as i128);
    put_optional_number(words, &path.fill_opacity);
    put_optional_text(words, &path.fill_color);
    put_optional_number(words, &path.stroke_opacity);
    put_optional_text(words, &path.stroke_color);
    put_optional_number(words, &path.stroke_width);
}

fn put_pin(words: &mut Vec<i128>, pin: &PinOverlay)
    ensures
        backwards(final(words)@) == pin_words(pin_key(*pin), backwards(old(words)@)),
{
    put_point(words, &pin.coordinate);
    put_text(words, pin.color.as_str());
    put_optional_text(words, &pin.label);
    put(
        words,
        match pin.size {
            PinSize::Small => 0,
            PinSize::Medium => 1,
            PinSize::Large => 2,
        },
    );
}

fn put_overlay(words: &mut Vec<i128>, overlay: &StaticOverlay)
    ensures
        backwards(final(words)@) == overlay_words(overlay_key(*overlay), backwards(old(words)@)),
{
    match overlay {
        StaticOverlay::Path(path) => {
            put_path(words, path);
            put(words, 0);
        },
        StaticOverlay::GeoJson(geojson) => {
            let text = to_text(&geojson.feature_collection);
            put_text(words, text.as_str());
            put(words, 1);
        },
        StaticOverlay::Pin(pin) => {
            put_pin(words, pin);
            put(words, 2);
        },
    }
}

fn put_positioning(words: &mut Vec<i128>, positioning: &Positioning)
    ensures
        backwards(final(words)@) == positioning_words(*positioning, backwards(old(words)@)),
{
    match *positioning {
        Positioning::Center { lon, lat, zoom, bearing, pitch } => {
            put(words, pitch as i128);
            put(words, bearing as i128);
            put(words, zoom as i128);
            put(words, lat as i128);
            put(words, lon as i128);
            put(words, 0);
        },
        Positioning::Bbox { min_lon, min_lat, max_lon, max_lat } => {
            put(words, max_lat as i128);
            put(words, max_lon as i128);
            put(words, min_lat as i128);
            put(words, min_lon as i128);
            put(words, 1);
        },
        Positioning::Auto => put(words, 2),
    }
}

fn put_request(words: &mut Vec<i128>, request: &RenderRequest)
    ensures
        backwards(final(words)@) == request_words(request_key(*request), backwards(old(words)@)),
{
    match request {
        RenderRequest::Tile { z, x, y, tile_size } => {
            put(words, *tile_size as i128);
            put(words, *y as i128);
            put(words, *x as i128);
            put(words, *z as i128);
            put(words, 0);
        },
        RenderRequest::StaticImage {
            positioning,
            width,
            height,
            overlays,
            before_layer,
            padding,
            addlayer,
        } => {
            let hash: Option<u64> = match addlayer {
                Some(addlayer) => Some(addlayer.hash),
                None => None,
            };
            put_optional_hash(words, hash);
            put(words, padding.left as i128);
            put(words, padding.bottom as i128);
            put(words, padding.right as i128);
            put(words, padding.top as i128);
            put_optional_text(words, before_layer);
            let len = overlays.len();
            let ghost rest = backwards(words@);
            let ghost keys = overlay_keys(overlays@);
            let mut i: usize = len;
            while i > 0
                invariant
                    i <= len,
                    len == overlays.len(),
                    keys == overlay_keys(overlays@),
                    backwards(words@) == overlays_words(keys.skip(i as int), rest),
                decreases i,
            {
                let ghost tail = keys.skip(i as int);
                i -= 1;
                put_overlay(words, &overlays[i]);
                assert(keys.skip(i as int).skip(1) =~= tail);
            }
            assert(keys.skip(0) =~= keys);
            put(words, len as i128);
            put(words, *height as i128);
            put(words, *width as i128);
            put_positioning(words, positioning);
            put(words, 1);
        },
    }
}

/// The words of a key, last first.
pub open spec fn words_of(key: KeyView) -> Seq<i128> {
    let words = key_words(key);
    Seq::new(words.len(), |i: int| words[words.len() - 1 - i] as i128)
}

proof fn lemma_backwards(words: Seq<i128>, key: KeyView)
    requires
        backwards(words) == key_words(key),
    ensures
        words == words_of(key),
{
    let row = key_words(key);
    assert(backwards(words).len() == words.len());
    assert forall|i: int| 0 <= i < words.len() implies words[i] == words_of(key)[i] by {
        assert(backwards(words)[words.len() - 1 - i] == words[i]);
        assert(row[row.len() - 1 - i] == words[i]);
    }
    assert(words =~= words_of(key));
}

/// The key under which a rendered image is kept.
#[derive(Clone, Debug, PartialEq, Eq, Hash)]
pub struct RenderCacheKey {
    pub words: Vec<i128>,
}

impl RenderCacheKey {
    /// The key stands for `key`.
    pub open spec fn stands_for(&self, key: KeyView) -> bool {
        backwards(self.words@) == key_words(key)
    }

    /// The key of the image that a task asks for.
    pub fn from_task(task: &InternalTask) -> (r: RenderCacheKey)
        ensures
            r.stands_for(task_key(*task)),
            r.words@ == words_of(task_key(*task)),
    {
        let mut words: Vec<i128> = Vec::new();
        assert(backwards(words@) =~= Seq::empty());
        let hash: Option<u64> = match &task.source {
            Some(source) => Some(source.hash),
            None => None,
        };
        put_optional_hash(&mut words, hash);
        put(
            &mut words,
            match task.output_format {
                ImageFormat::Png => 0,
                ImageFormat::Webp => 1,
                ImageFormat::Jpeg => 2,
            },
        );
        put(
            &mut words,
            match task.pixel_ratio {
                Scale::X1 => 1,
                Scale::X2 => 2,
            },
        );
        put_request(&mut words, &task.request);
        put(&mut words, task.style.version as i128);
        put_text(&mut words, task.style.id.as_str());
        proof {
            lemma_backwards(words@, task_key(*task));
        }
        RenderCacheKey { words }
    }
}

/// The keys of two tasks are the same exactly when their images depend on the
/// same things.
pub proof fn law_same_key_means_same_image(
    a: RenderCacheKey,
    b: RenderCacheKey,
    left: InternalTask,
    right: InternalTask,
)
    requires
        a.stands_for(task_key(left)),
        b.stands_for(task_key(right)),
    ensures
        a.words@ == b.words@ <==> task_key(left) == task_key(right),
{
    law_keys_tell_images_apart(task_key(left), task_key(right));
    let x = a.words@;
    let y = b.words@;
    if backwards(x) == backwards(y) {
        assert(backwards(x).len() == x.len());
        assert(backwards(y).len() == y.len());
        assert forall|i: int| 0 <= i < x.len() implies x[i] == y[i] by {
            assert(backwards(x)[x.len() - 1 - i] == x[i]);
            assert(backwards(y)[y.len() - 1 - i] == y[i]);
        }
        assert(x =~= y);
    }
}

/// Tasks of one key ask for the same image: of one style in one version, at one scale, in
/// one format and with one source, and either for one tile or for static images of one
/// place and extent, with the same layers.
pub proof fn law_one_key_is_one_request(
    a: RenderCacheKey,
    b: RenderCacheKey,
    left: InternalTask,
    right: InternalTask,
)
    requires
        a.stands_for(task_key(left)),
        b.stands_for(task_key(right)),
        a.words@ == b.words@,
    ensures
        left.style.id@ == right.style.id@,
        left.style.version == right.style.version,
        left.pixel_ratio == right.pixel_ratio,
        left.output_format == right.output_format,
        left.source is Some <==> right.source is Some,
        left.source is Some ==> left.source->0.hash == right.source->0.hash,
        left.request is Tile <==> right.request is Tile,
        left.request is Tile ==> {
            &&& left.request->z == right.request->z
            &&& left.request->x == right.request->x
            &&& left.request->y == right.request->y
            &&& left.request->tile_size == right.request->tile_size
        },
        left.request is StaticImage ==> {
            &&& left.request->positioning == right.request->positioning
            &&& left.request->width == right.request->width
            &&& left.request->height == right.request->height
            &&& left.request->padding == right.request->padding
            &&& left.request->before_layer is Some <==> right.request->before_layer is Some
            &&& left.request->before_layer is Some ==> left.request->before_layer->0@
                == right.request->before_layer->0@
            &&& left.request->addlayer is Some <==> right.request->addlayer is Some
            &&& left.request->addlayer is Some ==> left.request->addlayer->0.hash
                == right.request->addlayer->0.hash
            &&& left.request->overlays@.len() == right.request->overlays@.len()
        },
{
    law_same_key_means_same_image(a, b, left, right);
    if left.request is StaticImage {
        let x = overlay_keys(left.request->overlays@);
        let y = overlay_keys(right.request->overlays@);
        assert(x == y);
        assert(x.len() == left.request->overlays@.len());
        assert(y.len() == right.request->overlays@.len());
    }
}

/// Tasks of one key draw the same overlays, in the same order: lines of one style through
/// the same points, pins of one kind at the same point, or the same features.
pub proof fn law_one_key_is_one_drawing(
    a: RenderCacheKey,
    b: RenderCacheKey,
    left: InternalTask,
    right: InternalTask,
    i: int,
    k: int,
)
    requires
        a.stands_for(task_key(left)),
        b.stands_for(task_key(right)),
        a.words@ == b.words@,
        left.request is StaticImage,
        0 <= i < left.request->overlays@.len(),
    ensures
        ({
            let x = left.request->overlays@[i];
            let y = right.request->overlays@[i];
            &&& x is Path <==> y is Path
            &&& x is Pin <==> y is Pin
            &&& x matches StaticOverlay::Pin(p) ==> y matches StaticOverlay::Pin(q) && p.size
                == q.size && p.color@ == q.color@ && (p.label is Some <==> q.label is Some) && (
            p.label is Some ==> p.label->0@ == q.label->0@) && number_key(p.coordinate.lon)
                == number_key(q.coordinate.lon) && number_key(p.coordinate.lat) == number_key(
                q.coordinate.lat,
            )
            &&& x matches StaticOverlay::GeoJson(p) ==> y matches StaticOverlay::GeoJson(q)
                && compact_json(json_tree(p.feature_collection)) == compact_json(
                json_tree(q.feature_collection),
            )
            &&& x matches StaticOverlay::Path(p) ==> y matches StaticOverlay::Path(q) && (
            p.stroke_color is Some <==> q.stroke_color is Some) && (p.stroke_color is Some
                ==> p.stroke_color->0@ == q.stroke_color->0@) && (p.fill_color is Some
                <==> q.fill_color is Some) && (p.fill_color is Some ==> p.fill_color->0@
                == q.fill_color->0@) && (p.stroke_width is Some <==> q.stroke_width is Some) && (
            p.stroke_width is Some ==> number_key(p.stroke_width->0) == number_key(
                q.stroke_width->0,
            )) && (p.stroke_opacity is Some <==> q.stroke_opacity is Some) && (p.stroke_opacity
                is Some ==> number_key(p.stroke_opacity->0) == number_key(q.stroke_opacity->0))
                && (p.fill_opacity is Some <==> q.fill_opacity is Some) && (p.fill_opacity is Some
                ==> number_key(p.fill_opacity->0) == number_key(q.fill_opacity->0))
                && p.coordinates@.len() == q.coordinates@.len() && (0 <= k < p.coordinates@.len()
                ==> number_key(p.coordinates@[k].lon) == number_key(q.coordinates@[k].lon)
                && number_key(p.coordinates@[k].lat) == number_key(q.coordinates@[k].lat))
        }),
{
    law_one_key_is_one_request(a, b, left, right);
    law_same_key_means_same_image(a, b, left, right);
    let x = overlay_keys(left.request->overlays@);
    let y = overlay_keys(right.request->overlays@);
    assert(x == y);
    assert(x[i] == y[i]);
    assert(x[i] == overlay_key(left.request->overlays@[i]));
    assert(y[i] == overlay_key(right.request->overlays@[i]));
    if let StaticOverlay::Path(p) = left.request->overlays@[i] {
        if let StaticOverlay::Path(q) = right.request->overlays@[i] {
            let c = point_keys(p.coordinates@);
            let d = point_keys(q.coordinates@);
            assert(c == d);
            assert(c.len() == p.coordinates@.len());
            assert(d.len() == q.coordinates@.len());
            if 0 <= k < p.coordinates@.len() {
                assert(c[k] == d[k]);
            }
        }
    }
}

/// Numbers of one key have one sign and one value.
pub proof fn law_one_number_key_is_one_value(a: Decimal, b: Decimal)
    requires
        number_key(a) == number_key(b),
        nat_of(a.digits@) != 0,
        nat_of(b.digits@) != 0,
    ensures
        a.negative == b.negative,
        exists|m: nat, n: nat|
            nat_of(a.digits@) * #[trigger] pow10(n) == nat_of(b.digits@) * #[trigger] pow10(m)
                && a.scale + m == b.scale + n,
{
    law_shortest_form_keeps_the_value(a.digits@, a.scale as int);
    law_shortest_form_keeps_the_value(b.digits@, b.scale as int);
    let core = number_key(a).digits;
    let scale = number_key(a).scale;
    let m = (scale - a.scale) as nat;
    let n = (scale - b.scale) as nat;
    assert((nat_of(core) * pow10(m)) * pow10(n) == (nat_of(core) * pow10(n)) * pow10(m))
        by (nonlinear_arith);
    assert(nat_of(a.digits@) * pow10(n) == nat_of(b.digits@) * pow10(m));
}

/// Tasks that ask for the same image have one key: neither their ids, nor who sent them,
/// nor when they came and how long they have, tells them apart.
pub proof fn law_one_request_has_one_key(
    a: RenderCacheKey,
    b: RenderCacheKey,
    left: InternalTask,
    right: InternalTask,
)
    requires
        a.stands_for(task_key(left)),
        b.stands_for(task_key(right)),
        left.style.id@ == right.style.id@,
        left.style.version == right.style.version,
        left.pixel_ratio == right.pixel_ratio,
        left.output_format == right.output_format,
        left.source == right.source,
        left.request == right.request,
    ensures
        a.words@ == b.words@,
{
    law_same_key_means_same_image(a, b, left, right);
}

} // verus!
