//! GeoJSON overlays: which features a request may draw.

use vstd::prelude::*;
use crate::decimal::{number_of, pow10, read_number, DecimalView, Number, NumberView};
use crate::json::{
    json_member, json_value, json_text, json_tree, json_trees, member, number_text, parse,
    text_member, JsonTree,
};
use crate::overlay::path::{
    check_latitude, check_longitude, is_latitude, is_longitude, law_the_map_has_its_edges,
};
use crate::overlay::percent::{decoded_text, percent_decode};
use crate::overlay::polyline::PolylineError;
use crate::text::{
    after_prefix, before_suffix, begins_with, chars_of, finishes_with, same_text, string_of,
};

verus! {

/// Features that one GeoJSON overlay may have.
pub const MAX_GEOJSON_FEATURES: usize = 500;

/// Coordinates that all features of one GeoJSON overlay may have together.
pub const MAX_GEOJSON_COORDINATES: usize = 5_000;

/// A Feature or FeatureCollection to draw.
#[derive(Debug, PartialEq, Eq)]
pub struct GeoJsonOverlay {
    pub feature_collection: serde_json::Value,
}

impl View for GeoJsonOverlay {
    type V = JsonTree;

    open spec fn view(&self) -> JsonTree {
        json_tree(self.feature_collection)
    }
}

/// How the coordinates of a geometry are nested.
#[derive(Debug, Clone, Copy, PartialEq, Eq, Structural)]
pub enum Shape {
    Position,
    Line,
    Rings,
    Polygons,
}

/// The nesting of a geometry type; collections and unknown types have none.
pub open spec fn shape_of(geometry_type: Seq<char>) -> Option<Shape> {
    if geometry_type == "Point"@ {
        Some(Shape::Position)
    } else if geometry_type == "LineString"@ || geometry_type == "MultiPoint"@ {
        Some(Shape::Line)
    } else if geometry_type == "Polygon"@ || geometry_type == "MultiLineString"@ {
        Some(Shape::Rings)
    } else if geometry_type == "MultiPolygon"@ {
        Some(Shape::Polygons)
    } else {
        None
    }
}

/// The number of elements, none unless the tree is an array.
pub open spec fn array_len(tree: JsonTree) -> nat {
    match tree {
        JsonTree::Array(items) => items.len(),
        _ => 0,
    }
}

/// The elements of the first `n` elements, together.
pub open spec fn rings_total(items: Seq<JsonTree>, n: int) -> nat
    decreases n,
{
    if n <= 0 {
        0
    } else {
        rings_total(items, n - 1) + array_len(items[n - 1])
    }
}

/// The elements of the elements of the first `n` elements, together.
pub open spec fn polygons_total(items: Seq<JsonTree>, n: int) -> nat
    decreases n,
{
    if n <= 0 {
        0
    } else {
        polygons_total(items, n - 1) + match items[n - 1] {
            JsonTree::Array(rings) => rings_total(rings, rings.len() as int),
            _ => 0,
        }
    }
}

/// The number of positions that coordinates hold.
pub open spec fn coordinate_count(shape: Shape, coords: JsonTree) -> nat {
    match shape {
        Shape::Position => 1,
        Shape::Line => array_len(coords),
        Shape::Rings => match coords {
            JsonTree::Array(rings) => rings_total(rings, rings.len() as int),
            _ => 0,
        },
        Shape::Polygons => match coords {
            JsonTree::Array(polygons) => polygons_total(polygons, polygons.len() as int),
            _ => 0,
        },
    }
}

/// A position: a longitude and a latitude on the map, perhaps with more behind.
pub open spec fn position_check(tree: JsonTree) -> Result<(), PolylineError> {
    match tree {
        JsonTree::Array(items) => if items.len() < 2 {
            Err(PolylineError::InvalidGeoJsonSyntax)
        } else {
            match (items[0], items[1]) {
                (JsonTree::Number(lon), JsonTree::Number(lat)) => {
                    match (number_of(lon), number_of(lat)) {
                        (
                            Some(NumberView::Finite(lon)),
                            Some(NumberView::Finite(lat)),
                        ) => if is_longitude(lon) && is_latitude(lat) {
                            Ok(())
                        } else {
                            Err(PolylineError::CoordinateOutOfRange)
                        },
                        _ => Err(PolylineError::CoordinateOutOfRange),
                    }
                },
                _ => Err(PolylineError::InvalidGeoJsonSyntax),
            }
        },
        _ => Err(PolylineError::InvalidGeoJsonSyntax),
    }
}

/// The first fault among the positions from `i` on.
pub open spec fn line_from(items: Seq<JsonTree>, i: int) -> Result<(), PolylineError>
    decreases items.len() - i,
{
    if i >= items.len() {
        Ok(())
    } else {
        match position_check(items[i]) {
            Ok(()) => line_from(items, i + 1),
            Err(e) => Err(e),
        }
    }
}

pub open spec fn line_check(tree: JsonTree) -> Result<(), PolylineError> {
    match tree {
        JsonTree::Array(items) => line_from(items, 0),
        _ => Err(PolylineError::InvalidGeoJsonSyntax),
    }
}

/// The first fault among the lines from `i` on.
pub open spec fn rings_from(items: Seq<JsonTree>, i: int) -> Result<(), PolylineError>
    decreases items.len() - i,
{
    if i >= items.len() {
        Ok(())
    } else {
        match line_check(items[i]) {
            Ok(()) => rings_from(items, i + 1),
            Err(e) => Err(e),
        }
    }
}

pub open spec fn rings_check(tree: JsonTree) -> Result<(), PolylineError> {
    match tree {
        JsonTree::Array(items) => rings_from(items, 0),
        _ => Err(PolylineError::InvalidGeoJsonSyntax),
    }
}

/// The first fault among the polygons from `i` on.
pub open spec fn polygons_from(items: Seq<JsonTree>, i: int) -> Result<(), PolylineError>
    decreases items.len() - i,
{
    if i >= items.len() {
        Ok(())
    } else {
        match rings_check(items[i]) {
            Ok(()) => polygons_from(items, i + 1),
            Err(e) => Err(e),
        }
    }
}

/// Every position is on the map.
pub open spec fn coordinates_check(shape: Shape, coords: JsonTree) -> Result<(), PolylineError> {
    match shape {
        Shape::Position => position_check(coords),
        Shape::Line => line_check(coords),
        Shape::Rings => rings_check(coords),
        Shape::Polygons => match coords {
            JsonTree::Array(items) => polygons_from(items, 0),
            _ => Err(PolylineError::InvalidGeoJsonSyntax),
        },
    }
}

/// Checks one feature after features with `total` coordinates; gives the total
/// with the feature's own.
pub open spec fn feature_check(tree: JsonTree, total: nat) -> Result<nat, PolylineError> {
    if json_text(json_member(tree, "type"@)) != Some("Feature"@) {
        Err(PolylineError::InvalidGeoJsonSyntax)
    } else {
        match json_member(tree, "geometry"@) {
            None => Ok(total),
            Some(JsonTree::Null) => Ok(total),
            Some(geometry) => match json_text(json_member(geometry, "type"@)) {
                None => Err(PolylineError::InvalidGeoJsonSyntax),
                Some(geometry_type) => match shape_of(geometry_type) {
                    None => Err(PolylineError::UnsupportedGeoJsonType),
                    Some(shape) => match json_member(geometry, "coordinates"@) {
                        None => Err(PolylineError::InvalidGeoJsonSyntax),
                        Some(coords) => {
                            let sum = total + coordinate_count(shape, coords);
                            if sum > MAX_GEOJSON_COORDINATES {
                                Err(PolylineError::TooManyCoordinates)
                            } else {
                                match coordinates_check(shape, coords) {
                                    Ok(()) => Ok(sum),
                                    Err(e) => Err(e),
                                }
                            }
                        },
                    },
                },
            },
        }
    }
}

/// Checks the features from `i` on.
pub open spec fn features_from(items: Seq<JsonTree>, i: int, total: nat) -> Result<
    nat,
    PolylineError,
>
    decreases items.len() - i,
{
    if i >= items.len() {
        Ok(total)
    } else {
        match feature_check(items[i], total) {
            Ok(sum) => features_from(items, i + 1, sum),
            Err(e) => Err(e),
        }
    }
}

/// A Feature, or a FeatureCollection of not too many features, with not too
/// many coordinates, all of them on the map.
pub open spec fn geojson_check(tree: JsonTree) -> Result<nat, PolylineError> {
    match json_text(json_member(tree, "type"@)) {
        None => Err(PolylineError::InvalidGeoJsonSyntax),
        Some(kind) => if kind == "Feature"@ {
            feature_check(tree, 0)
        } else if kind == "FeatureCollection"@ {
            match json_member(tree, "features"@) {
                Some(JsonTree::Array(items)) => if items.len() > MAX_GEOJSON_FEATURES {
                    Err(PolylineError::TooManyFeatures)
                } else {
                    features_from(items, 0, 0)
                },
                _ => Err(PolylineError::InvalidGeoJsonSyntax),
            }
        } else {
            Err(PolylineError::UnsupportedGeoJsonType)
        },
    }
}

/// A GeoJSON overlay: `geojson(` percent-encoded JSON `)`, with a JSON reader.
pub open spec fn geojson_overlay_of(
    s: Seq<char>,
    reader: spec_fn(Seq<char>) -> Option<JsonTree>,
) -> Result<JsonTree, PolylineError> {
    if !begins_with(s, "geojson("@) {
        Err(PolylineError::InvalidGeoJsonSyntax)
    } else {
        let rest = s.skip("geojson("@.len() as int);
        if !finishes_with(rest, ")"@) {
            Err(PolylineError::InvalidGeoJsonSyntax)
        } else {
            match decoded_text(rest.take(rest.len() - ")"@.len())) {
                None => Err(PolylineError::InvalidPercentEncoding),
                Some(text) => match reader(text) {
                    None => Err(PolylineError::InvalidGeoJsonSyntax),
                    Some(tree) => match geojson_check(tree) {
                        Ok(_) => Ok(tree),
                        Err(e) => Err(e),
                    },
                },
            }
        }
    }
}

proof fn lemma_line_fault(items: Seq<JsonTree>, i: int)
    ensures
        line_from(items, i) != Err::<(), PolylineError>(PolylineError::TooManyOverlays),
    decreases items.len() - i,
{
    if i < items.len() {
        lemma_line_fault(items, i + 1);
    }
}

proof fn lemma_rings_fault(items: Seq<JsonTree>, i: int)
    ensures
        rings_from(items, i) != Err::<(), PolylineError>(PolylineError::TooManyOverlays),
    decreases items.len() - i,
{
    if i < items.len() {
        if let JsonTree::Array(line) = items[i] {
            lemma_line_fault(line, 0);
        }
        lemma_rings_fault(items, i + 1);
    }
}

proof fn lemma_polygons_fault(items: Seq<JsonTree>, i: int)
    ensures
        polygons_from(items, i) != Err::<(), PolylineError>(PolylineError::TooManyOverlays),
    decreases items.len() - i,
{
    if i < items.len() {
        if let JsonTree::Array(rings) = items[i] {
            lemma_rings_fault(rings, 0);
        }
        lemma_polygons_fault(items, i + 1);
    }
}

proof fn lemma_feature_fault(tree: JsonTree, total: nat)
    ensures
        feature_check(tree, total) != Err::<nat, PolylineError>(PolylineError::TooManyOverlays),
{
    if let Some(geometry) = json_member(tree, "geometry"@) {
        if let Some(JsonTree::Array(items)) = json_member(geometry, "coordinates"@) {
            lemma_line_fault(items, 0);
            lemma_rings_fault(items, 0);
            lemma_polygons_fault(items, 0);
        }
    }
}

proof fn lemma_features_fault(items: Seq<JsonTree>, i: int, total: nat)
    ensures
        features_from(items, i, total) != Err::<nat, PolylineError>(PolylineError::TooManyOverlays),
    decreases items.len() - i,
{
    if i < items.len() {
        lemma_feature_fault(items[i], total);
        if let Ok(sum) = feature_check(items[i], total) {
            lemma_features_fault(items, i + 1, sum);
        }
    }
}

/// No GeoJSON has a fault in the number of overlays.
pub proof fn lemma_geojson_fault(tree: JsonTree)
    ensures
        geojson_check(tree) != Err::<nat, PolylineError>(PolylineError::TooManyOverlays),
{
    lemma_feature_fault(tree, 0);
    if let Some(JsonTree::Array(items)) = json_member(tree, "features"@) {
        lemma_features_fault(items, 0, 0);
    }
}

proof fn lemma_features_bounded(items: Seq<JsonTree>, i: int, total: nat)
    requires
        total <= MAX_GEOJSON_COORDINATES,
    ensures
        features_from(items, i, total) matches Ok(sum) ==> total <= sum <= MAX_GEOJSON_COORDINATES,
    decreases items.len() - i,
{
    if i < items.len() {
        if let Ok(sum) = feature_check(items[i], total) {
            lemma_features_bounded(items, i + 1, sum);
        }
    }
}

/// GeoJSON that is accepted never has more coordinates than the limit.
pub proof fn law_geojson_is_bounded(tree: JsonTree)
    ensures
        geojson_check(tree) matches Ok(total) ==> total <= 5_000,
{
    if let Some(JsonTree::Array(items)) = json_member(tree, "features"@) {
        lemma_features_bounded(items, 0, 0);
    }
}

/// The nesting of a geometry type.
pub fn geometry_shape(geometry_type: &str) -> (r: Option<Shape>)
    ensures
        r == shape_of(geometry_type@),
{
    if same_text(geometry_type, "Point") {
        Some(Shape::Position)
    } else if same_text(geometry_type, "LineString") || same_text(geometry_type, "MultiPoint") {
        Some(Shape::Line)
    } else if same_text(geometry_type, "Polygon") || same_text(geometry_type, "MultiLineString") {
        Some(Shape::Rings)
    } else if same_text(geometry_type, "MultiPolygon") {
        Some(Shape::Polygons)
    } else {
        None
    }
}

/// `n`, or the largest size if it is larger.
pub open spec fn saturated(n: nat) -> nat {
    if n > usize::MAX {
        usize::MAX as nat
    } else {
        n
    }
}

fn len_of(value: &serde_json::Value) -> (r: usize)
    ensures
        r == array_len(json_tree(*value)),
{
    match value.as_array() {
        Some(items) => items.len(),
        None => 0,
    }
}

fn count_rings(items: &Vec<serde_json::Value>) -> (r: usize)
    ensures
        r == saturated(rings_total(json_trees(items@), items@.len() as int)),
{
    let mut sum: usize = 0;
    let mut i: usize = 0;
    while i < items.len()
        invariant
            i <= items@.len(),
            sum == saturated(rings_total(json_trees(items@), i as int)),
        decreases items.len() - i,
    {
        assert(json_trees(items@)[i as int] == json_tree(items@[i as int]));
        sum = sum.saturating_add(len_of(&items[i]));
        i += 1;
    }
    sum
}

/// The number of positions that coordinates hold.
pub fn count_coordinates(shape: Shape, coords: &serde_json::Value) -> (r: usize)
    ensures
        r == saturated(coordinate_count(shape, json_tree(*coords))),
{
    match shape {
        Shape::Position => 1,
        Shape::Line => len_of(coords),
        Shape::Rings => match coords.as_array() {
            Some(rings) => count_rings(rings),
            None => 0,
        },
        Shape::Polygons => match coords.as_array() {
            Some(polygons) => {
                let mut sum: usize = 0;
                let mut i: usize = 0;
                while i < polygons.len()
                    invariant
                        i <= polygons@.len(),
                        sum == saturated(polygons_total(json_trees(polygons@), i as int)),
                    decreases polygons.len() - i,
                {
                    assert(json_trees(polygons@)[i as int] == json_tree(polygons@[i as int]));
                    let part: usize = match polygons[i].as_array() {
                        Some(rings) => count_rings(rings),
                        None => 0,
                    };
                    sum = sum.saturating_add(part);
                    i += 1;
                }
                sum
            },
            None => 0,
        },
    }
}

/// Checks a position.
pub fn validate_position(pos: &serde_json::Value) -> (r: Result<(), PolylineError>)
    ensures
        r == position_check(json_tree(*pos)),
{
    let items = match pos.as_array() {
        Some(items) => items,
        None => {
            return Err(PolylineError::InvalidGeoJsonSyntax);
        },
    };
    if items.len() < 2 {
        return Err(PolylineError::InvalidGeoJsonSyntax);
    }
    let lon = match number_text(&items[0]) {
        Some(text) => text,
        None => {
            return Err(PolylineError::InvalidGeoJsonSyntax);
        },
    };
    let lat = match number_text(&items[1]) {
        Some(text) => text,
        None => {
            return Err(PolylineError::InvalidGeoJsonSyntax);
        },
    };
    let lon = chars_of(lon.as_str());
    let lat = chars_of(lat.as_str());
    match (read_number(&lon), read_number(&lat)) {
        (Some(Number::Finite(lon)), Some(Number::Finite(lat))) => {
            if check_longitude(&lon) && check_latitude(&lat) {
                Ok(())
            } else {
                Err(PolylineError::CoordinateOutOfRange)
            }
        },
        _ => Err(PolylineError::CoordinateOutOfRange),
    }
}

fn validate_line(coords: &serde_json::Value) -> (r: Result<(), PolylineError>)
    ensures
        r == line_check(json_tree(*coords)),
{
    let items = match coords.as_array() {
        Some(items) => items,
        None => {
            return Err(PolylineError::InvalidGeoJsonSyntax);
        },
    };
    let ghost trees = json_trees(items@);
    let mut i: usize = 0;
    while i < items.len()
        invariant
            i <= items@.len(),
            trees == json_trees(items@),
            json_tree(*coords) == JsonTree::Array(trees),
            line_from(trees, i as int) == line_check(json_tree(*coords)),
        decreases items.len() - i,
    {
        assert(trees[i as int] == json_tree(items@[i as int]));
        match validate_position(&items[i]) {
            Ok(()) => {},
            Err(e) => {
                return Err(e);
            },
        }
        i += 1;
    }
    Ok(())
}

fn validate_rings(coords: &serde_json::Value) -> (r: Result<(), PolylineError>)
    ensures
        r == rings_check(json_tree(*coords)),
{
    let items = match coords.as_array() {
        Some(items) => items,
        None => {
            return Err(PolylineError::InvalidGeoJsonSyntax);
        },
    };
    let ghost trees = json_trees(items@);
    let mut i: usize = 0;
    while i < items.len()
        invariant
            i <= items@.len(),
            trees == json_trees(items@),
            json_tree(*coords) == JsonTree::Array(trees),
            rings_from(trees, i as int) == rings_check(json_tree(*coords)),
        decreases items.len() - i,
    {
        assert(trees[i as int] == json_tree(items@[i as int]));
        match validate_line(&items[i]) {
            Ok(()) => {},
            Err(e) => {
                return Err(e);
            },
        }
        i += 1;
    }
    Ok(())
}

/// Checks every position of coordinates.
pub fn validate_coordinate_values(shape: Shape, coords: &serde_json::Value) -> (r: Result<
    (),
    PolylineError,
>)
    ensures
        r == coordinates_check(shape, json_tree(*coords)),
{
    match shape {
        Shape::Position => validate_position(coords),
        Shape::Line => validate_line(coords),
        Shape::Rings => validate_rings(coords),
        Shape::Polygons => {
            let items = match coords.as_array() {
                Some(items) => items,
                None => {
                    return Err(PolylineError::InvalidGeoJsonSyntax);
                },
            };
            let ghost trees = json_trees(items@);
            let mut i: usize = 0;
            while i < items.len()
                invariant
                    i <= items@.len(),
                    trees == json_trees(items@),
                    shape == Shape::Polygons,
                    json_tree(*coords) == JsonTree::Array(trees),
                    polygons_from(trees, i as int) == coordinates_check(shape, json_tree(*coords)),
                decreases items.len() - i,
            {
                assert(trees[i as int] == json_tree(items@[i as int]));
                match validate_rings(&items[i]) {
                    Ok(()) => {},
                    Err(e) => {
                        return Err(e);
                    },
                }
                i += 1;
            }
            Ok(())
        },
    }
}

/// Checks one feature and adds its coordinates to the total.
pub fn validate_feature(value: &serde_json::Value, total_coords: &mut usize) -> (r: Result<
    (),
    PolylineError,
>)
    requires
        *old(total_coords) <= MAX_GEOJSON_COORDINATES,
    ensures
        match r {
            Ok(()) => feature_check(json_tree(*value), *old(total_coords) as nat) == Ok::<
                nat,
                PolylineError,
            >(*final(total_coords) as nat) && *final(total_coords) <= MAX_GEOJSON_COORDINATES,
            Err(e) => feature_check(json_tree(*value), *old(total_coords) as nat) == Err::<
                nat,
                PolylineError,
            >(e),
        },
{
    match text_member(value, "type") {
        Some(kind) => {
            if !same_text(kind, "Feature") {
                return Err(PolylineError::InvalidGeoJsonSyntax);
            }
        },
        None => {
            return Err(PolylineError::InvalidGeoJsonSyntax);
        },
    }
    let geometry = match member(value, "geometry") {
        Some(geometry) => geometry,
        None => {
            return Ok(());
        },
    };
    if geometry.is_null() {
        return Ok(());
    }
    let geometry_type = match text_member(geometry, "type") {
        Some(geometry_type) => geometry_type,
        None => {
            return Err(PolylineError::InvalidGeoJsonSyntax);
        },
    };
    let shape = match geometry_shape(geometry_type) {
        Some(shape) => shape,
        None => {
            return Err(PolylineError::UnsupportedGeoJsonType);
        },
    };
    let coords = match member(geometry, "coordinates") {
        Some(coords) => coords,
        None => {
            return Err(PolylineError::InvalidGeoJsonSyntax);
        },
    };
    *total_coords = (*total_coords).saturating_add(count_coordinates(shape, coords));
    if *total_coords > MAX_GEOJSON_COORDINATES {
        return Err(PolylineError::TooManyCoordinates);
    }
    validate_coordinate_values(shape, coords)
}

/// Checks a GeoJSON value.
pub fn validate_geojson(value: &serde_json::Value) -> (r: Result<(), PolylineError>)
    ensures
        match r {
            Ok(()) => geojson_check(json_tree(*value)) is Ok,
            Err(e) => geojson_check(json_tree(*value)) == Err::<nat, PolylineError>(e),
        },
{
    let kind = match text_member(value, "type") {
        Some(kind) => kind,
        None => {
            return Err(PolylineError::InvalidGeoJsonSyntax);
        },
    };
    let mut total: usize = 0;
    if same_text(kind, "Feature") {
        return validate_feature(value, &mut total);
    }
    if !same_text(kind, "FeatureCollection") {
        return Err(PolylineError::UnsupportedGeoJsonType);
    }
    let features = match member(value, "features") {
        Some(features) => match features.as_array() {
            Some(items) => items,
            None => {
                return Err(PolylineError::InvalidGeoJsonSyntax);
            },
        },
        None => {
            return Err(PolylineError::InvalidGeoJsonSyntax);
        },
    };
    if features.len() > MAX_GEOJSON_FEATURES {
        return Err(PolylineError::TooManyFeatures);
    }
    let ghost trees = json_trees(features@);
    let mut i: usize = 0;
    while i < features.len()
        invariant
            i <= features@.len(),
            trees == json_trees(features@),
            total <= MAX_GEOJSON_COORDINATES,
            features_from(trees, i as int, total as nat) == geojson_check(json_tree(*value)),
        decreases features.len() - i,
    {
        assert(trees[i as int] == json_tree(features@[i as int]));
        match validate_feature(&features[i], &mut total) {
            Ok(()) => {},
            Err(e) => {
                return Err(e);
            },
        }
        i += 1;
    }
    Ok(())
}

/// Reads a GeoJSON overlay.
pub fn parse_geojson_overlay_chars(overlay: &[char]) -> (r: Result<GeoJsonOverlay, PolylineError>)
    ensures
        match r {
            Ok(geojson) => geojson_overlay_of(overlay@, |t: Seq<char>| json_value(t)) == Ok::<
                _,
                PolylineError,
            >(geojson@),
            Err(e) => geojson_overlay_of(overlay@, |t: Seq<char>| json_value(t)) == Err::<
                JsonTree,
                PolylineError,
            >(e),
        },
{
    let body = match after_prefix(overlay, "geojson(") {
        Some(body) => body,
        None => {
            return Err(PolylineError::InvalidGeoJsonSyntax);
        },
    };
    let body = match before_suffix(&body, ")") {
        Some(body) => body,
        None => {
            return Err(PolylineError::InvalidGeoJsonSyntax);
        },
    };
    let body = string_of(&body);
    let decoded = match percent_decode(body.as_str()) {
        Ok(text) => text,
        Err(e) => {
            return Err(e);
        },
    };
    let value = match parse(decoded.as_str()) {
        Ok(value) => value,
        Err(_) => {
            return Err(PolylineError::InvalidGeoJsonSyntax);
        },
    };
    match validate_geojson(&value) {
        Ok(()) => Ok(GeoJsonOverlay { feature_collection: value }),
        Err(e) => Err(e),
    }
}

/// A decimal number is no more than `n` on either side of zero.
pub open spec fn at_most(d: DecimalView, n: nat) -> bool {
    d.scale <= 0 && d.coefficient <= n * pow10((-d.scale) as nat)
}

/// A position as GeoJSON writes it: a longitude, then a latitude, perhaps more.
pub open spec fn is_position(tree: JsonTree) -> bool {
    &&& tree is Array
    &&& tree->Array_0.len() >= 2
    &&& tree->Array_0[0] is Number
    &&& tree->Array_0[1] is Number
    &&& number_of(tree->Array_0[0]->Number_0) is Some
    &&& number_of(tree->Array_0[0]->Number_0)->0 is Finite
    &&& number_of(tree->Array_0[1]->Number_0) is Some
    &&& number_of(tree->Array_0[1]->Number_0)->0 is Finite
    &&& at_most(number_of(tree->Array_0[0]->Number_0)->0->Finite_0, 180)
    &&& at_most(number_of(tree->Array_0[1]->Number_0)->0->Finite_0, 90)
}

/// Every element is a position.
pub open spec fn are_positions(items: Seq<JsonTree>) -> bool {
    forall|i: int| 0 <= i < items.len() ==> is_position(#[trigger] items[i])
}

/// Arrays of arrays.
pub open spec fn arrays(lists: Seq<Seq<JsonTree>>) -> Seq<JsonTree> {
    Seq::new(lists.len(), |i: int| JsonTree::Array(lists[i]))
}

/// A Feature with a geometry of this type and these coordinates.
pub open spec fn is_feature(tree: JsonTree, kind: Seq<char>, coordinates: JsonTree) -> bool {
    &&& tree is Object
    &&& tree->Object_0.contains_key("type"@)
    &&& tree->Object_0["type"@] == JsonTree::Text("Feature"@)
    &&& tree->Object_0.contains_key("geometry"@)
    &&& tree->Object_0["geometry"@] is Object
    &&& tree->Object_0["geometry"@]->Object_0.contains_key("type"@)
    &&& tree->Object_0["geometry"@]->Object_0["type"@] == JsonTree::Text(kind)
    &&& tree->Object_0["geometry"@]->Object_0.contains_key("coordinates"@)
    &&& tree->Object_0["geometry"@]->Object_0["coordinates"@] == coordinates
}

proof fn lemma_position_on_the_map(tree: JsonTree)
    requires
        is_position(tree),
    ensures
        position_check(tree) is Ok,
{
    let lon = number_of(tree->Array_0[0]->Number_0)->0->Finite_0;
    let lat = number_of(tree->Array_0[1]->Number_0)->0->Finite_0;
    law_the_map_has_its_edges(lon, (-lon.scale) as nat);
    law_the_map_has_its_edges(lat, (-lat.scale) as nat);
}

proof fn lemma_line_on_the_map(items: Seq<JsonTree>, i: int)
    requires
        are_positions(items),
        0 <= i <= items.len(),
    ensures
        line_from(items, i) is Ok,
    decreases items.len() - i,
{
    if i < items.len() {
        lemma_position_on_the_map(items[i]);
        lemma_line_on_the_map(items, i + 1);
    }
}

proof fn lemma_rings_on_the_map(lists: Seq<Seq<JsonTree>>, i: int)
    requires
        forall|j: int| 0 <= j < lists.len() ==> are_positions(#[trigger] lists[j]),
        0 <= i <= lists.len(),
    ensures
        rings_from(arrays(lists), i) is Ok,
    decreases lists.len() - i,
{
    if i < lists.len() {
        assert(arrays(lists)[i] == JsonTree::Array(lists[i]));
        lemma_line_on_the_map(lists[i], 0);
        lemma_rings_on_the_map(lists, i + 1);
    }
}

proof fn lemma_rings_len(lists: Seq<Seq<JsonTree>>, n: int)
    requires
        0 <= n <= lists.len(),
    ensures
        rings_total(arrays(lists), n) == lists.take(n).flatten().len(),
    decreases n,
{
    if n > 0 {
        lemma_rings_len(lists, n - 1);
        assert(lists.take(n) =~= lists.take(n - 1).push(lists[n - 1]));
        lists.take(n - 1).lemma_flatten_push(lists[n - 1]);
        assert(arrays(lists)[n - 1] == JsonTree::Array(lists[n - 1]));
    } else {
        assert(lists.take(0) =~= Seq::empty());
    }
}

/// The coordinates of a polygon's rings, as arrays.
pub open spec fn nested_arrays(polygons: Seq<Seq<Seq<JsonTree>>>) -> Seq<JsonTree> {
    Seq::new(polygons.len(), |i: int| JsonTree::Array(arrays(polygons[i])))
}

proof fn lemma_polygons_on_the_map(polygons: Seq<Seq<Seq<JsonTree>>>, i: int)
    requires
        forall|j: int, k: int|
            0 <= j < polygons.len() && 0 <= k < polygons[j].len() ==> are_positions(
                #[trigger] polygons[j][k],
            ),
        0 <= i <= polygons.len(),
    ensures
        polygons_from(nested_arrays(polygons), i) is Ok,
    decreases polygons.len() - i,
{
    if i < polygons.len() {
        assert(nested_arrays(polygons)[i] == JsonTree::Array(arrays(polygons[i])));
        lemma_rings_on_the_map(polygons[i], 0);
        lemma_polygons_on_the_map(polygons, i + 1);
    }
}

proof fn lemma_polygons_len(polygons: Seq<Seq<Seq<JsonTree>>>, n: int)
    requires
        0 <= n <= polygons.len(),
    ensures
        polygons_total(nested_arrays(polygons), n) == polygons.take(n).flatten().flatten().len(),
    decreases n,
{
    if n > 0 {
        lemma_polygons_len(polygons, n - 1);
        let last = polygons[n - 1];
        assert(polygons.take(n) =~= polygons.take(n - 1).push(last));
        polygons.take(n - 1).lemma_flatten_push(last);
        vstd::seq_lib::lemma_flatten_concat(polygons.take(n - 1).flatten(), last);
        assert(nested_arrays(polygons)[n - 1] == JsonTree::Array(arrays(last)));
        lemma_rings_len(last, last.len() as int);
        assert(last.take(last.len() as int) =~= last);
    } else {
        assert(polygons.take(0) =~= Seq::empty());
    }
}

proof fn lemma_geometry_types()
    ensures
        "Point"@ != "LineString"@ && "Point"@ != "MultiPoint"@ && "Point"@ != "Polygon"@
            && "Point"@ != "MultiLineString"@ && "Point"@ != "MultiPolygon"@,
        "LineString"@ != "MultiPoint"@ && "LineString"@ != "Polygon"@ && "LineString"@
            != "MultiLineString"@ && "LineString"@ != "MultiPolygon"@,
        "MultiPoint"@ != "Polygon"@ && "MultiPoint"@ != "MultiLineString"@ && "MultiPoint"@
            != "MultiPolygon"@,
        "Polygon"@ != "MultiLineString"@ && "Polygon"@ != "MultiPolygon"@,
        "MultiLineString"@ != "MultiPolygon"@,
        "Feature"@ != "FeatureCollection"@,
{
    reveal_strlit("Point");
    reveal_strlit("LineString");
    reveal_strlit("MultiPoint");
    reveal_strlit("Polygon");
    reveal_strlit("MultiLineString");
    reveal_strlit("MultiPolygon");
    reveal_strlit("Feature");
    reveal_strlit("FeatureCollection");
    assert("Point"@.len() == 5 && "LineString"@.len() == 10 && "MultiPoint"@.len() == 10
        && "Polygon"@.len() == 7 && "MultiLineString"@.len() == 15 && "MultiPolygon"@.len() == 12);
    assert("LineString"@[0] == 'L' && "MultiPoint"@[0] == 'M');
    assert("Feature"@.len() == 7 && "FeatureCollection"@.len() == 17);
}

/// A point on the map is accepted, and is one coordinate.
pub proof fn law_points_are_accepted(tree: JsonTree, position: JsonTree)
    requires
        is_feature(tree, "Point"@, position),
        is_position(position),
    ensures
        geojson_check(tree) == Ok::<nat, PolylineError>(1),
{
    lemma_geometry_types();
    lemma_position_on_the_map(position);
}

/// A line, and any number of points, is an array of positions: it is accepted with as
/// many coordinates, up to the limit, and refused beyond it.
pub proof fn law_lines_are_accepted(tree: JsonTree, kind: Seq<char>, positions: Seq<JsonTree>)
    requires
        kind == "LineString"@ || kind == "MultiPoint"@,
        is_feature(tree, kind, JsonTree::Array(positions)),
        are_positions(positions),
    ensures
        positions.len() <= 5_000 ==> geojson_check(tree) == Ok::<nat, PolylineError>(
            positions.len(),
        ),
        positions.len() > 5_000 ==> geojson_check(tree) == Err::<nat, PolylineError>(
            PolylineError::TooManyCoordinates,
        ),
{
    lemma_geometry_types();
    lemma_line_on_the_map(positions, 0);
}

/// A polygon, and any number of lines, is an array of arrays of positions: it is accepted
/// with all of their positions, up to the limit, and refused beyond it.
pub proof fn law_polygons_are_accepted(
    tree: JsonTree,
    kind: Seq<char>,
    rings: Seq<Seq<JsonTree>>,
)
    requires
        kind == "Polygon"@ || kind == "MultiLineString"@,
        is_feature(tree, kind, JsonTree::Array(arrays(rings))),
        forall|i: int| 0 <= i < rings.len() ==> are_positions(#[trigger] rings[i]),
    ensures
        rings.flatten().len() <= 5_000 ==> geojson_check(tree) == Ok::<nat, PolylineError>(
            rings.flatten().len(),
        ),
        rings.flatten().len() > 5_000 ==> geojson_check(tree) == Err::<nat, PolylineError>(
            PolylineError::TooManyCoordinates,
        ),
{
    lemma_geometry_types();
    lemma_rings_on_the_map(rings, 0);
    lemma_rings_len(rings, rings.len() as int);
    assert(rings.take(rings.len() as int) =~= rings);
}

/// Any number of polygons is an array of them: it is accepted with all of their
/// positions, up to the limit, and refused beyond it.
pub proof fn law_many_polygons_are_accepted(tree: JsonTree, polygons: Seq<Seq<Seq<JsonTree>>>)
    requires
        is_feature(tree, "MultiPolygon"@, JsonTree::Array(nested_arrays(polygons))),
        forall|i: int, j: int|
            0 <= i < polygons.len() && 0 <= j < polygons[i].len() ==> are_positions(
                #[trigger] polygons[i][j],
            ),
    ensures
        polygons.flatten().flatten().len() <= 5_000 ==> geojson_check(tree) == Ok::<
            nat,
            PolylineError,
        >(polygons.flatten().flatten().len()),
        polygons.flatten().flatten().len() > 5_000 ==> geojson_check(tree) == Err::<
            nat,
            PolylineError,
        >(PolylineError::TooManyCoordinates),
{
    lemma_geometry_types();
    lemma_polygons_on_the_map(polygons, 0);
    lemma_polygons_len(polygons, polygons.len() as int);
    assert(polygons.take(polygons.len() as int) =~= polygons);
}

/// A position that is accepted is an array of two numbers at least.
pub open spec fn looks_like_position(tree: JsonTree) -> bool {
    tree is Array && tree->Array_0.len() >= 2 && tree->Array_0[0] is Number && tree->Array_0[1]
        is Number
}

proof fn lemma_accepted_line(items: Seq<JsonTree>, i: int, j: int)
    requires
        line_from(items, i) is Ok,
        0 <= i <= j < items.len(),
    ensures
        looks_like_position(items[j]),
    decreases items.len() - i,
{
    if i < j {
        lemma_accepted_line(items, i + 1, j);
    }
}

proof fn lemma_accepted_rings(items: Seq<JsonTree>, i: int, j: int)
    requires
        rings_from(items, i) is Ok,
        0 <= i <= j < items.len(),
    ensures
        line_check(items[j]) is Ok,
    decreases items.len() - i,
{
    if i < j {
        lemma_accepted_rings(items, i + 1, j);
    }
}

/// A geometry that is accepted has coordinates of the depth of its type: a point is a
/// position, a line has positions, and a polygon has arrays of positions.
pub proof fn law_accepted_geometries_have_their_depth(
    tree: JsonTree,
    kind: Seq<char>,
    coordinates: JsonTree,
    i: int,
    j: int,
)
    requires
        is_feature(tree, kind, coordinates),
        geojson_check(tree) is Ok,
    ensures
        kind == "Point"@ ==> looks_like_position(coordinates),
        kind == "LineString"@ || kind == "MultiPoint"@ ==> coordinates is Array,
        (kind == "LineString"@ || kind == "MultiPoint"@) && 0 <= i < coordinates->Array_0.len()
            ==> looks_like_position(coordinates->Array_0[i]),
        kind == "Polygon"@ || kind == "MultiLineString"@ ==> coordinates is Array,
        (kind == "Polygon"@ || kind == "MultiLineString"@) && 0 <= i < coordinates->Array_0.len()
            ==> coordinates->Array_0[i] is Array,
        (kind == "Polygon"@ || kind == "MultiLineString"@) && 0 <= i < coordinates->Array_0.len()
            && 0 <= j < coordinates->Array_0[i]->Array_0.len() ==> looks_like_position(
            coordinates->Array_0[i]->Array_0[j],
        ),
        kind == "Point"@ || kind == "LineString"@ || kind == "MultiPoint"@ || kind == "Polygon"@
            || kind == "MultiLineString"@ || kind == "MultiPolygon"@,
{
    lemma_geometry_types();
    if kind == "LineString"@ || kind == "MultiPoint"@ {
        if 0 <= i < coordinates->Array_0.len() {
            lemma_accepted_line(coordinates->Array_0, 0, i);
        }
    }
    if kind == "Polygon"@ || kind == "MultiLineString"@ {
        if 0 <= i < coordinates->Array_0.len() {
            lemma_accepted_rings(coordinates->Array_0, 0, i);
            if 0 <= j < coordinates->Array_0[i]->Array_0.len() {
                lemma_accepted_line(coordinates->Array_0[i]->Array_0, 0, j);
            }
        }
    }
}

proof fn lemma_features_add_up(items: Seq<JsonTree>, sizes: Seq<nat>, i: int, total: nat)
    requires
        items.len() == sizes.len(),
        0 <= i <= items.len(),
        forall|k: int, before: nat|
            0 <= k < items.len() && before + sizes[k] <= 5_000 ==> #[trigger] feature_check(
                items[k],
                before,
            ) == Ok::<nat, PolylineError>(before + sizes[k]),
        total + sizes.skip(i).fold_left(0nat, |a: nat, b: nat| a + b) <= 5_000,
    ensures
        features_from(items, i, total) is Ok,
    decreases items.len() - i,
{
    if i < items.len() {
        let f = |a: nat, b: nat| a + b;
        let rest = sizes.skip(i);
        assert(sizes.skip(i + 1) =~= rest.skip(1));
        lemma_fold_first(rest);
        lemma_features_add_up(items, sizes, i + 1, total + sizes[i]);
    }
}

proof fn lemma_fold_first(s: Seq<nat>)
    requires
        s.len() > 0,
    ensures
        s.fold_left(0nat, |a: nat, b: nat| a + b) == s[0] + s.skip(1).fold_left(
            0nat,
            |a: nat, b: nat| a + b,
        ),
    decreases s.len(),
{
    let f = |a: nat, b: nat| a + b;
    if s.len() == 1 {
        assert(s.skip(1) =~= Seq::empty());
        assert(s.drop_last() =~= Seq::empty());
        reveal_with_fuel(Seq::fold_left, 2);
    } else {
        lemma_fold_first(s.drop_last());
        assert(s.drop_last().skip(1) =~= s.skip(1).drop_last());
        assert(s.skip(1).last() == s.last());
        assert(s.drop_last()[0] == s[0]);
    }
}

/// A collection of up to 500 features is accepted if each of them would be in its turn,
/// and a larger one is refused for the number of its features.
pub proof fn law_collections_are_limited(tree: JsonTree, items: Seq<JsonTree>, sizes: Seq<nat>)
    requires
        tree is Object,
        tree->Object_0.contains_key("type"@),
        tree->Object_0["type"@] == JsonTree::Text("FeatureCollection"@),
        tree->Object_0.contains_key("features"@),
        tree->Object_0["features"@] == JsonTree::Array(items),
        sizes.len() == items.len(),
        forall|k: int, before: nat|
            0 <= k < items.len() && before + sizes[k] <= 5_000 ==> #[trigger] feature_check(
                items[k],
                before,
            ) == Ok::<nat, PolylineError>(before + sizes[k]),
        sizes.fold_left(0nat, |a: nat, b: nat| a + b) <= 5_000,
    ensures
        items.len() <= 500 ==> geojson_check(tree) is Ok,
        items.len() > 500 ==> geojson_check(tree) == Err::<nat, PolylineError>(
            PolylineError::TooManyFeatures,
        ),
{
    lemma_geometry_types();
    assert(sizes.skip(0) =~= sizes);
    lemma_features_add_up(items, sizes, 0, 0);
}

/// An overlay of features is read from between its brackets: what stands there is decoded,
/// read as JSON and accepted or not. Anything without the brackets is no such overlay.
pub proof fn law_features_are_read_between_brackets(
    body: Seq<char>,
    text: Seq<char>,
    tree: JsonTree,
    reader: spec_fn(Seq<char>) -> Option<JsonTree>,
    other: Seq<char>,
)
    ensures
        decoded_text(body) == Some(text) && reader(text) == Some(tree) && geojson_check(tree) is Ok
            ==> geojson_overlay_of("geojson("@ + body + ")"@, reader) == Ok::<
            JsonTree,
            PolylineError,
        >(tree),
        decoded_text(body) == Some(text) && reader(text) == Some(tree) && geojson_check(tree) is Err
            ==> geojson_overlay_of("geojson("@ + body + ")"@, reader) == Err::<
            JsonTree,
            PolylineError,
        >(geojson_check(tree)->Err_0),
        decoded_text(body) is None ==> geojson_overlay_of("geojson("@ + body + ")"@, reader)
            == Err::<JsonTree, PolylineError>(PolylineError::InvalidPercentEncoding),
        !"geojson("@.is_prefix_of(other) ==> geojson_overlay_of(other, reader) == Err::<
            JsonTree,
            PolylineError,
        >(PolylineError::InvalidGeoJsonSyntax),
{
    reveal_strlit("geojson(");
    reveal_strlit(")");
    let s = "geojson("@ + body + ")"@;
    assert(s.take(8) =~= "geojson("@);
    let rest = s.skip(8);
    assert(rest =~= body + ")"@);
    assert(rest.skip(rest.len() - 1) =~= ")"@);
    assert(rest.take(rest.len() - 1) =~= body);
    if begins_with(other, "geojson("@) {
        assert(other.subrange(0, 8) =~= other.take(8));
    }
}

} // verus!
