//! Path and pin overlays.

use vstd::prelude::*;
use crate::decimal::{
    law_numbers_are_compared_by_value, lemma_pow10_add, lemma_pow10_positive, lowered, number_of,
    pow10, pow5, read_number, to_lowered, Decimal, DecimalView, Number, NumberView, Side,
};
use crate::overlay::grammar::{
    chars_view, first_optional_pair, once, optional_pair, required_pair, split_first_optional_pair,
    split_once, split_optional_pair, split_required_pair,
};
use crate::overlay::percent::{decoded_text, percent_decode};
use crate::overlay::polyline::{
    decode_polyline, point_views, polyline_of, LngLat, LngLatView, PolylineError,
};
use crate::text::{
    after_prefix, before_suffix, begins_with, cut, finishes_with, law_the_first_mark_splits, spells,
    string_of,
};

verus! {

/// A line or area on the map.
#[derive(Debug, Clone, PartialEq, Eq)]
pub struct PathOverlay {
    pub stroke_width: Option<Decimal>,
    pub stroke_color: Option<String>,
    pub stroke_opacity: Option<Decimal>,
    pub fill_color: Option<String>,
    pub fill_opacity: Option<Decimal>,
    pub coordinates: Vec<LngLat>,
}

/// The paint of a path.
pub struct PathStyleView {
    pub stroke_width: Option<DecimalView>,
    pub stroke_color: Option<Seq<char>>,
    pub stroke_opacity: Option<DecimalView>,
    pub fill_color: Option<Seq<char>>,
    pub fill_opacity: Option<DecimalView>,
}

pub struct PathOverlayView {
    pub style: PathStyleView,
    pub coordinates: Seq<LngLatView>,
}

pub open spec fn decimal_view(d: Option<Decimal>) -> Option<DecimalView> {
    match d {
        Some(d) => Some(d@),
        None => None,
    }
}

pub open spec fn string_view(s: Option<String>) -> Option<Seq<char>> {
    match s {
        Some(s) => Some(s@),
        None => None,
    }
}

impl View for PathOverlay {
    type V = PathOverlayView;

    open spec fn view(&self) -> PathOverlayView {
        PathOverlayView {
            style: PathStyleView {
                stroke_width: decimal_view(self.stroke_width),
                stroke_color: string_view(self.stroke_color),
                stroke_opacity: decimal_view(self.stroke_opacity),
                fill_color: string_view(self.fill_color),
                fill_opacity: decimal_view(self.fill_opacity),
            },
            coordinates: point_views(self.coordinates@),
        }
    }
}

/// How large a pin is drawn.
#[derive(Debug, Clone, Copy, PartialEq, Eq, Structural)]
pub enum PinSize {
    Small,
    Medium,
    Large,
}

/// A pin on the map.
#[derive(Debug, Clone, PartialEq, Eq)]
pub struct PinOverlay {
    pub size: PinSize,
    pub label: Option<String>,
    pub color: String,
    pub coordinate: LngLat,
}

pub struct PinOverlayView {
    pub size: PinSize,
    pub label: Option<Seq<char>>,
    pub color: Seq<char>,
    pub coordinate: LngLatView,
}

impl View for PinOverlay {
    type V = PinOverlayView;

    open spec fn view(&self) -> PinOverlayView {
        PinOverlayView {
            size: self.size,
            label: string_view(self.label),
            color: self.color@,
            coordinate: self.coordinate@,
        }
    }
}

/// 2^128 - 2^103: from here on a number rounds to infinity in single precision.
pub const SINGLE_OVERFLOW: u128 = 340282356779733661637539395458142568448;

/// 1 + 2^-24 times 2^24: the largest number that rounds to one in single precision.
pub const ONE_IN_SINGLE: u128 = 16777217;

/// 180 + 2^-46 times 2^46: the largest number that rounds to 180 in double precision.
pub const HALF_TURN_IN_DOUBLE: u128 = 12666373951979521;

/// 90 + 2^-47 times 2^47: the largest number that rounds to 90 in double precision.
pub const QUARTER_TURN_IN_DOUBLE: u128 = 12666373951979521;

/// In single precision, a finite number above zero. Magnitudes up to 2^-150
/// round to zero.
pub open spec fn positive_single(d: DecimalView) -> bool {
    &&& !d.negative
    &&& d.magnitude_side(1, 150) == Side::Above
    &&& d.magnitude_side(SINGLE_OVERFLOW as nat, 0) == Side::Below
}

/// In single precision, a number from zero to one.
pub open spec fn unit_single(d: DecimalView) -> bool {
    if d.negative {
        d.magnitude_side(1, 150) != Side::Above
    } else {
        d.magnitude_side(ONE_IN_SINGLE as nat, 24) != Side::Above
    }
}

/// In double precision, a longitude.
pub open spec fn is_longitude(d: DecimalView) -> bool {
    d.magnitude_side(HALF_TURN_IN_DOUBLE as nat, 46) != Side::Above
}

/// In double precision, a latitude.
pub open spec fn is_latitude(d: DecimalView) -> bool {
    d.magnitude_side(QUARTER_TURN_IN_DOUBLE as nat, 47) != Side::Above
}

/// A stroke width: nothing, or a positive number.
pub open spec fn stroke_width_of(s: Seq<char>) -> Result<Option<DecimalView>, PolylineError> {
    if s.len() == 0 {
        Ok(None)
    } else {
        match number_of(s) {
            Some(NumberView::Finite(d)) => if positive_single(d) {
                Ok(Some(d))
            } else {
                Err(PolylineError::InvalidStrokeWidth)
            },
            _ => Err(PolylineError::InvalidStrokeWidth),
        }
    }
}

/// An opacity: nothing, or a number from zero to one.
pub open spec fn opacity_of(s: Option<Seq<char>>) -> Result<Option<DecimalView>, PolylineError> {
    match s {
        None => Ok(None),
        Some(s) => match number_of(s) {
            Some(NumberView::Finite(d)) => if unit_single(d) {
                Ok(Some(d))
            } else {
                Err(PolylineError::InvalidOpacity)
            },
            _ => Err(PolylineError::InvalidOpacity),
        },
    }
}

pub open spec fn is_hex(c: char) -> bool {
    ('0' <= c && c <= '9') || ('a' <= c && c <= 'f') || ('A' <= c && c <= 'F')
}

/// Three or six hexadecimal digits.
pub open spec fn is_color(s: Seq<char>) -> bool {
    &&& s.len() == 3 || s.len() == 6
    &&& forall|i: int| 0 <= i < s.len() ==> is_hex(#[trigger] s[i])
}

/// A color, in lower case: nothing, or three or six hexadecimal digits.
pub open spec fn color_of(s: Option<Seq<char>>) -> Result<Option<Seq<char>>, PolylineError> {
    match s {
        None => Ok(None),
        Some(s) => if is_color(s) {
            Ok(Some(lowered(s)))
        } else {
            Err(PolylineError::InvalidColor)
        },
    }
}

/// `stroke` and `fill` of a path's paint, each a color and perhaps an opacity.
pub open spec fn paint_of(
    width: Seq<char>,
    stroke: (Seq<char>, Option<Seq<char>>),
    fill: Option<(Seq<char>, Option<Seq<char>>)>,
) -> Result<PathStyleView, PolylineError> {
    let (fill_color, fill_opacity) = match fill {
        Some((color, opacity)) => (Some(color), opacity),
        None => (None, None),
    };
    match stroke_width_of(width) {
        Err(e) => Err(e),
        Ok(stroke_width) => match color_of(Some(stroke.0)) {
            Err(e) => Err(e),
            Ok(stroke_color) => match opacity_of(stroke.1) {
                Err(e) => Err(e),
                Ok(stroke_opacity) => match color_of(fill_color) {
                    Err(e) => Err(e),
                    Ok(fill_color) => match opacity_of(fill_opacity) {
                        Err(e) => Err(e),
                        Ok(fill_opacity) => Ok(
                            PathStyleView {
                                stroke_width,
                                stroke_color,
                                stroke_opacity,
                                fill_color,
                                fill_opacity,
                            },
                        ),
                    },
                },
            },
        },
    }
}

/// A path style: `width[+stroke[-opacity][+fill[-opacity]]]`.
pub open spec fn path_style_of(s: Seq<char>) -> Result<PathStyleView, PolylineError> {
    let (width, paint) = first_optional_pair(s, '+');
    match paint {
        None => match stroke_width_of(width) {
            Ok(stroke_width) => Ok(
                PathStyleView {
                    stroke_width,
                    stroke_color: None,
                    stroke_opacity: None,
                    fill_color: None,
                    fill_opacity: None,
                },
            ),
            Err(e) => Err(e),
        },
        Some(paint) => match optional_pair(paint, '+') {
            Err(e) => Err(e),
            Ok((stroke, fill)) => match required_pair(stroke, '-') {
                Err(e) => Err(e),
                Ok(stroke) => match fill {
                    None => paint_of(width, stroke, None),
                    Some(fill) => match required_pair(fill, '-') {
                        Err(e) => Err(e),
                        Ok(fill) => paint_of(width, stroke, Some(fill)),
                    },
                },
            },
        },
    }
}

/// The text between `prefix` style `(` body `)`: the style and the body.
pub open spec fn styled_body(s: Seq<char>, prefix: Seq<char>) -> Option<(Seq<char>, Seq<char>)> {
    if !begins_with(s, prefix) {
        None
    } else {
        match once(s.skip(prefix.len() as int), '(') {
            None => None,
            Some((style, rest)) => if finishes_with(rest, ")"@) {
                Some((style, rest.take(rest.len() - ")"@.len())))
            } else {
                None
            },
        }
    }
}

/// A path overlay: `path-` style `(` percent-encoded polyline `)`.
pub open spec fn path_overlay_of(s: Seq<char>) -> Result<PathOverlayView, PolylineError> {
    match styled_body(s, "path-"@) {
        None => Err(PolylineError::InvalidPathSyntax),
        Some((style, encoded)) => match path_style_of(style) {
            Err(e) => Err(e),
            Ok(style) => match decoded_text(encoded) {
                None => Err(PolylineError::InvalidPercentEncoding),
                Some(text) => match polyline_of(text) {
                    Err(e) => Err(e),
                    Ok(coordinates) => Ok(PathOverlayView { style, coordinates }),
                },
            },
        },
    }
}

pub open spec fn is_alphanumeric(c: char) -> bool {
    ('0' <= c && c <= '9') || ('a' <= c && c <= 'z') || ('A' <= c && c <= 'Z')
}

/// A pin's size letter and its optional label.
pub open spec fn pin_head_of(s: Seq<char>) -> Result<(PinSize, Option<Seq<char>>), PolylineError> {
    let (letter, label) = match once(s, '-') {
        Some((letter, label)) => (letter, Some(label)),
        None => (s, None),
    };
    let size = if letter == "s"@ {
        Some(PinSize::Small)
    } else if letter == "m"@ {
        Some(PinSize::Medium)
    } else if letter == "l"@ {
        Some(PinSize::Large)
    } else {
        None
    };
    match size {
        None => Err(PolylineError::InvalidPinSize),
        Some(size) => match label {
            None => Ok((size, None)),
            Some(label) => if label.len() == 1 && is_alphanumeric(label[0]) {
                Ok((size, Some(lowered(label))))
            } else {
                Err(PolylineError::InvalidPinLabel)
            },
        },
    }
}

/// `lon,lat` in degrees, on the map.
pub open spec fn lng_lat_of(s: Seq<char>) -> Result<LngLatView, PolylineError> {
    match once(s, ',') {
        None => Err(PolylineError::InvalidPinSyntax),
        Some((lon, lat)) => match (number_of(lon), number_of(lat)) {
            (Some(lon), Some(lat)) => match (lon, lat) {
                (NumberView::Finite(lon), NumberView::Finite(lat)) => if is_longitude(lon)
                    && is_latitude(lat) {
                    Ok(LngLatView { lon, lat })
                } else {
                    Err(PolylineError::CoordinateOutOfRange)
                },
                _ => Err(PolylineError::CoordinateOutOfRange),
            },
            _ => Err(PolylineError::InvalidPinSyntax),
        },
    }
}

/// A pin overlay: `pin-` size [`-` label] `+` color `(` lon `,` lat `)`.
pub open spec fn pin_overlay_of(s: Seq<char>) -> Result<PinOverlayView, PolylineError> {
    match styled_body(s, "pin-"@) {
        None => Err(PolylineError::InvalidPinSyntax),
        Some((style, coordinate)) => match once(style, '+') {
            None => Err(PolylineError::InvalidPinSyntax),
            Some((head, color)) => match pin_head_of(head) {
                Err(e) => Err(e),
                Ok((size, label)) => if !is_color(color) {
                    Err(PolylineError::InvalidColor)
                } else {
                    match lng_lat_of(coordinate) {
                        Err(e) => Err(e),
                        Ok(coordinate) => Ok(
                            PinOverlayView { size, label, color: lowered(color), coordinate },
                        ),
                    }
                },
            },
        },
    }
}

/// Reads a stroke width.
pub fn parse_optional_stroke_width(value: &[char]) -> (r: Result<Option<Decimal>, PolylineError>)
    ensures
        match r {
            Ok(width) => stroke_width_of(value@) == Ok::<_, PolylineError>(decimal_view(width)) && (
            width matches Some(d) ==> d.wf()),
            Err(e) => stroke_width_of(value@) == Err::<Option<DecimalView>, PolylineError>(e),
        },
{
    if value.len() == 0 {
        return Ok(None);
    }
    match read_number(value) {
        Some(Number::Finite(d)) => {
            if !d.negative {
                if let Side::Above = d.magnitude_side(1, 150) {
                    if let Side::Below = d.magnitude_side(SINGLE_OVERFLOW, 0) {
                        return Ok(Some(d));
                    }
                }
            }
            Err(PolylineError::InvalidStrokeWidth)
        },
        _ => Err(PolylineError::InvalidStrokeWidth),
    }
}

/// Reads an opacity.
pub fn parse_optional_opacity(value: Option<&Vec<char>>) -> (r: Result<
    Option<Decimal>,
    PolylineError,
>)
    ensures
        match r {
            Ok(opacity) => opacity_of(
                match value {
                    Some(v) => Some(v@),
                    None => None,
                },
            ) == Ok::<_, PolylineError>(decimal_view(opacity)) && (opacity matches Some(d)
                ==> d.wf()),
            Err(e) => opacity_of(
                match value {
                    Some(v) => Some(v@),
                    None => None,
                },
            ) == Err::<Option<DecimalView>, PolylineError>(e),
        },
{
    match value {
        None => Ok(None),
        Some(value) => match read_number(value) {
            Some(Number::Finite(d)) => {
                let side = if d.negative {
                    d.magnitude_side(1, 150)
                } else {
                    d.magnitude_side(ONE_IN_SINGLE, 24)
                };
                match side {
                    Side::Above => Err(PolylineError::InvalidOpacity),
                    _ => Ok(Some(d)),
                }
            },
            _ => Err(PolylineError::InvalidOpacity),
        },
    }
}

/// Whether the characters are a color.
fn check_color(value: &[char]) -> (r: bool)
    ensures
        r == is_color(value@),
{
    if value.len() != 3 && value.len() != 6 {
        return false;
    }
    let mut i: usize = 0;
    while i < value.len()
        invariant
            i <= value@.len(),
            value@.len() == 3 || value@.len() == 6,
            forall|j: int| 0 <= j < i ==> is_hex(#[trigger] value@[j]),
        decreases value.len() - i,
    {
        let c: char = value[i];
        let hex = ('0' <= c && c <= '9') || ('a' <= c && c <= 'f') || ('A' <= c && c <= 'F');
        if !hex {
            assert(!is_hex(value@[i as int]));
            return false;
        }
        i += 1;
    }
    true
}

/// Reads a color.
pub fn parse_optional_color(value: Option<&Vec<char>>) -> (r: Result<Option<String>, PolylineError>)
    ensures
        match r {
            Ok(color) => color_of(
                match value {
                    Some(v) => Some(v@),
                    None => None,
                },
            ) == Ok::<_, PolylineError>(string_view(color)),
            Err(e) => color_of(
                match value {
                    Some(v) => Some(v@),
                    None => None,
                },
            ) == Err::<Option<Seq<char>>, PolylineError>(e),
        },
{
    match value {
        None => Ok(None),
        Some(value) => {
            if check_color(value) {
                let low = to_lowered(value);
                Ok(Some(string_of(&low)))
            } else {
                Err(PolylineError::InvalidColor)
            }
        },
    }
}

/// The paint of a path.
pub struct PathStyle {
    pub stroke_width: Option<Decimal>,
    pub stroke_color: Option<String>,
    pub stroke_opacity: Option<Decimal>,
    pub fill_color: Option<String>,
    pub fill_opacity: Option<Decimal>,
}

impl View for PathStyle {
    type V = PathStyleView;

    open spec fn view(&self) -> PathStyleView {
        PathStyleView {
            stroke_width: decimal_view(self.stroke_width),
            stroke_color: string_view(self.stroke_color),
            stroke_opacity: decimal_view(self.stroke_opacity),
            fill_color: string_view(self.fill_color),
            fill_opacity: decimal_view(self.fill_opacity),
        }
    }
}

impl PathStyle {
    /// The numbers in the style are well formed.
    pub open spec fn wf(&self) -> bool {
        &&& self.stroke_width matches Some(d) ==> d.wf()
        &&& self.stroke_opacity matches Some(d) ==> d.wf()
        &&& self.fill_opacity matches Some(d) ==> d.wf()
    }
}

fn parse_paint(
    width: &[char],
    stroke: &(Vec<char>, Option<Vec<char>>),
    fill: &Option<(Vec<char>, Option<Vec<char>>)>,
) -> (r: Result<PathStyle, PolylineError>)
    ensures
        match r {
            Ok(style) => style.wf() && paint_of(
                width@,
                (stroke.0@, chars_view(stroke.1)),
                match fill {
                    Some(f) => Some((f.0@, chars_view(f.1))),
                    None => None,
                },
            ) == Ok::<_, PolylineError>(style@),
            Err(e) => paint_of(
                width@,
                (stroke.0@, chars_view(stroke.1)),
                match fill {
                    Some(f) => Some((f.0@, chars_view(f.1))),
                    None => None,
                },
            ) == Err::<PathStyleView, PolylineError>(e),
        },
{
    let stroke_width = match parse_optional_stroke_width(width) {
        Ok(v) => v,
        Err(e) => {
            return Err(e);
        },
    };
    let stroke_color = match parse_optional_color(Some(&stroke.0)) {
        Ok(v) => v,
        Err(e) => {
            return Err(e);
        },
    };
    let stroke_opacity = match parse_optional_opacity(stroke.1.as_ref()) {
        Ok(v) => v,
        Err(e) => {
            return Err(e);
        },
    };
    let (color, opacity): (Option<&Vec<char>>, Option<&Vec<char>>) = match fill {
        Some(f) => (Some(&f.0), f.1.as_ref()),
        None => (None, None),
    };
    let fill_color = match parse_optional_color(color) {
        Ok(v) => v,
        Err(e) => {
            return Err(e);
        },
    };
    let fill_opacity = match parse_optional_opacity(opacity) {
        Ok(v) => v,
        Err(e) => {
            return Err(e);
        },
    };
    Ok(PathStyle { stroke_width, stroke_color, stroke_opacity, fill_color, fill_opacity })
}

/// Reads a path style.
pub fn parse_path_style(style: &[char]) -> (r: Result<PathStyle, PolylineError>)
    ensures
        match r {
            Ok(parsed) => parsed.wf() && path_style_of(style@) == Ok::<_, PolylineError>(parsed@),
            Err(e) => path_style_of(style@) == Err::<PathStyleView, PolylineError>(e),
        },
{
    let (width, paint) = split_first_optional_pair(style, '+');
    let paint = match paint {
        Some(paint) => paint,
        None => {
            return match parse_optional_stroke_width(&width) {
                Ok(stroke_width) => Ok(
                    PathStyle {
                        stroke_width,
                        stroke_color: None,
                        stroke_opacity: None,
                        fill_color: None,
                        fill_opacity: None,
                    },
                ),
                Err(e) => Err(e),
            };
        },
    };
    let (stroke, fill) = match split_optional_pair(&paint, '+') {
        Ok(pair) => pair,
        Err(e) => {
            return Err(e);
        },
    };
    let stroke = match split_required_pair(&stroke, '-') {
        Ok(pair) => pair,
        Err(e) => {
            return Err(e);
        },
    };
    let fill = match fill {
        Some(fill) => match split_required_pair(&fill, '-') {
            Ok(pair) => Some(pair),
            Err(e) => {
                return Err(e);
            },
        },
        None => None,
    };
    parse_paint(&width, &stroke, &fill)
}

/// Cuts overlay text into its style and its body.
fn split_styled_body(overlay: &[char], prefix: &str) -> (r: Option<(Vec<char>, Vec<char>)>)
    ensures
        match r {
            Some((style, body)) => styled_body(overlay@, prefix@) == Some((style@, body@)),
            None => styled_body(overlay@, prefix@) is None,
        },
{
    match after_prefix(overlay, prefix) {
        None => None,
        Some(body) => match split_once(&body, '(') {
            None => None,
            Some((style, rest)) => match before_suffix(&rest, ")") {
                None => None,
                Some(inner) => Some((style, inner)),
            },
        },
    }
}

/// Reads a path overlay.
pub fn parse_path_overlay_chars(overlay: &[char]) -> (r: Result<PathOverlay, PolylineError>)
    ensures
        match r {
            Ok(path) => path_overlay_of(overlay@) == Ok::<_, PolylineError>(path@),
            Err(e) => path_overlay_of(overlay@) == Err::<PathOverlayView, PolylineError>(e),
        },
{
    let (style, encoded) = match split_styled_body(overlay, "path-") {
        Some(pair) => pair,
        None => {
            return Err(PolylineError::InvalidPathSyntax);
        },
    };
    let style = match parse_path_style(&style) {
        Ok(style) => style,
        Err(e) => {
            return Err(e);
        },
    };
    let encoded = string_of(&encoded);
    let decoded = match percent_decode(encoded.as_str()) {
        Ok(text) => text,
        Err(e) => {
            return Err(e);
        },
    };
    match decode_polyline(decoded.as_str()) {
        Ok(coordinates) => Ok(
            PathOverlay {
                stroke_width: style.stroke_width,
                stroke_color: style.stroke_color,
                stroke_opacity: style.stroke_opacity,
                fill_color: style.fill_color,
                fill_opacity: style.fill_opacity,
                coordinates,
            },
        ),
        Err(e) => Err(e),
    }
}

/// Reads a pin's size and label.
pub fn parse_pin_head(value: &[char]) -> (r: Result<(PinSize, Option<String>), PolylineError>)
    ensures
        match r {
            Ok((size, label)) => pin_head_of(value@) == Ok::<_, PolylineError>(
                (size, string_view(label)),
            ),
            Err(e) => pin_head_of(value@) == Err::<(PinSize, Option<Seq<char>>), PolylineError>(e),
        },
{
    let (letter, label) = match split_once(value, '-') {
        Some((letter, label)) => (letter, Some(label)),
        None => {
            let all = cut(value, 0, value.len());
            assert(all@ =~= value@);
            (all, None)
        },
    };
    let size = if spells(&letter, "s") {
        PinSize::Small
    } else if spells(&letter, "m") {
        PinSize::Medium
    } else if spells(&letter, "l") {
        PinSize::Large
    } else {
        return Err(PolylineError::InvalidPinSize);
    };
    match label {
        None => Ok((size, None)),
        Some(label) => {
            if label.len() != 1 {
                return Err(PolylineError::InvalidPinLabel);
            }
            let c: char = label[0];
            let alphanumeric = ('0' <= c && c <= '9') || ('a' <= c && c <= 'z') || ('A' <= c && c
                <= 'Z');
            if alphanumeric {
                let low = to_lowered(&label);
                Ok((size, Some(string_of(&low))))
            } else {
                Err(PolylineError::InvalidPinLabel)
            }
        },
    }
}

/// Whether the number is a longitude.
pub fn check_longitude(d: &Decimal) -> (r: bool)
    requires
        d.wf(),
    ensures
        r == is_longitude(d@),
{
    match d.magnitude_side(HALF_TURN_IN_DOUBLE, 46) {
        Side::Above => false,
        _ => true,
    }
}

/// Whether the number is a latitude.
pub fn check_latitude(d: &Decimal) -> (r: bool)
    requires
        d.wf(),
    ensures
        r == is_latitude(d@),
{
    match d.magnitude_side(QUARTER_TURN_IN_DOUBLE, 47) {
        Side::Above => false,
        _ => true,
    }
}

/// Reads a pin's coordinate.
pub fn parse_lng_lat(value: &[char]) -> (r: Result<LngLat, PolylineError>)
    ensures
        match r {
            Ok(point) => lng_lat_of(value@) == Ok::<_, PolylineError>(point@) && point.lon.wf()
                && point.lat.wf(),
            Err(e) => lng_lat_of(value@) == Err::<LngLatView, PolylineError>(e),
        },
{
    let (lon, lat) = match split_once(value, ',') {
        Some(pair) => pair,
        None => {
            return Err(PolylineError::InvalidPinSyntax);
        },
    };
    let lon = match read_number(&lon) {
        Some(number) => number,
        None => {
            return Err(PolylineError::InvalidPinSyntax);
        },
    };
    let lat = match read_number(&lat) {
        Some(number) => number,
        None => {
            return Err(PolylineError::InvalidPinSyntax);
        },
    };
    match (lon, lat) {
        (Number::Finite(lon), Number::Finite(lat)) => {
            if check_longitude(&lon) && check_latitude(&lat) {
                Ok(LngLat { lon, lat })
            } else {
                Err(PolylineError::CoordinateOutOfRange)
            }
        },
        _ => Err(PolylineError::CoordinateOutOfRange),
    }
}

/// Reads a pin overlay.
pub fn parse_pin_overlay_chars(overlay: &[char]) -> (r: Result<PinOverlay, PolylineError>)
    ensures
        match r {
            Ok(pin) => pin_overlay_of(overlay@) == Ok::<_, PolylineError>(pin@),
            Err(e) => pin_overlay_of(overlay@) == Err::<PinOverlayView, PolylineError>(e),
        },
{
    let (style, coordinate) = match split_styled_body(overlay, "pin-") {
        Some(pair) => pair,
        None => {
            return Err(PolylineError::InvalidPinSyntax);
        },
    };
    let (head, color) = match split_once(&style, '+') {
        Some(pair) => pair,
        None => {
            return Err(PolylineError::InvalidPinSyntax);
        },
    };
    let (size, label) = match parse_pin_head(&head) {
        Ok(pair) => pair,
        Err(e) => {
            return Err(e);
        },
    };
    if !check_color(&color) {
        return Err(PolylineError::InvalidColor);
    }
    let low = to_lowered(&color);
    match parse_lng_lat(&coordinate) {
        Ok(coordinate) => Ok(PinOverlay { size, label, color: string_of(&low), coordinate }),
        Err(e) => Err(e),
    }
}

proof fn lemma_dyadic(d: DecimalView, k: nat, n: nat, bound: nat, shift: nat, ones: nat)
    requires
        d.scale == -(k as int),
        pow10(shift) == ones * pow5(shift),
        ones > 0,
    ensures
        d.coefficient <= n * pow10(k) && n * ones <= bound ==> d.magnitude_side(bound, shift)
            != Side::Above,
        d.coefficient >= n * pow10(k) && n * ones > bound ==> d.magnitude_side(bound, shift)
            == Side::Above,
{
    let five = pow5(shift);
    let left = if k < shift {
        d.coefficient * pow10((shift - k) as nat)
    } else {
        d.coefficient
    };
    let right = if k > shift {
        bound * five * pow10((k - shift) as nat)
    } else {
        bound * five
    };
    lemma_pow10_positive(shift);
    lemma_pow10_positive(k);
    assert(five >= 1) by (nonlinear_arith)
        requires
            pow10(shift) >= 1,
            pow10(shift) == ones * five,
            five >= 0,
    ;
    if k < shift {
        let p = pow10((shift - k) as nat);
        lemma_pow10_add(k, (shift - k) as nat);
        lemma_pow10_positive((shift - k) as nat);
        assert(n * pow10(k) * p == n * (ones * five)) by (nonlinear_arith)
            requires
                pow10(k) * p == ones * five,
        ;
        if d.coefficient <= n * pow10(k) && n * ones <= bound {
            assert(d.coefficient * p <= n * pow10(k) * p) by (nonlinear_arith)
                requires
                    d.coefficient <= n * pow10(k),
                    p >= 1,
            ;
            assert(n * (ones * five) <= bound * five) by (nonlinear_arith)
                requires
                    n * ones <= bound,
                    five >= 1,
            ;
        }
        if d.coefficient >= n * pow10(k) && n * ones > bound {
            assert(d.coefficient * p >= n * pow10(k) * p) by (nonlinear_arith)
                requires
                    d.coefficient >= n * pow10(k),
                    p >= 1,
            ;
            assert(n * (ones * five) > bound * five) by (nonlinear_arith)
                requires
                    n * ones > bound,
                    five >= 1,
            ;
        }
    } else {
        let q = pow10((k - shift) as nat);
        lemma_pow10_add(shift, (k - shift) as nat);
        lemma_pow10_positive((k - shift) as nat);
        assert(pow10(0) == 1);
        assert(n * pow10(k) == n * ones * (five * q)) by (nonlinear_arith)
            requires
                pow10(k) == ones * five * q,
        ;
        assert(right == bound * (five * q)) by (nonlinear_arith)
            requires
                k > shift ==> right == bound * five * q,
                k == shift ==> right == bound * five && q == 1,
                k >= shift,
        ;
        if n * ones <= bound {
            assert(n * ones * (five * q) <= bound * (five * q)) by (nonlinear_arith)
                requires
                    n * ones <= bound,
                    five >= 1,
                    q >= 1,
            ;
        } else {
            assert(n * ones * (five * q) > bound * (five * q)) by (nonlinear_arith)
                requires
                    n * ones > bound,
                    five >= 1,
                    q >= 1,
            ;
        }
    }
}

proof fn lemma_tens(n: nat)
    ensures
        n == 46 ==> pow10(n) == 0x4000_0000_0000 * pow5(n),
        n == 47 ==> pow10(n) == 0x8000_0000_0000 * pow5(n),
        n == 24 ==> pow10(n) == 0x100_0000 * pow5(n),
{
    lemma_tens_step(n);
    vstd::arithmetic::power2::lemma2_to64();
    vstd::arithmetic::power2::lemma_pow2_adds(32, 14);
    vstd::arithmetic::power2::lemma_pow2_adds(32, 15);
}

proof fn lemma_tens_step(n: nat)
    ensures
        pow10(n) == vstd::arithmetic::power2::pow2(n) * pow5(n),
    decreases n,
{
    if n == 0 {
        vstd::arithmetic::power2::lemma2_to64();
    } else {
        lemma_tens_step((n - 1) as nat);
        vstd::arithmetic::power2::lemma_pow2_unfold(n);
        let two = vstd::arithmetic::power2::pow2((n - 1) as nat);
        let five = pow5((n - 1) as nat);
        assert(10 * (two * five) == (2 * two) * (5 * five)) by (nonlinear_arith);
    }
}

/// Longitudes reach half a turn to each side and no further, and latitudes a quarter of
/// a turn: 180 and 90 degrees, whatever the sign and the number of decimal places.
pub proof fn law_the_map_has_its_edges(d: DecimalView, k: nat)
    requires
        d.scale == -(k as int),
    ensures
        d.coefficient <= 180 * pow10(k) ==> is_longitude(d),
        d.coefficient >= 181 * pow10(k) ==> !is_longitude(d),
        d.coefficient <= 90 * pow10(k) ==> is_latitude(d),
        d.coefficient >= 91 * pow10(k) ==> !is_latitude(d),
{
    lemma_tens(46);
    lemma_tens(47);
    lemma_dyadic(d, k, 180, HALF_TURN_IN_DOUBLE as nat, 46, 0x4000_0000_0000);
    lemma_dyadic(d, k, 181, HALF_TURN_IN_DOUBLE as nat, 46, 0x4000_0000_0000);
    lemma_dyadic(d, k, 90, QUARTER_TURN_IN_DOUBLE as nat, 47, 0x8000_0000_0000);
    lemma_dyadic(d, k, 91, QUARTER_TURN_IN_DOUBLE as nat, 47, 0x8000_0000_0000);
}

proof fn lemma_fives(a: nat, b: nat)
    ensures
        pow5(a + b) == pow5(a) * pow5(b),
        pow5(b) >= 1,
        pow5(b) <= vstd::arithmetic::power2::pow2(3 * b),
    decreases b,
{
    if b == 0 {
        vstd::arithmetic::power2::lemma2_to64();
    } else {
        let c = (b - 1) as nat;
        lemma_fives(a, c);
        assert(a + b - 1 == a + c);
        assert(5 * (pow5(a) * pow5(c)) == pow5(a) * (5 * pow5(c))) by (nonlinear_arith);
        vstd::arithmetic::power2::lemma_pow2_adds(3, 3 * c);
        vstd::arithmetic::power2::lemma2_to64();
        assert(3 + 3 * c == 3 * b);
    }
}

/// Numbers of up to 37 decimal places do not round to zero in single precision.
proof fn lemma_tiny(d: DecimalView, k: nat)
    requires
        d.scale == -(k as int),
        k <= 37,
    ensures
        d.magnitude_side(1, 150) == Side::Above <==> d.coefficient > 0,
{
    let rest = (150 - k) as nat;
    lemma_fives(rest, k);
    lemma_fives(0, rest);
    lemma_tens_step(rest);
    vstd::arithmetic::power2::lemma_pow2_strictly_increases(3 * k, rest);
    let (two, five, own) = (vstd::arithmetic::power2::pow2(rest), pow5(rest), pow5(k));
    assert(rest + k == 150);
    assert(two * five > five * own) by (nonlinear_arith)
        requires
            own < two,
            five >= 1,
    ;
    assert(1 * pow5(150) == pow5(150));
    if d.coefficient >= 1 {
        assert(d.coefficient * pow10(rest) >= pow10(rest)) by (nonlinear_arith)
            requires
                d.coefficient >= 1,
        ;
    } else {
        assert(0 * pow10(rest) == 0);
        assert(five * own >= 1) by (nonlinear_arith)
            requires
                five >= 1,
                own >= 1,
        ;
    }
}

/// An opacity lies between nothing and one: no number above that is one, and no number
/// in between is refused. With a minus sign only zero is one.
pub proof fn law_opacities_end_at_one(d: DecimalView, k: nat)
    requires
        d.scale == -(k as int),
    ensures
        !d.negative && d.coefficient <= pow10(k) ==> unit_single(d),
        !d.negative && d.coefficient >= 2 * pow10(k) ==> !unit_single(d),
        d.negative && k <= 37 ==> (unit_single(d) <==> d.coefficient == 0),
{
    lemma_tens(24);
    lemma_dyadic(d, k, 1, ONE_IN_SINGLE as nat, 24, 0x100_0000);
    lemma_dyadic(d, k, 2, ONE_IN_SINGLE as nat, 24, 0x100_0000);
    if k <= 37 {
        lemma_tiny(d, k);
    }
}

/// A number of up to 37 decimal places is a stroke width just if it has no minus sign, is
/// not zero, and does not overflow in single precision.
pub proof fn law_widths_are_positive(d: DecimalView, k: nat)
    requires
        d.scale == -(k as int),
        k <= 37,
    ensures
        positive_single(d) <==> !d.negative && d.coefficient > 0 && d.coefficient
            < 340282356779733661637539395458142568448 * pow10(k),
        !d.negative && 0 < d.coefficient <= 100_000_000 * pow10(k) ==> positive_single(d),
{
    lemma_tiny(d, k);
    law_numbers_are_compared_by_value(d, SINGLE_OVERFLOW as nat, k);
    lemma_pow10_positive(k);
    assert(100_000_000 * pow10(k) < 340282356779733661637539395458142568448 * pow10(k))
        by (nonlinear_arith)
        requires
            pow10(k) >= 1,
    ;
}

/// A color is three or six hexadecimal digits, and is kept in small letters.
pub proof fn law_colors_are_hexadecimal(s: Seq<char>)
    ensures
        color_of(Some(s)) is Ok <==> (s.len() == 3 || s.len() == 6) && (forall|i: int|
            0 <= i < s.len() ==> '0' <= #[trigger] s[i] <= '9' || 'a' <= s[i] <= 'f' || 'A' <= s[i]
                <= 'F'),
        color_of(Some(s)) is Ok ==> color_of(Some(s))->Ok_0 == Some(lowered(s)),
        color_of(Some(s)) is Err ==> color_of(Some(s))->Err_0 == PolylineError::InvalidColor,
        color_of(None) == Ok::<Option<Seq<char>>, PolylineError>(None),
{
    if color_of(Some(s)) is Ok {
        assert forall|i: int| 0 <= i < s.len() implies '0' <= #[trigger] s[i] <= '9' || 'a' <= s[i]
            <= 'f' || 'A' <= s[i] <= 'F' by {
            assert(is_hex(s[i]));
        }
    }
}

proof fn lemma_once(head: Seq<char>, c: char, tail: Seq<char>)
    requires
        !head.contains(c),
    ensures
        once(head.push(c) + tail, c) == Some((head, tail)),
        once(head, c) is None,
{
    law_the_first_mark_splits(head, c, tail);
    let s = head.push(c) + tail;
    assert(s.take(head.len() as int) =~= head);
    assert(s.skip(head.len() as int + 1) =~= tail);
}

/// A coordinate is read in the order in which it is written: first the longitude, then
/// the latitude.
pub proof fn law_coordinates_are_written_longitude_first(
    lon: Seq<char>,
    lat: Seq<char>,
    x: DecimalView,
    y: DecimalView,
)
    requires
        !lon.contains(','),
        number_of(lon) == Some(NumberView::Finite(x)),
        number_of(lat) == Some(NumberView::Finite(y)),
        is_longitude(x),
        is_latitude(y),
    ensures
        lng_lat_of(lon.push(',') + lat) is Ok,
        lng_lat_of(lon.push(',') + lat)->Ok_0.lon == x,
        lng_lat_of(lon.push(',') + lat)->Ok_0.lat == y,
{
    lemma_once(lon, ',', lat);
}

/// A pin reads back: its letter gives the size, its label and its color are kept in
/// small letters, and it stands at the longitude and the latitude that were written.
pub proof fn law_a_pin_reads_back(
    letter: char,
    label: Option<char>,
    color: Seq<char>,
    lon: Seq<char>,
    lat: Seq<char>,
    x: DecimalView,
    y: DecimalView,
    head: Seq<char>,
    text: Seq<char>,
)
    requires
        letter == 's' || letter == 'm' || letter == 'l',
        label matches Some(c) ==> '0' <= c <= '9' || 'a' <= c <= 'z' || 'A' <= c <= 'Z',
        head == match label {
            Some(c) => seq![letter, '-', c],
            None => seq![letter],
        },
        color.len() == 3 || color.len() == 6,
        forall|i: int|
            0 <= i < color.len() ==> '0' <= #[trigger] color[i] <= '9' || 'a' <= color[i] <= 'f'
                || 'A' <= color[i] <= 'F',
        !lon.contains(','),
        number_of(lon) == Some(NumberView::Finite(x)),
        number_of(lat) == Some(NumberView::Finite(y)),
        is_longitude(x),
        is_latitude(y),
        text == "pin-"@ + ((head.push('+') + color).push('(') + (lon.push(',') + lat).push(')')),
    ensures
        pin_overlay_of(text) is Ok,
        pin_overlay_of(text)->Ok_0.size == PinSize::Small <==> letter == 's',
        pin_overlay_of(text)->Ok_0.size == PinSize::Medium <==> letter == 'm',
        pin_overlay_of(text)->Ok_0.size == PinSize::Large <==> letter == 'l',
        pin_overlay_of(text)->Ok_0.label == match label {
            Some(c) => Some(lowered(seq![c])),
            None => None,
        },
        pin_overlay_of(text)->Ok_0.color == lowered(color),
        pin_overlay_of(text)->Ok_0.coordinate.lon == x,
        pin_overlay_of(text)->Ok_0.coordinate.lat == y,
{
    reveal_strlit("pin-");
    reveal_strlit(")");
    reveal_strlit("s");
    reveal_strlit("m");
    reveal_strlit("l");
    let style = head.push('+') + color;
    let place = lon.push(',') + lat;
    let body = place.push(')');
    let rest = style.push('(') + body;
    assert(text.take("pin-"@.len() as int) =~= "pin-"@);
    assert(text.skip("pin-"@.len() as int) =~= rest);
    assert forall|i: int| 0 <= i < style.len() implies style[i] != '(' by {
        if i > head.len() {
            assert(style[i] == color[i - head.len() - 1]);
        } else if i < head.len() {
            assert(style[i] == head[i]);
        }
    }
    lemma_once(style, '(', body);
    assert(body.skip(body.len() - 1) =~= ")"@);
    assert(body.take(body.len() - ")"@.len()) =~= place);
    assert(!head.contains('+'));
    lemma_once(head, '+', color);
    assert forall|i: int| 0 <= i < color.len() implies is_hex(#[trigger] color[i]) by {}
    match label {
        Some(c) => {
            assert(head =~= seq![letter].push('-') + seq![c]);
            assert(!seq![letter].contains('-'));
            lemma_once(seq![letter], '-', seq![c]);
        },
        None => {
            assert(!head.contains('-'));
            lemma_once(head, '-', head);
        },
    }
    assert(seq![letter] =~= "s"@ <==> letter == 's') by {
        assert("s"@[0] == 's' && "s"@.len() == 1);
        assert(seq![letter][0] == letter);
    }
    assert(seq![letter] =~= "m"@ <==> letter == 'm') by {
        assert("m"@[0] == 'm' && "m"@.len() == 1);
        assert(seq![letter][0] == letter);
    }
    assert(seq![letter] =~= "l"@ <==> letter == 'l') by {
        assert("l"@[0] == 'l' && "l"@.len() == 1);
        assert(seq![letter][0] == letter);
    }
    law_coordinates_are_written_longitude_first(lon, lat, x, y);
}

/// A path reads back: its style is what stands between `path-` and the bracket, and its
/// points are those of the polyline inside.
pub proof fn law_a_path_reads_back(
    style: Seq<char>,
    encoded: Seq<char>,
    polyline: Seq<char>,
    text: Seq<char>,
)
    requires
        !style.contains('('),
        path_style_of(style) is Ok,
        decoded_text(encoded) == Some(polyline),
        polyline_of(polyline) is Ok,
        text == "path-"@ + (style.push('(') + encoded.push(')')),
    ensures
        path_overlay_of(text) is Ok,
        path_overlay_of(text)->Ok_0.style == path_style_of(style)->Ok_0,
        path_overlay_of(text)->Ok_0.coordinates == polyline_of(polyline)->Ok_0,
{
    reveal_strlit("path-");
    reveal_strlit(")");
    let body = encoded.push(')');
    assert(text.take("path-"@.len() as int) =~= "path-"@);
    assert(text.skip("path-"@.len() as int) =~= style.push('(') + body);
    lemma_once(style, '(', body);
    assert(body.skip(body.len() - 1) =~= ")"@);
    assert(body.take(body.len() - ")"@.len()) =~= encoded);
}

proof fn lemma_two_pieces(first: Seq<char>, c: char, second: Seq<char>)
    requires
        first.len() > 0,
        second.len() > 0,
        !first.contains(c),
        !second.contains(c),
    ensures
        required_pair(first.push(c) + second, c) == Ok::<
            (Seq<char>, Option<Seq<char>>),
            PolylineError,
        >((first, Some(second))),
        optional_pair(first.push(c) + second, c) == Ok::<
            (Seq<char>, Option<Seq<char>>),
            PolylineError,
        >((first, Some(second))),
        required_pair(first, c) == Ok::<(Seq<char>, Option<Seq<char>>), PolylineError>(
            (first, None),
        ),
        optional_pair(first, c) == Ok::<(Seq<char>, Option<Seq<char>>), PolylineError>(
            (first, None),
        ),
{
    law_the_first_mark_splits(first, c, second);
    law_the_first_mark_splits(second, c, second);
}

/// The style of a path reads back: the width comes first, then the stroke's color and
/// opacity, then the color and opacity of the fill; each goes where it belongs.
pub proof fn law_a_path_style_reads_back(
    width: Seq<char>,
    stroke: Seq<char>,
    stroke_opacity: Seq<char>,
    fill: Seq<char>,
    fill_opacity: Seq<char>,
    w: DecimalView,
    so: DecimalView,
    fo: DecimalView,
    text: Seq<char>,
)
    requires
        width.len() > 0 && !width.contains('+'),
        number_of(width) == Some(NumberView::Finite(w)) && positive_single(w),
        is_color(stroke) && is_color(fill),
        stroke_opacity.len() > 0 && !stroke_opacity.contains('+') && !stroke_opacity.contains('-'),
        fill_opacity.len() > 0 && !fill_opacity.contains('+') && !fill_opacity.contains('-'),
        number_of(stroke_opacity) == Some(NumberView::Finite(so)) && unit_single(so),
        number_of(fill_opacity) == Some(NumberView::Finite(fo)) && unit_single(fo),
        text == width.push('+') + ((stroke.push('-') + stroke_opacity).push('+') + (fill.push('-')
            + fill_opacity)),
    ensures
        path_style_of(text) is Ok,
        path_style_of(text)->Ok_0.stroke_width == Some(w),
        path_style_of(text)->Ok_0.stroke_color == Some(lowered(stroke)),
        path_style_of(text)->Ok_0.stroke_opacity == Some(so),
        path_style_of(text)->Ok_0.fill_color == Some(lowered(fill)),
        path_style_of(text)->Ok_0.fill_opacity == Some(fo),
{
    let a = stroke.push('-') + stroke_opacity;
    let b = fill.push('-') + fill_opacity;
    let paint = a.push('+') + b;
    lemma_once(width, '+', paint);
    lemma_plain_color(stroke);
    lemma_plain_color(fill);
    assert forall|i: int| 0 <= i < a.len() implies a[i] != '+' by {
        if i < stroke.len() {
            assert(a[i] == stroke[i]);
            assert(is_hex(stroke[i]));
        } else if i > stroke.len() {
            assert(a[i] == stroke_opacity[i - stroke.len() - 1]);
            assert(stroke_opacity.contains(a[i]));
        }
    }
    assert forall|i: int| 0 <= i < b.len() implies b[i] != '+' by {
        if i < fill.len() {
            assert(b[i] == fill[i]);
            assert(is_hex(fill[i]));
        } else if i > fill.len() {
            assert(b[i] == fill_opacity[i - fill.len() - 1]);
            assert(fill_opacity.contains(b[i]));
        }
    }
    lemma_two_pieces(a, '+', b);
    lemma_two_pieces(stroke, '-', stroke_opacity);
    lemma_two_pieces(fill, '-', fill_opacity);
}

proof fn lemma_plain_color(s: Seq<char>)
    requires
        is_color(s),
    ensures
        !s.contains('-'),
        !s.contains('+'),
{
    assert forall|i: int| 0 <= i < s.len() implies s[i] != '-' && s[i] != '+' by {
        assert(is_hex(s[i]));
    }
}

/// A path with a width alone has no colors, and one with a stroke alone has no fill.
pub proof fn law_a_plain_path_style_reads_back(
    width: Seq<char>,
    stroke: Seq<char>,
    w: DecimalView,
    text: Seq<char>,
)
    requires
        width.len() > 0 && !width.contains('+'),
        number_of(width) == Some(NumberView::Finite(w)) && positive_single(w),
        is_color(stroke),
        text == width.push('+') + stroke,
    ensures
        path_style_of(width) == Ok::<PathStyleView, PolylineError>(
            PathStyleView {
                stroke_width: Some(w),
                stroke_color: None,
                stroke_opacity: None,
                fill_color: None,
                fill_opacity: None,
            },
        ),
        path_style_of(text) == Ok::<PathStyleView, PolylineError>(
            PathStyleView {
                stroke_width: Some(w),
                stroke_color: Some(lowered(stroke)),
                stroke_opacity: None,
                fill_color: None,
                fill_opacity: None,
            },
        ),
{
    lemma_once(width, '+', stroke);
    lemma_plain_color(stroke);
    lemma_two_pieces(stroke, '+', stroke);
    lemma_two_pieces(stroke, '-', stroke);
}

/// What overlays show is what they hold, field by field.
pub proof fn law_overlays_show_their_fields(path: PathOverlay, pin: PinOverlay, style: PathStyle)
    ensures
        path@.style.stroke_width == decimal_view(path.stroke_width),
        path@.style.stroke_color == string_view(path.stroke_color),
        path@.style.stroke_opacity == decimal_view(path.stroke_opacity),
        path@.style.fill_color == string_view(path.fill_color),
        path@.style.fill_opacity == decimal_view(path.fill_opacity),
        path@.coordinates == point_views(path.coordinates@),
        style@.stroke_width == decimal_view(style.stroke_width),
        style@.stroke_color == string_view(style.stroke_color),
        style@.stroke_opacity == decimal_view(style.stroke_opacity),
        style@.fill_color == string_view(style.fill_color),
        style@.fill_opacity == decimal_view(style.fill_opacity),
        pin@.size == pin.size,
        pin@.label == string_view(pin.label),
        pin@.color == pin.color@,
        pin@.coordinate.lon == pin.coordinate.lon@,
        pin@.coordinate.lat == pin.coordinate.lat@,
{
}

} // verus!
