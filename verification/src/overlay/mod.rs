//! The overlays of a static image request: paths, pins and GeoJSON.

pub mod geojson;
pub mod grammar;
pub mod path;
pub mod percent;
pub mod polyline;

use vstd::prelude::*;
use vstd::utf8::encode_utf8;
use crate::json::{json_value, JsonTree};
use crate::overlay::geojson::{
    geojson_overlay_of, lemma_geojson_fault, parse_geojson_overlay_chars, GeoJsonOverlay,
};
use crate::overlay::grammar::{overlay_parts, split_overlays};
use crate::overlay::path::{
    parse_path_overlay_chars, parse_pin_overlay_chars, path_overlay_of, pin_overlay_of, styled_body,
    PathOverlay, PathOverlayView, PinOverlay, PinOverlayView,
};
use crate::overlay::percent::decoded_text;
use crate::overlay::polyline::{lemma_points_fault, PointE5, PolylineError};
use crate::text::{after_prefix, begins_with, chars_of, numeral, numeral_text, spells, views};

verus! {

/// Overlays that one static image request may have.
pub const MAX_OVERLAYS: usize = 64;

/// One overlay of a static image.
#[derive(Debug, PartialEq, Eq)]
pub enum StaticOverlay {
    GeoJson(GeoJsonOverlay),
    Pin(PinOverlay),
    Path(PathOverlay),
}

pub enum StaticOverlayView {
    GeoJson(JsonTree),
    Pin(PinOverlayView),
    Path(PathOverlayView),
}

impl View for StaticOverlay {
    type V = StaticOverlayView;

    open spec fn view(&self) -> StaticOverlayView {
        match self {
            StaticOverlay::GeoJson(o) => StaticOverlayView::GeoJson(o@),
            StaticOverlay::Pin(o) => StaticOverlayView::Pin(o@),
            StaticOverlay::Path(o) => StaticOverlayView::Path(o@),
        }
    }
}

/// The views of overlays.
pub open spec fn overlay_views(overlays: Seq<StaticOverlay>) -> Seq<StaticOverlayView> {
    Seq::new(overlays.len(), |i: int| overlays[i]@)
}

/// One overlay, told apart by how its text begins.
pub open spec fn overlay_of(
    s: Seq<char>,
    reader: spec_fn(Seq<char>) -> Option<JsonTree>,
) -> Result<StaticOverlayView, PolylineError> {
    if begins_with(s, "geojson("@) {
        match geojson_overlay_of(s, reader) {
            Ok(o) => Ok(StaticOverlayView::GeoJson(o)),
            Err(e) => Err(e),
        }
    } else if begins_with(s, "pin-"@) {
        match pin_overlay_of(s) {
            Ok(o) => Ok(StaticOverlayView::Pin(o)),
            Err(e) => Err(e),
        }
    } else {
        match path_overlay_of(s) {
            Ok(o) => Ok(StaticOverlayView::Path(o)),
            Err(e) => Err(e),
        }
    }
}

/// The overlays of the parts from `i` on, or the first fault among them.
pub open spec fn overlays_from(
    parts: Seq<Seq<char>>,
    i: int,
    reader: spec_fn(Seq<char>) -> Option<JsonTree>,
) -> Result<Seq<StaticOverlayView>, PolylineError>
    decreases parts.len() - i,
{
    if i >= parts.len() {
        Ok(Seq::empty())
    } else {
        match overlay_of(parts[i], reader) {
            Err(e) => Err(e),
            Ok(first) => match overlays_from(parts, i + 1, reader) {
                Err(e) => Err(e),
                Ok(rest) => Ok(seq![first] + rest),
            },
        }
    }
}

/// The overlays that overlay text lists, with a JSON reader: none for `none`.
pub open spec fn static_overlays_of(
    s: Seq<char>,
    reader: spec_fn(Seq<char>) -> Option<JsonTree>,
) -> Result<Seq<StaticOverlayView>, PolylineError> {
    if s == "none"@ {
        Ok(Seq::empty())
    } else {
        match overlay_parts(s) {
            None => Err(PolylineError::InvalidPathSyntax),
            Some(parts) => if parts.len() > MAX_OVERLAYS {
                Err(PolylineError::TooManyOverlays)
            } else {
                overlays_from(parts, 0, reader)
            },
        }
    }
}

proof fn lemma_overlay_fault(s: Seq<char>, reader: spec_fn(Seq<char>) -> Option<JsonTree>)
    ensures
        overlay_of(s, reader) != Err::<StaticOverlayView, PolylineError>(
            PolylineError::TooManyOverlays,
        ),
{
    let rest = s.skip("geojson("@.len() as int);
    if let Some(text) = decoded_text(rest.take(rest.len() - ")"@.len())) {
        if let Some(tree) = reader(text) {
            lemma_geojson_fault(tree);
        }
    }
    if let Some((_, encoded)) = styled_body(s, "path-"@) {
        if let Some(text) = decoded_text(encoded) {
            lemma_points_fault(encode_utf8(text), 0, PointE5 { lat: 0, lon: 0 }, 0);
        }
    }
}

proof fn lemma_overlays_in_turn(
    parts: Seq<Seq<char>>,
    i: int,
    reader: spec_fn(Seq<char>) -> Option<JsonTree>,
)
    requires
        0 <= i <= parts.len(),
    ensures
        match overlays_from(parts, i, reader) {
            Ok(overlays) => {
                &&& overlays.len() == parts.len() - i
                &&& forall|j: int|
                    i <= j < parts.len() ==> #[trigger] overlay_of(parts[j], reader) == Ok::<
                        _,
                        PolylineError,
                    >(overlays[j - i])
            },
            Err(e) => exists|j: int|
                i <= j < parts.len() && first_fault(parts, i, j, reader) && #[trigger] overlay_of(
                    parts[j],
                    reader,
                ) == Err::<StaticOverlayView, PolylineError>(e),
        },
    decreases parts.len() - i,
{
    if i < parts.len() {
        lemma_overlays_in_turn(parts, i + 1, reader);
        match overlay_of(parts[i], reader) {
            Err(e) => {
                assert(first_fault(parts, i, i, reader));
            },
            Ok(first) => match overlays_from(parts, i + 1, reader) {
                Ok(rest) => {
                    let all = seq![first] + rest;
                    assert forall|j: int| i <= j < parts.len() implies #[trigger] overlay_of(
                        parts[j],
                        reader,
                    ) == Ok::<_, PolylineError>(all[j - i]) by {
                        if j > i {
                            assert(all[j - i] == rest[j - i - 1]);
                        }
                    }
                },
                Err(e) => {
                    let j = choose|j: int|
                        i + 1 <= j < parts.len() && first_fault(parts, i + 1, j, reader)
                            && #[trigger] overlay_of(parts[j], reader) == Err::<
                            StaticOverlayView,
                            PolylineError,
                        >(e);
                    assert(first_fault(parts, i, j, reader));
                },
            },
        }
    }
}

/// Part `j` does not parse, and every part before it from `i` on does.
pub open spec fn first_fault(
    parts: Seq<Seq<char>>,
    i: int,
    j: int,
    reader: spec_fn(Seq<char>) -> Option<JsonTree>,
) -> bool {
    &&& i <= j < parts.len()
    &&& overlay_of(parts[j], reader) is Err
    &&& forall|k: int| i <= k < j ==> #[trigger] overlay_of(parts[k], reader) is Ok
}

/// A request for overlays is refused for their number just where it lists more
/// than the limit.
pub proof fn law_too_many_overlays(
    s: Seq<char>,
    parts: Seq<Seq<char>>,
    reader: spec_fn(Seq<char>) -> Option<JsonTree>,
)
    requires
        s != "none"@,
        overlay_parts(s) == Some(parts),
    ensures
        static_overlays_of(s, reader) == Err::<Seq<StaticOverlayView>, PolylineError>(
            PolylineError::TooManyOverlays,
        ) <==> parts.len() > 64,
{
    lemma_overlays_in_turn(parts, 0, reader);
    assert forall|j: int| 0 <= j < parts.len() implies #[trigger] overlay_of(parts[j], reader)
        != Err::<StaticOverlayView, PolylineError>(PolylineError::TooManyOverlays) by {
        lemma_overlay_fault(parts[j], reader);
    }
}

/// Each overlay of a request that is accepted is what its own part stands for,
/// in the order of the parts.
pub proof fn law_overlays_are_read_in_turn(
    s: Seq<char>,
    parts: Seq<Seq<char>>,
    reader: spec_fn(Seq<char>) -> Option<JsonTree>,
)
    requires
        s != "none"@,
        overlay_parts(s) == Some(parts),
    ensures
        static_overlays_of(s, reader) matches Ok(overlays) ==> {
            &&& overlays.len() == parts.len()
            &&& forall|i: int|
                0 <= i < parts.len() ==> #[trigger] overlay_of(parts[i], reader) == Ok::<
                    _,
                    PolylineError,
                >(overlays[i])
        },
        static_overlays_of(s, reader) is Ok <==> parts.len() <= 64 && (forall|i: int|
            0 <= i < parts.len() ==> #[trigger] overlay_of(parts[i], reader) is Ok),
{
    lemma_overlays_in_turn(parts, 0, reader);
}

/// A request of not too many overlays fails as the first of its parts that does
/// not parse.
pub proof fn law_first_faulty_overlay_decides(
    s: Seq<char>,
    parts: Seq<Seq<char>>,
    i: int,
    reader: spec_fn(Seq<char>) -> Option<JsonTree>,
)
    requires
        s != "none"@,
        overlay_parts(s) == Some(parts),
        parts.len() <= 64,
        first_fault(parts, 0, i, reader),
    ensures
        static_overlays_of(s, reader) is Err,
        static_overlays_of(s, reader)->Err_0 == overlay_of(parts[i], reader)->Err_0,
{
    lemma_overlays_in_turn(parts, 0, reader);
    if let Err(e) = overlays_from(parts, 0, reader) {
        let j = choose|j: int|
            0 <= j < parts.len() && first_fault(parts, 0, j, reader) && #[trigger] overlay_of(
                parts[j],
                reader,
            ) == Err::<StaticOverlayView, PolylineError>(e);
        assert(overlay_of(parts[i], reader) is Err);
        assert(i == j);
    } else {
        assert(overlay_of(parts[i], reader) is Ok);
    }
}

/// A request that is accepted never has more overlays than the limit.
pub proof fn law_overlays_are_bounded(
    s: Seq<char>,
    reader: spec_fn(Seq<char>) -> Option<JsonTree>,
)
    ensures
        static_overlays_of(s, reader) matches Ok(overlays) ==> overlays.len() <= 64,
{
    if let Some(parts) = overlay_parts(s) {
        lemma_overlays_in_turn(parts, 0, reader);
    }
}

/// Reads a `path-...(polyline)` overlay.
pub fn parse_path_overlay(overlay: &str) -> (r: Result<PathOverlay, PolylineError>)
    ensures
        match r {
            Ok(path) => path_overlay_of(overlay@) == Ok::<_, PolylineError>(path@),
            Err(e) => path_overlay_of(overlay@) == Err::<PathOverlayView, PolylineError>(e),
        },
{
    let chars = chars_of(overlay);
    parse_path_overlay_chars(&chars)
}

/// Reads a `pin-size[-label]+color(lon,lat)` overlay.
pub fn parse_pin_overlay(overlay: &str) -> (r: Result<PinOverlay, PolylineError>)
    ensures
        match r {
            Ok(pin) => pin_overlay_of(overlay@) == Ok::<_, PolylineError>(pin@),
            Err(e) => pin_overlay_of(overlay@) == Err::<PinOverlayView, PolylineError>(e),
        },
{
    let chars = chars_of(overlay);
    parse_pin_overlay_chars(&chars)
}

/// Reads a `geojson(percent-encoded JSON)` overlay.
pub fn parse_geojson_overlay(overlay: &str) -> (r: Result<GeoJsonOverlay, PolylineError>)
    ensures
        match r {
            Ok(geojson) => geojson_overlay_of(overlay@, |t: Seq<char>| json_value(t)) == Ok::<
                _,
                PolylineError,
            >(geojson@),
            Err(e) => geojson_overlay_of(overlay@, |t: Seq<char>| json_value(t)) == Err::<
                JsonTree,
                PolylineError,
            >(e),
        },
{
    let chars = chars_of(overlay);
    parse_geojson_overlay_chars(&chars)
}

fn parse_overlay(part: &[char]) -> (r: Result<StaticOverlay, PolylineError>)
    ensures
        match r {
            Ok(overlay) => overlay_of(part@, |t: Seq<char>| json_value(t)) == Ok::<
                _,
                PolylineError,
            >(overlay@),
            Err(e) => overlay_of(part@, |t: Seq<char>| json_value(t)) == Err::<
                StaticOverlayView,
                PolylineError,
            >(e),
        },
{
    if after_prefix(part, "geojson(").is_some() {
        match parse_geojson_overlay_chars(part) {
            Ok(o) => Ok(StaticOverlay::GeoJson(o)),
            Err(e) => Err(e),
        }
    } else if after_prefix(part, "pin-").is_some() {
        match parse_pin_overlay_chars(part) {
            Ok(o) => Ok(StaticOverlay::Pin(o)),
            Err(e) => Err(e),
        }
    } else {
        match parse_path_overlay_chars(part) {
            Ok(o) => Ok(StaticOverlay::Path(o)),
            Err(e) => Err(e),
        }
    }
}

spec fn continued(
    before: Seq<StaticOverlayView>,
    rest: Result<Seq<StaticOverlayView>, PolylineError>,
) -> Result<Seq<StaticOverlayView>, PolylineError> {
    match rest {
        Ok(overlays) => Ok(before + overlays),
        Err(e) => Err(e),
    }
}

/// Reads the comma-separated overlays of a static image request.
pub fn parse_static_overlays(overlay: &str) -> (r: Result<Vec<StaticOverlay>, PolylineError>)
    ensures
        match r {
            Ok(overlays) => static_overlays_of(overlay@, |t: Seq<char>| json_value(t)) == Ok::<
                _,
                PolylineError,
            >(overlay_views(overlays@)),
            Err(e) => static_overlays_of(overlay@, |t: Seq<char>| json_value(t)) == Err::<
                Seq<StaticOverlayView>,
                PolylineError,
            >(e),
        },
{
    let chars = chars_of(overlay);
    if spells(&chars, "none") {
        let none: Vec<StaticOverlay> = Vec::new();
        assert(overlay_views(none@) =~= Seq::empty());
        return Ok(none);
    }
    let parts = match split_overlays(&chars) {
        Ok(parts) => parts,
        Err(e) => {
            return Err(e);
        },
    };
    if parts.len() > MAX_OVERLAYS {
        return Err(PolylineError::TooManyOverlays);
    }
    let ghost reader = |t: Seq<char>| json_value(t);
    let ghost whole = overlays_from(views(parts@), 0, reader);
    let mut out: Vec<StaticOverlay> = Vec::new();
    let mut i: usize = 0;
    proof {
        if let Ok(all) = whole {
            assert(overlay_views(out@) + all =~= all);
        }
    }
    while i < parts.len()
        invariant
            i <= parts@.len(),
            reader == (|t: Seq<char>| json_value(t)),
            whole == overlays_from(views(parts@), 0, reader),
            static_overlays_of(overlay@, reader) == whole,
            continued(overlay_views(out@), overlays_from(views(parts@), i as int, reader)) == whole,
        decreases parts.len() - i,
    {
        assert(views(parts@)[i as int] == parts@[i as int]@);
        match parse_overlay(&parts[i]) {
            Ok(o) => {
                let ghost before = out@;
                out.push(o);
                proof {
                    assert(overlay_views(out@) =~= overlay_views(before).push(o@));
                    if let Ok(rest) = overlays_from(views(parts@), i + 1, reader) {
                        assert(overlay_views(out@) + rest =~= overlay_views(before) + (seq![o@]
                            + rest));
                    }
                }
            },
            Err(e) => {
                return Err(e);
            },
        }
        i += 1;
    }
    assert(overlay_views(out@) + Seq::<StaticOverlayView>::empty() =~= overlay_views(out@));
    Ok(out)
}

impl PolylineError {
    /// What the error says.
    pub open spec fn text(self) -> Seq<char> {
        match self {
            PolylineError::Empty => "polyline must not be empty"@,
            PolylineError::InvalidPathSyntax => "path overlay must be path-...(<polyline>)"@,
            PolylineError::InvalidStrokeWidth => "path stroke width must be positive"@,
            PolylineError::InvalidColor => "path color must be a 3- or 6-digit hex color"@,
            PolylineError::InvalidOpacity => "path opacity must be between 0 and 1"@,
            PolylineError::InvalidPercentEncoding => "invalid percent-encoded polyline"@,
            PolylineError::InvalidByte { byte, index } => "invalid polyline byte "@ + numeral(
                byte as nat,
            ) + " at index "@ + numeral(index as nat),
            PolylineError::Truncated => "polyline ended in the middle of a coordinate"@,
            PolylineError::CoordinateOverflow => "polyline coordinate overflow"@,
            PolylineError::CoordinateOutOfRange => "polyline coordinate is out of range"@,
            PolylineError::TooManyPoints => "path overlay has too many points"@,
            PolylineError::TooManyOverlays => "request has more than 64 overlays"@,
            PolylineError::InvalidGeoJsonSyntax => "geojson overlay payload is not valid JSON"@,
            PolylineError::UnsupportedGeoJsonType => {
                "geojson overlay must be a Feature or FeatureCollection"@
            },
            PolylineError::TooManyFeatures => "geojson overlay has more than 500 features"@,
            PolylineError::TooManyCoordinates => "geojson overlay has more than 5000 coordinates"@,
            PolylineError::InvalidPinSyntax => {
                "pin overlay must be pin-{s|m|l}[-label]+color(lon,lat)"@
            },
            PolylineError::InvalidPinSize => "pin size must be s, m, or l"@,
            PolylineError::InvalidPinLabel => "pin label must be 1 ASCII alphanumeric character"@,
        }
    }

    /// What the error says.
    pub fn message(&self) -> (r: String)
        ensures
            r@ == self.text(),
    {
        let fixed = match self {
            PolylineError::InvalidByte { byte, index } => {
                let mut out = String::new();
                out.push_str("invalid polyline byte ");
                let byte_text = numeral_text(*byte as u128);
                out.push_str(byte_text.as_str());
                out.push_str(" at index ");
                let index_text = numeral_text(*index as u128);
                out.push_str(index_text.as_str());
                assert(out@ =~= self.text());
                return out;
            },
            PolylineError::Empty => "polyline must not be empty",
            PolylineError::InvalidPathSyntax => "path overlay must be path-...(<polyline>)",
            PolylineError::InvalidStrokeWidth => "path stroke width must be positive",
            PolylineError::InvalidColor => "path color must be a 3- or 6-digit hex color",
            PolylineError::InvalidOpacity => "path opacity must be between 0 and 1",
            PolylineError::InvalidPercentEncoding => "invalid percent-encoded polyline",
            PolylineError::Truncated => "polyline ended in the middle of a coordinate",
            PolylineError::CoordinateOverflow => "polyline coordinate overflow",
            PolylineError::CoordinateOutOfRange => "polyline coordinate is out of range",
            PolylineError::TooManyPoints => "path overlay has too many points",
            PolylineError::TooManyOverlays => "request has more than 64 overlays",
            PolylineError::InvalidGeoJsonSyntax => "geojson overlay payload is not valid JSON",
            PolylineError::UnsupportedGeoJsonType => {
                "geojson overlay must be a Feature or FeatureCollection"
            },
            PolylineError::TooManyFeatures => "geojson overlay has more than 500 features",
            PolylineError::TooManyCoordinates => "geojson overlay has more than 5000 coordinates",
            PolylineError::InvalidPinSyntax => {
                "pin overlay must be pin-{s|m|l}[-label]+color(lon,lat)"
            },
            PolylineError::InvalidPinSize => "pin size must be s, m, or l",
            PolylineError::InvalidPinLabel => "pin label must be 1 ASCII alphanumeric character",
        };
        fixed.to_owned()
    }
}

/// An overlay is told by how it begins: GeoJSON by `geojson(`, a pin by `pin-`, and
/// everything else is a path. What is read of it is what its own reader reads.
pub proof fn law_overlays_are_told_by_how_they_begin(
    s: Seq<char>,
    reader: spec_fn(Seq<char>) -> Option<JsonTree>,
)
    ensures
        "geojson("@.is_prefix_of(s) ==> match overlay_of(s, reader) {
            Ok(o) => o is GeoJson && geojson_overlay_of(s, reader) is Ok && o->GeoJson_0
                == geojson_overlay_of(s, reader)->Ok_0,
            Err(e) => geojson_overlay_of(s, reader) is Err && e == geojson_overlay_of(
                s,
                reader,
            )->Err_0,
        },
        "pin-"@.is_prefix_of(s) ==> match overlay_of(s, reader) {
            Ok(o) => o is Pin && pin_overlay_of(s) is Ok && o->Pin_0 == pin_overlay_of(s)->Ok_0,
            Err(e) => pin_overlay_of(s) is Err && e == pin_overlay_of(s)->Err_0,
        },
        !"geojson("@.is_prefix_of(s) && !"pin-"@.is_prefix_of(s) ==> match overlay_of(s, reader) {
            Ok(o) => o is Path && path_overlay_of(s) is Ok && o->Path_0 == path_overlay_of(
                s,
            )->Ok_0,
            Err(e) => path_overlay_of(s) is Err && e == path_overlay_of(s)->Err_0,
        },
{
    reveal_strlit("geojson(");
    reveal_strlit("pin-");
    let g = "geojson("@;
    let p = "pin-"@;
    if g.len() <= s.len() {
        assert(s.take(g.len() as int) =~= s.subrange(0, g.len() as int));
    }
    if p.len() <= s.len() {
        assert(s.take(p.len() as int) =~= s.subrange(0, p.len() as int));
    }
    if g.is_prefix_of(s) && p.is_prefix_of(s) {
        assert(s[0] == s.subrange(0, g.len() as int)[0]);
        assert(s[0] == s.subrange(0, p.len() as int)[0]);
    }
}

/// What an overlay shows is what it holds.
pub proof fn law_an_overlay_shows_its_kind(overlay: StaticOverlay, overlays: Seq<StaticOverlay>, i: int)
    requires
        0 <= i < overlays.len(),
    ensures
        overlay is GeoJson ==> overlay@ == StaticOverlayView::GeoJson(overlay->GeoJson_0@),
        overlay is Pin ==> overlay@ == StaticOverlayView::Pin(overlay->Pin_0@),
        overlay is Path ==> overlay@ == StaticOverlayView::Path(overlay->Path_0@),
        overlay_views(overlays).len() == overlays.len(),
        overlay_views(overlays)[i] == overlays[i]@,
{
}

/// A request for `none` draws nothing, and text whose brackets do not match is refused.
pub proof fn law_none_draws_nothing(
    s: Seq<char>,
    reader: spec_fn(Seq<char>) -> Option<JsonTree>,
)
    ensures
        static_overlays_of("none"@, reader) == Ok::<Seq<StaticOverlayView>, PolylineError>(
            Seq::empty(),
        ),
        s != "none"@ && overlay_parts(s) is None ==> static_overlays_of(s, reader) == Err::<
            Seq<StaticOverlayView>,
            PolylineError,
        >(PolylineError::InvalidPathSyntax),
{
}

/// Each error says what is wrong, and those of limits say the limit.
pub proof fn law_errors_say_what_is_wrong(byte: u8, index: usize)
    ensures
        PolylineError::Empty.text() == "polyline must not be empty"@,
        PolylineError::InvalidPathSyntax.text() == "path overlay must be path-...(<polyline>)"@,
        PolylineError::InvalidStrokeWidth.text() == "path stroke width must be positive"@,
        PolylineError::InvalidColor.text() == "path color must be a 3- or 6-digit hex color"@,
        PolylineError::InvalidOpacity.text() == "path opacity must be between 0 and 1"@,
        PolylineError::InvalidPercentEncoding.text() == "invalid percent-encoded polyline"@,
        (PolylineError::InvalidByte { byte, index }).text() == "invalid polyline byte "@ + numeral(
            byte as nat,
        ) + " at index "@ + numeral(index as nat),
        PolylineError::TooManyPoints.text() == "path overlay has too many points"@,
        PolylineError::TooManyOverlays.text() == "request has more than 64 overlays"@,
        PolylineError::TooManyFeatures.text() == "geojson overlay has more than 500 features"@,
        PolylineError::TooManyCoordinates.text()
            == "geojson overlay has more than 5000 coordinates"@,
        PolylineError::InvalidPinSize.text() == "pin size must be s, m, or l"@,
        PolylineError::InvalidPinLabel.text()
            == "pin label must be 1 ASCII alphanumeric character"@,
{
}

} // verus!
