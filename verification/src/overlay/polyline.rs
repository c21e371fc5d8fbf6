//! Encoded polylines: coordinate deltas in units of 1e-5 degrees.

use vstd::prelude::*;
use vstd::utf8::encode_utf8;
use crate::decimal::{Decimal, DecimalView};

verus! {

/// Points that one path overlay may have.
pub const MAX_PATH_POINTS: usize = 500;

/// The largest latitude, in units of 1e-5 degrees.
pub const MAX_LAT_E5: i64 = 9_000_000;

/// The largest longitude, in units of 1e-5 degrees.
pub const MAX_LON_E5: i64 = 18_000_000;

/// Why overlay text was rejected.
#[derive(Debug, Clone, Copy, PartialEq, Eq, Structural)]
pub enum PolylineError {
    Empty,
    InvalidPathSyntax,
    InvalidStrokeWidth,
    InvalidColor,
    InvalidOpacity,
    InvalidPercentEncoding,
    InvalidByte { byte: u8, index: usize },
    Truncated,
    CoordinateOverflow,
    CoordinateOutOfRange,
    TooManyPoints,
    TooManyOverlays,
    InvalidGeoJsonSyntax,
    UnsupportedGeoJsonType,
    TooManyFeatures,
    TooManyCoordinates,
    InvalidPinSyntax,
    InvalidPinSize,
    InvalidPinLabel,
}

/// A coordinate in degrees.
#[derive(Debug, Clone, PartialEq, Eq)]
pub struct LngLat {
    pub lon: Decimal,
    pub lat: Decimal,
}

pub struct LngLatView {
    pub lon: DecimalView,
    pub lat: DecimalView,
}

impl View for LngLat {
    type V = LngLatView;

    open spec fn view(&self) -> LngLatView {
        LngLatView { lon: self.lon@, lat: self.lat@ }
    }
}

/// The views of coordinates.
pub open spec fn point_views(points: Seq<LngLat>) -> Seq<LngLatView> {
    Seq::new(points.len(), |i: int| points[i]@)
}

/// 32 to the power `n`.
pub open spec fn pow32(n: nat) -> nat
    decreases n,
{
    if n == 0 {
        1
    } else {
        32 * pow32((n - 1) as nat)
    }
}

/// The groups of five bits that start at `i`, least significant first, as one
/// number, with the index behind them. A group is a byte from 63 on; those of
/// 32 and more are followed by another group. `count` groups came before.
pub open spec fn raw_delta(bytes: Seq<u8>, i: nat, count: nat) -> Result<
    (nat, nat),
    PolylineError,
>
    decreases bytes.len() - i,
{
    if i >= bytes.len() {
        Err(PolylineError::Truncated)
    } else if bytes[i as int] < 63 || bytes[i as int] > 126 {
        Err(PolylineError::InvalidByte { byte: bytes[i as int], index: i as usize })
    } else if count >= 12 {
        Err(PolylineError::CoordinateOverflow)
    } else if bytes[i as int] < 95 {
        Ok(((bytes[i as int] - 63) as nat, i + 1))
    } else {
        match raw_delta(bytes, i + 1, count + 1) {
            Ok((rest, next)) => Ok(((bytes[i as int] - 95 + 32 * rest) as nat, next)),
            Err(e) => Err(e),
        }
    }
}

/// The signed number that an unsigned one stands for: even ones count up from
/// zero, odd ones down from minus one.
pub open spec fn unzigzag(raw: nat) -> int {
    if raw % 2 == 1 {
        -(raw as int / 2) - 1
    } else {
        raw as int / 2
    }
}

/// The delta that starts at `i`, with the index behind it.
pub open spec fn delta_at(bytes: Seq<u8>, i: nat) -> Result<(int, nat), PolylineError> {
    match raw_delta(bytes, i, 0) {
        Ok((raw, next)) => Ok((unzigzag(raw), next)),
        Err(e) => Err(e),
    }
}

pub proof fn lemma_raw_delta(bytes: Seq<u8>, i: nat, count: nat)
    requires
        count <= 12,
    ensures
        raw_delta(bytes, i, count) matches Ok((raw, next)) ==> i < next <= bytes.len() && raw
            < pow32((12 - count) as nat),
    decreases bytes.len() - i,
{
    if i < bytes.len() && bytes[i as int] >= 95 && count < 12 {
        lemma_raw_delta(bytes, i + 1, count + 1);
    }
    if count < 12 {
        assert(pow32((12 - count) as nat) == 32 * pow32((11 - count) as nat));
        lemma_pow32_positive((11 - count) as nat);
    }
}

proof fn lemma_pow32_positive(n: nat)
    ensures
        pow32(n) >= 1,
    decreases n,
{
    if n > 0 {
        lemma_pow32_positive((n - 1) as nat);
    }
}

proof fn lemma_pow32_twelve(n: nat)
    requires
        n <= 12,
    ensures
        pow32(n) <= 0x1000_0000_0000_0000,
{
    reveal_with_fuel(pow32, 13);
}

/// A point of a polyline, in units of 1e-5 degrees.
pub struct PointE5 {
    pub lat: int,
    pub lon: int,
}

pub open spec fn fits_i64(n: int) -> bool {
    i64::MIN <= n <= i64::MAX
}

pub open spec fn in_bounds(p: PointE5) -> bool {
    &&& -MAX_LAT_E5 <= p.lat <= MAX_LAT_E5
    &&& -MAX_LON_E5 <= p.lon <= MAX_LON_E5
}

/// The points that start at `i`, each given by its difference from the one
/// before: a latitude delta, then a longitude delta. `count` points came before.
pub open spec fn points_at(bytes: Seq<u8>, i: nat, last: PointE5, count: nat) -> Result<
    Seq<PointE5>,
    PolylineError,
>
    decreases bytes.len() - i,
    via points_at_decreases
{
    if i >= bytes.len() {
        Ok(Seq::empty())
    } else {
        match delta_at(bytes, i) {
            Err(e) => Err(e),
            Ok((lat_delta, j)) => match delta_at(bytes, j) {
                Err(e) => Err(e),
                Ok((lon_delta, k)) => {
                    let p = PointE5 { lat: last.lat + lat_delta, lon: last.lon + lon_delta };
                    if !fits_i64(p.lat) || !fits_i64(p.lon) {
                        Err(PolylineError::CoordinateOverflow)
                    } else if count >= MAX_PATH_POINTS {
                        Err(PolylineError::TooManyPoints)
                    } else if !in_bounds(p) {
                        Err(PolylineError::CoordinateOutOfRange)
                    } else {
                        match points_at(bytes, k, p, count + 1) {
                            Ok(rest) => Ok(seq![p] + rest),
                            Err(e) => Err(e),
                        }
                    }
                },
            },
        }
    }
}

#[via_fn]
proof fn points_at_decreases(bytes: Seq<u8>, i: nat, last: PointE5, count: nat) {
    lemma_raw_delta(bytes, i, 0);
    if let Ok((_, j)) = delta_at(bytes, i) {
        lemma_raw_delta(bytes, j, 0);
    }
}

/// A number of 1e-5 degrees as a decimal number of degrees.
pub open spec fn degrees(e5: int) -> DecimalView {
    DecimalView {
        negative: e5 < 0,
        coefficient: if e5 < 0 {
            (-e5) as nat
        } else {
            e5 as nat
        },
        scale: -5,
    }
}

pub open spec fn point_in_degrees(p: PointE5) -> LngLatView {
    LngLatView { lon: degrees(p.lon), lat: degrees(p.lat) }
}

/// The points of a polyline in bytes.
pub open spec fn polyline_points(bytes: Seq<u8>) -> Result<Seq<PointE5>, PolylineError> {
    if bytes.len() == 0 {
        Err(PolylineError::Empty)
    } else {
        points_at(bytes, 0, PointE5 { lat: 0, lon: 0 }, 0)
    }
}

/// The coordinates that polyline text stands for.
pub open spec fn polyline_of(text: Seq<char>) -> Result<Seq<LngLatView>, PolylineError> {
    match polyline_points(encode_utf8(text)) {
        Ok(points) => Ok(Seq::new(points.len(), |i: int| point_in_degrees(points[i]))),
        Err(e) => Err(e),
    }
}

/// The delta after `count` groups that amount to `low`.
spec fn joined(low: nat, count: nat, rest: Result<(nat, nat), PolylineError>) -> Result<
    (nat, nat),
    PolylineError,
> {
    match rest {
        Ok((high, next)) => Ok((low + pow32(count) * high, next)),
        Err(e) => Err(e),
    }
}

/// Where reading a delta from `start` stops at an error: behind the byte that it is
/// about, or at the end.
pub open spec fn stop_after(e: PolylineError, start: nat, len: nat) -> nat {
    match e {
        PolylineError::InvalidByte { index, .. } => (index + 1) as nat,
        PolylineError::CoordinateOverflow => start + 13,
        _ => len,
    }
}

/// Reads the delta at `*index` and moves the index behind it. After an error the
/// index stands where the reading stopped.
pub fn decode_delta(bytes: &[u8], index: &mut usize) -> (r: Result<i64, PolylineError>)
    requires
        *old(index) <= bytes@.len(),
    ensures
        match r {
            Ok(delta) => delta_at(bytes@, *old(index) as nat) == Ok::<(int, nat), PolylineError>(
                (delta as int, *final(index) as nat),
            ) && *old(index) < *final(index) <= bytes@.len(),
            Err(e) => delta_at(bytes@, *old(index) as nat) == Err::<(int, nat), PolylineError>(e)
                && *final(index) == stop_after(e, *old(index) as nat, bytes@.len()),
        },
        r matches Err(PolylineError::InvalidByte { byte, index: at }) ==> *old(index) <= at
            < bytes@.len() && bytes@[at as int] == byte && !(63 <= byte <= 126),
{
    let start: usize = *index;
    let mut low: u64 = 0;
    let mut unit: u64 = 1;
    let mut count: u8 = 0;
    let ghost whole = raw_delta(bytes@, start as nat, 0);
    proof {
        assert(pow32(0) == 1);
        if let Ok((h, _)) = whole {
            assert(pow32(0) * h == h) by (nonlinear_arith)
                requires
                    pow32(0) == 1,
            ;
        }
    }
    loop
        invariant
            start == *old(index),
            start <= *index <= bytes@.len(),
            count <= 12,
            *index == start + count,
            unit == pow32(count as nat),
            low < pow32(count as nat),
            whole == raw_delta(bytes@, start as nat, 0),
            joined(low as nat, count as nat, raw_delta(bytes@, *index as nat, count as nat))
                == whole,
        decreases bytes@.len() - *index,
    {
        if *index >= bytes.len() {
            return Err(PolylineError::Truncated);
        }
        let at: usize = *index;
        let byte: u8 = bytes[at];
        *index = at + 1;
        if byte < 63 || byte > 126 {
            return Err(PolylineError::InvalidByte { byte, index: at });
        }
        if count >= 12 {
            return Err(PolylineError::CoordinateOverflow);
        }
        let value: u64 = (byte - 63) as u64;
        let ghost before = low as nat;
        let ghost step = unit as nat;
        let group: u64 = if value < 32 {
            value
        } else {
            value - 32
        };
        proof {
            assert(pow32((count + 1) as nat) == 32 * pow32(count as nat));
            lemma_pow32_twelve((count + 1) as nat);
            assert(group * unit <= 31 * unit) by (nonlinear_arith)
                requires
                    group <= 31,
            ;
        }
        low = low + group * unit;
        if value < 32 {
            proof {
                assert(step * value == value * step) by (nonlinear_arith);
                assert(whole == Ok::<(nat, nat), PolylineError>((low as nat, *index as nat)));
            }
            let half: u64 = low / 2;
            return Ok(
                if low % 2 == 1 {
                    -(half as i64) - 1
                } else {
                    half as i64
                },
            );
        }
        unit = unit * 32;
        count = count + 1;
        proof {
            let rest = raw_delta(bytes@, *index as nat, count as nat);
            if let Ok((high, next)) = rest {
                assert(step * (group + 32 * high) == group * step + (32 * step) * high)
                    by (nonlinear_arith);
            }
        }
    }
}

/// Whether a point lies on the map.
pub fn valid_point(lat: i64, lon: i64) -> (r: bool)
    ensures
        r == in_bounds(PointE5 { lat: lat as int, lon: lon as int }),
{
    -MAX_LAT_E5 <= lat && lat <= MAX_LAT_E5 && -MAX_LON_E5 <= lon && lon <= MAX_LON_E5
}

spec fn continued(before: Seq<LngLatView>, rest: Result<Seq<PointE5>, PolylineError>) -> Result<
    Seq<LngLatView>,
    PolylineError,
> {
    match rest {
        Ok(points) => Ok(before + Seq::new(points.len(), |i: int| point_in_degrees(points[i]))),
        Err(e) => Err(e),
    }
}

/// Decodes a polyline into coordinates in degrees.
pub fn decode_polyline(encoded: &str) -> (r: Result<Vec<LngLat>, PolylineError>)
    ensures
        match r {
            Ok(points) => polyline_of(encoded@) == Ok::<Seq<LngLatView>, PolylineError>(
                point_views(points@),
            ) && forall|i: int|
                0 <= i < points@.len() ==> (#[trigger] points@[i]).lon.wf() && points@[i].lat.wf(),
            Err(e) => polyline_of(encoded@) == Err::<Seq<LngLatView>, PolylineError>(e),
        },
{
    let bytes = encoded.as_bytes();
    if bytes.len() == 0 {
        return Err(PolylineError::Empty);
    }
    let mut index: usize = 0;
    let mut lat: i64 = 0;
    let mut lon: i64 = 0;
    let mut points: Vec<LngLat> = Vec::new();
    let ghost whole = polyline_of(encoded@);
    proof {
        let first = points_at(bytes@, 0, PointE5 { lat: 0, lon: 0 }, 0);
        if let Ok(p) = first {
            assert(point_views(points@) + Seq::new(p.len(), |i: int| point_in_degrees(p[i]))
                =~= Seq::new(p.len(), |i: int| point_in_degrees(p[i])));
        }
    }
    while index < bytes.len()
        invariant
            index <= bytes@.len(),
            in_bounds(PointE5 { lat: lat as int, lon: lon as int }),
            whole == polyline_of(encoded@),
            continued(
                point_views(points@),
                points_at(
                    bytes@,
                    index as nat,
                    PointE5 { lat: lat as int, lon: lon as int },
                    points@.len(),
                ),
            ) == whole,
            forall|i: int|
                0 <= i < points@.len() ==> (#[trigger] points@[i]).lon.wf() && points@[i].lat.wf(),
        decreases bytes.len() - index,
    {
        let lat_delta: i64 = match decode_delta(bytes, &mut index) {
            Ok(delta) => delta,
            Err(e) => {
                return Err(e);
            },
        };
        let lon_delta: i64 = match decode_delta(bytes, &mut index) {
            Ok(delta) => delta,
            Err(e) => {
                return Err(e);
            },
        };
        lat = match lat.checked_add(lat_delta) {
            Some(sum) => sum,
            None => {
                return Err(PolylineError::CoordinateOverflow);
            },
        };
        lon = match lon.checked_add(lon_delta) {
            Some(sum) => sum,
            None => {
                return Err(PolylineError::CoordinateOverflow);
            },
        };
        if points.len() >= MAX_PATH_POINTS {
            return Err(PolylineError::TooManyPoints);
        }
        if !valid_point(lat, lon) {
            return Err(PolylineError::CoordinateOutOfRange);
        }
        let ghost before = points@;
        points.push(
            LngLat { lon: Decimal::from_scaled(lon, -5), lat: Decimal::from_scaled(lat, -5) },
        );
        proof {
            let p = PointE5 { lat: lat as int, lon: lon as int };
            assert(points@.last()@ == point_in_degrees(p));
            assert(point_views(points@) =~= point_views(before).push(point_in_degrees(p)));
            if let Ok(rest) = points_at(bytes@, index as nat, p, points@.len()) {
                let all = seq![p] + rest;
                assert(point_views(points@) + Seq::new(
                    rest.len(),
                    |i: int| point_in_degrees(rest[i]),
                ) =~= point_views(before) + Seq::new(all.len(), |i: int| point_in_degrees(all[i])));
            }
        }
    }
    proof {
        let none = Seq::<PointE5>::empty();
        assert(point_views(points@) + Seq::new(none.len(), |i: int| point_in_degrees(none[i]))
            =~= point_views(points@));
    }
    Ok(points)
}

/// A number in groups of five bits, least significant first.
pub open spec fn encode_raw(n: nat) -> Seq<u8>
    decreases n,
{
    if n < 32 {
        seq![(n + 63) as u8]
    } else {
        seq![(n % 32 + 95) as u8] + encode_raw(n / 32)
    }
}

/// The unsigned number that stands for a signed one.
pub open spec fn zigzag(delta: int) -> nat {
    if delta < 0 {
        (-2 * delta - 1) as nat
    } else {
        (2 * delta) as nat
    }
}

/// Points written as a polyline, starting from the point before them.
pub open spec fn encode_points(points: Seq<PointE5>, last: PointE5) -> Seq<u8>
    decreases points.len(),
{
    if points.len() == 0 {
        Seq::empty()
    } else {
        let p = points[0];
        encode_raw(zigzag(p.lat - last.lat)) + encode_raw(zigzag(p.lon - last.lon))
            + encode_points(points.skip(1), p)
    }
}

proof fn lemma_raw_reads_back(pre: Seq<u8>, n: nat, post: Seq<u8>, count: nat)
    requires
        count < 12,
        n < pow32((12 - count) as nat),
    ensures
        raw_delta(pre + encode_raw(n) + post, pre.len(), count) == Ok::<(nat, nat), PolylineError>(
            (n, pre.len() + encode_raw(n).len()),
        ),
    decreases n,
{
    let s = pre + encode_raw(n) + post;
    let i = pre.len() as int;
    assert(s[i] == encode_raw(n)[0]);
    if n >= 32 {
        assert(pow32((12 - count) as nat) == 32 * pow32((11 - count) as nat));
        assert(pow32(0) == 1);
        assert(count < 11) by {
            if count == 11 {
                assert(pow32(1) == 32 * pow32(0));
            }
        }
        let byte = (n % 32 + 95) as u8;
        assert(s =~= pre.push(byte) + encode_raw(n / 32) + post);
        lemma_raw_reads_back(pre.push(byte), n / 32, post, count + 1);
    }
}

proof fn lemma_delta_reads_back(pre: Seq<u8>, delta: int, post: Seq<u8>)
    requires
        -100_000_000 <= delta <= 100_000_000,
    ensures
        delta_at(pre + encode_raw(zigzag(delta)) + post, pre.len()) == Ok::<
            (int, nat),
            PolylineError,
        >((delta, pre.len() + encode_raw(zigzag(delta)).len())),
        encode_raw(zigzag(delta)).len() >= 1,
{
    reveal_with_fuel(pow32, 13);
    lemma_raw_reads_back(pre, zigzag(delta), post, 0);
    lemma_raw_delta(pre + encode_raw(zigzag(delta)) + post, pre.len(), 0);
}

proof fn lemma_points_read_back(pre: Seq<u8>, points: Seq<PointE5>, last: PointE5, count: nat)
    requires
        in_bounds(last),
        forall|i: int| 0 <= i < points.len() ==> in_bounds(#[trigger] points[i]),
        count + points.len() <= MAX_PATH_POINTS,
    ensures
        points_at(pre + encode_points(points, last), pre.len(), last, count) == Ok::<
            Seq<PointE5>,
            PolylineError,
        >(points),
    decreases points.len(),
{
    if points.len() == 0 {
        assert(points =~= Seq::empty());
    } else {
        let p = points[0];
        let lat = encode_raw(zigzag(p.lat - last.lat));
        let lon = encode_raw(zigzag(p.lon - last.lon));
        let rest = points.skip(1);
        let tail = encode_points(rest, p);
        let s = pre + encode_points(points, last);
        assert(s =~= pre + lat + (lon + tail));
        lemma_delta_reads_back(pre, p.lat - last.lat, lon + tail);
        assert(s =~= (pre + lat) + lon + tail);
        lemma_delta_reads_back(pre + lat, p.lon - last.lon, tail);
        assert(s =~= (pre + lat + lon) + tail);
        assert forall|i: int| 0 <= i < rest.len() implies in_bounds(#[trigger] rest[i]) by {
            assert(rest[i] == points[i + 1]);
        }
        lemma_points_read_back(pre + lat + lon, rest, p, count + 1);
        assert(seq![p] + rest =~= points);
    }
}

/// A polyline gives back the points that it was written from: any number from
/// one to the limit, each on the map.
pub proof fn law_polyline_reads_back(points: Seq<PointE5>)
    requires
        1 <= points.len() <= 500,
        forall|i: int| 0 <= i < points.len() ==> in_bounds(#[trigger] points[i]),
    ensures
        polyline_points(encode_points(points, PointE5 { lat: 0, lon: 0 })) == Ok::<
            Seq<PointE5>,
            PolylineError,
        >(points),
{
    let origin = PointE5 { lat: 0, lon: 0 };
    let s = encode_points(points, origin);
    lemma_points_read_back(Seq::empty(), points, origin, 0);
    assert(Seq::<u8>::empty() + s =~= s);
    lemma_delta_reads_back(
        Seq::empty(),
        points[0].lat,
        encode_raw(zigzag(points[0].lon)) + encode_points(points.skip(1), points[0]),
    );
}

proof fn lemma_points_past_the_limit(pre: Seq<u8>, points: Seq<PointE5>, last: PointE5, count: nat)
    requires
        in_bounds(last),
        forall|i: int| 0 <= i < points.len() ==> in_bounds(#[trigger] points[i]),
        count <= MAX_PATH_POINTS < count + points.len(),
    ensures
        points_at(pre + encode_points(points, last), pre.len(), last, count) == Err::<
            Seq<PointE5>,
            PolylineError,
        >(PolylineError::TooManyPoints),
    decreases points.len(),
{
    let p = points[0];
    let lat = encode_raw(zigzag(p.lat - last.lat));
    let lon = encode_raw(zigzag(p.lon - last.lon));
    let rest = points.skip(1);
    let tail = encode_points(rest, p);
    let s = pre + encode_points(points, last);
    assert(s =~= pre + lat + (lon + tail));
    lemma_delta_reads_back(pre, p.lat - last.lat, lon + tail);
    assert(s =~= (pre + lat) + lon + tail);
    lemma_delta_reads_back(pre + lat, p.lon - last.lon, tail);
    if count < MAX_PATH_POINTS {
        assert(s =~= (pre + lat + lon) + tail);
        assert forall|i: int| 0 <= i < rest.len() implies in_bounds(#[trigger] rest[i]) by {
            assert(rest[i] == points[i + 1]);
        }
        lemma_points_past_the_limit(pre + lat + lon, rest, p, count + 1);
    }
}

/// A polyline of more points than the limit is refused for their number, where
/// each of them is on the map.
pub proof fn law_long_polyline_is_refused(points: Seq<PointE5>)
    requires
        points.len() > 500,
        forall|i: int| 0 <= i < points.len() ==> in_bounds(#[trigger] points[i]),
    ensures
        polyline_points(encode_points(points, PointE5 { lat: 0, lon: 0 })) == Err::<
            Seq<PointE5>,
            PolylineError,
        >(PolylineError::TooManyPoints),
{
    let origin = PointE5 { lat: 0, lon: 0 };
    let s = encode_points(points, origin);
    lemma_points_past_the_limit(Seq::empty(), points, origin, 0);
    assert(Seq::<u8>::empty() + s =~= s);
}

/// Text that spells the polyline of one point or more, each on the map, decodes
/// to just those points, in degrees, up to the limit, and to no more than the
/// limit.
pub proof fn law_polyline_text_reads_back(points: Seq<PointE5>, text: Seq<char>)
    requires
        points.len() >= 1,
        forall|i: int| 0 <= i < points.len() ==> in_bounds(#[trigger] points[i]),
        encode_utf8(text) == encode_points(points, PointE5 { lat: 0, lon: 0 }),
    ensures
        polyline_of(text) == if points.len() <= 500 {
            Ok(Seq::new(points.len(), |i: int| point_in_degrees(points[i])))
        } else {
            Err(PolylineError::TooManyPoints)
        },
{
    if points.len() <= MAX_PATH_POINTS {
        law_polyline_reads_back(points);
    } else {
        law_long_polyline_is_refused(points);
    }
}

proof fn lemma_raw_fault(bytes: Seq<u8>, i: nat, count: nat)
    ensures
        raw_delta(bytes, i, count) != Err::<(nat, nat), PolylineError>(
            PolylineError::TooManyOverlays,
        ),
    decreases bytes.len() - i,
{
    if i < bytes.len() {
        lemma_raw_fault(bytes, i + 1, count + 1);
    }
}

/// No polyline has a fault in the number of overlays.
pub proof fn lemma_points_fault(bytes: Seq<u8>, i: nat, last: PointE5, count: nat)
    ensures
        points_at(bytes, i, last, count) != Err::<Seq<PointE5>, PolylineError>(
            PolylineError::TooManyOverlays,
        ),
    decreases bytes.len() - i,
{
    if i < bytes.len() {
        lemma_raw_fault(bytes, i, 0);
        lemma_raw_delta(bytes, i, 0);
        if let Ok((lat_delta, j)) = delta_at(bytes, i) {
            lemma_raw_fault(bytes, j, 0);
            lemma_raw_delta(bytes, j, 0);
            if let Ok((lon_delta, k)) = delta_at(bytes, j) {
                let p = PointE5 { lat: last.lat + lat_delta, lon: last.lon + lon_delta };
                lemma_points_fault(bytes, k, p, count + 1);
            }
        }
    }
}

proof fn lemma_points_bounded(bytes: Seq<u8>, i: nat, last: PointE5, count: nat)
    requires
        count <= MAX_PATH_POINTS,
    ensures
        points_at(bytes, i, last, count) matches Ok(points) ==> {
            &&& points.len() + count <= MAX_PATH_POINTS
            &&& forall|j: int| 0 <= j < points.len() ==> in_bounds(#[trigger] points[j])
            &&& i < bytes.len() ==> points.len() >= 1
        },
    decreases bytes.len() - i,
{
    if i < bytes.len() {
        lemma_raw_delta(bytes, i, 0);
        if let Ok((lat_delta, j)) = delta_at(bytes, i) {
            lemma_raw_delta(bytes, j, 0);
            if let Ok((lon_delta, k)) = delta_at(bytes, j) {
                let p = PointE5 { lat: last.lat + lat_delta, lon: last.lon + lon_delta };
                if count < MAX_PATH_POINTS {
                    lemma_points_bounded(bytes, k, p, count + 1);
                }
            }
        }
    }
}

/// A polyline that decodes has between one point and the limit, and all of its
/// points lie on the map.
pub proof fn law_polyline_is_bounded(bytes: Seq<u8>)
    ensures
        polyline_points(bytes) matches Ok(points) ==> {
            &&& 1 <= points.len() <= 500
            &&& forall|j: int| 0 <= j < points.len() ==> in_bounds(#[trigger] points[j])
        },
{
    lemma_points_bounded(bytes, 0, PointE5 { lat: 0, lon: 0 }, 0);
}

/// A point of a polyline keeps its longitude and its latitude: each becomes a number of
/// degrees of five decimal places, with its own sign.
pub proof fn law_points_keep_their_coordinates(p: PointE5)
    ensures
        point_in_degrees(p).lon.scale == -5,
        point_in_degrees(p).lat.scale == -5,
        point_in_degrees(p).lon.negative <==> p.lon < 0,
        point_in_degrees(p).lat.negative <==> p.lat < 0,
        p.lon >= 0 ==> point_in_degrees(p).lon.coefficient == p.lon,
        p.lon < 0 ==> point_in_degrees(p).lon.coefficient == -p.lon,
        p.lat >= 0 ==> point_in_degrees(p).lat.coefficient == p.lat,
        p.lat < 0 ==> point_in_degrees(p).lat.coefficient == -p.lat,
{
}

/// The points of a polyline lie on the map: a quarter of a turn to the poles and half a
/// turn to each side, in units of 1e-5 degrees.
pub proof fn law_the_map_ends_at_the_poles(p: PointE5)
    ensures
        in_bounds(p) <==> -9_000_000 <= p.lat <= 9_000_000 && -18_000_000 <= p.lon <= 18_000_000,
{
}

/// What a point shows is what it holds.
pub proof fn law_points_show_their_fields(p: LngLat, points: Seq<LngLat>, i: int)
    requires
        0 <= i < points.len(),
    ensures
        p@.lon == p.lon@,
        p@.lat == p.lat@,
        point_views(points).len() == points.len(),
        point_views(points)[i].lon == points[i].lon@,
        point_views(points)[i].lat == points[i].lat@,
{
}

} // verus!
