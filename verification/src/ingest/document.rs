//! GeoJSON documents.
//!
//! Coordinates in GeoJSON are always longitude and latitude, so nothing is projected here; they are
//! only checked.
use vstd::prelude::*;
use vstd::utf8::*;
use crate::double::Double;
use crate::geometry;
use crate::geometry::Coord;
use crate::geometry::Geometry;
use crate::geometry::GeometryView;
use crate::geometry::Polygon;
use crate::geometry::PolygonView;
use crate::ingest::error::IngestError;
use crate::ingest::error::IngestResult;
use crate::json;
use crate::json::Entry;
use crate::json::JsonMap;
use crate::json::JsonValue;
use crate::json::JsonView;
use crate::text;
use geojson::Value;

verus! {

/// The geometry of a GeoJSON object: positions, lists of positions, and so on.
#[derive(Debug)]
pub enum GeoJsonValue {
    Point(Vec<Double>),
    MultiPoint(Vec<Vec<Double>>),
    LineString(Vec<Vec<Double>>),
    MultiLineString(Vec<Vec<Vec<Double>>>),
    Polygon(Vec<Vec<Vec<Double>>>),
    MultiPolygon(Vec<Vec<Vec<Vec<Double>>>>),
    GeometryCollection,
}

/// A position: two or more numbers.
pub type Position = Seq<Double>;

/// The geometry of a GeoJSON object.
#[verifier::ext_equal]
pub enum ValueView {
    Point(Position),
    MultiPoint(Seq<Position>),
    LineString(Seq<Position>),
    MultiLineString(Seq<Seq<Position>>),
    Polygon(Seq<Seq<Position>>),
    MultiPolygon(Seq<Seq<Seq<Position>>>),
    GeometryCollection,
}

/// Positions.
pub open spec fn positions(s: Seq<Vec<Double>>) -> Seq<Position> {
    Seq::new(s.len(), |i: int| s[i]@)
}

/// Lists of positions.
pub open spec fn position_lists(s: Seq<Vec<Vec<Double>>>) -> Seq<Seq<Position>> {
    Seq::new(s.len(), |i: int| positions(s[i]@))
}

/// Lists of lists of positions.
pub open spec fn position_nests(s: Seq<Vec<Vec<Vec<Double>>>>) -> Seq<Seq<Seq<Position>>> {
    Seq::new(s.len(), |i: int| position_lists(s[i]@))
}

impl View for GeoJsonValue {
    type V = ValueView;

    open spec fn view(&self) -> ValueView {
        match self {
            GeoJsonValue::Point(p) => ValueView::Point(p@),
            GeoJsonValue::MultiPoint(ps) => ValueView::MultiPoint(positions(ps@)),
            GeoJsonValue::LineString(ps) => ValueView::LineString(positions(ps@)),
            GeoJsonValue::MultiLineString(ls) => ValueView::MultiLineString(position_lists(ls@)),
            GeoJsonValue::Polygon(rs) => ValueView::Polygon(position_lists(rs@)),
            GeoJsonValue::MultiPolygon(ps) => ValueView::MultiPolygon(position_nests(ps@)),
            GeoJsonValue::GeometryCollection => ValueView::GeometryCollection,
        }
    }
}

/// The `id` member of a feature.
#[derive(Debug, Clone, Copy, PartialEq, Eq, Structural)]
pub enum FeatureId {
    Text,
    /// A number, where it is a whole one that is not negative.
    Number(Option<u64>),
}

/// A feature of a document.
#[verifier::ext_equal]
pub struct FeatureView {
    pub id: Option<FeatureId>,
    pub properties: Option<Seq<Entry>>,
    pub geometry: Option<ValueView>,
}

/// `geojson::FeatureCollection`, a parsed document.
#[verifier::external_type_specification]
#[verifier::external_body]
pub struct ExFeatureCollection(geojson::FeatureCollection);

/// The features that a collection holds, in order.
pub uninterp spec fn features_of(fc: geojson::FeatureCollection) -> Seq<FeatureView>;

/// The features of a text that `geojson` reads as a feature collection.
pub uninterp spec fn collection_in(text: Seq<char>) -> Option<Seq<FeatureView>>;

/// The feature of a text that `geojson` reads as a single feature.
pub uninterp spec fn feature_in(text: Seq<char>) -> Option<FeatureView>;

/// The geometry of a text that `geojson` reads as a bare geometry.
pub uninterp spec fn geometry_in(text: Seq<char>) -> Option<ValueView>;

/// Reads a feature collection with the `FromStr` of `geojson::FeatureCollection`; the text
/// determines whether it is one and what it holds.
#[verifier::external_body]
fn parse_collection(text: &str) -> (r: Option<geojson::FeatureCollection>)
    ensures
        match r {
            Some(fc) => collection_in(text@) == Some(features_of(fc)),
            None => collection_in(text@) is None,
        },
{
    text.parse::<geojson::FeatureCollection>().ok()
}

/// Reads a single feature with the `FromStr` of `geojson::Feature`, as a collection of one; the
/// text determines whether it is one and what it holds.
#[verifier::external_body]
fn parse_feature(text: &str) -> (r: Option<geojson::FeatureCollection>)
    ensures
        match r {
            Some(fc) => feature_in(text@) matches Some(f) && features_of(fc) == seq![f],
            None => feature_in(text@) is None,
        },
{
    let feature = text.parse::<geojson::Feature>().ok()?;
    Some(geojson::FeatureCollection { features: vec![feature], bbox: None, foreign_members: None })
}

/// The feature that a bare geometry stands for.
pub open spec fn bare_feature(v: ValueView) -> FeatureView {
    FeatureView { id: None, properties: None, geometry: Some(v) }
}

/// Reads a bare geometry with the `FromStr` of `geojson::Geometry`, as a collection of one feature
/// that holds nothing else; the text determines whether it is one and what it holds.
#[verifier::external_body]
fn parse_geometry(text: &str) -> (r: Option<geojson::FeatureCollection>)
    ensures
        match r {
            Some(fc) => geometry_in(text@) matches Some(v) && features_of(fc) == seq![
                bare_feature(v),
            ],
            None => geometry_in(text@) is None,
        },
{
    let geometry = Some(text.parse::<geojson::Geometry>().ok()?);
    let feature = geojson::Feature {
        bbox: None,
        geometry,
        id: None,
        properties: None,
        foreign_members: None,
    };
    Some(geojson::FeatureCollection { features: vec![feature], bbox: None, foreign_members: None })
}

/// How many features a `geojson::FeatureCollection` holds.
#[verifier::external_body]
fn feature_count(fc: &geojson::FeatureCollection) -> (n: usize)
    ensures
        n == features_of(*fc).len(),
{
    fc.features.len()
}

/// The `id` of a feature in a `geojson::FeatureCollection`.
#[verifier::external_body]
fn feature_id(fc: &geojson::FeatureCollection, i: usize) -> (r: Option<FeatureId>)
    requires
        i < features_of(*fc).len(),
    ensures
        r == features_of(*fc)[i as int].id,
{
    match fc.features[i].id.as_ref()? {
        geojson::feature::Id::Number(n) => Some(FeatureId::Number(n.as_u64())),
        geojson::feature::Id::String(_) => Some(FeatureId::Text),
    }
}

/// The keys of the properties of a feature in a `geojson::FeatureCollection`; a map holds no key
/// twice.
#[verifier::external_body]
fn property_keys(fc: &geojson::FeatureCollection, i: usize) -> (r: Option<Vec<String>>)
    requires
        i < features_of(*fc).len(),
    ensures
        match features_of(*fc)[i as int].properties {
            Some(p) => {
                &&& r matches Some(keys)
                &&& keys@.len() == p.len()
                &&& forall|k: int| 0 <= k < p.len() ==> (#[trigger] keys@[k])@ == p[k].0
                &&& json::keys_distinct(p)
            },
            None => r is None,
        },
{
    Some(fc.features[i].properties.as_ref()?.keys().cloned().collect())
}

/// The value of a property of a feature.
pub open spec fn property(f: FeatureView, key: Seq<char>) -> Option<JsonView> {
    match f.properties {
        Some(p) => match json::key_place(p, key) {
            Some(k) => Some(p[k].1),
            None => None,
        },
        None => None,
    }
}

/// The value of a property of a feature in a `geojson::FeatureCollection`, looked up by its key.
#[verifier::external_body]
fn property_value(fc: &geojson::FeatureCollection, i: usize, key: &str) -> (r: Option<JsonValue>)
    requires
        i < features_of(*fc).len(),
    ensures
        match property(features_of(*fc)[i as int], key@) {
            Some(v) => r matches Some(value) && value@ == v,
            None => r is None,
        },
{
    Some(match fc.features[i].properties.as_ref()?.get(key)? {
        serde_json::Value::Null => JsonValue::Null,
        serde_json::Value::Bool(b) => JsonValue::Bool(*b),
        serde_json::Value::Number(n) => match (n.as_u64(), n.as_i64(), n.as_f64()) {
            (Some(u), _, _) => JsonValue::Unsigned(u),
            (_, Some(i), _) => JsonValue::Negative(i),
            (_, _, f) => JsonValue::Float {
                value: Double { bits: f?.to_bits() },
                spelling: n.to_string(),
            },
        },
        serde_json::Value::String(s) => JsonValue::Text(s.clone()),
        nested => JsonValue::Nested(nested.to_string()),
    })
}

/// A point, points or a line.
pub open spec fn flat(v: ValueView) -> bool {
    v is Point || v is MultiPoint || v is LineString
}

/// The geometry of a feature in a `geojson::FeatureCollection`, number by number, where it is a
/// point, points or a line.
#[verifier::external_body]
fn flat_geometry(fc: &geojson::FeatureCollection, i: usize) -> (r: Option<GeoJsonValue>)
    requires
        i < features_of(*fc).len(),
    ensures
        match features_of(*fc)[i as int].geometry {
            Some(v) => if flat(v) {
                r matches Some(value) && value@ == v
            } else {
                r is None
            },
            None => r is None,
        },
{
    let pos = |p: &geojson::Position| p.iter().map(|x| Double { bits: x.to_bits() }).collect();
    let line = |l: &geojson::LineStringType| l.iter().map(pos).collect::<Vec<Vec<_>>>();
    match &fc.features[i].geometry.as_ref()?.value {
        Value::Point(p) => Some(GeoJsonValue::Point(pos(p))),
        Value::MultiPoint(ps) => Some(GeoJsonValue::MultiPoint(line(ps))),
        Value::LineString(ps) => Some(GeoJsonValue::LineString(line(ps))),
        _ => None,
    }
}

/// The geometry of a feature in a `geojson::FeatureCollection`, number by number, where it is made
/// of several lines or rings, or a collection.
#[verifier::external_body]
fn nested_geometry(fc: &geojson::FeatureCollection, i: usize) -> (r: Option<GeoJsonValue>)
    requires
        i < features_of(*fc).len(),
    ensures
        match features_of(*fc)[i as int].geometry {
            Some(v) => if flat(v) {
                r is None
            } else {
                r matches Some(value) && value@ == v
            },
            None => r is None,
        },
{
    let pos = |p: &geojson::Position| p.iter().map(|x| Double { bits: x.to_bits() }).collect();
    let rings = |v: &geojson::PolygonType| -> Vec<Vec<_>> {
        v.iter().map(|l| l.iter().map(pos).collect()).collect()
    };
    match &fc.features[i].geometry.as_ref()?.value {
        Value::MultiLineString(ls) => Some(GeoJsonValue::MultiLineString(rings(ls))),
        Value::Polygon(rs) => Some(GeoJsonValue::Polygon(rings(rs))),
        Value::MultiPolygon(m) => Some(GeoJsonValue::MultiPolygon(m.iter().map(rings).collect())),
        Value::GeometryCollection(_) => Some(GeoJsonValue::GeometryCollection),
        _ => None,
    }
}

fn feature_geometry(fc: &geojson::FeatureCollection, i: usize) -> (r: Option<GeoJsonValue>)
    requires
        i < features_of(*fc).len(),
    ensures
        match features_of(*fc)[i as int].geometry {
            Some(v) => r matches Some(value) && value@ == v,
            None => r is None,
        },
{
    match flat_geometry(fc, i) {
        Some(v) => Some(v),
        None => nested_geometry(fc, i),
    }
}

/// The largest longitude and latitude in magnitude.
pub open spec fn lon_limit() -> Double {
    Double { bits: 0x4066_8000_0000_0000 }
}

pub open spec fn lat_limit() -> Double {
    Double { bits: 0x4056_8000_0000_0000 }
}

/// The negative of a number.
pub open spec fn negative(d: Double) -> Double {
    Double { bits: (d.bits + 0x8000_0000_0000_0000) as u64 }
}

/// Whether a number lies between `-limit` and `limit`.
pub open spec fn within(d: Double, limit: Double) -> bool {
    !d.lt_num(negative(limit)) && !limit.lt_num(d)
}

/// What is wrong with a longitude and a latitude.
#[derive(Debug, Clone, Copy, PartialEq, Eq, Structural)]
pub enum LonLatFault {
    NonFinite,
    OutOfRange,
}

/// What is wrong with a longitude and a latitude, where something is.
pub open spec fn lonlat_fault(lon: Double, lat: Double) -> Option<LonLatFault> {
    if !lon.finite() || !lat.finite() {
        Some(LonLatFault::NonFinite)
    } else if !within(lon, lon_limit()) || !within(lat, lat_limit()) {
        Some(LonLatFault::OutOfRange)
    } else {
        None
    }
}

/// Checks that a longitude and a latitude are finite and in range: 180 and 90 degrees.
pub fn validate_lonlat(lon: Double, lat: Double) -> (r: Result<(), LonLatFault>)
    ensures
        match lonlat_fault(lon, lat) {
            Some(fault) => r == Result::<(), LonLatFault>::Err(fault),
            None => r is Ok,
        },
{
    if !lon.is_finite() || !lat.is_finite() {
        return Err(LonLatFault::NonFinite);
    }
    let max_lon = Double { bits: 0x4066_8000_0000_0000 };
    let min_lon = Double { bits: 0xc066_8000_0000_0000 };
    let max_lat = Double { bits: 0x4056_8000_0000_0000 };
    let min_lat = Double { bits: 0xc056_8000_0000_0000 };
    if lon.less_than(min_lon) || max_lon.less_than(lon) || lat.less_than(min_lat)
        || max_lat.less_than(lat) {
        return Err(LonLatFault::OutOfRange);
    }
    Ok(())
}

/// What is said of a bad longitude and latitude, given how the two are shown.
pub open spec fn lonlat_message(fault: LonLatFault, lon: Seq<char>, lat: Seq<char>) -> Seq<char> {
    match fault {
        LonLatFault::NonFinite => "non-finite coordinate ("@ + lon + ", "@ + lat + ")"@,
        LonLatFault::OutOfRange => "coordinate ("@ + lon + ", "@ + lat + ") outside WGS84 range"@,
    }
}

/// Says what is wrong with a longitude and a latitude, given how the two are shown.
pub fn describe_lonlat(fault: LonLatFault, lon: &str, lat: &str) -> (s: String)
    ensures
        s@ == lonlat_message(fault, lon@, lat@),
{
    match fault {
        LonLatFault::NonFinite => {
            let head = text::join3("non-finite coordinate (", lon, ", ");
            text::join3(head.as_str(), lat, ")")
        },
        LonLatFault::OutOfRange => {
            let head = text::join3("coordinate (", lon, ", ");
            text::join3(head.as_str(), lat, ") outside WGS84 range")
        },
    }
}

/// What is wrong with a position.
#[derive(Debug, Clone, Copy, PartialEq, Eq, Structural)]
pub enum PositionFault {
    /// It has fewer than two numbers.
    Short,
    LonLat(LonLatFault),
}

/// What is wrong with a position, where something is.
pub open spec fn position_fault(pos: Position) -> Option<PositionFault> {
    if pos.len() < 2 {
        Some(PositionFault::Short)
    } else {
        match lonlat_fault(pos[0], pos[1]) {
            Some(fault) => Some(PositionFault::LonLat(fault)),
            None => None,
        }
    }
}

/// The coordinates of a position.
pub open spec fn position_coord(pos: Position) -> Coord {
    Coord { x: pos[0], y: pos[1] }
}

fn to_coord(pos: &[Double]) -> (r: Result<Coord, PositionFault>)
    ensures
        match position_fault(pos@) {
            Some(fault) => r == Result::<Coord, PositionFault>::Err(fault),
            None => r == Result::<Coord, PositionFault>::Ok(position_coord(pos@)),
        },
{
    if pos.len() < 2 {
        return Err(PositionFault::Short);
    }
    match validate_lonlat(pos[0], pos[1]) {
        Ok(_) => Ok(Coord { x: pos[0], y: pos[1] }),
        Err(fault) => Err(PositionFault::LonLat(fault)),
    }
}

/// Where a position stands in a geometry: in which of its polygons, in which line or ring, and at
/// which place there. What a geometry does not have counts as zero.
#[derive(Debug, Clone, Copy, PartialEq, Eq, Structural)]
pub struct Place {
    pub polygon: usize,
    pub ring: usize,
    pub position: usize,
}

/// What is wrong with a geometry.
#[derive(Debug, Clone, Copy, PartialEq, Eq, Structural)]
pub enum GeometryFault {
    /// A polygon has no ring.
    NoRings,
    /// It is a collection of geometries.
    Collection,
    /// The position of a point has fewer than two numbers.
    ShortPoint,
    /// A position of a line or a ring has fewer than two numbers.
    ShortPosition,
    LonLat { place: Place, fault: LonLatFault },
}

/// A position's fault as a geometry's; `short` is that of a position with fewer than two numbers.
pub open spec fn placed(place: Place, fault: PositionFault, short: GeometryFault) -> GeometryFault {
    match fault {
        PositionFault::Short => short,
        PositionFault::LonLat(fault) => GeometryFault::LonLat { place, fault },
    }
}

fn put_at(place: Place, fault: PositionFault, short: GeometryFault) -> (r: GeometryFault)
    ensures
        r == placed(place, fault, short),
{
    match fault {
        PositionFault::Short => short,
        PositionFault::LonLat(fault) => GeometryFault::LonLat { place, fault },
    }
}

/// The coordinates of the first `n` positions, or the place of the first bad one and what is wrong
/// with it.
pub open spec fn line_coords(ps: Seq<Position>, n: nat) -> Result<
    Seq<Coord>,
    (usize, PositionFault),
>
    decreases n,
{
    if n == 0 {
        Ok(Seq::empty())
    } else {
        match line_coords(ps, (n - 1) as nat) {
            Err(e) => Err(e),
            Ok(before) => match position_fault(ps[n - 1]) {
                Some(fault) => Err(((n - 1) as usize, fault)),
                None => Ok(before.push(position_coord(ps[n - 1]))),
            },
        }
    }
}

proof fn bad_line_stays(ps: Seq<Position>, n: nat, m: nat)
    requires
        n <= m,
        line_coords(ps, n) is Err,
    ensures
        line_coords(ps, m) == line_coords(ps, n),
    decreases m,
{
    if n < m {
        bad_line_stays(ps, n, (m - 1) as nat);
    }
}

fn to_line(ps: &[Vec<Double>]) -> (r: Result<Vec<Coord>, (usize, PositionFault)>)
    ensures
        match line_coords(positions(ps@), ps@.len()) {
            Err(e) => r == Result::<Vec<Coord>, (usize, PositionFault)>::Err(e),
            Ok(line) => r matches Ok(out) && out@ == line,
        },
        r matches Err(e) ==> e.0 < ps@.len() && position_fault(ps@[e.0 as int]@) == Some(e.1),
{
    let ghost all = positions(ps@);
    let mut out: Vec<Coord> = Vec::new();
    let mut i: usize = 0;
    while i < ps.len()
        invariant
            all == positions(ps@),
            i <= ps@.len(),
            line_coords(all, i as nat) == Result::<Seq<Coord>, (usize, PositionFault)>::Ok(out@),
        decreases ps@.len() - i,
    {
        proof {
            if line_coords(all, (i + 1) as nat) is Err {
                bad_line_stays(all, (i + 1) as nat, ps@.len());
            }
        }
        match to_coord(ps[i].as_slice()) {
            Ok(c) => {
                out.push(c);
            },
            Err(fault) => {
                return Err((i, fault));
            },
        }
        i = i + 1;
    }
    Ok(out)
}

/// The lines of the first `n` lists, or the place of the first bad position and what is wrong with
/// it.
pub open spec fn lines_coords(ls: Seq<Seq<Position>>, n: nat) -> Result<
    Seq<Seq<Coord>>,
    (usize, usize, PositionFault),
>
    decreases n,
{
    if n == 0 {
        Ok(Seq::empty())
    } else {
        match lines_coords(ls, (n - 1) as nat) {
            Err(e) => Err(e),
            Ok(before) => match line_coords(ls[n - 1], ls[n - 1].len()) {
                Err((k, fault)) => Err(((n - 1) as usize, k, fault)),
                Ok(line) => Ok(before.push(line)),
            },
        }
    }
}

proof fn bad_lines_stay(ls: Seq<Seq<Position>>, n: nat, m: nat)
    requires
        n <= m,
        lines_coords(ls, n) is Err,
    ensures
        lines_coords(ls, m) == lines_coords(ls, n),
    decreases m,
{
    if n < m {
        bad_lines_stay(ls, n, (m - 1) as nat);
    }
}

fn to_lines(ls: &[Vec<Vec<Double>>]) -> (r: Result<Vec<Vec<Coord>>, (usize, usize, PositionFault)>)
    ensures
        match lines_coords(position_lists(ls@), ls@.len()) {
            Err(e) => r == Result::<Vec<Vec<Coord>>, (usize, usize, PositionFault)>::Err(e),
            Ok(lines) => r matches Ok(out) && geometry::coord_lists(out@) == lines,
        },
        r matches Err(e) ==> {
            &&& e.0 < ls@.len()
            &&& e.1 < ls@[e.0 as int]@.len()
            &&& position_fault(ls@[e.0 as int]@[e.1 as int]@) == Some(e.2)
        },
{
    let ghost all = position_lists(ls@);
    let mut out: Vec<Vec<Coord>> = Vec::new();
    let mut i: usize = 0;
    assert(geometry::coord_lists(out@) =~= Seq::<Seq<Coord>>::empty());
    while i < ls.len()
        invariant
            all == position_lists(ls@),
            i <= ls@.len(),
            lines_coords(all, i as nat) == Result::<
                Seq<Seq<Coord>>,
                (usize, usize, PositionFault),
            >::Ok(geometry::coord_lists(out@)),
        decreases ls@.len() - i,
    {
        proof {
            if lines_coords(all, (i + 1) as nat) is Err {
                bad_lines_stay(all, (i + 1) as nat, ls@.len());
            }
        }
        let ghost before = out@;
        match to_line(ls[i].as_slice()) {
            Ok(line) => {
                out.push(line);
                assert(geometry::coord_lists(out@) =~= geometry::coord_lists(before).push(line@));
            },
            Err((k, fault)) => {
                return Err((i, k, fault));
            },
        }
        i = i + 1;
    }
    Ok(out)
}

/// The polygon of rings: the first is its exterior. `polygon` is the place among the polygons of a
/// geometry.
pub open spec fn rings_polygon(rings: Seq<Seq<Position>>, polygon: usize) -> Result<
    PolygonView,
    GeometryFault,
> {
    if rings.len() == 0 {
        Err(GeometryFault::NoRings)
    } else {
        match lines_coords(rings, rings.len()) {
            Err((ring, position, fault)) => Err(
                placed(Place { polygon, ring, position }, fault, GeometryFault::ShortPosition),
            ),
            Ok(lines) => Ok(Polygon::made(lines[0], lines.skip(1))),
        }
    }
}

fn to_polygon(rings: &[Vec<Vec<Double>>], polygon: usize) -> (r: Result<Polygon, GeometryFault>)
    ensures
        match rings_polygon(position_lists(rings@), polygon) {
            Err(fault) => r == Result::<Polygon, GeometryFault>::Err(fault),
            Ok(p) => r matches Ok(out) && out@ == p,
        },
        r matches Err(GeometryFault::LonLat { place, fault }) ==> {
            &&& place.polygon == polygon
            &&& place.ring < rings@.len()
            &&& place.position < rings@[place.ring as int]@.len()
            &&& position_fault(rings@[place.ring as int]@[place.position as int]@) == Some(
                PositionFault::LonLat(fault),
            )
        },
{
    if rings.len() == 0 {
        return Err(GeometryFault::NoRings);
    }
    proof {
        lines_count(position_lists(rings@), rings@.len());
    }
    match to_lines(rings) {
        Err((ring, position, fault)) => Err(
            put_at(Place { polygon, ring, position }, fault, GeometryFault::ShortPosition),
        ),
        Ok(mut lines) => {
            let ghost all = geometry::coord_lists(lines@);
            let exterior = lines.remove(0);
            assert(geometry::coord_lists(lines@) =~= all.skip(1));
            Ok(Polygon::new(exterior, lines))
        },
    }
}

proof fn lines_count(ls: Seq<Seq<Position>>, n: nat)
    ensures
        lines_coords(ls, n) matches Ok(lines) ==> lines.len() == n,
    decreases n,
{
    if n > 0 {
        lines_count(ls, (n - 1) as nat);
    }
}

/// The polygons of the first `n` lists of rings, or what is wrong with the first bad one.
pub open spec fn nests_polygons(ns: Seq<Seq<Seq<Position>>>, n: nat) -> Result<
    Seq<PolygonView>,
    GeometryFault,
>
    decreases n,
{
    if n == 0 {
        Ok(Seq::empty())
    } else {
        match nests_polygons(ns, (n - 1) as nat) {
            Err(fault) => Err(fault),
            Ok(before) => match rings_polygon(ns[n - 1], (n - 1) as usize) {
                Err(fault) => Err(fault),
                Ok(p) => Ok(before.push(p)),
            },
        }
    }
}

proof fn bad_nests_stay(ns: Seq<Seq<Seq<Position>>>, n: nat, m: nat)
    requires
        n <= m,
        nests_polygons(ns, n) is Err,
    ensures
        nests_polygons(ns, m) == nests_polygons(ns, n),
    decreases m,
{
    if n < m {
        bad_nests_stay(ns, n, (m - 1) as nat);
    }
}

fn to_polygons(ns: &[Vec<Vec<Vec<Double>>>]) -> (r: Result<Vec<Polygon>, GeometryFault>)
    ensures
        match nests_polygons(position_nests(ns@), ns@.len()) {
            Err(fault) => r == Result::<Vec<Polygon>, GeometryFault>::Err(fault),
            Ok(ps) => r matches Ok(out) && geometry::polygon_views(out@) == ps,
        },
        r matches Err(GeometryFault::LonLat { place, fault }) ==> {
            let rings = ns@[place.polygon as int]@;
            &&& place.polygon < ns@.len()
            &&& place.ring < rings.len()
            &&& place.position < rings[place.ring as int]@.len()
            &&& position_fault(rings[place.ring as int]@[place.position as int]@) == Some(
                PositionFault::LonLat(fault),
            )
        },
{
    let ghost all = position_nests(ns@);
    let mut out: Vec<Polygon> = Vec::new();
    let mut i: usize = 0;
    assert(geometry::polygon_views(out@) =~= Seq::<PolygonView>::empty());
    while i < ns.len()
        invariant
            all == position_nests(ns@),
            i <= ns@.len(),
            nests_polygons(all, i as nat) == Result::<Seq<PolygonView>, GeometryFault>::Ok(
                geometry::polygon_views(out@),
            ),
        decreases ns@.len() - i,
    {
        proof {
            if nests_polygons(all, (i + 1) as nat) is Err {
                bad_nests_stay(all, (i + 1) as nat, ns@.len());
            }
        }
        let ghost before = out@;
        match to_polygon(ns[i].as_slice(), i) {
            Ok(p) => {
                out.push(p);
                assert(geometry::polygon_views(out@) =~= geometry::polygon_views(before).push(p@));
            },
            Err(fault) => {
                return Err(fault);
            },
        }
        i = i + 1;
    }
    Ok(out)
}

/// The geometry of a value, or what is wrong with it.
pub open spec fn value_geometry(v: ValueView) -> Result<GeometryView, GeometryFault> {
    match v {
        ValueView::Point(p) => match position_fault(p) {
            Some(fault) => Err(
                placed(
                    Place { polygon: 0, ring: 0, position: 0 },
                    fault,
                    GeometryFault::ShortPoint,
                ),
            ),
            None => Ok(GeometryView::Point(position_coord(p))),
        },
        ValueView::MultiPoint(ps) => match line_coords(ps, ps.len()) {
            Err((position, fault)) => Err(
                placed(Place { polygon: 0, ring: 0, position }, fault, GeometryFault::ShortPoint),
            ),
            Ok(cs) => Ok(GeometryView::MultiPoint(cs)),
        },
        ValueView::LineString(ps) => match line_coords(ps, ps.len()) {
            Err((position, fault)) => Err(
                placed(
                    Place { polygon: 0, ring: 0, position },
                    fault,
                    GeometryFault::ShortPosition,
                ),
            ),
            Ok(cs) => Ok(GeometryView::LineString(cs)),
        },
        ValueView::MultiLineString(ls) => match lines_coords(ls, ls.len()) {
            Err((ring, position, fault)) => Err(
                placed(Place { polygon: 0, ring, position }, fault, GeometryFault::ShortPosition),
            ),
            Ok(lines) => Ok(GeometryView::MultiLineString(lines)),
        },
        ValueView::Polygon(rs) => match rings_polygon(rs, 0) {
            Err(fault) => Err(fault),
            Ok(p) => Ok(GeometryView::Polygon(p)),
        },
        ValueView::MultiPolygon(ns) => match nests_polygons(ns, ns.len()) {
            Err(fault) => Err(fault),
            Ok(ps) => Ok(GeometryView::MultiPolygon(ps)),
        },
        ValueView::GeometryCollection => Err(GeometryFault::Collection),
    }
}

/// The position of a value at a place.
pub open spec fn position_at(v: ValueView, place: Place) -> Position {
    let (a, b, c) = (place.polygon as int, place.ring as int, place.position as int);
    match v {
        ValueView::Point(p) => p,
        ValueView::MultiPoint(ps) => ps[c],
        ValueView::LineString(ps) => ps[c],
        ValueView::MultiLineString(ls) => ls[b][c],
        ValueView::Polygon(rs) => rs[b][c],
        ValueView::MultiPolygon(ns) => ns[a][b][c],
        ValueView::GeometryCollection => Seq::empty(),
    }
}

/// Whether a value has a position at a place, with two or more numbers.
pub open spec fn has_position(v: ValueView, place: Place) -> bool {
    let (a, b, c) = (place.polygon as int, place.ring as int, place.position as int);
    &&& match v {
        ValueView::Point(p) => true,
        ValueView::MultiPoint(ps) => c < ps.len(),
        ValueView::LineString(ps) => c < ps.len(),
        ValueView::MultiLineString(ls) => b < ls.len() && c < ls[b].len(),
        ValueView::Polygon(rs) => b < rs.len() && c < rs[b].len(),
        ValueView::MultiPolygon(ns) => a < ns.len() && b < ns[a].len() && c < ns[a][b].len(),
        ValueView::GeometryCollection => false,
    }
    &&& position_at(v, place).len() >= 2
}

/// Whether a fault is one of a position that the value has.
pub open spec fn fault_stands(v: ValueView, fault: GeometryFault) -> bool {
    fault matches GeometryFault::LonLat { place, .. } ==> has_position(v, place)
}

/// Turns positions into a geometry. Every coordinate is checked.
pub fn convert_geometry_value(value: &GeoJsonValue) -> (r: Result<Geometry, GeometryFault>)
    ensures
        match value_geometry(value@) {
            Err(fault) => r == Result::<Geometry, GeometryFault>::Err(fault),
            Ok(g) => r matches Ok(out) && out@ == g,
        },
        r matches Err(fault) ==> fault_stands(value@, fault),
{
    match value {
        GeoJsonValue::Point(p) => match to_coord(p.as_slice()) {
            Ok(c) => Ok(Geometry::Point(c)),
            Err(fault) => Err(
                put_at(
                    Place { polygon: 0, ring: 0, position: 0 },
                    fault,
                    GeometryFault::ShortPoint,
                ),
            ),
        },
        GeoJsonValue::MultiPoint(ps) => match to_line(ps.as_slice()) {
            Ok(cs) => Ok(Geometry::MultiPoint(cs)),
            Err((position, fault)) => Err(
                put_at(Place { polygon: 0, ring: 0, position }, fault, GeometryFault::ShortPoint),
            ),
        },
        GeoJsonValue::LineString(ps) => match to_line(ps.as_slice()) {
            Ok(cs) => Ok(Geometry::LineString(cs)),
            Err((position, fault)) => Err(
                put_at(
                    Place { polygon: 0, ring: 0, position },
                    fault,
                    GeometryFault::ShortPosition,
                ),
            ),
        },
        GeoJsonValue::MultiLineString(ls) => match to_lines(ls.as_slice()) {
            Ok(lines) => Ok(Geometry::MultiLineString(lines)),
            Err((ring, position, fault)) => Err(
                put_at(Place { polygon: 0, ring, position }, fault, GeometryFault::ShortPosition),
            ),
        },
        GeoJsonValue::Polygon(rs) => match to_polygon(rs.as_slice(), 0) {
            Ok(p) => Ok(Geometry::Polygon(p)),
            Err(fault) => Err(fault),
        },
        GeoJsonValue::MultiPolygon(ns) => match to_polygons(ns.as_slice()) {
            Ok(ps) => Ok(Geometry::MultiPolygon(ps)),
            Err(fault) => Err(fault),
        },
        GeoJsonValue::GeometryCollection => Err(GeometryFault::Collection),
    }
}

/// The decimal text that `Display` gives of a double-precision number.
pub uninterp spec fn number_text(bits: u64) -> Seq<char>;

/// The bits of a number of a feature's position.
pub open spec fn number_at(f: FeatureView, place: Place, axis: int) -> u64 {
    position_at(f.geometry->Some_0, place)[axis].bits
}

/// How a number of a position in a `geojson::FeatureCollection` is shown, by the `Display` of its
/// type; the number alone determines the text.
#[verifier::external_body]
fn shown_number(fc: &geojson::FeatureCollection, i: usize, at: Place, axis: usize) -> (r: String)
    requires
        i < features_of(*fc).len(),
        features_of(*fc)[i as int].geometry matches Some(v) && has_position(v, at),
        axis < 2,
    ensures
        r@ == number_text(number_at(features_of(*fc)[i as int], at, axis as int)),
{
    let Place { polygon, ring, position } = at;
    match fc.features[i].geometry.as_ref().map(|g| &g.value) {
        Some(Value::Point(p)) => p[axis].to_string(),
        Some(Value::MultiPoint(ps)) => ps[position][axis].to_string(),
        Some(Value::LineString(ps)) => ps[position][axis].to_string(),
        Some(Value::MultiLineString(ls)) => ls[ring][position][axis].to_string(),
        Some(Value::Polygon(rs)) => rs[ring][position][axis].to_string(),
        Some(Value::MultiPolygon(ns)) => ns[polygon][ring][position][axis].to_string(),
        Some(Value::GeometryCollection(_)) | None => String::new(),
    }
}

/// What is said of a value with a fault.
pub open spec fn fault_message(v: ValueView, fault: GeometryFault) -> Seq<char> {
    match fault {
        GeometryFault::NoRings => "polygon has no rings"@,
        GeometryFault::Collection =>
            "GeometryCollection is not supported by the MVP tiler; flatten upstream"@,
        GeometryFault::ShortPoint => "position must have at least 2 coordinates"@,
        GeometryFault::ShortPosition => "short position"@,
        GeometryFault::LonLat { place, fault } => {
            let pos = position_at(v, place);
            lonlat_message(fault, number_text(pos[0].bits), number_text(pos[1].bits))
        },
    }
}

/// Says what is wrong with the geometry of a feature.
fn describe_fault(fc: &geojson::FeatureCollection, i: usize, fault: GeometryFault) -> (s: String)
    requires
        i < features_of(*fc).len(),
        features_of(*fc)[i as int].geometry matches Some(v) && fault_stands(v, fault),
    ensures
        s@ == fault_message(features_of(*fc)[i as int].geometry->Some_0, fault),
{
    match fault {
        GeometryFault::NoRings => "polygon has no rings".to_string(),
        GeometryFault::Collection =>
            "GeometryCollection is not supported by the MVP tiler; flatten upstream".to_string(),
        GeometryFault::ShortPoint => "position must have at least 2 coordinates".to_string(),
        GeometryFault::ShortPosition => "short position".to_string(),
        GeometryFault::LonLat { place, fault } => {
            let lon = shown_number(fc, i, place, 0);
            let lat = shown_number(fc, i, place, 1);
            describe_lonlat(fault, lon.as_str(), lat.as_str())
        },
    }
}

/// A feature read from a document, its properties as they are.
#[derive(Debug)]
pub struct ParsedFeature {
    pub id: Option<u64>,
    pub geometry: Geometry,
    pub properties: JsonMap,
}

/// A feature read from a document.
#[verifier::ext_equal]
pub struct ParsedView {
    pub id: Option<u64>,
    pub geometry: GeometryView,
    pub properties: Seq<Entry>,
}

impl View for ParsedFeature {
    type V = ParsedView;

    open spec fn view(&self) -> ParsedView {
        ParsedView { id: self.id, geometry: self.geometry@, properties: self.properties@ }
    }
}

/// The features, in order.
pub open spec fn parsed_views(s: Seq<ParsedFeature>) -> Seq<ParsedView> {
    Seq::new(s.len(), |i: int| s[i]@)
}

/// The number of a feature whose `id` is one.
pub open spec fn numeric_id(id: Option<FeatureId>) -> Option<u64> {
    match id {
        Some(FeatureId::Number(n)) => n,
        _ => None,
    }
}

/// What a feature is read as: nothing where it has no geometry.
pub open spec fn parsed(f: FeatureView) -> Result<Option<ParsedView>, GeometryFault> {
    match f.geometry {
        None => Ok(None),
        Some(v) => match value_geometry(v) {
            Err(fault) => Err(fault),
            Ok(geometry) => Ok(
                Some(
                    ParsedView {
                        id: numeric_id(f.id),
                        geometry,
                        properties: match f.properties {
                            Some(p) => p,
                            None => Seq::empty(),
                        },
                    },
                ),
            ),
        },
    }
}

/// Reads a feature from its members; nothing where it has no geometry.
pub fn convert_feature(
    id: Option<FeatureId>,
    properties: Option<JsonMap>,
    geometry: Option<GeoJsonValue>,
) -> (r: Result<Option<ParsedFeature>, GeometryFault>)
    requires
        properties matches Some(p) ==> p.wf(),
    ensures
        ({
            let f = FeatureView {
                id,
                properties: match properties {
                    Some(p) => Some(p@),
                    None => None,
                },
                geometry: match geometry {
                    Some(v) => Some(v@),
                    None => None,
                },
            };
            match parsed(f) {
                Err(fault) => r == Result::<Option<ParsedFeature>, GeometryFault>::Err(fault),
                Ok(None) => r matches Ok(None),
                Ok(Some(p)) => r matches Ok(Some(out)) && out@ == p && out.properties.wf(),
            }
        }),
        r matches Err(fault) ==> (geometry matches Some(v) && fault_stands(v@, fault)),
{
    let value = match geometry {
        Some(v) => v,
        None => {
            return Ok(None);
        },
    };
    let geometry = match convert_geometry_value(&value) {
        Ok(g) => g,
        Err(fault) => {
            return Err(fault);
        },
    };
    let properties = match properties {
        Some(p) => p,
        None => JsonMap::new(),
    };
    let id: Option<u64> = match id {
        Some(FeatureId::Number(n)) => n,
        _ => None,
    };
    Ok(Some(ParsedFeature { id, geometry, properties }))
}

/// What the first `n` features are read as, or what is wrong with the first bad one. Features
/// without a geometry are left out.
pub open spec fn parsed_all(fs: Seq<FeatureView>, n: nat) -> Result<Seq<ParsedView>, Seq<char>>
    decreases n,
{
    if n == 0 {
        Ok(Seq::empty())
    } else {
        match parsed_all(fs, (n - 1) as nat) {
            Err(msg) => Err(msg),
            Ok(before) => match parsed(fs[n - 1]) {
                Err(fault) => Err(fault_message(fs[n - 1].geometry->Some_0, fault)),
                Ok(None) => Ok(before),
                Ok(Some(p)) => Ok(before.push(p)),
            },
        }
    }
}

proof fn bad_feature_stays(fs: Seq<FeatureView>, n: nat, m: nat)
    requires
        n <= m,
        parsed_all(fs, n) is Err,
    ensures
        parsed_all(fs, m) == parsed_all(fs, n),
    decreases m,
{
    if n < m {
        bad_feature_stays(fs, n, (m - 1) as nat);
    }
}

/// The features of a document: a feature collection, a single feature, or a bare geometry.
pub open spec fn document_features(text: Seq<char>) -> Option<Seq<FeatureView>> {
    match collection_in(text) {
        Some(fs) => Some(fs),
        None => match feature_in(text) {
            Some(f) => Some(seq![f]),
            None => match geometry_in(text) {
                Some(v) => Some(seq![bare_feature(v)]),
                None => None,
            },
        },
    }
}

/// What a document is read as, or what is wrong with it.
pub open spec fn document(bytes: Seq<u8>) -> Result<Seq<ParsedView>, Seq<char>> {
    if !valid_utf8(bytes) {
        Err("not UTF-8: "@ + text::utf8_error(bytes))
    } else {
        match document_features(decode_utf8(bytes)) {
            None => Err("document is not a FeatureCollection, Feature, or Geometry"@),
            Some(fs) => parsed_all(fs, fs.len()),
        }
    }
}

fn parse_document(text: &str) -> (r: Option<geojson::FeatureCollection>)
    ensures
        match document_features(text@) {
            Some(fs) => r matches Some(fc) && features_of(fc) == fs,
            None => r is None,
        },
{
    match parse_collection(text) {
        Some(fc) => Some(fc),
        None => match parse_feature(text) {
            Some(fc) => Some(fc),
            None => parse_geometry(text),
        },
    }
}

/// The properties of a feature, entry by entry.
fn feature_properties(fc: &geojson::FeatureCollection, i: usize) -> (r: Option<JsonMap>)
    requires
        i < features_of(*fc).len(),
    ensures
        match features_of(*fc)[i as int].properties {
            Some(p) => r matches Some(m) && m@ == p && m.wf(),
            None => r is None,
        },
{
    let ghost f = features_of(*fc)[i as int];
    let keys = match property_keys(fc, i) {
        Some(keys) => keys,
        None => {
            return None;
        },
    };
    let ghost p = f.properties->Some_0;
    let mut m = JsonMap::new();
    let mut k: usize = 0;
    assert(m@ =~= p.take(0));
    while k < keys.len()
        invariant
            k <= keys@.len(),
            i < features_of(*fc).len(),
            f == features_of(*fc)[i as int],
            f.properties == Some(p),
            keys@.len() == p.len(),
            forall|j: int| 0 <= j < p.len() ==> (#[trigger] keys@[j])@ == p[j].0,
            json::keys_distinct(p),
            m.wf(),
            m@ == p.take(k as int),
        decreases keys@.len() - k,
    {
        proof {
            let key = p[k as int].0;
            assert(keys@[k as int]@ == key);
            json::key_place_props(p, key);
            let at = json::key_place(p, key)->Some_0;
            assert(p[k as int].0 == key);
            assert(at == k);
            json::key_place_props(p.take(k as int), key);
            if json::key_place(p.take(k as int), key) is Some {
                let j = json::key_place(p.take(k as int), key)->Some_0;
                assert(p.take(k as int)[j] == p[j]);
            }
        }
        match property_value(fc, i, keys[k].as_str()) {
            Some(v) => {
                m.insert(keys[k].clone(), v);
                assert(m@ =~= p.take(k + 1));
            },
            None => {},
        }
        k = k + 1;
    }
    assert(p.take(k as int) =~= p);
    Some(m)
}

/// Reads a document into features: a feature collection, a single feature or a bare geometry, in
/// UTF-8. Features without a geometry are left out.
pub fn parse_geojson(bytes: &[u8]) -> (r: IngestResult<Vec<ParsedFeature>>)
    ensures
        match document(bytes@) {
            Err(msg) => r matches Err(e) && e.is_geojson(msg),
            Ok(fs) => {
                &&& r matches Ok(out)
                &&& parsed_views(out@) == fs
                &&& forall|i: int| 0 <= i < out@.len() ==> (#[trigger] out@[i]).properties.wf()
            },
        },
{
    let text = match text::from_utf8(bytes) {
        Ok(t) => t,
        Err(msg) => {
            return Err(
                IngestError::InvalidGeoJson(text::join2("not UTF-8: ", msg.as_str())),
            );
        },
    };
    let fc = match parse_document(text.as_str()) {
        Some(fc) => fc,
        None => {
            return Err(
                IngestError::InvalidGeoJson(
                    "document is not a FeatureCollection, Feature, or Geometry".to_string(),
                ),
            );
        },
    };
    let ghost fs = features_of(fc);
    let n: usize = feature_count(&fc);
    let mut out: Vec<ParsedFeature> = Vec::new();
    assert(parsed_views(out@) =~= Seq::<ParsedView>::empty());
    for i in 0..n
        invariant
            fs == features_of(fc),
            n == fs.len(),
            document(bytes@) == parsed_all(fs, fs.len()),
            parsed_all(fs, i as nat) == Result::<Seq<ParsedView>, Seq<char>>::Ok(
                parsed_views(out@),
            ),
            forall|j: int| 0 <= j < out@.len() ==> (#[trigger] out@[j]).properties.wf(),
    {
        proof {
            if parsed_all(fs, (i + 1) as nat) is Err {
                bad_feature_stays(fs, (i + 1) as nat, fs.len());
            }
        }
        let id = feature_id(&fc, i);
        let properties = feature_properties(&fc, i);
        let geometry = feature_geometry(&fc, i);
        let ghost before = out@;
        match convert_feature(id, properties, geometry) {
            Ok(Some(f)) => {
                out.push(f);
                assert(parsed_views(out@) =~= parsed_views(before).push(f@));
            },
            Ok(None) => {},
            Err(fault) => {
                return Err(IngestError::InvalidGeoJson(describe_fault(&fc, i, fault)));
            },
        }
    }
    Ok(out)
}

} // verus!
