//! What a document is read as, position by position and feature by feature, and how a geometry is
//! written.
use vstd::prelude::*;
use vstd::utf8::*;
use crate::double::Double;
use crate::geometry;
use crate::geometry::{Coord, GeometryView, PolygonView};
use crate::ingest::artifact;
use crate::ingest::document;
use crate::ingest::document::{
    FeatureId, FeatureView, GeometryFault, LonLatFault, ParsedView, Place, Position, PositionFault,
    ValueView,
};
use crate::picking;
use crate::text;

verus! {

/// The exponent and fraction bits of a number.
pub open spec fn unsigned_bits(d: Double) -> int {
    d.bits as int % 0x8000_0000_0000_0000
}

/// A longitude is finite and at most 180 degrees away from zero, a latitude at most 90; what is
/// not finite is told apart from what is out of range.
pub proof fn degrees_are_limited(lon: Double, lat: Double)
    ensures
        document::lonlat_fault(lon, lat) is None <==> unsigned_bits(lon) <= 0x4066_8000_0000_0000
            && unsigned_bits(lat) <= 0x4056_8000_0000_0000,
        document::lonlat_fault(lon, lat) == Some(LonLatFault::NonFinite) <==> unsigned_bits(lon)
            >= 0x7ff0_0000_0000_0000 || unsigned_bits(lat) >= 0x7ff0_0000_0000_0000,
{
}

/// A position starts with the longitude and the latitude; what follows is not looked at, and one
/// with fewer than two numbers is refused.
pub proof fn positions_start_with_the_longitude(p: Position)
    ensures
        document::position_fault(p) == Some(PositionFault::Short) <==> p.len() < 2,
        p.len() >= 2 ==> match document::lonlat_fault(p[0], p[1]) {
            Some(fault) => document::position_fault(p) == Some(PositionFault::LonLat(fault)),
            None => document::position_fault(p) is None,
        },
        document::position_coord(p).x == p[0],
        document::position_coord(p).y == p[1],
{
}

/// A line is read point by point: as many points as positions, each with the first two numbers of
/// its position. The first bad position is the one that is reported.
pub proof fn lines_are_read_point_by_point(ps: Seq<Position>, n: nat)
    requires
        n <= ps.len() <= usize::MAX,
    ensures
        match document::line_coords(ps, n) {
            Ok(line) => {
                &&& line.len() == n
                &&& forall|i: int|
                    0 <= i < n ==> (#[trigger] line[i]).x == ps[i][0] && line[i].y == ps[i][1]
                        && document::position_fault(ps[i]) is None
            },
            Err((k, fault)) => {
                &&& k < n
                &&& document::position_fault(ps[k as int]) == Some(fault)
                &&& forall|i: int|
                    0 <= i < k ==> document::position_fault(#[trigger] ps[i]) is None
            },
        },
    decreases n,
{
    if n > 0 {
        lines_are_read_point_by_point(ps, (n - 1) as nat);
        if let Ok(before) = document::line_coords(ps, (n - 1) as nat) {
            assert forall|i: int| 0 <= i < n - 1 implies document::position_fault(
                #[trigger] ps[i],
            ) is None by {
                assert(before[i].x == ps[i][0]);
            }
        }
    }
}

/// Several lines are read one by one; the first bad position of the first bad line is reported.
pub proof fn lines_are_read_one_by_one(ls: Seq<Seq<Position>>, n: nat)
    requires
        n <= ls.len() <= usize::MAX,
    ensures
        match document::lines_coords(ls, n) {
            Ok(lines) => {
                &&& lines.len() == n
                &&& forall|i: int|
                    0 <= i < n ==> document::line_coords(ls[i], ls[i].len()) == Result::<
                        Seq<Coord>,
                        (usize, PositionFault),
                    >::Ok(#[trigger] lines[i])
            },
            Err((r, k, fault)) => {
                &&& r < n
                &&& document::line_coords(ls[r as int], ls[r as int].len()) == Result::<
                    Seq<Coord>,
                    (usize, PositionFault),
                >::Err((k, fault))
                &&& forall|i: int|
                    0 <= i < r ==> document::line_coords(#[trigger] ls[i], ls[i].len()) is Ok
            },
        },
    decreases n,
{
    if n > 0 {
        lines_are_read_one_by_one(ls, (n - 1) as nat);
        if let Ok(before) = document::lines_coords(ls, (n - 1) as nat) {
            assert forall|i: int| 0 <= i < n - 1 implies document::line_coords(
                #[trigger] ls[i],
                ls[i].len(),
            ) is Ok by {
                assert(document::line_coords(ls[i], ls[i].len()) == Result::<
                    Seq<Coord>,
                    (usize, PositionFault),
                >::Ok(before[i]));
            }
        }
    }
}

/// A polygon has its first ring as the exterior and all the others as holes, in order, each closed;
/// without rings it is refused.
pub proof fn polygons_start_with_the_exterior(rings: Seq<Seq<Position>>, at: usize)
    requires
        rings.len() <= usize::MAX,
    ensures
        rings.len() == 0 ==> document::rings_polygon(rings, at) == Result::<
            PolygonView,
            GeometryFault,
        >::Err(GeometryFault::NoRings),
        document::rings_polygon(rings, at) matches Ok(p) ==> {
            &&& p.interiors.len() == rings.len() - 1
            &&& document::line_coords(rings[0], rings[0].len()) matches Ok(line) && p.exterior
                == geometry::close(line)
            &&& forall|i: int|
                0 <= i < p.interiors.len() ==> (document::line_coords(
                    rings[i + 1],
                    rings[i + 1].len(),
                ) matches Ok(line) && #[trigger] p.interiors[i] == geometry::close(line))
        },
        document::rings_polygon(rings, at) is Err <==> rings.len() == 0 || exists|i: int|
            0 <= i < rings.len() && document::line_coords(
                #[trigger] rings[i],
                rings[i].len(),
            ) is Err,
        document::rings_polygon(rings, at) matches Err(GeometryFault::LonLat { place, fault })
            ==> place.polygon == at && place.ring < rings.len(),
{
    lines_are_read_one_by_one(rings, rings.len());
    if rings.len() > 0 {
        match document::lines_coords(rings, rings.len()) {
            Ok(lines) => {
                let p = document::rings_polygon(rings, at)->Ok_0;
                assert(document::line_coords(rings[0], rings[0].len()) == Result::<
                    Seq<Coord>,
                    (usize, PositionFault),
                >::Ok(lines[0]));
                assert forall|i: int| 0 <= i < p.interiors.len() implies (document::line_coords(
                    rings[i + 1],
                    rings[i + 1].len(),
                ) matches Ok(line) && #[trigger] p.interiors[i] == geometry::close(line)) by {
                    assert(lines.skip(1)[i] == lines[i + 1]);
                }
                assert forall|i: int| 0 <= i < rings.len() implies document::line_coords(
                    #[trigger] rings[i],
                    rings[i].len(),
                ) is Ok by {
                    assert(document::line_coords(rings[i], rings[i].len()) == Result::<
                        Seq<Coord>,
                        (usize, PositionFault),
                    >::Ok(lines[i]));
                }
            },
            Err((r, k, fault)) => {
                assert(document::line_coords(rings[r as int], rings[r as int].len()) is Err);
            },
        }
    }
}

/// A bad position is reported with its place: the ring or line and the position in it. One that is
/// short is told by what it stands in, a point or a line.
pub proof fn bad_positions_are_placed(
    p: Position,
    ps: Seq<Position>,
    ls: Seq<Seq<Position>>,
    at: usize,
)
    ensures
        document::position_fault(p) matches Some(fault) ==> document::value_geometry(
            ValueView::Point(p),
        ) == Result::<GeometryView, GeometryFault>::Err(
            match fault {
                PositionFault::Short => GeometryFault::ShortPoint,
                PositionFault::LonLat(fault) => GeometryFault::LonLat {
                    place: Place { polygon: 0, ring: 0, position: 0 },
                    fault,
                },
            },
        ),
        document::line_coords(ps, ps.len()) matches Err((position, fault)) ==> {
            &&& document::value_geometry(ValueView::MultiPoint(ps)) == Result::<
                GeometryView,
                GeometryFault,
            >::Err(
                match fault {
                    PositionFault::Short => GeometryFault::ShortPoint,
                    PositionFault::LonLat(fault) => GeometryFault::LonLat {
                        place: Place { polygon: 0, ring: 0, position },
                        fault,
                    },
                },
            )
            &&& document::value_geometry(ValueView::LineString(ps)) == Result::<
                GeometryView,
                GeometryFault,
            >::Err(
                match fault {
                    PositionFault::Short => GeometryFault::ShortPosition,
                    PositionFault::LonLat(fault) => GeometryFault::LonLat {
                        place: Place { polygon: 0, ring: 0, position },
                        fault,
                    },
                },
            )
        },
        document::lines_coords(ls, ls.len()) matches Err((ring, position, fault)) ==> {
            &&& document::value_geometry(ValueView::MultiLineString(ls)) == Result::<
                GeometryView,
                GeometryFault,
            >::Err(
                match fault {
                    PositionFault::Short => GeometryFault::ShortPosition,
                    PositionFault::LonLat(fault) => GeometryFault::LonLat {
                        place: Place { polygon: 0, ring, position },
                        fault,
                    },
                },
            )
            &&& ls.len() > 0 ==> document::rings_polygon(ls, at) == Result::<
                PolygonView,
                GeometryFault,
            >::Err(
                match fault {
                    PositionFault::Short => GeometryFault::ShortPosition,
                    PositionFault::LonLat(fault) => GeometryFault::LonLat {
                        place: Place { polygon: at, ring, position },
                        fault,
                    },
                },
            )
        },
        document::rings_polygon(ls, 0) matches Err(fault) ==> document::value_geometry(
            ValueView::Polygon(ls),
        ) == Result::<GeometryView, GeometryFault>::Err(fault),
{
}

/// A bad polygon among several is reported as it would be alone, at its own place.
pub proof fn bad_polygons_are_reported(ns: Seq<Seq<Seq<Position>>>)
    ensures
        document::nests_polygons(ns, ns.len()) matches Err(fault) ==> document::value_geometry(
            ValueView::MultiPolygon(ns),
        ) == Result::<GeometryView, GeometryFault>::Err(fault),
{
}

/// Several polygons are read one by one, each with all its rings.
pub proof fn polygons_are_read_one_by_one(ns: Seq<Seq<Seq<Position>>>, n: nat)
    requires
        n <= ns.len() <= usize::MAX,
    ensures
        match document::nests_polygons(ns, n) {
            Ok(ps) => {
                &&& ps.len() == n
                &&& forall|i: int|
                    0 <= i < n ==> document::rings_polygon(ns[i], i as usize) == Result::<
                        PolygonView,
                        GeometryFault,
                    >::Ok(#[trigger] ps[i])
            },
            Err(fault) => exists|i: int|
                0 <= i < n && document::rings_polygon(#[trigger] ns[i], i as usize) == Result::<
                    PolygonView,
                    GeometryFault,
                >::Err(fault) && forall|j: int|
                    0 <= j < i ==> document::rings_polygon(#[trigger] ns[j], j as usize) is Ok,
        },
    decreases n,
{
    if n > 0 {
        let m = (n - 1) as nat;
        polygons_are_read_one_by_one(ns, m);
        match document::nests_polygons(ns, m) {
            Ok(before) => {
                assert forall|j: int| 0 <= j < m implies document::rings_polygon(
                    #[trigger] ns[j],
                    j as usize,
                ) is Ok by {
                    assert(document::rings_polygon(ns[j], j as usize) == Result::<
                        PolygonView,
                        GeometryFault,
                    >::Ok(before[j]));
                }
                if document::rings_polygon(ns[m as int], m as usize) is Err {
                    assert(document::nests_polygons(ns, n) is Err);
                }
            },
            Err(fault) => {
                let i = choose|i: int|
                    0 <= i < m && document::rings_polygon(#[trigger] ns[i], i as usize)
                        == Result::<PolygonView, GeometryFault>::Err(fault) && forall|j: int|
                        0 <= j < i ==> document::rings_polygon(#[trigger] ns[j], j as usize) is Ok;
                assert(document::rings_polygon(ns[i], i as usize) is Err);
            },
        }
    }
}

/// A value is read as a geometry of its own kind with all its positions; a collection is refused.
pub proof fn values_keep_their_kind(v: ValueView)
    ensures
        match document::value_geometry(v) {
            Ok(GeometryView::Point(c)) => v matches ValueView::Point(p) && p.len() >= 2 && c.x
                == p[0] && c.y == p[1],
            Ok(GeometryView::MultiPoint(cs)) => v matches ValueView::MultiPoint(ps)
                && document::line_coords(ps, ps.len()) == Result::<
                Seq<Coord>,
                (usize, PositionFault),
            >::Ok(cs),
            Ok(GeometryView::LineString(cs)) => v matches ValueView::LineString(ps)
                && document::line_coords(ps, ps.len()) == Result::<
                Seq<Coord>,
                (usize, PositionFault),
            >::Ok(cs),
            Ok(GeometryView::MultiLineString(lines)) => v matches ValueView::MultiLineString(ls)
                && document::lines_coords(ls, ls.len()) == Result::<
                Seq<Seq<Coord>>,
                (usize, usize, PositionFault),
            >::Ok(lines),
            Ok(GeometryView::Polygon(p)) => v matches ValueView::Polygon(rs)
                && document::rings_polygon(rs, 0) == Result::<PolygonView, GeometryFault>::Ok(p),
            Ok(GeometryView::MultiPolygon(ps)) => v matches ValueView::MultiPolygon(ns)
                && document::nests_polygons(ns, ns.len()) == Result::<
                Seq<PolygonView>,
                GeometryFault,
            >::Ok(ps),
            Ok(_) => false,
            Err(_) => true,
        },
        v is GeometryCollection <==> document::value_geometry(v) == Result::<
            GeometryView,
            GeometryFault,
        >::Err(GeometryFault::Collection),
        v matches ValueView::Point(p) ==> document::value_geometry(v) is Ok
            == document::position_fault(p) is None,
        v matches ValueView::MultiPoint(ps) ==> document::value_geometry(v) is Ok
            == document::line_coords(ps, ps.len()) is Ok,
        v matches ValueView::LineString(ps) ==> document::value_geometry(v) is Ok
            == document::line_coords(ps, ps.len()) is Ok,
        v matches ValueView::MultiLineString(ls) ==> document::value_geometry(v) is Ok
            == document::lines_coords(ls, ls.len()) is Ok,
        v matches ValueView::Polygon(rs) ==> document::value_geometry(v) is Ok
            == document::rings_polygon(rs, 0) is Ok,
        v matches ValueView::MultiPolygon(ns) ==> document::value_geometry(v) is Ok
            == document::nests_polygons(ns, ns.len()) is Ok,
{
    if let ValueView::MultiPolygon(ns) = v {
        nests_are_no_collections(ns, ns.len());
    }
}

proof fn nests_are_no_collections(ns: Seq<Seq<Seq<Position>>>, n: nat)
    ensures
        !(document::nests_polygons(ns, n) matches Err(GeometryFault::Collection)),
    decreases n,
{
    if n > 0 {
        nests_are_no_collections(ns, (n - 1) as nat);
    }
}

/// A feature is read with its properties as they are and with its id where that is a number; one
/// without a geometry is left out.
pub proof fn features_are_read_as_they_are(f: FeatureView)
    ensures
        f.geometry is None <==> document::parsed(f) == Result::<
            Option<ParsedView>,
            GeometryFault,
        >::Ok(None),
        document::parsed(f) matches Ok(Some(p)) ==> {
            &&& f.geometry matches Some(v) && document::value_geometry(v) == Result::<
                GeometryView,
                GeometryFault,
            >::Ok(p.geometry)
            &&& f.properties matches Some(props) ==> p.properties == props
            &&& f.properties is None ==> p.properties.len() == 0
            &&& match f.id {
                Some(FeatureId::Number(Some(n))) => p.id == Some(n),
                _ => p.id is None,
            }
        },
        document::parsed(f) matches Err(fault) ==> (f.geometry matches Some(v)
            && document::value_geometry(v) == Result::<GeometryView, GeometryFault>::Err(fault)),
{
}

/// A feature that was read.
pub open spec fn if_read() -> spec_fn(FeatureView) -> Option<ParsedView> {
    |f: FeatureView|
        match document::parsed(f) {
            Ok(Some(p)) => Some(p),
            _ => None,
        }
}

/// All features with a geometry are read, in order, unless one is bad; then the first bad one is
/// reported.
pub proof fn documents_lose_no_feature(fs: Seq<FeatureView>, n: nat)
    requires
        n <= fs.len(),
    ensures
        match document::parsed_all(fs, n) {
            Ok(out) => picking::picked(fs.take(n as int), if_read(), out) && forall|i: int|
                0 <= i < n ==> document::parsed(#[trigger] fs[i]) is Ok,
            Err(msg) => exists|i: int|
                0 <= i < n && (document::parsed(#[trigger] fs[i]) matches Err(fault) && msg
                    == document::fault_message(fs[i].geometry->Some_0, fault)) && forall|j: int|
                    0 <= j < i ==> document::parsed(#[trigger] fs[j]) is Ok,
        },
    decreases n,
{
    if n == 0 {
        picking::picked_of_nothing(fs.take(0), if_read());
    } else {
        let m = (n - 1) as nat;
        documents_lose_no_feature(fs, m);
        let s = fs.take(n as int);
        assert(s.drop_last() =~= fs.take(m as int));
        match document::parsed_all(fs, m) {
            Ok(before) => match document::parsed(fs[m as int]) {
                Err(fault) => {
                    assert(document::parsed(fs[m as int]) is Err);
                },
                Ok(p) => {
                    let out = document::parsed_all(fs, n)->Ok_0;
                    picking::picked_grows(s, if_read(), before, out);
                },
            },
            Err(msg) => {
                let i = choose|i: int|
                    0 <= i < m && (document::parsed(#[trigger] fs[i]) matches Err(fault) && msg
                        == document::fault_message(fs[i].geometry->Some_0, fault)) && forall|j: int|
                        0 <= j < i ==> document::parsed(#[trigger] fs[j]) is Ok;
                assert(document::parsed(fs[i]) is Err);
            },
        }
    }
}

/// A text is read as a feature collection where it is one, otherwise as a single feature, otherwise
/// as a bare geometry; anything else, and bytes that are no text, are refused.
pub proof fn documents_come_in_three_forms(t: Seq<char>, b: Seq<u8>)
    ensures
        ({
            let read = document::document(encode_utf8(t));
            match document::collection_in(t) {
                Some(fs) => read == document::parsed_all(fs, fs.len()),
                None => match document::feature_in(t) {
                    Some(f) => read == document::parsed_all(seq![f], 1),
                    None => match document::geometry_in(t) {
                        Some(v) => read == document::parsed_all(
                            seq![FeatureView { id: None, properties: None, geometry: Some(v) }],
                            1,
                        ),
                        None => read == Result::<Seq<ParsedView>, Seq<char>>::Err(
                            "document is not a FeatureCollection, Feature, or Geometry"@,
                        ),
                    },
                },
            }
        }),
        !valid_utf8(b) ==> document::document(b) == Result::<Seq<ParsedView>, Seq<char>>::Err(
            "not UTF-8: "@ + text::utf8_error(b),
        ),
{
    encode_utf8_valid_utf8(t);
    encode_utf8_decode_utf8(t);
}

/// What is said of a bad geometry names what is wrong with it, with the bad coordinates.
pub proof fn faults_are_named(v: ValueView, place: Place)
    ensures
        document::fault_message(v, GeometryFault::NoRings) == "polygon has no rings"@,
        document::fault_message(v, GeometryFault::Collection)
            == "GeometryCollection is not supported by the MVP tiler; flatten upstream"@,
        document::fault_message(v, GeometryFault::ShortPoint)
            == "position must have at least 2 coordinates"@,
        document::fault_message(v, GeometryFault::ShortPosition) == "short position"@,
        ({
            let pos = document::position_at(v, place);
            let lon = document::number_text(pos[0].bits);
            let lat = document::number_text(pos[1].bits);
            &&& document::fault_message(
                v,
                GeometryFault::LonLat { place, fault: LonLatFault::NonFinite },
            ) == "non-finite coordinate ("@ + lon + ", "@ + lat + ")"@
            &&& document::fault_message(
                v,
                GeometryFault::LonLat { place, fault: LonLatFault::OutOfRange },
            ) == "coordinate ("@ + lon + ", "@ + lat + ") outside WGS84 range"@
        }),
{
}

/// The position of a fault is the one at its place in the polygon, the ring and the line.
pub proof fn places_lead_to_positions(place: Place, p: Position, ps: Seq<Position>, ls: Seq<
    Seq<Position>,
>, ns: Seq<Seq<Seq<Position>>>)
    ensures
        document::position_at(ValueView::Point(p), place) == p,
        document::position_at(ValueView::MultiPoint(ps), place) == ps[place.position as int],
        document::position_at(ValueView::LineString(ps), place) == ps[place.position as int],
        document::position_at(ValueView::MultiLineString(ls), place)
            == ls[place.ring as int][place.position as int],
        document::position_at(ValueView::Polygon(ls), place)
            == ls[place.ring as int][place.position as int],
        document::position_at(ValueView::MultiPolygon(ns), place)
            == ns[place.polygon as int][place.ring as int][place.position as int],
{
}

/// A written position is the longitude and then the latitude.
pub proof fn positions_are_written_longitude_first(c: Coord, line: Seq<Coord>, i: int)
    requires
        0 <= i < line.len(),
    ensures
        artifact::pair(c) == seq![c.x, c.y],
        artifact::pairs(line).len() == line.len(),
        artifact::pairs(line)[i] == seq![line[i].x, line[i].y],
{
}

/// A written polygon is its exterior and behind it its holes; rectangles and triangles are written
/// as the polygons they are, a single segment not at all.
pub proof fn polygons_are_written_exterior_first(p: PolygonView, a: Coord, b: Coord, c: Coord)
    ensures
        ({
            let rings = artifact::polygon_pairs(p);
            &&& rings.len() == 1 + p.interiors.len()
            &&& rings[0] == artifact::pairs(p.exterior)
            &&& forall|i: int|
                0 <= i < p.interiors.len() ==> #[trigger] rings[i + 1] == artifact::pairs(
                    p.interiors[i],
                )
        }),
        artifact::geojson_value(GeometryView::Line(a, b)) is None,
        geometry::as_polygon(GeometryView::Rect(a, b)) matches GeometryView::Polygon(q)
            && artifact::geojson_value(GeometryView::Rect(a, b)) == Some(
            ValueView::Polygon(artifact::polygon_pairs(q)),
        ),
        geometry::as_polygon(GeometryView::Triangle(a, b, c)) matches GeometryView::Polygon(q)
            && artifact::geojson_value(GeometryView::Triangle(a, b, c)) == Some(
            ValueView::Polygon(artifact::polygon_pairs(q)),
        ),
{
}

/// A feature is written with its id, its properties and its geometry.
pub proof fn features_are_written_as_they_are(f: ParsedView)
    ensures
        artifact::written_feature(f).id == f.id,
        artifact::written_feature(f).properties == f.properties,
        artifact::written_feature(f).geometry == artifact::geojson_value(f.geometry),
{
}

} // verus!
