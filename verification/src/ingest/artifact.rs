//! The normalized artifact: a dataset as a GeoJSON feature collection.
use vstd::prelude::*;
use crate::double::Double;
use crate::geometry;
use crate::geometry::Coord;
use crate::geometry::Geometry;
use crate::geometry::GeometryView;
use crate::geometry::Polygon;
use crate::geometry::PolygonView;
use crate::ingest::document;
use crate::ingest::document::FeatureId;
use crate::ingest::document::FeatureView;
use crate::ingest::document::GeoJsonValue;
use crate::ingest::document::GeometryFault;
use crate::ingest::document::ParsedView;
use crate::ingest::document::Position;
use crate::ingest::document::PositionFault;
use crate::ingest::document::ValueView;
use crate::ingest::normalize::NormalizedDataset;
use crate::json::Entry;
use crate::json::JsonMap;

verus! {

/// The position of a coordinate pair.
pub open spec fn pair(c: Coord) -> Position {
    seq![c.x, c.y]
}

/// The positions of a line.
pub open spec fn pairs(line: Seq<Coord>) -> Seq<Position> {
    Seq::new(line.len(), |i: int| pair(line[i]))
}

/// The positions of lines.
pub open spec fn pair_lists(lines: Seq<Seq<Coord>>) -> Seq<Seq<Position>> {
    Seq::new(lines.len(), |i: int| pairs(lines[i]))
}

/// The positions of a polygon: the exterior, then the interiors.
pub open spec fn polygon_pairs(p: PolygonView) -> Seq<Seq<Position>> {
    seq![pairs(p.exterior)] + pair_lists(p.interiors)
}

/// The GeoJSON geometry of a geometry. A single segment has none, and a collection loses its members.
pub open spec fn geojson_value(g: GeometryView) -> Option<ValueView> {
    match g {
        GeometryView::Point(c) => Some(ValueView::Point(pair(c))),
        GeometryView::MultiPoint(cs) => Some(ValueView::MultiPoint(pairs(cs))),
        GeometryView::LineString(l) => Some(ValueView::LineString(pairs(l))),
        GeometryView::MultiLineString(ls) => Some(ValueView::MultiLineString(pair_lists(ls))),
        GeometryView::Polygon(p) => Some(ValueView::Polygon(polygon_pairs(p))),
        GeometryView::MultiPolygon(ps) => Some(
            ValueView::MultiPolygon(Seq::new(ps.len(), |i: int| polygon_pairs(ps[i]))),
        ),
        GeometryView::Rect(a, b) => match geometry::as_polygon(g) {
            GeometryView::Polygon(p) => Some(ValueView::Polygon(polygon_pairs(p))),
            _ => None,
        },
        GeometryView::Triangle(a, b, c) => match geometry::as_polygon(g) {
            GeometryView::Polygon(p) => Some(ValueView::Polygon(polygon_pairs(p))),
            _ => None,
        },
        GeometryView::Line(a, b) => None,
        GeometryView::Collection(cs) => Some(ValueView::GeometryCollection),
    }
}

fn line_positions(line: &[Coord]) -> (out: Vec<Vec<Double>>)
    ensures
        document::positions(out@) == pairs(line@),
{
    let mut out: Vec<Vec<Double>> = Vec::new();
    let mut i: usize = 0;
    while i < line.len()
        invariant
            i <= line@.len(),
            document::positions(out@) == pairs(line@.take(i as int)),
        decreases line@.len() - i,
    {
        let ghost before = out@;
        let p = vec![line[i].x, line[i].y];
        assert(p@ =~= pair(line@[i as int]));
        out.push(p);
        assert(document::positions(out@) =~= document::positions(before).push(p@));
        assert(pairs(line@.take(i + 1)) =~= pairs(line@.take(i as int)).push(p@));
        i = i + 1;
    }
    assert(line@.take(i as int) =~= line@);
    out
}

fn push_lines(out: &mut Vec<Vec<Vec<Double>>>, lines: &[Vec<Coord>])
    ensures
        document::position_lists(final(out)@) == document::position_lists(old(out)@) + pair_lists(
            geometry::coord_lists(lines@),
        ),
{
    let ghost lists = geometry::coord_lists(lines@);
    let ghost head = document::position_lists(out@);
    let mut i: usize = 0;
    assert(head + pair_lists(lists.take(0)) =~= head);
    while i < lines.len()
        invariant
            i <= lines@.len(),
            lists == geometry::coord_lists(lines@),
            document::position_lists(out@) == head + pair_lists(lists.take(i as int)),
        decreases lines@.len() - i,
    {
        let ghost before = out@;
        let l = line_positions(lines[i].as_slice());
        assert(lists[i as int] == lines@[i as int]@);
        out.push(l);
        assert(document::position_lists(out@) =~= document::position_lists(before).push(
            document::positions(l@),
        ));
        assert(head + pair_lists(lists.take(i + 1)) =~= (head + pair_lists(
            lists.take(i as int),
        )).push(document::positions(l@)));
        i = i + 1;
    }
    assert(lists.take(i as int) =~= lists);
}

fn polygon_positions(p: &Polygon) -> (out: Vec<Vec<Vec<Double>>>)
    ensures
        document::position_lists(out@) == polygon_pairs(p@),
{
    let mut out: Vec<Vec<Vec<Double>>> = Vec::new();
    let exterior = line_positions(p.exterior.as_slice());
    out.push(exterior);
    assert(document::position_lists(out@) =~= seq![pairs(p@.exterior)]);
    push_lines(&mut out, p.interiors.as_slice());
    out
}

fn polygons_positions(ps: &[Polygon]) -> (out: Vec<Vec<Vec<Vec<Double>>>>)
    ensures
        document::position_nests(out@) == Seq::new(
            ps@.len(),
            |i: int| polygon_pairs(geometry::polygon_views(ps@)[i]),
        ),
{
    let mut out: Vec<Vec<Vec<Vec<Double>>>> = Vec::new();
    let mut i: usize = 0;
    while i < ps.len()
        invariant
            i <= ps@.len(),
            out@.len() == i,
            forall|k: int|
                0 <= k < i ==> document::position_lists((#[trigger] out@[k])@) == polygon_pairs(
                    ps@[k]@,
                ),
        decreases ps@.len() - i,
    {
        let p = polygon_positions(&ps[i]);
        out.push(p);
        i = i + 1;
    }
    assert(document::position_nests(out@) =~= Seq::new(
        ps@.len(),
        |i: int| polygon_pairs(geometry::polygon_views(ps@)[i]),
    ));
    out
}

/// Turns a geometry into GeoJSON: the inverse of the reader.
pub fn geometry_to_geojson(geom: &Geometry) -> (r: Option<GeoJsonValue>)
    ensures
        match geojson_value(geom@) {
            Some(v) => r matches Some(value) && value@ == v,
            None => r is None,
        },
{
    match geom {
        Geometry::Point(c) => {
            let p = vec![c.x, c.y];
            assert(p@ =~= pair(*c));
            Some(GeoJsonValue::Point(p))
        },
        Geometry::MultiPoint(cs) => Some(GeoJsonValue::MultiPoint(line_positions(cs.as_slice()))),
        Geometry::LineString(l) => Some(GeoJsonValue::LineString(line_positions(l.as_slice()))),
        Geometry::MultiLineString(ls) => {
            let mut out: Vec<Vec<Vec<Double>>> = Vec::new();
            push_lines(&mut out, ls.as_slice());
            assert(document::position_lists(out@) =~= pair_lists(geometry::coord_lists(ls@)));
            Some(GeoJsonValue::MultiLineString(out))
        },
        Geometry::Polygon(p) => Some(GeoJsonValue::Polygon(polygon_positions(p))),
        Geometry::MultiPolygon(ps) => Some(
            GeoJsonValue::MultiPolygon(polygons_positions(ps.as_slice())),
        ),
        Geometry::Rect(a, b) => match Geometry::Rect(*a, *b).to_polygon() {
            Geometry::Polygon(p) => Some(GeoJsonValue::Polygon(polygon_positions(&p))),
            _ => None,
        },
        Geometry::Triangle(a, b, c) => match Geometry::Triangle(*a, *b, *c).to_polygon() {
            Geometry::Polygon(p) => Some(GeoJsonValue::Polygon(polygon_positions(&p))),
            _ => None,
        },
        Geometry::Line(_, _) => None,
        Geometry::Collection(_) => Some(GeoJsonValue::GeometryCollection),
    }
}

/// A feature of the artifact.
#[derive(Debug)]
pub struct ArtifactFeature {
    pub id: Option<u64>,
    pub geometry: Option<GeoJsonValue>,
    pub properties: JsonMap,
}

/// A feature of the artifact.
#[verifier::ext_equal]
pub struct ArtifactFeatureView {
    pub id: Option<u64>,
    pub geometry: Option<ValueView>,
    pub properties: Seq<Entry>,
}

impl View for ArtifactFeature {
    type V = ArtifactFeatureView;

    open spec fn view(&self) -> ArtifactFeatureView {
        ArtifactFeatureView {
            id: self.id,
            geometry: match self.geometry {
                Some(v) => Some(v@),
                None => None,
            },
            properties: self.properties@,
        }
    }
}

/// A dataset as a feature collection, ready to be serialized.
#[derive(Debug)]
pub struct Artifact {
    pub bbox: Option<Vec<Double>>,
    pub features: Vec<ArtifactFeature>,
}

/// A feature as the artifact has it.
pub open spec fn written_feature(f: ParsedView) -> ArtifactFeatureView {
    ArtifactFeatureView {
        id: f.id,
        geometry: geojson_value(f.geometry),
        properties: f.properties,
    }
}

/// Turns a dataset into a feature collection.
pub fn write_normalized_geojson(dataset: &NormalizedDataset) -> (out: Artifact)
    ensures
        match dataset.bbox {
            Some(b) => out.bbox matches Some(v) && v@ == seq![
                b.min_lon,
                b.min_lat,
                b.max_lon,
                b.max_lat,
            ],
            None => out.bbox is None,
        },
        out.features@.len() == dataset@.features.len(),
        forall|i: int|
            0 <= i < out.features@.len() ==> (#[trigger] out.features@[i])@ == written_feature(
                dataset@.features[i],
            ),
{
    let bbox = match &dataset.bbox {
        Some(b) => Some(b.to_vec()),
        None => None,
    };
    let mut features: Vec<ArtifactFeature> = Vec::new();
    let mut i: usize = 0;
    while i < dataset.features.len()
        invariant
            i <= dataset.features@.len(),
            features@.len() == i,
            forall|k: int|
                0 <= k < i ==> (#[trigger] features@[k])@ == written_feature(
                    dataset@.features[k],
                ),
        decreases dataset.features@.len() - i,
    {
        let f = &dataset.features[i];
        assert(dataset@.features[i as int] == f@);
        features.push(
            ArtifactFeature {
                id: f.id,
                geometry: geometry_to_geojson(&f.geometry),
                properties: f.properties.clone(),
            },
        );
        i = i + 1;
    }
    Artifact { bbox, features }
}

/// A line whose points are longitudes and latitudes.
pub open spec fn on_earth(line: Seq<Coord>) -> bool {
    forall|i: int|
        0 <= i < line.len() ==> document::lonlat_fault((#[trigger] line[i]).x, line[i].y) is None
}

/// Lines whose points are longitudes and latitudes.
pub open spec fn all_on_earth(lines: Seq<Seq<Coord>>) -> bool {
    forall|i: int| 0 <= i < lines.len() ==> on_earth(#[trigger] lines[i])
}

/// A polygon whose rings are closed and on earth.
pub open spec fn polygon_on_earth(p: PolygonView) -> bool {
    &&& on_earth(p.exterior)
    &&& geometry::closed_ring(p.exterior)
    &&& all_on_earth(p.interiors)
    &&& forall|i: int| 0 <= i < p.interiors.len() ==> geometry::closed_ring(#[trigger] p.interiors[i])
}

/// A geometry of a kind that GeoJSON has, on earth.
pub open spec fn readable(g: GeometryView) -> bool {
    match g {
        GeometryView::Point(c) => document::lonlat_fault(c.x, c.y) is None,
        GeometryView::MultiPoint(cs) => on_earth(cs),
        GeometryView::LineString(l) => on_earth(l),
        GeometryView::MultiLineString(ls) => all_on_earth(ls),
        GeometryView::Polygon(p) => polygon_on_earth(p),
        GeometryView::MultiPolygon(ps) => forall|i: int|
            0 <= i < ps.len() ==> polygon_on_earth(#[trigger] ps[i]),
        _ => false,
    }
}

proof fn line_comes_back(line: Seq<Coord>, n: nat)
    requires
        n <= line.len(),
        on_earth(line),
    ensures
        document::line_coords(pairs(line), n) == Result::<
            Seq<Coord>,
            (usize, PositionFault),
        >::Ok(line.take(n as int)),
    decreases n,
{
    if n == 0 {
        assert(line.take(0) =~= Seq::empty());
    } else {
        line_comes_back(line, (n - 1) as nat);
        assert(pairs(line)[n - 1] == pair(line[n - 1]));
        assert(line.take(n as int) =~= line.take(n - 1).push(line[n - 1]));
    }
}

proof fn lines_come_back(lines: Seq<Seq<Coord>>, n: nat)
    requires
        n <= lines.len(),
        all_on_earth(lines),
    ensures
        document::lines_coords(pair_lists(lines), n) == Result::<
            Seq<Seq<Coord>>,
            (usize, usize, PositionFault),
        >::Ok(lines.take(n as int)),
    decreases n,
{
    if n == 0 {
        assert(lines.take(0) =~= Seq::empty());
    } else {
        lines_come_back(lines, (n - 1) as nat);
        let line = lines[n - 1];
        line_comes_back(line, line.len());
        assert(line.take(line.len() as int) =~= line);
        assert(pair_lists(lines)[n - 1] == pairs(line));
        assert(lines.take(n as int) =~= lines.take(n - 1).push(line));
    }
}

proof fn polygon_comes_back(p: PolygonView, at: usize)
    requires
        polygon_on_earth(p),
    ensures
        document::rings_polygon(polygon_pairs(p), at) == Result::<PolygonView, GeometryFault>::Ok(
            p,
        ),
{
    let rings = seq![p.exterior] + p.interiors;
    assert(polygon_pairs(p) =~= pair_lists(rings));
    assert forall|i: int| 0 <= i < rings.len() implies on_earth(#[trigger] rings[i]) by {
        if i > 0 {
            assert(rings[i] == p.interiors[i - 1]);
        }
    }
    lines_come_back(rings, rings.len());
    assert(rings.take(rings.len() as int) =~= rings);
    assert(rings.skip(1) =~= p.interiors);
    let made = Polygon::made(p.exterior, p.interiors);
    assert(made.exterior == p.exterior);
    assert(made.interiors =~= p.interiors);
}

proof fn polygons_come_back(ps: Seq<PolygonView>, n: nat)
    requires
        n <= ps.len(),
        forall|i: int| 0 <= i < ps.len() ==> polygon_on_earth(#[trigger] ps[i]),
    ensures
        document::nests_polygons(Seq::new(ps.len(), |i: int| polygon_pairs(ps[i])), n) == Result::<
            Seq<PolygonView>,
            GeometryFault,
        >::Ok(ps.take(n as int)),
    decreases n,
{
    if n == 0 {
        assert(ps.take(0) =~= Seq::empty());
    } else {
        polygons_come_back(ps, (n - 1) as nat);
        polygon_comes_back(ps[n - 1], (n - 1) as usize);
        assert(ps.take(n as int) =~= ps.take(n - 1).push(ps[n - 1]));
    }
}

/// The reader takes back every geometry that was written, for the kinds that GeoJSON has, where the
/// coordinates are longitudes and latitudes and the rings are closed.
pub proof fn written_geometries_come_back(g: GeometryView)
    requires
        readable(g),
    ensures
        geojson_value(g) matches Some(v) && document::value_geometry(v) == Result::<
            GeometryView,
            GeometryFault,
        >::Ok(g),
{
    match g {
        GeometryView::Point(c) => {
            assert(document::position_coord(pair(c)) == c);
        },
        GeometryView::MultiPoint(cs) => {
            line_comes_back(cs, cs.len());
            assert(cs.take(cs.len() as int) =~= cs);
        },
        GeometryView::LineString(l) => {
            line_comes_back(l, l.len());
            assert(l.take(l.len() as int) =~= l);
        },
        GeometryView::MultiLineString(ls) => {
            lines_come_back(ls, ls.len());
            assert(ls.take(ls.len() as int) =~= ls);
        },
        GeometryView::Polygon(p) => {
            polygon_comes_back(p, 0);
        },
        GeometryView::MultiPolygon(ps) => {
            polygons_come_back(ps, ps.len());
            assert(ps.take(ps.len() as int) =~= ps);
        },
        _ => {},
    }
}

/// The reader takes back every feature that was written, with its number and its properties.
pub proof fn written_features_come_back(f: ParsedView)
    requires
        readable(f.geometry),
    ensures
        document::parsed(
            FeatureView {
                id: match f.id {
                    Some(n) => Some(FeatureId::Number(Some(n))),
                    None => None,
                },
                properties: Some(written_feature(f).properties),
                geometry: written_feature(f).geometry,
            },
        ) == Result::<Option<ParsedView>, GeometryFault>::Ok(Some(f)),
{
    written_geometries_come_back(f.geometry);
}

} // verus!
