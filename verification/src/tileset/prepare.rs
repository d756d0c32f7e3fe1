//! Preparation of features for tiling.
use vstd::prelude::*;
use crate::config::{PropertyPolicy, TileConfig};
use crate::geometry;
use crate::geometry::{Coord, Geometry, GeometryView};
use crate::json::{Entry, JsonMap};
use crate::model::{Bbox, GeometryKind};
use crate::mvt::layer;
use crate::mvt::layer::{MvtValue, ValueKey};
use crate::properties;
use crate::properties::{json_to_mvt_properties, AttrMode};

verus! {

/// Input feature before preparation: a geometry in longitude and latitude with its properties.
#[derive(Debug, Clone)]
pub struct RawFeature {
    pub id: Option<u64>,
    pub geometry: Geometry,
    pub properties: JsonMap,
}

/// What an input feature is.
pub struct RawView {
    pub id: Option<u64>,
    pub geometry: GeometryView,
    pub properties: Seq<Entry>,
}

impl View for RawFeature {
    type V = RawView;

    open spec fn view(&self) -> RawView {
        RawView { id: self.id, geometry: self.geometry@, properties: self.properties@ }
    }
}

/// A feature prepared for tiling.
#[derive(Debug, Clone)]
pub struct PreparedFeature {
    pub id: Option<u64>,
    pub geometry: Geometry,
    /// Policy-filtered properties as tile values, sorted by key.
    pub properties: Vec<(String, MvtValue)>,
    /// Box around the coordinates, in longitude and latitude.
    pub bbox: Bbox,
    pub vertex_count: usize,
}

/// What a prepared feature is.
pub struct PreparedView {
    pub id: Option<u64>,
    pub geometry: GeometryView,
    pub properties: Seq<(Seq<char>, ValueKey)>,
    pub bbox: Bbox,
    pub vertex_count: nat,
}

impl View for PreparedFeature {
    type V = PreparedView;

    open spec fn view(&self) -> PreparedView {
        PreparedView {
            id: self.id,
            geometry: self.geometry@,
            properties: layer::props_view(self.properties@),
            bbox: self.bbox,
            vertex_count: self.vertex_count as nat,
        }
    }
}

/// Prepared features, by what they are.
pub open spec fn prepared_views(features: Seq<PreparedFeature>) -> Seq<PreparedView> {
    features.map_values(|f: PreparedFeature| f@)
}

/// Dataset ready for tile generation.
#[derive(Debug)]
pub struct PreparedDataset {
    pub features: Vec<PreparedFeature>,
    /// Box over all retained features.
    pub bbox: Option<Bbox>,
    pub skipped_empty: u64,
    pub geometry_kind: GeometryKind,
    pub warnings: Vec<String>,
}

impl Default for PreparedDataset {
    fn default() -> (d: Self)
        ensures
            d.features@.len() == 0,
            d.bbox is None,
            d.skipped_empty == 0,
            d.geometry_kind is Mixed,
            d.warnings@.len() == 0,
    {
        PreparedDataset {
            features: Vec::new(),
            bbox: None,
            skipped_empty: 0,
            geometry_kind: GeometryKind::Mixed,
            warnings: Vec::new(),
        }
    }
}

impl PreparedDataset {
    pub fn feature_count(&self) -> (n: u64)
        ensures
            n == self.features@.len(),
    {
        self.features.len() as u64
    }

    pub fn is_empty(&self) -> (b: bool)
        ensures
            b == (self.features@.len() == 0),
    {
        self.features.len() == 0
    }
}

/// The box that holds one point.
pub open spec fn point_box(c: Coord) -> Bbox {
    Bbox { min_lon: c.x, min_lat: c.y, max_lon: c.x, max_lat: c.y }
}

/// The smallest box around the coordinates, of which there is at least one.
pub open spec fn box_around(coords: Seq<Coord>) -> Bbox
    decreases coords.len(),
{
    if coords.len() <= 1 {
        point_box(coords[0])
    } else {
        box_around(coords.drop_last()).joined(point_box(coords.last()))
    }
}

/// Whether a geometry can be tiled: it has coordinates and all are finite.
pub open spec fn tileable(g: GeometryView) -> bool {
    let coords = geometry::coords(g);
    coords.len() > 0 && forall|i: int| 0 <= i < coords.len() ==> (#[trigger] coords[i]).finite()
}

/// The kind of a geometry; `Mixed` for the kinds without a name of their own.
pub open spec fn kind_of(g: GeometryView) -> GeometryKind {
    match g {
        GeometryView::Point(_) => GeometryKind::Point,
        GeometryView::MultiPoint(_) => GeometryKind::MultiPoint,
        GeometryView::LineString(_) => GeometryKind::LineString,
        GeometryView::MultiLineString(_) => GeometryKind::MultiLineString,
        GeometryView::Polygon(_) => GeometryKind::Polygon,
        GeometryView::MultiPolygon(_) => GeometryKind::MultiPolygon,
        _ => GeometryKind::Mixed,
    }
}

/// A tileable feature, prepared under a policy.
pub open spec fn prepared(raw: RawView, policy: PropertyPolicy) -> PreparedView {
    let coords = geometry::coords(raw.geometry);
    PreparedView {
        id: raw.id,
        geometry: raw.geometry,
        properties: properties::tile_properties(raw.properties, policy, AttrMode::Full),
        bbox: box_around(coords),
        vertex_count: coords.len(),
    }
}

/// The tileable ones of the features, prepared, in order.
pub open spec fn prepared_all(raw: Seq<RawView>, policy: PropertyPolicy) -> Seq<PreparedView>
    decreases raw.len(),
{
    if raw.len() == 0 {
        Seq::empty()
    } else {
        let rest = prepared_all(raw.drop_last(), policy);
        if tileable(raw.last().geometry) {
            rest.push(prepared(raw.last(), policy))
        } else {
            rest
        }
    }
}

/// The box around all features, where there are any.
pub open spec fn dataset_box(features: Seq<PreparedView>) -> Option<Bbox>
    decreases features.len(),
{
    if features.len() == 0 {
        None
    } else {
        match dataset_box(features.drop_last()) {
            Some(b) => Some(b.joined(features.last().bbox)),
            None => Some(features.last().bbox),
        }
    }
}

/// The kind that all features share; `Mixed` where they do not, or where there are none.
pub open spec fn dataset_kind(features: Seq<PreparedView>) -> GeometryKind
    decreases features.len(),
{
    if features.len() == 0 {
        GeometryKind::Mixed
    } else if features.len() == 1 {
        kind_of(features[0].geometry)
    } else {
        let rest = dataset_kind(features.drop_last());
        if rest == kind_of(features.last().geometry) {
            rest
        } else {
            GeometryKind::Mixed
        }
    }
}

fn geometry_kind(g: &Geometry) -> (k: GeometryKind)
    ensures
        k == kind_of(g@),
{
    match g {
        Geometry::Point(_) => GeometryKind::Point,
        Geometry::MultiPoint(_) => GeometryKind::MultiPoint,
        Geometry::LineString(_) => GeometryKind::LineString,
        Geometry::MultiLineString(_) => GeometryKind::MultiLineString,
        Geometry::Polygon(_) => GeometryKind::Polygon,
        Geometry::MultiPolygon(_) => GeometryKind::MultiPolygon,
        _ => GeometryKind::Mixed,
    }
}

/// The box around coordinates, where there are any and all are finite.
fn finite_box(coords: &[Coord]) -> (r: Option<Bbox>)
    ensures
        match r {
            Some(b) => coords@.len() > 0 && b == box_around(coords@) && forall|i: int|
                0 <= i < coords@.len() ==> (#[trigger] coords@[i]).finite(),
            None => coords@.len() == 0 || exists|i: int|
                0 <= i < coords@.len() && !(#[trigger] coords@[i]).finite(),
        },
{
    if coords.len() == 0 || !coords[0].is_finite() {
        return None;
    }
    let c: Coord = coords[0];
    let mut b = Bbox::new(c.x, c.y, c.x, c.y);
    let mut i: usize = 1;
    while i < coords.len()
        invariant
            1 <= i <= coords@.len(),
            b == box_around(coords@.take(i as int)),
            forall|j: int| 0 <= j < i ==> (#[trigger] coords@[j]).finite(),
        decreases coords@.len() - i,
    {
        let c: Coord = coords[i];
        if !c.is_finite() {
            return None;
        }
        assert(coords@.take(i + 1).drop_last() =~= coords@.take(i as int));
        b = b.union(&Bbox::new(c.x, c.y, c.x, c.y));
        i = i + 1;
    }
    assert(coords@.take(i as int) =~= coords@);
    Some(b)
}

/// Converts raw features into a prepared dataset:
/// * drops geometries without coordinates or with coordinates that are not finite,
/// * computes per-feature boxes,
/// * applies the property policy (stripping of personal data, payload caps).
pub fn prepare_features(raw: Vec<RawFeature>, config: &TileConfig) -> (d: PreparedDataset)
    ensures
        ({
            let inputs = raw@.map_values(|f: RawFeature| f@);
            let outputs = prepared_all(inputs, config.property_policy);
            &&& prepared_views(d.features@) == outputs
            &&& d.bbox == dataset_box(outputs)
            &&& d.skipped_empty == inputs.len() - outputs.len()
            &&& d.geometry_kind == dataset_kind(outputs)
            &&& d.warnings@.len() == 0
        }),
{
    let mut dataset = PreparedDataset::default();
    let ghost inputs = raw@.map_values(|f: RawFeature| f@);
    let ghost policy = config.property_policy;
    let ghost total = raw.len();
    assert(prepared_views(dataset.features@) =~= prepared_all(inputs.take(0), policy));
    for feature in it: raw
        invariant
            it.seq() == raw@,
            inputs == raw@.map_values(|f: RawFeature| f@),
            policy == config.property_policy,
            total == inputs.len(),
            prepared_views(dataset.features@) == prepared_all(
                inputs.take(it.index() as int),
                policy,
            ),
            dataset.bbox == dataset_box(prepared_views(dataset.features@)),
            dataset.geometry_kind == dataset_kind(prepared_views(dataset.features@)),
            dataset.skipped_empty + dataset.features@.len() == it.index(),
            dataset.warnings@.len() == 0,
    {
        let ghost at = it.index() as int;
        let ghost done = prepared_views(dataset.features@);
        assert(feature@ == inputs[at]);
        assert(inputs.take(at + 1).drop_last() =~= inputs.take(at));
        let coords = feature.geometry.coords();
        match finite_box(coords.as_slice()) {
            None => {
                assert(!tileable(feature@.geometry));
                dataset.skipped_empty = dataset.skipped_empty + 1;
            },
            Some(b) => {
                let props = json_to_mvt_properties(
                    &feature.properties,
                    &config.property_policy,
                    AttrMode::Full,
                );
                let kind = geometry_kind(&feature.geometry);
                if dataset.features.len() == 0 || dataset.geometry_kind == kind {
                    dataset.geometry_kind = kind;
                } else {
                    dataset.geometry_kind = GeometryKind::Mixed;
                }
                dataset.bbox = match &dataset.bbox {
                    Some(existing) => Some(existing.union(&b)),
                    None => Some(b),
                };
                let out = PreparedFeature {
                    id: feature.id,
                    geometry: feature.geometry,
                    properties: props,
                    bbox: b,
                    vertex_count: coords.len(),
                };
                dataset.features.push(out);
                proof {
                    assert(tileable(inputs[at].geometry));
                    assert(out@ == prepared(inputs[at], policy));
                    assert(prepared_views(dataset.features@) =~= done.push(out@));
                    assert(done.push(out@).drop_last() =~= done);
                }
            },
        }
    }
    assert(inputs.take(total as int) =~= inputs);
    dataset
}

} // verus!
