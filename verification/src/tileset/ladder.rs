//! One tile: layer assembly, compression, and the size-mitigation ladder.
//!
//! A tile that is too large loses attributes first, then geometry detail at low zooms, then its
//! heaviest features.
use vstd::prelude::*;
use crate::config::{PropertyPolicy, TileConfig};
use crate::error::Result;
use crate::gzip;
use crate::gzip::gzip;
use crate::mvt::layer;
use crate::mvt::layer::{LayerView, MvtLayer, MvtValue, ValueKey};
use crate::properties;
use crate::properties::{keeps, AttrMode};
use crate::tile_geometry;
use crate::tile_geometry::{encode_geometry, TileGeometry, TileGeometryView};
use crate::tilemath::{TileId, TileTransform};

verus! {

/// A feature as one tile sees it.
#[derive(Debug)]
pub struct TileFeature {
    pub id: Option<u64>,
    /// Policy-filtered properties, sorted by key.
    pub properties: Vec<(String, MvtValue)>,
    pub vertex_count: usize,
    /// The geometry in tile coordinates at the detail of the zoom; nothing where simplification
    /// left no shape.
    pub geometry: Option<TileGeometry>,
    /// The geometry with the coarser detail of the mitigation ladder.
    pub coarse: Option<TileGeometry>,
}

/// What a tile sees of a feature.
pub struct TileFeatureView {
    pub id: Option<u64>,
    pub properties: Seq<(Seq<char>, ValueKey)>,
    pub vertex_count: nat,
    pub geometry: Option<TileGeometryView>,
    pub coarse: Option<TileGeometryView>,
}

/// An optional geometry, by what it is.
pub open spec fn geometry_view(g: Option<TileGeometry>) -> Option<TileGeometryView> {
    match g {
        Some(g) => Some(g@),
        None => None,
    }
}

impl View for TileFeature {
    type V = TileFeatureView;

    open spec fn view(&self) -> TileFeatureView {
        TileFeatureView {
            id: self.id,
            properties: layer::props_view(self.properties@),
            vertex_count: self.vertex_count as nat,
            geometry: geometry_view(self.geometry),
            coarse: geometry_view(self.coarse),
        }
    }
}

/// Features, by what a tile sees of them.
pub open spec fn feature_views(features: Seq<TileFeature>) -> Seq<TileFeatureView> {
    features.map_values(|f: TileFeature| f@)
}

/// Whether every drawing of a feature has steps that fit in 32 bits.
pub open spec fn feature_fits(f: TileFeatureView, t: TileTransform) -> bool {
    &&& f.geometry matches Some(g) ==> tile_geometry::drawing_fits(g, t)
    &&& f.coarse matches Some(g) ==> tile_geometry::drawing_fits(g, t)
}

/// The core properties, without those that are denied.
pub open spec fn core_only(
    props: Seq<(Seq<char>, ValueKey)>,
    policy: PropertyPolicy,
) -> Seq<(Seq<char>, ValueKey)>
    decreases props.len(),
{
    if props.len() == 0 {
        props
    } else {
        let rest = core_only(props.drop_last(), policy);
        if properties::mode_keeps(policy, AttrMode::Core, props.last().0) {
            rest.push(props.last())
        } else {
            rest
        }
    }
}

/// The properties that a mode leaves.
pub open spec fn mode_properties(
    props: Seq<(Seq<char>, ValueKey)>,
    policy: PropertyPolicy,
    mode: AttrMode,
) -> Seq<(Seq<char>, ValueKey)> {
    match mode {
        AttrMode::Full => props,
        AttrMode::Core => core_only(props, policy),
        AttrMode::NoProperties => Seq::empty(),
    }
}

/// The layer without features.
pub open spec fn empty_layer(config: TileConfig) -> LayerView {
    LayerView {
        name: config.layer_name@,
        extent: config.extent,
        keys: Seq::empty(),
        values: Seq::empty(),
        features: Seq::empty(),
    }
}

/// The commands of a feature in a tile, at one of the two details.
pub open spec fn feature_commands(f: TileFeatureView, t: TileTransform, coarse: bool) -> Option<
    (crate::mvt::commands::GeomKind, Seq<u32>),
> {
    match if coarse {
        f.coarse
    } else {
        f.geometry
    } {
        Some(g) => tile_geometry::geometry_commands(g, t),
        None => None,
    }
}

/// The layer of the active features, and how many of them were encoded.
pub open spec fn tile_layer(
    features: Seq<TileFeatureView>,
    config: TileConfig,
    t: TileTransform,
    active: Seq<usize>,
    coarse: bool,
    mode: AttrMode,
) -> (LayerView, nat)
    decreases active.len(),
{
    if active.len() == 0 {
        (empty_layer(config), 0)
    } else {
        let (l, n) = tile_layer(features, config, t, active.drop_last(), coarse, mode);
        let f = features[active.last() as int];
        match feature_commands(f, t, coarse) {
            Some((kind, cmds)) => (
                layer::with_feature(
                    l,
                    f.id,
                    kind,
                    cmds,
                    mode_properties(f.properties, config.property_policy, mode),
                ),
                n + 1,
            ),
            None => (l, n),
        }
    }
}

/// `t` with `x` behind the last feature that is at least as heavy.
pub open spec fn insert_by_weight(t: Seq<usize>, x: usize, features: Seq<TileFeatureView>) -> Seq<
    usize,
>
    decreases t.len(),
{
    if t.len() > 0 && features[t.last() as int].vertex_count < features[x as int].vertex_count {
        insert_by_weight(t.drop_last(), x, features).push(t.last())
    } else {
        t.push(x)
    }
}

/// The features with the most vertices first; equal ones keep their order.
pub open spec fn heaviest_first(s: Seq<usize>, features: Seq<TileFeatureView>) -> Seq<usize>
    decreases s.len(),
{
    if s.len() == 0 {
        s
    } else {
        insert_by_weight(heaviest_first(s.drop_last(), features), s.last(), features)
    }
}

/// A rung of the ladder: what is left of the tile's features.
pub struct Rung {
    pub mode: AttrMode,
    pub coarse: bool,
    pub dropped: u64,
    pub active: Vec<usize>,
}

/// What a rung is.
pub struct RungView {
    pub mode: AttrMode,
    pub coarse: bool,
    pub dropped: nat,
    pub active: Seq<usize>,
}

impl View for Rung {
    type V = RungView;

    open spec fn view(&self) -> RungView {
        RungView {
            mode: self.mode,
            coarse: self.coarse,
            dropped: self.dropped as nat,
            active: self.active@,
        }
    }
}

/// Whether anything was taken away on the way to the rung.
pub open spec fn mitigated(r: RungView) -> bool {
    r.mode != AttrMode::Full || r.coarse || r.dropped > 0
}

/// The next rung: fewer attributes, then coarser geometry at low zooms, then the heavier half of
/// the features goes. Nothing follows where one feature is left.
pub open spec fn next_rung(
    r: RungView,
    features: Seq<TileFeatureView>,
    low_zoom: bool,
) -> Option<RungView> {
    match r.mode {
        AttrMode::Full => Some(RungView { mode: AttrMode::Core, ..r }),
        AttrMode::Core => Some(RungView { mode: AttrMode::NoProperties, ..r }),
        AttrMode::NoProperties => if !r.coarse && low_zoom {
            Some(RungView { coarse: true, ..r })
        } else if r.active.len() > 1 {
            let cut = r.active.len() / 2;
            Some(
                RungView {
                    dropped: r.dropped + cut,
                    active: heaviest_first(r.active, features).skip(cut as int),
                    ..r
                },
            )
        } else {
            None
        },
    }
}

/// What becomes of a tile.
pub enum Outcome {
    /// Nothing is drawn into the tile.
    Empty,
    /// The compressor reported an error.
    Failed,
    Published { bytes: Seq<u8>, mitigated: bool, dropped: nat, instances: nat },
}

pub open spec fn mode_rank(mode: AttrMode) -> nat {
    match mode {
        AttrMode::Full => 2,
        AttrMode::Core => 1,
        AttrMode::NoProperties => 0,
    }
}

/// What becomes of a tile from a rung on: the first rung whose compressed tile is within the cap,
/// or the last one.
pub open spec fn climb(
    features: Seq<TileFeatureView>,
    config: TileConfig,
    t: TileTransform,
    r: RungView,
) -> Outcome
    decreases
            r.active.len(),
            if r.coarse {
                0nat
            } else {
                1nat
            },
            mode_rank(r.mode),
{
    let (l, instances) = tile_layer(features, config, t, r.active, r.coarse, r.mode);
    if l.features.len() == 0 {
        Outcome::Empty
    } else {
        match gzip::gzip_of(layer::tile_bytes(l), config.gzip_level) {
            None => Outcome::Failed,
            Some(gz) => {
                let next = next_rung(r, features, t.tile.z < config.simplify_below_zoom);
                if gz.len() <= config.hard_max_tile_bytes {
                    Outcome::Published {
                        bytes: gz,
                        mitigated: mitigated(r),
                        dropped: r.dropped,
                        instances,
                    }
                } else {
                    match next {
                        Some(n) => {
                            proof {
                                heaviest_first_keeps(r.active, features);
                            }
                            climb(features, config, t, n)
                        },
                        None => Outcome::Published {
                            bytes: gz,
                            mitigated: true,
                            dropped: r.dropped,
                            instances,
                        },
                    }
                }
            },
        }
    }
}

/// The rung where every tile starts.
pub open spec fn first_rung(idxs: Seq<usize>) -> RungView {
    RungView { mode: AttrMode::Full, coarse: false, dropped: 0, active: idxs }
}

pub proof fn insert_by_weight_keeps(t: Seq<usize>, x: usize, features: Seq<TileFeatureView>)
    ensures
        insert_by_weight(t, x, features).len() == t.len() + 1,
        insert_by_weight(t, x, features).to_multiset() == t.to_multiset().insert(x),
    decreases t.len(),
{
    broadcast use vstd::seq_lib::group_to_multiset_ensures;
    if t.len() > 0 && features[t.last() as int].vertex_count < features[x as int].vertex_count {
        insert_by_weight_keeps(t.drop_last(), x, features);
        assert(t =~= t.drop_last().push(t.last()));
        assert(insert_by_weight(t, x, features).to_multiset() =~= t.to_multiset().insert(x));
    }
}

/// Ordering by weight loses no feature and adds none.
pub proof fn heaviest_first_keeps(s: Seq<usize>, features: Seq<TileFeatureView>)
    ensures
        heaviest_first(s, features).len() == s.len(),
        heaviest_first(s, features).to_multiset() == s.to_multiset(),
    decreases s.len(),
{
    broadcast use vstd::seq_lib::group_to_multiset_ensures;
    if s.len() > 0 {
        heaviest_first_keeps(s.drop_last(), features);
        insert_by_weight_keeps(heaviest_first(s.drop_last(), features), s.last(), features);
        assert(s =~= s.drop_last().push(s.last()));
    }
}

/// No feature is lighter than the next.
pub open spec fn weights_descend(s: Seq<usize>, features: Seq<TileFeatureView>) -> bool {
    forall|i: int, j: int|
        0 <= i < j < s.len() ==> features[(#[trigger] s[i]) as int].vertex_count >= features[(
        #[trigger] s[j]) as int].vertex_count
}

/// The place where a feature goes among features that descend by weight.
pub open spec fn weight_slot(t: Seq<usize>, x: usize, features: Seq<TileFeatureView>) -> int
    decreases t.len(),
{
    if t.len() > 0 && features[t.last() as int].vertex_count < features[x as int].vertex_count {
        weight_slot(t.drop_last(), x, features)
    } else {
        t.len() as int
    }
}

pub proof fn insert_at_weight_slot(t: Seq<usize>, x: usize, features: Seq<TileFeatureView>)
    requires
        weights_descend(t, features),
    ensures
        0 <= weight_slot(t, x, features) <= t.len(),
        insert_by_weight(t, x, features) == t.insert(weight_slot(t, x, features), x),
        forall|i: int|
            0 <= i < weight_slot(t, x, features) ==> features[(#[trigger] t[i]) as int].vertex_count
                >= features[x as int].vertex_count,
        forall|i: int|
            weight_slot(t, x, features) <= i < t.len() ==> features[(
            #[trigger] t[i]) as int].vertex_count < features[x as int].vertex_count,
        weights_descend(insert_by_weight(t, x, features), features),
    decreases t.len(),
{
    if t.len() > 0 && features[t.last() as int].vertex_count < features[x as int].vertex_count {
        let d = t.drop_last();
        assert(weights_descend(d, features)) by {
            assert forall|i: int, j: int| 0 <= i < j < d.len() implies features[(
            #[trigger] d[i]) as int].vertex_count >= features[(
            #[trigger] d[j]) as int].vertex_count by {
                assert(d[i] == t[i] && d[j] == t[j]);
            }
        }
        insert_at_weight_slot(d, x, features);
        let k = weight_slot(t, x, features);
        assert(t.insert(k, x) =~= d.insert(k, x).push(t.last()));
        assert forall|i: int| 0 <= i < k implies features[(#[trigger] t[i]) as int].vertex_count
            >= features[x as int].vertex_count by {
            assert(d[i] == t[i]);
        }
        assert forall|i: int| k <= i < t.len() implies features[(
        #[trigger] t[i]) as int].vertex_count < features[x as int].vertex_count by {
            if i < d.len() {
                assert(d[i] == t[i]);
            }
        }
    } else {
        assert(t.insert(t.len() as int, x) =~= t.push(x));
    }
    let k = weight_slot(t, x, features);
    let r = t.insert(k, x);
    assert forall|i: int, j: int| 0 <= i < j < r.len() implies features[(
    #[trigger] r[i]) as int].vertex_count >= features[(#[trigger] r[j]) as int].vertex_count by {
        if j < k {
            assert(r[i] == t[i] && r[j] == t[j]);
        } else if j == k {
            assert(r[i] == t[i] && r[j] == x);
        } else if i < k {
            assert(r[i] == t[i] && r[j] == t[j - 1]);
        } else if i == k {
            assert(r[i] == x && r[j] == t[j - 1]);
        } else {
            assert(r[i] == t[i - 1] && r[j] == t[j - 1]);
        }
    }
}

/// The features with the most vertices first; equal ones keep their order.
pub fn sort_heaviest_first(s: &[usize], features: &[TileFeature]) -> (out: Vec<usize>)
    requires
        forall|i: int| 0 <= i < s@.len() ==> (#[trigger] s@[i]) < features@.len(),
    ensures
        out@ == heaviest_first(s@, feature_views(features@)),
        forall|i: int| 0 <= i < out@.len() ==> (#[trigger] out@[i]) < features@.len(),
{
    let ghost views = feature_views(features@);
    let mut out: Vec<usize> = Vec::new();
    let mut n: usize = 0;
    assert(out@ =~= heaviest_first(s@.take(0), views));
    while n < s.len()
        invariant
            n <= s@.len(),
            views == feature_views(features@),
            forall|i: int| 0 <= i < s@.len() ==> (#[trigger] s@[i]) < features@.len(),
            forall|i: int| 0 <= i < out@.len() ==> (#[trigger] out@[i]) < features@.len(),
            out@ == heaviest_first(s@.take(n as int), views),
            weights_descend(out@, views),
        decreases s@.len() - n,
    {
        let x: usize = s[n];
        let weight: usize = features[x].vertex_count;
        proof {
            insert_at_weight_slot(out@, x, views);
            assert(s@.take(n + 1).drop_last() =~= s@.take(n as int));
        }
        let mut low: usize = 0;
        let mut high: usize = out.len();
        while low < high
            invariant
                low <= high <= out@.len(),
                views == feature_views(features@),
                x < features@.len(),
                weight == views[x as int].vertex_count,
                forall|i: int| 0 <= i < out@.len() ==> (#[trigger] out@[i]) < features@.len(),
                low <= weight_slot(out@, x, views) <= high,
                forall|i: int|
                    0 <= i < weight_slot(out@, x, views) ==> views[(
                    #[trigger] out@[i]) as int].vertex_count >= weight,
                forall|i: int|
                    weight_slot(out@, x, views) <= i < out@.len() ==> views[(
                    #[trigger] out@[i]) as int].vertex_count < weight,
            decreases high - low,
        {
            let mid: usize = low + (high - low) / 2;
            let y: usize = out[mid];
            assert(views[y as int].vertex_count == features@[y as int].vertex_count);
            if features[y].vertex_count >= weight {
                low = mid + 1;
            } else {
                high = mid;
            }
        }
        let ghost before = out@;
        out.insert(low, x);
        assert forall|i: int| 0 <= i < out@.len() implies (#[trigger] out@[i])
            < features@.len() by {
            if i < low {
                assert(out@[i] == before[i]);
            } else if i > low {
                assert(out@[i] == before[i - 1]);
            }
        }
        n = n + 1;
    }
    assert(s@.take(n as int) =~= s@);
    out
}

/// The core properties of a feature.
fn keep_core(props: &[(String, MvtValue)], policy: &PropertyPolicy) -> (out: Vec<
    (String, MvtValue),
>)
    ensures
        layer::props_view(out@) == core_only(layer::props_view(props@), *policy),
{
    let ghost all = layer::props_view(props@);
    let mut out: Vec<(String, MvtValue)> = Vec::new();
    let mut i: usize = 0;
    assert(layer::props_view(out@) =~= core_only(all.take(0), *policy));
    while i < props.len()
        invariant
            i <= props@.len(),
            all == layer::props_view(props@),
            layer::props_view(out@) == core_only(all.take(i as int), *policy),
        decreases props@.len() - i,
    {
        assert(all.take(i + 1).drop_last() =~= all.take(i as int));
        assert(all.take(i + 1).last() == (props@[i as int].0@, props@[i as int].1@));
        if keeps(policy, AttrMode::Core, props[i].0.as_str()) {
            let ghost before = layer::props_view(out@);
            let p = (props[i].0.clone(), props[i].1.clone());
            out.push(p);
            assert(layer::props_view(out@) =~= before.push((p.0@, p.1@)));
        }
        i = i + 1;
    }
    assert(all.take(i as int) =~= all);
    out
}

/// Encodes the active features of one tile into a layer.
pub fn encode_tile_layer(
    features: &[TileFeature],
    config: &TileConfig,
    transform: &TileTransform,
    active: &[usize],
    coarse: bool,
    mode: AttrMode,
) -> (r: (MvtLayer, u64))
    requires
        forall|i: int| 0 <= i < active@.len() ==> (#[trigger] active@[i]) < features@.len(),
        forall|i: int|
            0 <= i < features@.len() ==> feature_fits(#[trigger] features@[i]@, *transform),
    ensures
        r.0.wf(),
        (r.0@, r.1 as nat) == tile_layer(
            feature_views(features@),
            *config,
            *transform,
            active@,
            coarse,
            mode,
        ),
{
    let ghost views = feature_views(features@);
    let mut l = MvtLayer::new(config.layer_name.clone(), config.extent);
    let mut instances: u64 = 0;
    let mut i: usize = 0;
    assert(active@.take(0) =~= Seq::empty());
    while i < active.len()
        invariant
            i <= active@.len(),
            views == feature_views(features@),
            forall|k: int| 0 <= k < active@.len() ==> (#[trigger] active@[k]) < features@.len(),
            forall|k: int|
                0 <= k < features@.len() ==> feature_fits(#[trigger] features@[k]@, *transform),
            l.wf(),
            instances <= i,
            (l@, instances as nat) == tile_layer(
                views,
                *config,
                *transform,
                active@.take(i as int),
                coarse,
                mode,
            ),
        decreases active@.len() - i,
    {
        let f = &features[active[i]];
        proof {
            assert(active@.take(i + 1).drop_last() =~= active@.take(i as int));
            assert(views[active@[i as int] as int] == f@);
            assert(feature_fits(f@, *transform));
        }
        let chosen = if coarse {
            &f.coarse
        } else {
            &f.geometry
        };
        if let Some(geom) = chosen {
            if let Some((kind, cmds)) = encode_geometry(geom, transform) {
                match mode {
                    AttrMode::Full => {
                        l.add_feature(f.id, kind, cmds, f.properties.as_slice());
                    },
                    AttrMode::Core => {
                        let props = keep_core(f.properties.as_slice(), &config.property_policy);
                        l.add_feature(f.id, kind, cmds, props.as_slice());
                    },
                    AttrMode::NoProperties => {
                        let props: Vec<(String, MvtValue)> = Vec::new();
                        assert(layer::props_view(props@) =~= Seq::empty());
                        l.add_feature(f.id, kind, cmds, props.as_slice());
                    },
                }
                instances = instances + 1;
            }
        }
        i = i + 1;
    }
    assert(active@.take(i as int) =~= active@);
    (l, instances)
}

/// The next rung of the ladder for a tile whose compressed size is over the cap.
pub fn escalate(r: Rung, features: &[TileFeature], low_zoom: bool) -> (next: Option<Rung>)
    requires
        forall|i: int| 0 <= i < r.active@.len() ==> (#[trigger] r.active@[i]) < features@.len(),
        r.dropped + r.active@.len() <= u64::MAX,
    ensures
        match next {
            Some(n) => next_rung(r@, feature_views(features@), low_zoom) == Some(n@) && (forall|
                i: int,
            |
                0 <= i < n.active@.len() ==> (#[trigger] n.active@[i]) < features@.len())
                && n.dropped + n.active@.len() == r.dropped + r.active@.len(),
            None => next_rung(r@, feature_views(features@), low_zoom) is None,
        },
{
    let mut r = r;
    match r.mode {
        AttrMode::Full => {
            r.mode = AttrMode::Core;
            Some(r)
        },
        AttrMode::Core => {
            r.mode = AttrMode::NoProperties;
            Some(r)
        },
        AttrMode::NoProperties => {
            if !r.coarse && low_zoom {
                r.coarse = true;
                Some(r)
            } else if r.active.len() > 1 {
                let n: usize = r.active.len();
                let cut: usize = n / 2;
                let mut active = sort_heaviest_first(r.active.as_slice(), features);
                proof {
                    heaviest_first_keeps(r.active@, feature_views(features@));
                }
                let ghost all = active@;
                let kept = active.split_off(cut);
                assert(kept@ =~= all.skip(cut as int));
                r.dropped = r.dropped + cut as u64;
                r.active = kept;
                Some(r)
            } else {
                None
            }
        },
    }
}

/// What to do with a compressed tile of `size` bytes on a rung.
pub enum Verdict {
    /// Publish the tile; whether it counts as mitigated.
    Publish(bool),
    /// Try the next rung.
    Retry(Rung),
}

/// Decides over a compressed tile of `size` bytes: a tile within the cap is published, a larger
/// one goes to the next rung, and where there is none it is published all the same.
pub fn judge(
    size: usize,
    cap: usize,
    r: Rung,
    features: &[TileFeature],
    low_zoom: bool,
) -> (v: Verdict)
    requires
        forall|i: int| 0 <= i < r.active@.len() ==> (#[trigger] r.active@[i]) < features@.len(),
        r.dropped + r.active@.len() <= u64::MAX,
    ensures
        match v {
            Verdict::Publish(m) => if size <= cap {
                m == mitigated(r@)
            } else {
                m && next_rung(r@, feature_views(features@), low_zoom) is None
            },
            Verdict::Retry(n) => size > cap && next_rung(
                r@,
                feature_views(features@),
                low_zoom,
            ) == Some(n@) && (forall|i: int|
                0 <= i < n.active@.len() ==> (#[trigger] n.active@[i]) < features@.len())
                && n.dropped + n.active@.len() == r.dropped + r.active@.len(),
        },
{
    if size <= cap {
        Verdict::Publish(r.mode != AttrMode::Full || r.coarse || r.dropped > 0)
    } else {
        match escalate(r, features, low_zoom) {
            Some(n) => Verdict::Retry(n),
            None => Verdict::Publish(true),
        }
    }
}

/// A published tile.
#[derive(Debug)]
pub struct BuiltTile {
    /// The gzipped tile.
    pub bytes: Vec<u8>,
    /// Whether the tile needed size mitigation.
    pub mitigated: bool,
    /// Features dropped to satisfy the size cap.
    pub dropped: u64,
    /// Features encoded into the tile.
    pub instances: u64,
}

/// Builds one tile with size mitigation.
///
/// Returns `Ok(None)` for empty tiles, otherwise the gzipped bytes with the mitigation
/// bookkeeping.
pub fn build_tile(
    features: &[TileFeature],
    config: &TileConfig,
    tile: TileId,
    feature_idxs: &[usize],
) -> (r: Result<Option<BuiltTile>>)
    requires
        config.gzip_level <= 10,
        forall|i: int|
            0 <= i < feature_idxs@.len() ==> (#[trigger] feature_idxs@[i]) < features@.len(),
        forall|i: int|
            0 <= i < features@.len() ==> feature_fits(
                #[trigger] features@[i]@,
                (TileTransform { tile, extent: config.extent, buffer: config.buffer }),
            ),
    ensures
        match climb(
            feature_views(features@),
            *config,
            (TileTransform { tile, extent: config.extent, buffer: config.buffer }),
            first_rung(feature_idxs@),
        ) {
            Outcome::Empty => r matches Ok(None),
            Outcome::Failed => r matches Err(e) && (e is Io || e is Compression),
            Outcome::Published { bytes, mitigated, dropped, instances } => r matches Ok(Some(b))
                && b.bytes@ == bytes && b.mitigated == mitigated && b.dropped == dropped
                && b.instances == instances,
        },
{
    let transform = TileTransform::new(tile, config.extent, config.buffer);
    let low_zoom: bool = tile.z < config.simplify_below_zoom;
    let ghost views = feature_views(features@);
    let mut active: Vec<usize> = Vec::new();
    active.extend_from_slice(feature_idxs);
    assert(active@ =~= feature_idxs@);
    assert(active@.len() == active.len());
    let mut rung = Rung { mode: AttrMode::Full, coarse: false, dropped: 0, active };
    loop
        invariant
            config.gzip_level <= 10,
            views == feature_views(features@),
            transform == (TileTransform { tile, extent: config.extent, buffer: config.buffer }),
            low_zoom == (tile.z < config.simplify_below_zoom),
            forall|i: int|
                0 <= i < rung.active@.len() ==> (#[trigger] rung.active@[i]) < features@.len(),
            forall|i: int|
                0 <= i < features@.len() ==> feature_fits(#[trigger] features@[i]@, transform),
            rung.dropped + rung.active@.len() <= u64::MAX,
            climb(views, *config, transform, rung@) == climb(
                views,
                *config,
                transform,
                first_rung(feature_idxs@),
            ),
        decreases
                rung.active@.len(),
                if rung.coarse {
                    0nat
                } else {
                    1nat
                },
                mode_rank(rung.mode),
    {
        let (l, instances) = encode_tile_layer(
            features,
            config,
            &transform,
            rung.active.as_slice(),
            rung.coarse,
            rung.mode,
        );
        if l.is_empty() {
            return Ok(None);
        }
        let raw = l.to_tile_bytes();
        let gz = match gzip(raw.as_slice(), config.gzip_level) {
            Ok(gz) => gz,
            Err(e) => return Err(e),
        };
        let dropped: u64 = rung.dropped;
        proof {
            heaviest_first_keeps(rung.active@, views);
        }
        match judge(gz.len(), config.hard_max_tile_bytes, rung, features, low_zoom) {
            Verdict::Publish(mitigated) => {
                return Ok(Some(BuiltTile { bytes: gz, mitigated, dropped, instances }));
            },
            Verdict::Retry(next) => {
                rung = next;
            },
        }
    }
}

/// The rung on which the ladder stops.
pub open spec fn stop(
    features: Seq<TileFeatureView>,
    config: TileConfig,
    t: TileTransform,
    r: RungView,
) -> RungView
    decreases
            r.active.len(),
            if r.coarse {
                0nat
            } else {
                1nat
            },
            mode_rank(r.mode),
{
    let (l, instances) = tile_layer(features, config, t, r.active, r.coarse, r.mode);
    let next = next_rung(r, features, t.tile.z < config.simplify_below_zoom);
    match gzip::gzip_of(layer::tile_bytes(l), config.gzip_level) {
        Some(gz) => match next {
            Some(n) if l.features.len() > 0 && gz.len() > config.hard_max_tile_bytes => {
                proof {
                    heaviest_first_keeps(r.active, features);
                }
                stop(features, config, t, n)
            },
            _ => r,
        },
        None => r,
    }
}

/// The ladder converges: a published tile is the compressed layer of the rung where the ladder
/// stopped; it is within the size cap unless a single feature without properties is left; and
/// every feature is either still active or counted as dropped.
pub proof fn ladder_converges(
    features: Seq<TileFeatureView>,
    config: TileConfig,
    t: TileTransform,
    r: RungView,
)
    ensures
        ({
            let s = stop(features, config, t, r);
            let l = tile_layer(features, config, t, s.active, s.coarse, s.mode).0;
            &&& s.dropped + s.active.len() == r.dropped + r.active.len()
            &&& climb(features, config, t, r) matches Outcome::Published {
                bytes,
                mitigated: m,
                dropped,
                instances,
            } ==> {
                &&& gzip::gzip_of(layer::tile_bytes(l), config.gzip_level) == Some(bytes)
                &&& bytes.len() <= config.hard_max_tile_bytes || (s.active.len() <= 1
                    && s.mode is NoProperties && m)
                &&& dropped == s.dropped
                &&& m || s == r && !mitigated(r)
            }
        }),
    decreases
            r.active.len(),
            if r.coarse {
                0nat
            } else {
                1nat
            },
            mode_rank(r.mode),
{
    let (l, instances) = tile_layer(features, config, t, r.active, r.coarse, r.mode);
    let next = next_rung(r, features, t.tile.z < config.simplify_below_zoom);
    if let Some(gz) = gzip::gzip_of(layer::tile_bytes(l), config.gzip_level) {
        if let Some(n) = next {
            if l.features.len() > 0 && gz.len() > config.hard_max_tile_bytes {
                heaviest_first_keeps(r.active, features);
                ladder_converges(features, config, t, n);
            }
        }
    }
}

/// The features that are given up from a rung on, in the order in which they go.
pub open spec fn given_up(
    features: Seq<TileFeatureView>,
    config: TileConfig,
    t: TileTransform,
    r: RungView,
) -> Seq<usize>
    decreases
            r.active.len(),
            if r.coarse {
                0nat
            } else {
                1nat
            },
            mode_rank(r.mode),
{
    let (l, instances) = tile_layer(features, config, t, r.active, r.coarse, r.mode);
    let next = next_rung(r, features, t.tile.z < config.simplify_below_zoom);
    match gzip::gzip_of(layer::tile_bytes(l), config.gzip_level) {
        Some(gz) => match next {
            Some(n) if l.features.len() > 0 && gz.len() > config.hard_max_tile_bytes => {
                proof {
                    heaviest_first_keeps(r.active, features);
                }
                heaviest_first(r.active, features).take(n.dropped - r.dropped) + given_up(
                    features,
                    config,
                    t,
                    n,
                )
            },
            _ => Seq::empty(),
        },
        None => Seq::empty(),
    }
}

/// Ordering by weight puts no feature behind a lighter one.
pub proof fn heaviest_first_descends(s: Seq<usize>, features: Seq<TileFeatureView>)
    ensures
        weights_descend(heaviest_first(s, features), features),
    decreases s.len(),
{
    if s.len() > 0 {
        heaviest_first_descends(s.drop_last(), features);
        insert_at_weight_slot(heaviest_first(s.drop_last(), features), s.last(), features);
    }
}

/// The heaviest features go first: what the ladder gives up and what it keeps are the features of
/// the tile, as many are given up as are counted as dropped, and none of them has fewer vertices
/// than one that is kept.
pub proof fn heaviest_go_first(
    features: Seq<TileFeatureView>,
    config: TileConfig,
    t: TileTransform,
    r: RungView,
)
    ensures
        ({
            let kept = stop(features, config, t, r).active;
            let gone = given_up(features, config, t, r);
            &&& gone.len() == stop(features, config, t, r).dropped - r.dropped
            &&& r.active.to_multiset() == gone.to_multiset().add(kept.to_multiset())
            &&& forall|i: int, j: int|
                0 <= i < gone.len() && 0 <= j < kept.len() ==> features[(
                #[trigger] gone[i]) as int].vertex_count >= features[(
                #[trigger] kept[j]) as int].vertex_count
        }),
    decreases
            r.active.len(),
            if r.coarse {
                0nat
            } else {
                1nat
            },
            mode_rank(r.mode),
{
    broadcast use vstd::seq_lib::group_to_multiset_ensures;
    let (l, instances) = tile_layer(features, config, t, r.active, r.coarse, r.mode);
    let next = next_rung(r, features, t.tile.z < config.simplify_below_zoom);
    let kept = stop(features, config, t, r).active;
    let gone = given_up(features, config, t, r);
    assert(Seq::<usize>::empty().to_multiset() =~= vstd::multiset::Multiset::empty());
    if let Some(gz) = gzip::gzip_of(layer::tile_bytes(l), config.gzip_level) {
        if let Some(n) = next {
            if l.features.len() > 0 && gz.len() > config.hard_max_tile_bytes {
                heaviest_first_keeps(r.active, features);
                heaviest_first_descends(r.active, features);
                heaviest_go_first(features, config, t, n);
                let order = heaviest_first(r.active, features);
                let cut = n.dropped - r.dropped;
                let later = given_up(features, config, t, n);
                if cut == 0 {
                    assert(order.take(0) + later =~= later);
                } else {
                    assert(order =~= order.take(cut) + n.active);
                    vstd::seq_lib::lemma_multiset_commutative(order.take(cut), n.active);
                    vstd::seq_lib::lemma_multiset_commutative(order.take(cut), later);
                    assert(r.active.to_multiset() =~= gone.to_multiset().add(kept.to_multiset()));
                    assert forall|i: int, j: int|
                        0 <= i < gone.len() && 0 <= j < kept.len() implies features[(
                    #[trigger] gone[i]) as int].vertex_count >= features[(
                    #[trigger] kept[j]) as int].vertex_count by {
                        if i < cut {
                            assert(kept.to_multiset().count(kept[j]) > 0) by {
                                assert(kept.contains(kept[j]));
                            }
                            assert(n.active.contains(kept[j])) by {
                                assert(n.active.to_multiset().count(kept[j]) > 0);
                            }
                            let k = choose|k: int| 0 <= k < n.active.len() && n.active[k] == kept[j];
                            assert(order[cut + k] == kept[j]);
                            assert(order[i] == gone[i]);
                        } else {
                            assert(gone[i] == later[i - cut]);
                        }
                    }
                }
            }
        }
    }
}

/// High zooms keep their geometry: at and above the simplification threshold the ladder never
/// turns to the coarser detail.
pub proof fn high_zooms_keep_detail(
    features: Seq<TileFeatureView>,
    config: TileConfig,
    t: TileTransform,
    r: RungView,
)
    requires
        t.tile.z >= config.simplify_below_zoom,
        !r.coarse,
    ensures
        !stop(features, config, t, r).coarse,
    decreases r.active.len(), mode_rank(r.mode),
{
    let (l, instances) = tile_layer(features, config, t, r.active, r.coarse, r.mode);
    let next = next_rung(r, features, t.tile.z < config.simplify_below_zoom);
    if let Some(gz) = gzip::gzip_of(layer::tile_bytes(l), config.gzip_level) {
        if let Some(n) = next {
            if l.features.len() > 0 && gz.len() > config.hard_max_tile_bytes {
                heaviest_first_keeps(r.active, features);
                high_zooms_keep_detail(features, config, t, n);
            }
        }
    }
}

/// Every tile carries the configured layer name and extent, and the features that are counted as
/// encoded are those of its layer.
pub proof fn layers_carry_name_and_extent(
    features: Seq<TileFeatureView>,
    config: TileConfig,
    t: TileTransform,
    active: Seq<usize>,
    coarse: bool,
    mode: AttrMode,
)
    ensures
        tile_layer(features, config, t, active, coarse, mode).0.name == config.layer_name@,
        tile_layer(features, config, t, active, coarse, mode).0.extent == config.extent,
        tile_layer(features, config, t, active, coarse, mode).1 <= active.len(),
        tile_layer(features, config, t, active, coarse, mode).1 == tile_layer(
            features,
            config,
            t,
            active,
            coarse,
            mode,
        ).0.features.len(),
    decreases active.len(),
{
    if active.len() > 0 {
        layers_carry_name_and_extent(features, config, t, active.drop_last(), coarse, mode);
    }
}

} // verus!
