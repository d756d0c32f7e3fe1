//! What a reader of a tile gets back of its features, and what each rung of the ladder takes away.
use vstd::prelude::*;
use crate::config;
use crate::config::{PropertyPolicy, TileConfig};
use crate::gzip;
use crate::mvt::commands::GeomKind;
use crate::mvt::layer;
use crate::mvt::layer::{FeatureView, LayerView, ValueKey};
use crate::mvt::layer_laws;
use crate::picking;
use crate::properties::AttrMode;
use crate::text;
use crate::tile_geometry;
use crate::tileset::ladder;
use crate::tileset::ladder::{Outcome, RungView, TileFeatureView};
use crate::tilemath::TileTransform;

verus! {

/// A key with its value.
pub type Property = (Seq<char>, ValueKey);

/// What a reader gets of a feature of a layer.
pub struct Shown {
    pub id: Option<u64>,
    pub kind: GeomKind,
    pub geometry: Seq<u32>,
    pub properties: Seq<Property>,
}

/// The properties that tags stand for: the first tag of each pair is the place of the key, the
/// second that of the value.
pub open spec fn read_properties(l: LayerView, tags: Seq<u32>) -> Seq<Property> {
    Seq::new(
        tags.len() / 2,
        |i: int| (l.keys[tags[2 * i] as int], l.values[tags[2 * i + 1] as int]),
    )
}

/// What a reader gets of a feature of a layer.
pub open spec fn shown(l: LayerView, f: FeatureView) -> Shown {
    Shown {
        id: f.id,
        kind: f.kind,
        geometry: f.geometry,
        properties: read_properties(l, f.tags),
    }
}

/// What a reader gets of all the features of a layer.
pub open spec fn all_shown(l: LayerView) -> Seq<Shown> {
    Seq::new(l.features.len(), |k: int| shown(l, l.features[k]))
}

/// Tags that come in pairs and point into a layer.
pub open spec fn tags_point(l: LayerView, tags: Seq<u32>) -> bool {
    &&& tags.len() % 2 == 0
    &&& forall|i: int|
        0 <= i < tags.len() ==> (#[trigger] tags[i]) < if i % 2 == 0 {
            l.keys.len()
        } else {
            l.values.len()
        }
}

/// How a feature is to be read from a tile where it is drawn, with the properties that `keep`
/// leaves of its own.
pub open spec fn to_show(
    features: Seq<TileFeatureView>,
    t: TileTransform,
    coarse: bool,
    keep: spec_fn(Seq<Property>) -> Seq<Property>,
) -> spec_fn(usize) -> Option<Shown> {
    |i: usize|
        {
            let f = features[i as int];
            let g = if coarse {
                f.coarse
            } else {
                f.geometry
            };
            match g {
                Some(g) => match tile_geometry::geometry_commands(g, t) {
                    Some((kind, geometry)) => Some(
                        Shown { id: f.id, kind, geometry, properties: keep(f.properties) },
                    ),
                    None => None,
                },
                None => None,
            }
        }
}

/// Leaves all properties.
pub open spec fn keep_all() -> spec_fn(Seq<Property>) -> Seq<Property> {
    |p: Seq<Property>| p
}

/// Leaves no property.
pub open spec fn keep_none() -> spec_fn(Seq<Property>) -> Seq<Property> {
    |p: Seq<Property>| Seq::empty()
}

/// Leaves the core properties.
pub open spec fn keep_core(policy: PropertyPolicy) -> spec_fn(Seq<Property>) -> Seq<Property> {
    |p: Seq<Property>| ladder::core_only(p, policy)
}

/// A property whose key is, in whatever case, on the list of core properties and not on the
/// denylist.
pub open spec fn if_core(policy: PropertyPolicy) -> spec_fn(Property) -> Option<Property> {
    |p: Property|
        if (exists|i: int|
            0 <= i < policy.core_properties@.len() && text::lowercase(
                (#[trigger] policy.core_properties@[i])@,
            ) == text::lowercase(p.0)) && !(exists|i: int|
            0 <= i < policy.denylist@.len() && text::lowercase((#[trigger] policy.denylist@[i])@)
                == text::lowercase(p.0)) {
            Some(p)
        } else {
            None
        }
}

/// The core properties are those with a key on the core list that is not denied: none of them is
/// missing, they are unchanged and keep their order.
pub proof fn core_properties_stay(props: Seq<Property>, policy: PropertyPolicy)
    ensures
        picking::picked(props, if_core(policy), ladder::core_only(props, policy)),
    decreases props.len(),
{
    if props.len() == 0 {
        picking::picked_of_nothing(props, if_core(policy));
        assert(props =~= Seq::empty());
    } else {
        core_properties_stay(props.drop_last(), policy);
        let key = props.last().0;
        listed_by_name(policy.core_properties@, key);
        listed_by_name(policy.denylist@, key);
        picking::picked_grows(
            props,
            if_core(policy),
            ladder::core_only(props.drop_last(), policy),
            ladder::core_only(props, policy),
        );
    }
}

/// A key is on a list where one of its strings is the key, in whatever case.
pub proof fn listed_by_name(list: Seq<String>, key: Seq<char>)
    ensures
        config::listed(config::strings(list), key) == (exists|i: int|
            0 <= i < list.len() && text::lowercase((#[trigger] list[i])@) == text::lowercase(key)),
{
    let s = config::strings(list);
    if config::listed(s, key) {
        let i = choose|i: int|
            0 <= i < s.len() && text::lowercase(#[trigger] s[i]) == text::lowercase(key);
        assert(text::lowercase(list[i]@) == text::lowercase(key));
    }
    if exists|i: int|
        0 <= i < list.len() && text::lowercase((#[trigger] list[i])@) == text::lowercase(key) {
        let i = choose|i: int|
            0 <= i < list.len() && text::lowercase((#[trigger] list[i])@) == text::lowercase(key);
        assert(text::lowercase(s[i]) == text::lowercase(key));
    }
}

/// The new feature of a layer is read back with its properties, and what is read of the others does
/// not change.
proof fn feature_is_shown(
    l: LayerView,
    id: Option<u64>,
    kind: GeomKind,
    geometry: Seq<u32>,
    props: Seq<Property>,
)
    requires
        geometry.len() > 0,
        forall|k: int| 0 <= k < l.features.len() ==> tags_point(l, (#[trigger] l.features[k]).tags),
        layer::with_feature(l, id, kind, geometry, props).keys.len() < 0x1_0000_0000,
        layer::with_feature(l, id, kind, geometry, props).values.len() < 0x1_0000_0000,
    ensures
        ({
            let n = layer::with_feature(l, id, kind, geometry, props);
            &&& all_shown(n) == all_shown(l).push(Shown { id, kind, geometry, properties: props })
            &&& forall|k: int|
                0 <= k < n.features.len() ==> tags_point(n, (#[trigger] n.features[k]).tags)
            &&& l.keys.len() <= n.keys.len()
            &&& l.values.len() <= n.values.len()
        }),
{
    let n = layer::with_feature(l, id, kind, geometry, props);
    let tags = layer::tags_of(l.keys, l.values, props);
    layer_laws::interning_appends(l.keys, l.values, props);
    layer_laws::tags_len(l.keys, l.values, props);
    assert forall|i: int| 0 <= i < props.len() implies #[trigger] read_properties(n, tags)[i]
        == props[i] && tags[2 * i] < n.keys.len() && tags[2 * i + 1] < n.values.len() by {
        layer_laws::tags_lead_back(l.keys, l.values, props, i);
    }
    assert(read_properties(n, tags) =~= props);
    assert(tags_point(n, tags)) by {
        assert forall|j: int| 0 <= j < tags.len() implies (#[trigger] tags[j]) < if j % 2 == 0 {
            n.keys.len()
        } else {
            n.values.len()
        } by {
            let i = j / 2;
            assert(read_properties(n, tags)[i] == props[i]);
            assert(j == 2 * i || j == 2 * i + 1);
        }
    }
    assert forall|k: int| 0 <= k < n.features.len() implies tags_point(
        n,
        (#[trigger] n.features[k]).tags,
    ) by {
        if k < l.features.len() {
            assert(n.features[k] == l.features[k]);
        }
    }
    assert forall|k: int| 0 <= k < l.features.len() implies #[trigger] all_shown(n)[k] == all_shown(
        l,
    )[k] by {
        let f = l.features[k];
        assert(n.features[k] == f);
        assert(tags_point(l, f.tags));
        assert forall|i: int| 0 <= i < f.tags.len() / 2 implies #[trigger] read_properties(
            n,
            f.tags,
        )[i] == read_properties(l, f.tags)[i] by {
            assert(f.tags[2 * i] < l.keys.len());
            assert(f.tags[2 * i + 1] < l.values.len());
        }
        assert(read_properties(n, f.tags) =~= read_properties(l, f.tags));
    }
    assert(all_shown(n) =~= all_shown(l).push(Shown { id, kind, geometry, properties: props }));
}

/// A layer whose keys and values a tag can count.
pub open spec fn countable(l: LayerView) -> bool {
    l.keys.len() < 0x1_0000_0000 && l.values.len() < 0x1_0000_0000
}

proof fn features_are_shown(
    features: Seq<TileFeatureView>,
    config: TileConfig,
    t: TileTransform,
    active: Seq<usize>,
    coarse: bool,
    mode: AttrMode,
    keep: spec_fn(Seq<Property>) -> Seq<Property>,
)
    requires
        countable(ladder::tile_layer(features, config, t, active, coarse, mode).0),
        forall|p: Seq<Property>| #[trigger]
            ladder::mode_properties(p, config.property_policy, mode) == keep(p),
    ensures
        ({
            let l = ladder::tile_layer(features, config, t, active, coarse, mode).0;
            &&& picking::picked(active, to_show(features, t, coarse, keep), all_shown(l))
            &&& forall|k: int|
                0 <= k < l.features.len() ==> tags_point(l, (#[trigger] l.features[k]).tags)
        }),
    decreases active.len(),
{
    let l = ladder::tile_layer(features, config, t, active, coarse, mode).0;
    let show = to_show(features, t, coarse, keep);
    if active.len() == 0 {
        picking::picked_of_nothing(active, show);
        assert(all_shown(l) =~= Seq::empty());
    } else {
        let d = active.drop_last();
        let before = ladder::tile_layer(features, config, t, d, coarse, mode).0;
        let f = features[active.last() as int];
        if let Some((kind, cmds)) = ladder::feature_commands(f, t, coarse) {
            let props = ladder::mode_properties(f.properties, config.property_policy, mode);
            layer_laws::interning_appends(before.keys, before.values, props);
            assert(cmds.len() > 0);
            features_are_shown(features, config, t, d, coarse, mode, keep);
            feature_is_shown(before, f.id, kind, cmds, props);
        } else {
            features_are_shown(features, config, t, d, coarse, mode, keep);
        }
        picking::picked_grows(active, show, all_shown(before), all_shown(l));
    }
}

/// On the first rung a reader of a tile gets back every active feature that is drawn, in order,
/// with its id and with exactly its properties, keys and values.
pub proof fn full_tiles_show_all_properties(
    features: Seq<TileFeatureView>,
    config: TileConfig,
    t: TileTransform,
    active: Seq<usize>,
    coarse: bool,
)
    requires
        countable(ladder::tile_layer(features, config, t, active, coarse, AttrMode::Full).0),
    ensures
        picking::picked(
            active,
            to_show(features, t, coarse, keep_all()),
            all_shown(ladder::tile_layer(features, config, t, active, coarse, AttrMode::Full).0),
        ),
{
    features_are_shown(features, config, t, active, coarse, AttrMode::Full, keep_all());
}

/// On the second rung a reader gets back every active feature that is drawn, with its core
/// properties.
pub proof fn core_tiles_show_core_properties(
    features: Seq<TileFeatureView>,
    config: TileConfig,
    t: TileTransform,
    active: Seq<usize>,
    coarse: bool,
)
    requires
        countable(ladder::tile_layer(features, config, t, active, coarse, AttrMode::Core).0),
    ensures
        picking::picked(
            active,
            to_show(features, t, coarse, keep_core(config.property_policy)),
            all_shown(ladder::tile_layer(features, config, t, active, coarse, AttrMode::Core).0),
        ),
{
    features_are_shown(
        features,
        config,
        t,
        active,
        coarse,
        AttrMode::Core,
        keep_core(config.property_policy),
    );
}

/// From the third rung on a reader gets back every active feature that is drawn, without
/// properties, and the layer holds no key and no value.
pub proof fn bare_tiles_show_no_properties(
    features: Seq<TileFeatureView>,
    config: TileConfig,
    t: TileTransform,
    active: Seq<usize>,
    coarse: bool,
)
    ensures
        ({
            let l = ladder::tile_layer(
                features,
                config,
                t,
                active,
                coarse,
                AttrMode::NoProperties,
            ).0;
            &&& picking::picked(active, to_show(features, t, coarse, keep_none()), all_shown(l))
            &&& l.keys.len() == 0
            &&& l.values.len() == 0
        }),
{
    bare_tiles_intern_nothing(features, config, t, active, coarse);
    features_are_shown(features, config, t, active, coarse, AttrMode::NoProperties, keep_none());
}

proof fn bare_tiles_intern_nothing(
    features: Seq<TileFeatureView>,
    config: TileConfig,
    t: TileTransform,
    active: Seq<usize>,
    coarse: bool,
)
    ensures
        ({
            let l = ladder::tile_layer(
                features,
                config,
                t,
                active,
                coarse,
                AttrMode::NoProperties,
            ).0;
            l.keys.len() == 0 && l.values.len() == 0
        }),
    decreases active.len(),
{
    if active.len() > 0 {
        bare_tiles_intern_nothing(features, config, t, active.drop_last(), coarse);
    }
}

/// The instances that a tile counts are the active features that are drawn.
pub proof fn instances_are_the_drawn_features(
    features: Seq<TileFeatureView>,
    config: TileConfig,
    t: TileTransform,
    active: Seq<usize>,
    coarse: bool,
    mode: AttrMode,
)
    ensures
        ({
            let (l, n) = ladder::tile_layer(features, config, t, active, coarse, mode);
            &&& n == l.features.len()
            &&& exists|out: Seq<Shown>|
                out.len() == n && #[trigger] picking::picked(
                    active,
                    to_show(features, t, coarse, keep_none()),
                    out,
                )
        }),
    decreases active.len(),
{
    let show = to_show(features, t, coarse, keep_none());
    if active.len() == 0 {
        picking::picked_of_nothing(active, show);
    } else {
        let d = active.drop_last();
        instances_are_the_drawn_features(features, config, t, d, coarse, mode);
        let n = ladder::tile_layer(features, config, t, d, coarse, mode).1;
        let before = choose|out: Seq<Shown>|
            out.len() == n && #[trigger] picking::picked(d, show, out);
        let out = match show(active.last()) {
            Some(s) => before.push(s),
            None => before,
        };
        picking::picked_grows(active, show, before, out);
    }
}

/// A tile that fits is published as it is: nothing is taken away where the compressed tile of all
/// features with all properties is within the cap. Where nothing is drawn there is no tile.
pub proof fn tiles_that_fit_are_published_whole(
    features: Seq<TileFeatureView>,
    config: TileConfig,
    t: TileTransform,
    idxs: Seq<usize>,
)
    ensures
        ({
            let (l, n) = ladder::tile_layer(features, config, t, idxs, false, AttrMode::Full);
            let outcome = ladder::climb(features, config, t, ladder::first_rung(idxs));
            if n == 0 {
                outcome == Outcome::Empty
            } else {
                match gzip::gzip_of(layer::tile_bytes(l), config.gzip_level) {
                    None => outcome == Outcome::Failed,
                    Some(gz) => gz.len() <= config.hard_max_tile_bytes ==> outcome
                        == (Outcome::Published {
                        bytes: gz,
                        mitigated: false,
                        dropped: 0,
                        instances: n,
                    }),
                }
            }
        }),
{
    ladder::layers_carry_name_and_extent(features, config, t, idxs, false, AttrMode::Full);
}

/// An unmitigated tile is the compressed layer of all its features with all their properties.
pub proof fn unmitigated_tiles_are_whole(
    features: Seq<TileFeatureView>,
    config: TileConfig,
    t: TileTransform,
    idxs: Seq<usize>,
)
    ensures
        ladder::climb(features, config, t, ladder::first_rung(idxs)) matches Outcome::Published {
            bytes,
            mitigated,
            dropped,
            instances,
        } ==> !mitigated ==> {
            let (l, n) = ladder::tile_layer(features, config, t, idxs, false, AttrMode::Full);
            &&& gzip::gzip_of(layer::tile_bytes(l), config.gzip_level) == Some(bytes)
            &&& bytes.len() <= config.hard_max_tile_bytes
            &&& dropped == 0
            &&& instances == n
        },
{
    let r = ladder::first_rung(idxs);
    ladder::ladder_converges(features, config, t, r);
    let (l, n) = ladder::tile_layer(features, config, t, idxs, false, AttrMode::Full);
    let next = ladder::next_rung(r, features, t.tile.z < config.simplify_below_zoom);
    if let Some(gz) = gzip::gzip_of(layer::tile_bytes(l), config.gzip_level) {
        if gz.len() > config.hard_max_tile_bytes && l.features.len() > 0 {
            ladder::ladder_converges(features, config, t, next->Some_0);
        }
    }
}

/// Going down the ladder takes properties first, then detail at low zooms, then features: each rung
/// changes one thing only, and there is a next one as long as anything can be taken away.
pub proof fn rungs_take_one_thing(r: RungView, features: Seq<TileFeatureView>, low_zoom: bool)
    ensures
        ladder::next_rung(r, features, low_zoom) matches Some(n) ==> {
            &&& n.dropped + n.active.len() == r.dropped + r.active.len()
            &&& r.mode is Full ==> n.mode is Core && n.coarse == r.coarse && n.active == r.active
            &&& r.mode is Core ==> n.mode is NoProperties && n.coarse == r.coarse && n.active
                == r.active
            &&& r.mode is NoProperties ==> n.mode is NoProperties
            &&& n.coarse != r.coarse ==> r.mode is NoProperties && low_zoom && n.coarse && n.active
                == r.active
            &&& n.active != r.active ==> r.mode is NoProperties && (r.coarse || !low_zoom)
                && n.coarse == r.coarse && n.active.len() == r.active.len() - r.active.len() / 2
                && r.active.len() > 1
        },
        ladder::next_rung(r, features, low_zoom) is None <==> r.mode is NoProperties && (r.coarse
            || !low_zoom) && r.active.len() <= 1,
{
    ladder::heaviest_first_keeps(r.active, features);
}

} // verus!
