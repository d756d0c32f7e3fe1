//! What is given up when a tile is too large, and in which order.
use vstd::prelude::*;
use crate::config::TileConfig;
use crate::gzip;
use crate::mvt::layer;
use crate::properties::AttrMode;
use crate::tileset::ladder;
use crate::tileset::ladder::{Outcome, RungView, TileFeatureView};
use crate::tilemath::TileTransform;

verus! {

/// What a rung compresses to, where it draws anything.
pub open spec fn compressed(
    features: Seq<TileFeatureView>,
    config: TileConfig,
    t: TileTransform,
    r: RungView,
) -> Option<Seq<u8>> {
    gzip::gzip_of(
        layer::tile_bytes(
            ladder::tile_layer(features, config, t, r.active, r.coarse, r.mode).0,
        ),
        config.gzip_level,
    )
}

/// Whether a rung draws anything.
pub open spec fn draws(
    features: Seq<TileFeatureView>,
    config: TileConfig,
    t: TileTransform,
    r: RungView,
) -> bool {
    ladder::tile_layer(features, config, t, r.active, r.coarse, r.mode).1 > 0
}

/// Whether a rung draws something that is above the cap.
pub open spec fn too_large(
    features: Seq<TileFeatureView>,
    config: TileConfig,
    t: TileTransform,
    r: RungView,
) -> bool {
    &&& draws(features, config, t, r)
    &&& compressed(features, config, t, r) matches Some(gz) && gz.len() > config.hard_max_tile_bytes
}

/// A rung within the cap is published as it is, with what was taken away before. One that draws
/// nothing gives no tile, and one that cannot be compressed fails.
pub proof fn rungs_that_fit_are_published(
    features: Seq<TileFeatureView>,
    config: TileConfig,
    t: TileTransform,
    r: RungView,
)
    ensures
        !draws(features, config, t, r) ==> ladder::climb(features, config, t, r) is Empty,
        draws(features, config, t, r) && compressed(features, config, t, r) is None
            ==> ladder::climb(features, config, t, r) is Failed,
        draws(features, config, t, r) && !too_large(features, config, t, r) ==> (compressed(
            features,
            config,
            t,
            r,
        ) matches Some(gz) ==> ladder::climb(features, config, t, r) == (Outcome::Published {
            bytes: gz,
            mitigated: r.mode != AttrMode::Full || r.coarse || r.dropped > 0,
            dropped: r.dropped,
            instances: ladder::tile_layer(features, config, t, r.active, r.coarse, r.mode).1,
        })),
{
    ladder::layers_carry_name_and_extent(features, config, t, r.active, r.coarse, r.mode);
}

/// A tile that is too large loses first all but its core properties, then those too, and nothing
/// else as long as it has any.
pub proof fn large_tiles_lose_properties_first(
    features: Seq<TileFeatureView>,
    config: TileConfig,
    t: TileTransform,
    r: RungView,
)
    requires
        too_large(features, config, t, r),
    ensures
        r.mode == AttrMode::Full ==> ladder::climb(features, config, t, r) == ladder::climb(
            features,
            config,
            t,
            RungView { mode: AttrMode::Core, ..r },
        ),
        r.mode == AttrMode::Core ==> ladder::climb(features, config, t, r) == ladder::climb(
            features,
            config,
            t,
            RungView { mode: AttrMode::NoProperties, ..r },
        ),
{
    ladder::layers_carry_name_and_extent(features, config, t, r.active, r.coarse, r.mode);
}

/// Without properties a tile that is still too large is drawn coarser, at zooms where geometry is
/// simplified.
pub proof fn large_tiles_lose_detail_next(
    features: Seq<TileFeatureView>,
    config: TileConfig,
    t: TileTransform,
    r: RungView,
)
    requires
        too_large(features, config, t, r),
        r.mode == AttrMode::NoProperties,
        !r.coarse,
        t.tile.z < config.simplify_below_zoom,
    ensures
        ladder::climb(features, config, t, r) == ladder::climb(
            features,
            config,
            t,
            RungView { coarse: true, ..r },
        ),
{
    ladder::layers_carry_name_and_extent(features, config, t, r.active, r.coarse, r.mode);
}

/// Whether `out` is `s` with the features of more vertices first: every place of `s` once, those of
/// equal weight in their order.
pub open spec fn by_weight(
    s: Seq<usize>,
    features: Seq<TileFeatureView>,
    out: Seq<usize>,
    at: Seq<int>,
) -> bool {
    &&& at.len() == s.len()
    &&& out.len() == s.len()
    &&& forall|k: int| 0 <= k < at.len() ==> 0 <= (#[trigger] at[k]) < s.len() && out[k] == s[at[k]]
    &&& forall|i: int| 0 <= i < s.len() ==> #[trigger] at.contains(i)
    &&& forall|j: int, k: int|
        0 <= j < k < at.len() ==> outweighs(s, features, #[trigger] at[j], #[trigger] at[k])
}

/// Whether the feature at place `a` goes before the one at place `b`.
pub open spec fn outweighs(s: Seq<usize>, features: Seq<TileFeatureView>, a: int, b: int) -> bool {
    let (x, y) = (features[s[a] as int].vertex_count, features[s[b] as int].vertex_count);
    x > y || x == y && a < b
}

/// Ordering by weight takes every feature once, the heavier before the lighter, equal ones as they
/// stand.
pub proof fn heavier_features_stand_first(s: Seq<usize>, features: Seq<TileFeatureView>)
    ensures
        exists|at: Seq<int>| #[trigger]
            by_weight(s, features, ladder::heaviest_first(s, features), at),
{
    let at = places_by_weight(s, features);
}

proof fn places_by_weight(s: Seq<usize>, features: Seq<TileFeatureView>) -> (at: Seq<int>)
    ensures
        by_weight(s, features, ladder::heaviest_first(s, features), at),
    decreases s.len(),
{
    if s.len() == 0 {
        Seq::empty()
    } else {
        let d = s.drop_last();
        let n = s.len() - 1;
        let x = s.last();
        let before = ladder::heaviest_first(d, features);
        let at = places_by_weight(d, features);
        ladder::heaviest_first_descends(d, features);
        ladder::insert_at_weight_slot(before, x, features);
        let slot = ladder::weight_slot(before, x, features);
        let out = before.insert(slot, x);
        let new = at.insert(slot, n);
        assert(out == ladder::heaviest_first(s, features));
        assert forall|k: int| 0 <= k < new.len() implies 0 <= (#[trigger] new[k]) < s.len() && out[k]
            == s[new[k]] by {
            if k < slot {
                assert(new[k] == at[k]);
            } else if k > slot {
                assert(new[k] == at[k - 1]);
            }
        }
        assert forall|i: int| 0 <= i < s.len() implies #[trigger] new.contains(i) by {
            if i == n {
                assert(new[slot] == n);
            } else {
                assert(at.contains(i));
                let k = choose|k: int| 0 <= k < at.len() && at[k] == i;
                if k < slot {
                    assert(new[k] == i);
                } else {
                    assert(new[k + 1] == i);
                }
            }
        }
        assert forall|j: int, k: int| 0 <= j < k < new.len() implies outweighs(
            s,
            features,
            #[trigger] new[j],
            #[trigger] new[k],
        ) by {
            if k < slot {
                assert(new[j] == at[j] && new[k] == at[k]);
                assert(outweighs(d, features, at[j], at[k]));
            } else if j > slot {
                assert(new[j] == at[j - 1] && new[k] == at[k - 1]);
                assert(outweighs(d, features, at[j - 1], at[k - 1]));
            } else if j < slot && k > slot {
                assert(new[j] == at[j] && new[k] == at[k - 1]);
                assert(outweighs(d, features, at[j], at[k - 1]));
            } else if j < slot {
                assert(new[j] == at[j] && new[k] == n);
                assert(before[j] == d[at[j]]);
            } else {
                assert(new[j] == n && new[k] == at[k - 1]);
                assert(before[k - 1] == d[at[k - 1]]);
            }
        }
        assert(by_weight(s, features, out, new));
        new
    }
}

/// Where neither properties nor detail are left to lose, the heavier half of the features goes, and
/// those that go are counted.
pub proof fn large_tiles_lose_the_heavier_half(
    features: Seq<TileFeatureView>,
    config: TileConfig,
    t: TileTransform,
    r: RungView,
)
    requires
        too_large(features, config, t, r),
        r.mode == AttrMode::NoProperties,
        r.coarse || t.tile.z >= config.simplify_below_zoom,
        r.active.len() > 1,
    ensures
        exists|out: Seq<usize>, at: Seq<int>| #[trigger]
            by_weight(r.active, features, out, at) && ladder::climb(features, config, t, r)
                == ladder::climb(
                features,
                config,
                t,
                RungView {
                    dropped: r.dropped + r.active.len() / 2,
                    active: out.skip((r.active.len() / 2) as int),
                    ..r
                },
            ),
{
    ladder::layers_carry_name_and_extent(features, config, t, r.active, r.coarse, r.mode);
    ladder::heaviest_first_keeps(r.active, features);
    let at = places_by_weight(r.active, features);
    let out = ladder::heaviest_first(r.active, features);
    assert(by_weight(r.active, features, out, at));
}

/// A single feature without properties is published though it is too large, as a tile that was made
/// smaller.
pub proof fn the_last_feature_is_published(
    features: Seq<TileFeatureView>,
    config: TileConfig,
    t: TileTransform,
    r: RungView,
)
    requires
        too_large(features, config, t, r),
        r.mode == AttrMode::NoProperties,
        r.coarse || t.tile.z >= config.simplify_below_zoom,
        r.active.len() <= 1,
    ensures
        compressed(features, config, t, r) matches Some(gz) && ladder::climb(
            features,
            config,
            t,
            r,
        ) == (Outcome::Published {
            bytes: gz,
            mitigated: true,
            dropped: r.dropped,
            instances: ladder::tile_layer(features, config, t, r.active, r.coarse, r.mode).1,
        }),
{
    ladder::layers_carry_name_and_extent(features, config, t, r.active, r.coarse, r.mode);
}

/// A tile starts with all its features and all their properties in full detail.
pub proof fn tiles_start_whole(idxs: Seq<usize>)
    ensures
        ladder::first_rung(idxs).mode == AttrMode::Full,
        !ladder::first_rung(idxs).coarse,
        ladder::first_rung(idxs).dropped == 0,
        ladder::first_rung(idxs).active == idxs,
{
}

} // verus!
