//! Which tiles a run has, which features they show, and what is written of them.
use vstd::prelude::*;
use crate::config::TileConfig;
use crate::error::TileError;
use crate::mvt::layer;
use crate::picking;
use crate::sink::{SinkCall, TileObjectMeta, TileSink};
use crate::tilemath::TileId;
use crate::tileset::count_laws;
use crate::tileset::ladder::BuiltTile;
use crate::tileset::ladder::Outcome;
use crate::tileset::prepare::PreparedDataset;
use crate::tileset::run;
use crate::tileset::run::{Assignment, TileInput, TileRange, ZoomAccum, ZoomInput};

verus! {

/// A tile that a feature goes into is there, once, and lists every feature that goes into it, in
/// order; a tile that no feature goes into is not there.
pub proof fn tiles_are_assigned(
    a: Assignment,
    z: u8,
    ranges: Seq<Option<TileRange>>,
    x: u32,
    y: u32,
    i: int,
)
    requires
        a.assigns(z, ranges),
        ranges.len() <= usize::MAX,
        0 <= i < ranges.len(),
        count_laws::goes_into(ranges[i], x, y),
    ensures
        exists|k: int|
            0 <= k < a.entries@.len() && (#[trigger] a.entries@[k]).0 == (TileId { z, x, y })
                && a.entries@[k].1@.contains(i as usize),
        forall|j: int, k: int|
            0 <= j < a.entries@.len() && 0 <= k < a.entries@.len() && (#[trigger] a.entries@[j]).0
                == (#[trigger] a.entries@[k]).0 ==> j == k,
{
    count_laws::tiles_have_the_features_that_cover_them(ranges, ranges.len(), x, y);
    let out = run::covering(ranges, ranges.len(), x, y);
    assert(out.contains(i as usize));
    assert(out.len() > 0);
    let k = choose|k: int|
        0 <= k < a.entries@.len() && (#[trigger] a.entries@[k]).0 == (TileId { z, x, y });
    assert(a.entries@[k].1@ == out);
    assert forall|j: int, k: int|
        0 <= j < a.entries@.len() && 0 <= k < a.entries@.len() && (#[trigger] a.entries@[j]).0 == (
        #[trigger] a.entries@[k]).0 implies j == k by {
        if j < k {
            assert(a.entries@[j].0 != a.entries@[k].0);
        } else if k < j {
            assert(a.entries@[k].0 != a.entries@[j].0);
        }
    }
}

/// A tile that is there has a feature, lies at the zoom, and lists features that go into it, in
/// order and each once.
pub proof fn assigned_tiles_have_features(
    a: Assignment,
    z: u8,
    ranges: Seq<Option<TileRange>>,
    k: int,
)
    requires
        a.assigns(z, ranges),
        ranges.len() <= usize::MAX,
        0 <= k < a.entries@.len(),
    ensures
        a.entries@[k].0.z == z,
        a.entries@[k].1@.len() > 0,
        forall|j: int|
            0 <= j < a.entries@[k].1@.len() ==> (#[trigger] a.entries@[k].1@[j]) < ranges.len()
                && count_laws::goes_into(
                ranges[a.entries@[k].1@[j] as int],
                a.entries@[k].0.x,
                a.entries@[k].0.y,
            ),
        forall|i: int, j: int|
            0 <= i < j < a.entries@[k].1@.len() ==> (#[trigger] a.entries@[k].1@[i]) < (
            #[trigger] a.entries@[k].1@[j]),
{
    let e = a.entries@[k];
    count_laws::tiles_have_the_features_that_cover_them(ranges, ranges.len(), e.0.x, e.0.y);
}

/// The features that go nowhere because they cover too many tiles are counted.
pub proof fn skipped_features_are_counted(
    a: Assignment,
    z: u8,
    ranges: Seq<Option<TileRange>>,
)
    requires
        a.assigns(z, ranges),
    ensures
        exists|wide: Seq<TileRange>|
            wide.len() == a.skipped && #[trigger] picking::picked(
                ranges,
                count_laws::if_too_wide(),
                wide,
            ),
{
    count_laws::wide_features_are_counted(ranges);
}

/// A range counts as many tiles as it has columns times rows.
pub proof fn ranges_are_rectangles(r: TileRange, x: u32, y: u32)
    ensures
        r.area() == (r.x1 - r.x0 + 1) * (r.y1 - r.y0 + 1),
        r.has(x, y) <==> r.x0 <= x && x <= r.x1 && r.y0 <= y && y <= r.y1,
        r.wf() <==> r.has(r.x0, r.y0) && r.has(r.x1, r.y1),
{
}

/// A tile shows the features at the places it was given, each with its id, properties and weight.
pub proof fn tiles_show_the_features_given(
    input: TileInput,
    dataset: PreparedDataset,
    places: Seq<usize>,
    k: int,
)
    requires
        input.draws(dataset, places),
        0 <= k < places.len(),
    ensures
        input.features@.len() == places.len(),
        places[k] < dataset.features@.len(),
        input.features@[k].id == dataset.features@[places[k] as int].id,
        input.features@[k].vertex_count == dataset.features@[places[k] as int].vertex_count,
        layer::props_view(input.features@[k].properties@) == layer::props_view(
            dataset.features@[places[k] as int].properties@,
        ),
{
}

/// A run has every zoom of its range, once and from the lowest on, and no other.
pub proof fn runs_have_every_zoom(
    zooms: Seq<ZoomInput>,
    dataset: PreparedDataset,
    config: TileConfig,
    z: u8,
)
    requires
        run::zooms_of(zooms, dataset, config),
    ensures
        config.zoom_range.min_zoom <= z <= config.zoom_range.max_zoom ==> exists|i: int|
            0 <= i < zooms.len() && (#[trigger] zooms[i]).z == z,
        forall|i: int|
            0 <= i < zooms.len() ==> config.zoom_range.min_zoom <= (#[trigger] zooms[i]).z
                <= config.zoom_range.max_zoom,
        forall|i: int, j: int|
            0 <= i < j < zooms.len() ==> (#[trigger] zooms[i]).z < (#[trigger] zooms[j]).z,
{
    if config.zoom_range.min_zoom <= z <= config.zoom_range.max_zoom {
        let i = z - config.zoom_range.min_zoom;
        assert(zooms[i].z == z);
    }
}

/// How a tile is written where it has something to show.
pub open spec fn to_write(config: TileConfig, meta: TileObjectMeta) -> spec_fn(
    TileInput,
) -> Option<SinkCall> {
    |e: TileInput|
        match e.outcome(config) {
            Outcome::Published { bytes, .. } => Some(SinkCall::Write { tile: e.tile, bytes, meta }),
            _ => None,
        }
}

/// Every tile with something to show is written, once and in order, with its own bytes; the others
/// are not.
pub proof fn tiles_are_written_in_order(
    entries: Seq<TileInput>,
    config: TileConfig,
    meta: TileObjectMeta,
    n: nat,
)
    requires
        n <= entries.len(),
    ensures
        picking::picked(
            entries.take(n as int),
            to_write(config, meta),
            run::tile_calls(entries, config, meta, n),
        ),
    decreases n,
{
    let s = entries.take(n as int);
    if n == 0 {
        picking::picked_of_nothing(s, to_write(config, meta));
    } else {
        tiles_are_written_in_order(entries, config, meta, (n - 1) as nat);
        assert(s.drop_last() =~= entries.take(n - 1));
        assert(s.last() == entries[n - 1]);
        picking::picked_grows(
            s,
            to_write(config, meta),
            run::tile_calls(entries, config, meta, (n - 1) as nat),
            run::tile_calls(entries, config, meta, n),
        );
    }
}

/// A run writes its zooms one after the other.
pub proof fn zooms_are_written_in_order(
    zooms: Seq<ZoomInput>,
    config: TileConfig,
    meta: TileObjectMeta,
    n: nat,
)
    requires
        n < zooms.len(),
    ensures
        run::run_calls(zooms, config, meta, 0).len() == 0,
        run::run_calls(zooms, config, meta, n + 1) == run::run_calls(zooms, config, meta, n)
            + run::tile_calls(
            zooms[n as int].entries@,
            config,
            meta,
            zooms[n as int].entries@.len(),
        ),
{
}

/// A tile that was built is what was built, and where nothing was built there is no tile.
pub proof fn built_tiles_are_outcomes(b: BuiltTile)
    ensures
        run::as_outcome(None) is Empty,
        run::as_outcome(Some(b)) == (Outcome::Published {
            bytes: b.bytes@,
            mitigated: b.mitigated,
            dropped: b.dropped as nat,
            instances: b.instances as nat,
        }),
{
}

/// The first error of a zoom is kept, and nothing else is counted for it.
pub proof fn first_errors_are_kept(a: ZoomAccum, tile: TileId, e: TileError)
    ensures
        a.first_error is None ==> run::settled(a, tile, Err(e)).first_error == Some(e),
        a.first_error is Some ==> run::settled(a, tile, Err(e)) == a,
        run::settled(a, tile, Err(e)) == (ZoomAccum {
            first_error: run::settled(a, tile, Err(e)).first_error,
            ..a
        }),
        run::settled(a, tile, Ok(None)).empty == (a.empty + 1) % 0x1_0000_0000_0000_0000,
        run::settled(a, tile, Ok(None)).first_error == a.first_error,
{
}

/// A run that ends at a tile ends for a reason that the tile gives: it cannot be compressed, or it was
/// refused by a sink that may refuse. Nothing before it failed, and exactly what stands before it
/// was written.
pub proof fn runs_end_for_a_reason<S: TileSink>(
    zooms: Seq<ZoomInput>,
    config: TileConfig,
    meta: TileObjectMeta,
    before: S,
    after: S,
    i: int,
    j: int,
    e: TileError,
)
    requires
        run::run_ended_at(zooms, config, meta, before, after, i, j, e),
    ensures
        0 <= i < zooms.len(),
        0 <= j < zooms[i].entries@.len(),
        !(zooms[i].entries@[j].outcome(config) is Empty),
        zooms[i].entries@[j].outcome(config) is Failed ==> e is Io || e is Compression,
        zooms[i].entries@[j].outcome(config) is Published ==> !before.reliable()
            && after.refusal() == Some(e),
        forall|a: int, b: int|
            0 <= a < i && 0 <= b < zooms[a].entries@.len() ==> !((
            #[trigger] zooms[a].entries@[b]).outcome(config) is Failed),
        forall|b: int|
            0 <= b < j ==> !((#[trigger] zooms[i].entries@[b]).outcome(config) is Failed),
        after.taken().len() == before.taken().len() + run::run_calls(
            zooms,
            config,
            meta,
            i as nat,
        ).len() + run::tile_calls(zooms[i].entries@, config, meta, j as nat).len(),
        before.taken().is_prefix_of(after.taken()),
{
    assert forall|a: int, b: int|
        0 <= a < i && 0 <= b < zooms[a].entries@.len() implies !((
    #[trigger] zooms[a].entries@[b]).outcome(config) is Failed) by {
        assert(run::none_fails(zooms[a].entries@, config));
    }
}

/// A run that a sink does not let finish has written everything, and its error carries what the sink
/// said.
pub proof fn unfinished_runs_are_written<S: TileSink>(
    zooms: Seq<ZoomInput>,
    config: TileConfig,
    meta: TileObjectMeta,
    before: S,
    after: S,
    e: TileError,
    tile: TileId,
)
    requires
        run::finish_refused(zooms, config, meta, before, after, e),
    ensures
        !before.reliable(),
        e matches TileError::Sink(m) && after.refusal() is Some && m@
            == after.refusal()->Some_0.text(),
        after.taken() == before.taken() + run::run_calls(zooms, config, meta, zooms.len()),
        after.stored(tile) == run::stored_after_zooms(
            before.stored(tile),
            zooms,
            config,
            zooms.len(),
            tile,
        ),
        forall|a: int, b: int|
            0 <= a < zooms.len() && 0 <= b < zooms[a].entries@.len() ==> !((
            #[trigger] zooms[a].entries@[b]).outcome(config) is Failed),
{
    assert forall|a: int, b: int|
        0 <= a < zooms.len() && 0 <= b < zooms[a].entries@.len() implies !((
    #[trigger] zooms[a].entries@[b]).outcome(config) is Failed) by {
        assert(run::none_fails(zooms[a].entries@, config));
    }
}

} // verus!
