//! What holds of every generation run.
use vstd::prelude::*;
use crate::config::TileConfig;
use crate::sink::{SinkCall, TileObjectMeta};
use crate::tilemath::TileId;
use crate::tileset::ladder::Outcome;
use crate::tileset::prepare::PreparedDataset;
use crate::tileset::run;
use crate::tileset::run::{Assignment, TileInput, TileRange, ZoomInput, ZoomStats};

verus! {

/// An assignment of features to tiles gives the zoom of a dataset: its tiles, each with the
/// features that it lists.
pub proof fn assignments_give_zooms(
    a: Assignment,
    zoom: ZoomInput,
    dataset: PreparedDataset,
    ranges: Seq<Option<TileRange>>,
)
    requires
        a.assigns(zoom.z, ranges),
        ranges.len() == dataset.features@.len(),
        zoom.entries@.len() == a.entries@.len(),
        forall|i: int|
            0 <= i < zoom.entries@.len() ==> (#[trigger] zoom.entries@[i]).tile == a.entries@[i].0
                && zoom.entries@[i].draws(dataset, a.entries@[i].1@),
    ensures
        zoom.tiles_of(dataset),
{
    assert forall|i: int, j: int| 0 <= i < j < zoom.entries@.len() implies (
    #[trigger] zoom.entries@[i]).tile != (#[trigger] zoom.entries@[j]).tile by {
        assert(a.entries@[i].0 != a.entries@[j].0);
    }
    assert forall|i: int| 0 <= i < zoom.entries@.len() implies {
        let e = #[trigger] zoom.entries@[i];
        let places = run::covering(ranges, ranges.len(), e.tile.x, e.tile.y);
        places.len() > 0 && e.draws(dataset, places)
    } by {
        assert(a.entries@[i].1@.len() > 0);
    }
    assert forall|i: int| 0 <= i < zoom.entries@.len() implies (
    #[trigger] zoom.entries@[i]).tile.z == zoom.z by {
        assert(a.entries@[i].0.z == zoom.z);
    }
    assert forall|x: u32, y: u32|
        (#[trigger] run::covering(ranges, ranges.len(), x, y)).len() > 0 implies exists|i: int|
        0 <= i < zoom.entries@.len() && (#[trigger] zoom.entries@[i]).tile.x == x
            && zoom.entries@[i].tile.y == y by {
        let i = choose|i: int|
            0 <= i < a.entries@.len() && (#[trigger] a.entries@[i]).0 == (TileId {
                z: zoom.z,
                x,
                y,
            });
        assert(zoom.entries@[i].tile.x == x);
    }
    assert(zoom.assigned_by(dataset, ranges));
}

/// Whether a call writes one of the tiles with the metadata.
pub open spec fn writes_tile(
    call: SinkCall,
    entries: Seq<TileInput>,
    meta: TileObjectMeta,
    k: int,
) -> bool {
    call matches SinkCall::Write { tile, meta: m, .. } && tile == entries[k].tile && m == meta
}

/// Whether a call writes one of the first `n` tiles with the metadata.
pub open spec fn writes_one(
    call: SinkCall,
    entries: Seq<TileInput>,
    meta: TileObjectMeta,
    n: int,
) -> bool {
    exists|k: int| 0 <= k < n && #[trigger] writes_tile(call, entries, meta, k)
}

proof fn zooms_write_their_tiles(
    entries: Seq<TileInput>,
    config: TileConfig,
    meta: TileObjectMeta,
    n: nat,
)
    requires
        n <= entries.len(),
        forall|i: int, j: int|
            0 <= i < j < entries.len() ==> (#[trigger] entries[i]).tile != (
            #[trigger] entries[j]).tile,
    ensures
        ({
            let calls = run::tile_calls(entries, config, meta, n);
            &&& forall|a: int|
                0 <= a < calls.len() ==> writes_one(#[trigger] calls[a], entries, meta, n as int)
            &&& forall|a: int, b: int|
                0 <= a < b < calls.len() ==> (#[trigger] calls[a])->tile != (
                #[trigger] calls[b])->tile
        }),
    decreases n,
{
    if n > 0 {
        let m = (n - 1) as nat;
        zooms_write_their_tiles(entries, config, meta, m);
        let rest = run::tile_calls(entries, config, meta, m);
        let calls = run::tile_calls(entries, config, meta, n);
        assert forall|a: int| 0 <= a < calls.len() implies writes_one(
            #[trigger] calls[a],
            entries,
            meta,
            n as int,
        ) by {
            if a < rest.len() {
                assert(writes_one(rest[a], entries, meta, m as int));
                let k = choose|k: int| 0 <= k < m && #[trigger] writes_tile(rest[a], entries, meta, k);
                assert(writes_tile(calls[a], entries, meta, k));
            } else {
                assert(writes_tile(calls[a], entries, meta, n - 1));
            }
        }
        assert forall|a: int, b: int| 0 <= a < b < calls.len() implies (
        #[trigger] calls[a])->tile != (#[trigger] calls[b])->tile by {
            assert(writes_one(rest[a], entries, meta, m as int));
            let k = choose|k: int| 0 <= k < m && #[trigger] writes_tile(rest[a], entries, meta, k);
            if b == rest.len() {
                assert(entries[k].tile != entries[n - 1].tile);
            } else {
                assert(rest[a]->tile != rest[b]->tile);
            }
        }
    }
}

proof fn runs_write_their_tiles(
    zooms: Seq<ZoomInput>,
    dataset: PreparedDataset,
    config: TileConfig,
    meta: TileObjectMeta,
    n: nat,
)
    requires
        run::zooms_of(zooms, dataset, config),
        n <= zooms.len(),
    ensures
        ({
            let calls = run::run_calls(zooms, config, meta, n);
            &&& forall|a: int|
                0 <= a < calls.len() ==> ((#[trigger] calls[a]) matches SinkCall::Write {
                    tile,
                    meta: m,
                    ..
                } && m == meta && config.zoom_range.min_zoom <= tile.z
                    < config.zoom_range.min_zoom + n)
            &&& forall|a: int, b: int|
                0 <= a < b < calls.len() ==> (#[trigger] calls[a])->tile != (
                #[trigger] calls[b])->tile
        }),
    decreases n,
{
    if n > 0 {
        let m = (n - 1) as nat;
        let zoom = zooms[n - 1];
        runs_write_their_tiles(zooms, dataset, config, meta, m);
        zooms_write_their_tiles(zoom.entries@, config, meta, zoom.entries@.len());
        let rest = run::run_calls(zooms, config, meta, m);
        let last = run::tile_calls(zoom.entries@, config, meta, zoom.entries@.len());
        let calls = run::run_calls(zooms, config, meta, n);
        assert(calls == rest + last);
        assert forall|a: int| 0 <= a < last.len() implies ((
        #[trigger] last[a]) matches SinkCall::Write { tile, meta: m, .. } && m == meta && tile.z
            == zoom.z) by {
            assert(writes_one(last[a], zoom.entries@, meta, zoom.entries@.len() as int));
            let k = choose|k: int|
                0 <= k < zoom.entries@.len() && #[trigger] writes_tile(
                    last[a],
                    zoom.entries@,
                    meta,
                    k,
                );
            assert(zoom.entries@[k].tile.z == zoom.z);
        }
        assert forall|a: int, b: int| 0 <= a < b < calls.len() implies (
        #[trigger] calls[a])->tile != (#[trigger] calls[b])->tile by {
            if b < rest.len() {
                assert(rest[a]->tile != rest[b]->tile);
            } else if a < rest.len() {
                assert(rest[a]->tile.z < config.zoom_range.min_zoom + m);
                assert(last[b - rest.len()]->tile.z == zoom.z);
            } else {
                assert(last[a - rest.len()]->tile != last[b - rest.len()]->tile);
            }
        }
        assert forall|a: int| 0 <= a < calls.len() implies ((
        #[trigger] calls[a]) matches SinkCall::Write { tile, meta: m, .. } && m == meta
            && config.zoom_range.min_zoom <= tile.z < config.zoom_range.min_zoom + n) by {
            if a < rest.len() {
                assert(calls[a] == rest[a]);
            } else {
                assert(calls[a] == last[a - rest.len()]);
            }
        }
    }
}

/// A run writes every tile at most once, with the metadata it was given, and only tiles of its zoom
/// range.
pub proof fn runs_write_each_tile_once(
    zooms: Seq<ZoomInput>,
    dataset: PreparedDataset,
    config: TileConfig,
    meta: TileObjectMeta,
)
    requires
        run::zooms_of(zooms, dataset, config),
    ensures
        ({
            let calls = run::run_calls(zooms, config, meta, zooms.len());
            &&& forall|a: int|
                0 <= a < calls.len() ==> ((#[trigger] calls[a]) matches SinkCall::Write {
                    tile,
                    meta: m,
                    ..
                } && m == meta && config.zoom_range.has(tile.z as int))
            &&& forall|a: int, b: int|
                0 <= a < b < calls.len() ==> (#[trigger] calls[a])->tile != (
                #[trigger] calls[b])->tile
        }),
{
    runs_write_their_tiles(zooms, dataset, config, meta, zooms.len());
}

proof fn zooms_keep_what_they_write(
    before: Option<Seq<u8>>,
    entries: Seq<TileInput>,
    config: TileConfig,
    n: nat,
    tile: TileId,
)
    requires
        n <= entries.len(),
        forall|i: int, j: int|
            0 <= i < j < entries.len() ==> (#[trigger] entries[i]).tile != (
            #[trigger] entries[j]).tile,
    ensures
        forall|j: int|
            0 <= j < n && (#[trigger] entries[j]).tile == tile && entries[j].outcome(
                config,
            ) is Published ==> run::stored_after(before, entries, config, n, tile) == Some(
                entries[j].outcome(config)->bytes,
            ),
        (forall|j: int|
            0 <= j < n && (#[trigger] entries[j]).tile == tile ==> !(entries[j].outcome(
                config,
            ) is Published)) ==> run::stored_after(before, entries, config, n, tile) == before,
    decreases n,
{
    if n > 0 {
        zooms_keep_what_they_write(before, entries, config, (n - 1) as nat, tile);
        assert forall|j: int|
            0 <= j < n && (#[trigger] entries[j]).tile == tile && entries[j].outcome(
                config,
            ) is Published implies run::stored_after(before, entries, config, n, tile) == Some(
            entries[j].outcome(config)->bytes,
        ) by {
            if j < n - 1 {
                assert(entries[j].tile != entries[n - 1].tile);
            }
        }
    }
}

proof fn runs_keep_what_they_write(
    before: Option<Seq<u8>>,
    zooms: Seq<ZoomInput>,
    dataset: PreparedDataset,
    config: TileConfig,
    n: nat,
    tile: TileId,
)
    requires
        run::zooms_of(zooms, dataset, config),
        n <= zooms.len(),
    ensures
        forall|i: int, j: int|
            0 <= i < n && 0 <= j < zooms[i].entries@.len() && (
            #[trigger] zooms[i].entries@[j]).tile == tile && zooms[i].entries@[j].outcome(
                config,
            ) is Published ==> run::stored_after_zooms(before, zooms, config, n, tile) == Some(
                zooms[i].entries@[j].outcome(config)->bytes,
            ),
        (forall|i: int, j: int|
            0 <= i < n && 0 <= j < zooms[i].entries@.len() && (
            #[trigger] zooms[i].entries@[j]).tile == tile ==> !(zooms[i].entries@[j].outcome(
                config,
            ) is Published)) ==> run::stored_after_zooms(before, zooms, config, n, tile) == before,
    decreases n,
{
    if n > 0 {
        let m = (n - 1) as nat;
        let last = zooms[n - 1].entries@;
        let mid = run::stored_after_zooms(before, zooms, config, m, tile);
        runs_keep_what_they_write(before, zooms, dataset, config, m, tile);
        zooms_keep_what_they_write(mid, last, config, last.len(), tile);
        assert forall|i: int, j: int|
            0 <= i < n && 0 <= j < zooms[i].entries@.len() && (
            #[trigger] zooms[i].entries@[j]).tile == tile && zooms[i].entries@[j].outcome(
                config,
            ) is Published implies run::stored_after_zooms(before, zooms, config, n, tile) == Some(
            zooms[i].entries@[j].outcome(config)->bytes,
        ) by {
            if i < n - 1 {
                assert(zooms[i].z != zooms[n - 1].z);
                assert forall|k: int| 0 <= k < last.len() implies (#[trigger] last[k]).tile
                    != tile by {
                    assert(last[k].tile.z == zooms[n - 1].z);
                    assert(zooms[i].entries@[j].tile.z == zooms[i].z);
                }
            }
        }
        if forall|i: int, j: int|
            0 <= i < n && 0 <= j < zooms[i].entries@.len() && (
            #[trigger] zooms[i].entries@[j]).tile == tile ==> !(zooms[i].entries@[j].outcome(
                config,
            ) is Published) {
            assert forall|j: int| 0 <= j < last.len() && (#[trigger] last[j]).tile
                == tile implies !(last[j].outcome(config) is Published) by {
                assert(zooms[n - 1].entries@[j] == last[j]);
            }
        }
    }
}

/// After a run every tile with something to show is stored with the bytes built for it, and nothing
/// else changed.
pub proof fn runs_store_what_they_build(
    before: Option<Seq<u8>>,
    zooms: Seq<ZoomInput>,
    dataset: PreparedDataset,
    config: TileConfig,
    tile: TileId,
)
    requires
        run::zooms_of(zooms, dataset, config),
    ensures
        forall|i: int, j: int|
            0 <= i < zooms.len() && 0 <= j < zooms[i].entries@.len() && (
            #[trigger] zooms[i].entries@[j]).tile == tile && zooms[i].entries@[j].outcome(
                config,
            ) is Published ==> run::stored_after_zooms(before, zooms, config, zooms.len(), tile)
                == Some(zooms[i].entries@[j].outcome(config)->bytes),
        (forall|i: int, j: int|
            0 <= i < zooms.len() && 0 <= j < zooms[i].entries@.len() && (
            #[trigger] zooms[i].entries@[j]).tile == tile ==> !(zooms[i].entries@[j].outcome(
                config,
            ) is Published)) ==> run::stored_after_zooms(before, zooms, config, zooms.len(), tile)
            == before,
{
    runs_keep_what_they_write(before, zooms, dataset, config, zooms.len(), tile);
}

/// The bytes that calls write.
pub open spec fn total_bytes(calls: Seq<SinkCall>) -> int
    decreases calls.len(),
{
    if calls.len() == 0 {
        0
    } else {
        total_bytes(calls.drop_last()) + match calls.last() {
            SinkCall::Write { bytes, .. } => bytes.len() as int,
            SinkCall::Finish => 0,
        }
    }
}

/// The most bytes that a call writes.
pub open spec fn most_bytes(calls: Seq<SinkCall>) -> int
    decreases calls.len(),
{
    if calls.len() == 0 {
        0
    } else {
        let rest = most_bytes(calls.drop_last());
        match calls.last() {
            SinkCall::Write { bytes, .. } => if bytes.len() > rest {
                bytes.len() as int
            } else {
                rest
            },
            SinkCall::Finish => rest,
        }
    }
}

/// The tiles of the lines of the statistics.
pub open spec fn total_tiles(lines: Seq<(u8, ZoomStats)>) -> int
    decreases lines.len(),
{
    if lines.len() == 0 {
        0
    } else {
        total_tiles(lines.drop_last()) + lines.last().1.tiles
    }
}

proof fn totals_add(a: Seq<SinkCall>, b: Seq<SinkCall>)
    ensures
        total_bytes(a + b) == total_bytes(a) + total_bytes(b),
        most_bytes(a + b) == if most_bytes(b) > most_bytes(a) {
            most_bytes(b)
        } else {
            most_bytes(a)
        },
        most_bytes(a) >= 0,
        total_bytes(a) >= 0,
    decreases a.len() + b.len(),
{
    if b.len() > 0 {
        assert((a + b).drop_last() =~= a + b.drop_last());
        totals_add(a, b.drop_last());
    } else {
        assert(a + b =~= a);
        if a.len() > 0 {
            totals_add(a.drop_last(), Seq::empty());
        }
    }
}

proof fn zooms_are_counted(
    entries: Seq<TileInput>,
    config: TileConfig,
    meta: TileObjectMeta,
    n: nat,
)
    requires
        run::writes_fit(run::tile_calls(entries, config, meta, n)),
    ensures
        ({
            let calls = run::tile_calls(entries, config, meta, n);
            let acc = run::counted_all(entries, config, n);
            &&& acc.tiles_written == (calls.len() as int) % 0x1_0000_0000_0000_0000
            &&& acc.gzip_bytes == total_bytes(calls) % 0x1_0000_0000_0000_0000
            &&& acc.max_gzip_bytes == most_bytes(calls)
        }),
    decreases n,
{
    if n > 0 {
        let m = (n - 1) as nat;
        let rest = run::tile_calls(entries, config, meta, m);
        let calls = run::tile_calls(entries, config, meta, n);
        if let Outcome::Published { bytes, .. } = entries[n - 1].outcome(config) {
            assert(calls.drop_last() =~= rest);
            assert(calls.last() == calls[calls.len() - 1]);
            assert(bytes.len() <= usize::MAX);
            assert forall|a: int| 0 <= a < rest.len() implies ((
            #[trigger] rest[a]) matches SinkCall::Write { bytes, .. } ==> bytes.len()
                <= usize::MAX) by {
                assert(calls[a] == rest[a]);
            }
            zooms_are_counted(entries, config, meta, m);
        } else {
            zooms_are_counted(entries, config, meta, m);
        }
    }
}

/// Counters that wrap at 64 bits add up as their totals do.
proof fn wrapped_counters_add(x: u64, y: u64, a: int, b: int)
    requires
        x == a % 0x1_0000_0000_0000_0000,
        y == b % 0x1_0000_0000_0000_0000,
    ensures
        x.wrapping_add(y) == (a + b) % 0x1_0000_0000_0000_0000,
{
}

proof fn parts_fit(a: Seq<SinkCall>, b: Seq<SinkCall>)
    requires
        run::writes_fit(a + b),
    ensures
        run::writes_fit(a),
        run::writes_fit(b),
{
    assert forall|k: int| 0 <= k < a.len() implies ((#[trigger] a[k]) matches SinkCall::Write {
        bytes,
        ..
    } ==> bytes.len() <= usize::MAX) by {
        assert((a + b)[k] == a[k]);
    }
    assert forall|k: int| 0 <= k < b.len() implies ((#[trigger] b[k]) matches SinkCall::Write {
        bytes,
        ..
    } ==> bytes.len() <= usize::MAX) by {
        assert((a + b)[a.len() + k] == b[k]);
    }
}

proof fn totals_are_counted(
    zooms: Seq<ZoomInput>,
    config: TileConfig,
    meta: TileObjectMeta,
    n: nat,
)
    requires
        run::writes_fit(run::run_calls(zooms, config, meta, n)),
    ensures
        ({
            let calls = run::run_calls(zooms, config, meta, n);
            let stats = run::stats_after_zooms(zooms, config, n);
            &&& stats.tiles_written == (calls.len() as int) % 0x1_0000_0000_0000_0000
            &&& stats.total_gzip_bytes == total_bytes(calls) % 0x1_0000_0000_0000_0000
            &&& stats.max_gzip_bytes == most_bytes(calls)
        }),
    decreases n,
{
    if n > 0 {
        let m = (n - 1) as nat;
        let entries = zooms[n - 1].entries@;
        let rest = run::run_calls(zooms, config, meta, m);
        let last = run::tile_calls(entries, config, meta, entries.len());
        let old = run::stats_after_zooms(zooms, config, m);
        let acc = run::counted_all(entries, config, entries.len());
        parts_fit(rest, last);
        totals_are_counted(zooms, config, meta, m);
        zooms_are_counted(entries, config, meta, entries.len());
        totals_add(rest, last);
        wrapped_counters_add(
            old.tiles_written,
            acc.tiles_written,
            rest.len() as int,
            last.len() as int,
        );
        wrapped_counters_add(
            old.total_gzip_bytes,
            acc.gzip_bytes,
            total_bytes(rest),
            total_bytes(last),
        );
    }
}

proof fn lines_are_counted(
    zooms: Seq<ZoomInput>,
    config: TileConfig,
    meta: TileObjectMeta,
    n: nat,
)
    requires
        run::writes_fit(run::run_calls(zooms, config, meta, n)),
    ensures
        ({
            let stats = run::stats_after_zooms(zooms, config, n);
            &&& stats.tiles_written == total_tiles(stats.per_zoom) % 0x1_0000_0000_0000_0000
            &&& stats.per_zoom.len() == n
            &&& forall|k: int|
                0 <= k < n ==> line_counts((#[trigger] stats.per_zoom[k]), zooms[k], config, meta)
        }),
    decreases n,
{
    if n > 0 {
        let m = (n - 1) as nat;
        let entries = zooms[n - 1].entries@;
        let rest = run::run_calls(zooms, config, meta, m);
        let last = run::tile_calls(entries, config, meta, entries.len());
        let old = run::stats_after_zooms(zooms, config, m);
        let stats = run::stats_after_zooms(zooms, config, n);
        let acc = run::counted_all(entries, config, entries.len());
        parts_fit(rest, last);
        lines_are_counted(zooms, config, meta, m);
        zooms_are_counted(entries, config, meta, entries.len());
        assert(stats.per_zoom.drop_last() =~= old.per_zoom);
        wrapped_counters_add(
            old.tiles_written,
            acc.tiles_written,
            total_tiles(old.per_zoom),
            acc.tiles_written as int,
        );
        assert forall|k: int| 0 <= k < n implies line_counts(
            (#[trigger] stats.per_zoom[k]),
            zooms[k],
            config,
            meta,
        ) by {
            if k < n - 1 {
                assert(stats.per_zoom[k] == old.per_zoom[k]);
            }
        }
    }
}

/// Whether a line of the statistics counts what a zoom writes. The counters wrap at 64 bits.
pub open spec fn line_counts(
    line: (u8, ZoomStats),
    zoom: ZoomInput,
    config: TileConfig,
    meta: TileObjectMeta,
) -> bool {
    let calls = run::tile_calls(zoom.entries@, config, meta, zoom.entries@.len());
    &&& line.0 == zoom.z
    &&& line.1.tiles == (calls.len() as int) % 0x1_0000_0000_0000_0000
    &&& line.1.gzip_bytes == total_bytes(calls) % 0x1_0000_0000_0000_0000
    &&& line.1.max_gzip_bytes == most_bytes(calls)
}

/// The statistics of a run count what it writes: the tiles, their bytes and the size of the largest,
/// with one line for each zoom whose tiles add up. The counters wrap at 64 bits.
pub proof fn runs_are_counted(zooms: Seq<ZoomInput>, config: TileConfig, meta: TileObjectMeta)
    requires
        run::writes_fit(run::run_calls(zooms, config, meta, zooms.len())),
    ensures
        ({
            let calls = run::run_calls(zooms, config, meta, zooms.len());
            let stats = run::stats_after_zooms(zooms, config, zooms.len());
            &&& stats.tiles_written == (calls.len() as int) % 0x1_0000_0000_0000_0000
            &&& stats.total_gzip_bytes == total_bytes(calls) % 0x1_0000_0000_0000_0000
            &&& stats.max_gzip_bytes == most_bytes(calls)
            &&& stats.tiles_written == total_tiles(stats.per_zoom) % 0x1_0000_0000_0000_0000
            &&& stats.per_zoom.len() == zooms.len()
            &&& forall|k: int|
                0 <= k < zooms.len() ==> line_counts(
                    (#[trigger] stats.per_zoom[k]),
                    zooms[k],
                    config,
                    meta,
                )
        }),
{
    totals_are_counted(zooms, config, meta, zooms.len());
    lines_are_counted(zooms, config, meta, zooms.len());
}

} // verus!
