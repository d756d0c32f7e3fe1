//! What a run counts, which features go into which tiles, and what a tile is built of.
use vstd::prelude::*;
use crate::config::TileConfig;
use crate::gzip;
use crate::mvt::layer;
use crate::picking;
use crate::properties::AttrMode;
use crate::tileset::ladder;
use crate::tileset::ladder::Outcome;
use crate::tileset::ladder_laws;
use crate::tileset::run;
use crate::tileset::run::{TileInput, TileRange, ZoomAccum, ZoomInput};

verus! {

/// Whether a feature with a range goes into a tile: the tile lies in the range, and the range has
/// no more tiles than a feature may have.
pub open spec fn goes_into(range: Option<TileRange>, x: u32, y: u32) -> bool {
    match range {
        Some(r) => {
            &&& r.x0 <= x <= r.x1
            &&& r.y0 <= y <= r.y1
            &&& (r.x1 - r.x0 + 1) * (r.y1 - r.y0 + 1) <= 65536
        },
        None => false,
    }
}

/// The features of a tile are those that go into it, all of them and in order.
pub proof fn tiles_have_the_features_that_cover_them(
    ranges: Seq<Option<TileRange>>,
    n: nat,
    x: u32,
    y: u32,
)
    requires
        n <= ranges.len() <= usize::MAX,
    ensures
        ({
            let out = run::covering(ranges, n, x, y);
            &&& forall|k: int|
                0 <= k < out.len() ==> (#[trigger] out[k]) < n && goes_into(
                    ranges[out[k] as int],
                    x,
                    y,
                )
            &&& forall|j: int, k: int|
                0 <= j < k < out.len() ==> #[trigger] out[j] < #[trigger] out[k]
            &&& forall|i: int|
                0 <= i < n && goes_into(#[trigger] ranges[i], x, y) ==> out.contains(i as usize)
        }),
    decreases n,
{
    if n > 0 {
        tiles_have_the_features_that_cover_them(ranges, (n - 1) as nat, x, y);
        let rest = run::covering(ranges, (n - 1) as nat, x, y);
        let out = run::covering(ranges, n, x, y);
        assert forall|i: int|
            0 <= i < n && goes_into(#[trigger] ranges[i], x, y) implies out.contains(
            i as usize,
        ) by {
            if i < n - 1 {
                assert(rest.contains(i as usize));
                let k = choose|k: int| 0 <= k < rest.len() && rest[k] == i as usize;
                assert(out[k] == i as usize);
            } else {
                assert(out[rest.len() as int] == i as usize);
            }
        }
    }
}

/// A feature that covers more tiles than it may.
pub open spec fn if_too_wide() -> spec_fn(Option<TileRange>) -> Option<TileRange> {
    |range: Option<TileRange>|
        match range {
            Some(r) => if (r.x1 - r.x0 + 1) * (r.y1 - r.y0 + 1) > 65536 {
                Some(r)
            } else {
                None
            },
            None => None,
        }
}

/// The features that cover too many tiles are counted, each of them once.
pub proof fn wide_features_are_counted(ranges: Seq<Option<TileRange>>)
    ensures
        exists|wide: Seq<TileRange>|
            wide.len() == run::explosive(ranges, ranges.len()) && #[trigger] picking::picked(
                ranges,
                if_too_wide(),
                wide,
            ),
    decreases ranges.len(),
{
    if ranges.len() == 0 {
        picking::picked_of_nothing(ranges, if_too_wide());
    } else {
        let d = ranges.drop_last();
        wide_features_are_counted(d);
        explosive_prefix(ranges, d.len());
        let rest = choose|wide: Seq<TileRange>|
            wide.len() == run::explosive(d, d.len()) && #[trigger] picking::picked(
                d,
                if_too_wide(),
                wide,
            );
        let out = match if_too_wide()(ranges.last()) {
            Some(r) => rest.push(r),
            None => rest,
        };
        picking::picked_grows(ranges, if_too_wide(), rest, out);
    }
}

proof fn explosive_prefix(ranges: Seq<Option<TileRange>>, n: nat)
    requires
        n < ranges.len(),
    ensures
        run::explosive(ranges, n) == run::explosive(ranges.drop_last(), n),
    decreases n,
{
    if n > 0 {
        explosive_prefix(ranges, (n - 1) as nat);
    }
}

/// What becomes of the tiles of a zoom.
pub open spec fn outcomes(entries: Seq<TileInput>, config: TileConfig) -> Seq<Outcome> {
    Seq::new(entries.len(), |i: int| entries[i].outcome(config))
}

/// What a measure adds up to.
pub open spec fn tally(s: Seq<Outcome>, f: spec_fn(Outcome) -> nat) -> nat
    decreases s.len(),
{
    if s.len() == 0 {
        0
    } else {
        tally(s.drop_last(), f) + f(s.last())
    }
}

/// One for a tile without anything in it.
pub open spec fn one_if_empty() -> spec_fn(Outcome) -> nat {
    |o: Outcome|
        if o is Empty {
            1
        } else {
            0
        }
}

/// One for a published tile.
pub open spec fn one_if_published() -> spec_fn(Outcome) -> nat {
    |o: Outcome|
        if o is Published {
            1
        } else {
            0
        }
}

/// One for a published tile that was made smaller.
pub open spec fn one_if_mitigated() -> spec_fn(Outcome) -> nat {
    |o: Outcome|
        match o {
            Outcome::Published { mitigated: true, .. } => 1,
            _ => 0,
        }
}

/// The features drawn into a published tile.
pub open spec fn instances_of() -> spec_fn(Outcome) -> nat {
    |o: Outcome|
        match o {
            Outcome::Published { instances, .. } => instances,
            _ => 0,
        }
}

/// The features dropped from a published tile.
pub open spec fn dropped_of() -> spec_fn(Outcome) -> nat {
    |o: Outcome|
        match o {
            Outcome::Published { dropped, .. } => dropped,
            _ => 0,
        }
}

/// The bytes of a published tile.
pub open spec fn bytes_of() -> spec_fn(Outcome) -> nat {
    |o: Outcome|
        match o {
            Outcome::Published { bytes, .. } => bytes.len(),
            _ => 0,
        }
}

/// Counts that fit in their counters.
pub open spec fn countable(o: Outcome) -> bool {
    o matches Outcome::Published { bytes, dropped, instances, .. } ==> bytes.len() <= usize::MAX
        && dropped <= u64::MAX && instances <= u64::MAX
}

/// What a zoom counts: its empty tiles, its published ones and their bytes, the features drawn into
/// them, the tiles that were made smaller and the features dropped. The counters wrap at 64 bits.
#[verifier::spinoff_prover]
#[verifier::rlimit(30)]
pub proof fn zooms_count_their_tiles(entries: Seq<TileInput>, config: TileConfig, n: nat)
    requires
        n <= entries.len(),
        forall|i: int| 0 <= i < entries.len() ==> countable((#[trigger] entries[i]).outcome(config)),
    ensures
        ({
            let a = run::counted_all(entries, config, n);
            let s = outcomes(entries, config).take(n as int);
            &&& a.empty == tally(s, one_if_empty()) % 0x1_0000_0000_0000_0000
            &&& a.tiles_written == tally(s, one_if_published()) % 0x1_0000_0000_0000_0000
            &&& a.gzip_bytes == tally(s, bytes_of()) % 0x1_0000_0000_0000_0000
            &&& a.feature_instances == tally(s, instances_of()) % 0x1_0000_0000_0000_0000
            &&& a.mitigations == tally(s, one_if_mitigated()) % 0x1_0000_0000_0000_0000
            &&& a.dropped == tally(s, dropped_of()) % 0x1_0000_0000_0000_0000
        }),
    decreases n,
{
    let all = outcomes(entries, config);
    if n == 0 {
        assert(all.take(0) =~= Seq::empty());
    } else {
        let m = (n - 1) as nat;
        zooms_count_their_tiles(entries, config, m);
        let s = all.take(n as int);
        assert(s.drop_last() =~= all.take(m as int));
        let o = entries[m as int].outcome(config);
        assert(s.last() == o);
        assert(countable(o));
        let a = run::counted_all(entries, config, m);
        let b = run::counted_all(entries, config, n);
        let d = all.take(m as int);
        counter_steps(a.empty, b.empty, tally(d, one_if_empty()), one_if_empty()(o));
        counter_steps(
            a.tiles_written,
            b.tiles_written,
            tally(d, one_if_published()),
            one_if_published()(o),
        );
        counter_steps(a.gzip_bytes, b.gzip_bytes, tally(d, bytes_of()), bytes_of()(o));
        counter_steps(
            a.feature_instances,
            b.feature_instances,
            tally(d, instances_of()),
            instances_of()(o),
        );
        counter_steps(
            a.mitigations,
            b.mitigations,
            tally(d, one_if_mitigated()),
            one_if_mitigated()(o),
        );
        counter_steps(a.dropped, b.dropped, tally(d, dropped_of()), dropped_of()(o));
    }
}

proof fn counter_steps(before: u64, after: u64, t: nat, f: nat)
    requires
        before == t % 0x1_0000_0000_0000_0000,
        f <= u64::MAX,
        after == before.wrapping_add(f as u64),
    ensures
        after == (t + f) % 0x1_0000_0000_0000_0000,
{
}

/// The largest tile of a zoom is the first of those with the most bytes; there is none where no
/// published tile has any bytes.
pub proof fn the_largest_tile_has_the_most_bytes(
    entries: Seq<TileInput>,
    config: TileConfig,
    n: nat,
)
    requires
        n <= entries.len(),
        forall|i: int| 0 <= i < entries.len() ==> countable((#[trigger] entries[i]).outcome(config)),
    ensures
        ({
            let a = run::counted_all(entries, config, n);
            &&& forall|i: int|
                0 <= i < n ==> bytes_of()((#[trigger] entries[i]).outcome(config))
                    <= a.max_gzip_bytes
            &&& match a.largest {
                Some((tile, size)) => size == a.max_gzip_bytes && exists|i: int|
                    {
                        &&& 0 <= i < n
                        &&& (#[trigger] entries[i]).tile == tile
                        &&& entries[i].outcome(config) is Published
                        &&& bytes_of()(entries[i].outcome(config)) == size
                        &&& forall|j: int|
                            0 <= j < i ==> bytes_of()((#[trigger] entries[j]).outcome(config))
                                < size
                    },
                None => a.max_gzip_bytes == 0,
            }
        }),
    decreases n,
{
    if n > 0 {
        let m = (n - 1) as nat;
        the_largest_tile_has_the_most_bytes(entries, config, m);
        let before = run::counted_all(entries, config, m);
        let a = run::counted_all(entries, config, n);
        let e = entries[m as int];
        assert(countable(e.outcome(config)));
        assert forall|i: int| 0 <= i < n implies bytes_of()(
            (#[trigger] entries[i]).outcome(config),
        ) <= a.max_gzip_bytes by {
            if i < m {
                assert(bytes_of()(entries[i].outcome(config)) <= before.max_gzip_bytes);
            }
        }
        if let Some((tile, size)) = a.largest {
            if a.max_gzip_bytes > before.max_gzip_bytes {
                assert(entries[m as int].tile == tile);
                assert forall|j: int| 0 <= j < m implies bytes_of()(
                    (#[trigger] entries[j]).outcome(config),
                ) < size by {}
            } else {
                let i = choose|i: int|
                    {
                        &&& 0 <= i < m
                        &&& (#[trigger] entries[i]).tile == tile
                        &&& entries[i].outcome(config) is Published
                        &&& bytes_of()(entries[i].outcome(config)) == size
                        &&& forall|j: int|
                            0 <= j < i ==> bytes_of()((#[trigger] entries[j]).outcome(config))
                                < size
                    };
                assert(entries[i].tile == tile);
            }
        }
    }
}

/// What becomes of the tiles of the first `n` zooms.
pub open spec fn run_outcomes(zooms: Seq<ZoomInput>, config: TileConfig, n: nat) -> Seq<Outcome>
    decreases n,
{
    if n == 0 {
        Seq::empty()
    } else {
        run_outcomes(zooms, config, (n - 1) as nat) + outcomes(zooms[n - 1].entries@, config)
    }
}

proof fn tallies_add(a: Seq<Outcome>, b: Seq<Outcome>, f: spec_fn(Outcome) -> nat)
    ensures
        tally(a + b, f) == tally(a, f) + tally(b, f),
    decreases b.len(),
{
    if b.len() == 0 {
        assert(a + b =~= a);
    } else {
        tallies_add(a, b.drop_last(), f);
        assert((a + b).drop_last() =~= a + b.drop_last());
    }
}

proof fn counters_add(x: u64, y: u64, a: nat, b: nat)
    requires
        x == a % 0x1_0000_0000_0000_0000,
        y == b % 0x1_0000_0000_0000_0000,
    ensures
        x.wrapping_add(y) == (a + b) % 0x1_0000_0000_0000_0000,
{
}

/// The statistics of a run count its empty tiles, the features drawn, the tiles that were made
/// smaller and the features dropped, over all zooms. The counters wrap at 64 bits.
pub proof fn runs_count_their_tiles(zooms: Seq<ZoomInput>, config: TileConfig, n: nat)
    requires
        n <= zooms.len(),
        forall|z: int, i: int|
            0 <= z < zooms.len() && 0 <= i < zooms[z].entries@.len() ==> countable(
                (#[trigger] zooms[z].entries@[i]).outcome(config),
            ),
    ensures
        ({
            let stats = run::stats_after_zooms(zooms, config, n);
            let s = run_outcomes(zooms, config, n);
            &&& stats.empty_tiles_skipped == tally(s, one_if_empty()) % 0x1_0000_0000_0000_0000
            &&& stats.feature_instances == tally(s, instances_of()) % 0x1_0000_0000_0000_0000
            &&& stats.mitigations_applied == tally(s, one_if_mitigated()) % 0x1_0000_0000_0000_0000
            &&& stats.features_dropped == tally(s, dropped_of()) % 0x1_0000_0000_0000_0000
        }),
    decreases n,
{
    if n > 0 {
        let m = (n - 1) as nat;
        let entries = zooms[m as int].entries@;
        let front = run_outcomes(zooms, config, m);
        let last = outcomes(entries, config);
        let old = run::stats_after_zooms(zooms, config, m);
        let a = run::counted_all(entries, config, entries.len());
        runs_count_their_tiles(zooms, config, m);
        assert forall|i: int| 0 <= i < entries.len() implies countable(
            (#[trigger] entries[i]).outcome(config),
        ) by {
            assert(countable(zooms[m as int].entries@[i].outcome(config)));
        }
        zooms_count_their_tiles(entries, config, entries.len());
        assert(last.take(entries.len() as int) =~= last);
        tallies_add(front, last, one_if_empty());
        tallies_add(front, last, instances_of());
        tallies_add(front, last, one_if_mitigated());
        tallies_add(front, last, dropped_of());
        counters_add(
            old.empty_tiles_skipped,
            a.empty,
            tally(front, one_if_empty()),
            tally(last, one_if_empty()),
        );
        counters_add(
            old.feature_instances,
            a.feature_instances,
            tally(front, instances_of()),
            tally(last, instances_of()),
        );
        counters_add(
            old.mitigations_applied,
            a.mitigations,
            tally(front, one_if_mitigated()),
            tally(last, one_if_mitigated()),
        );
        counters_add(
            old.features_dropped,
            a.dropped,
            tally(front, dropped_of()),
            tally(last, dropped_of()),
        );
    }
}

/// The largest tile of a run is one of its published tiles with the most bytes.
pub proof fn the_largest_tile_of_a_run(zooms: Seq<ZoomInput>, config: TileConfig, n: nat)
    requires
        n <= zooms.len(),
        forall|z: int, i: int|
            0 <= z < zooms.len() && 0 <= i < zooms[z].entries@.len() ==> countable(
                (#[trigger] zooms[z].entries@[i]).outcome(config),
            ),
    ensures
        ({
            let stats = run::stats_after_zooms(zooms, config, n);
            &&& forall|z: int, i: int|
                0 <= z < n && 0 <= i < zooms[z].entries@.len() ==> bytes_of()(
                    (#[trigger] zooms[z].entries@[i]).outcome(config),
                ) <= stats.max_gzip_bytes
            &&& match stats.largest_tile {
                Some(tile) => exists|z: int, i: int|
                    {
                        &&& 0 <= z < n
                        &&& 0 <= i < zooms[z].entries@.len()
                        &&& (#[trigger] zooms[z].entries@[i]).tile == tile
                        &&& zooms[z].entries@[i].outcome(config) is Published
                        &&& bytes_of()(zooms[z].entries@[i].outcome(config))
                            == stats.max_gzip_bytes
                    },
                None => stats.max_gzip_bytes == 0,
            }
        }),
    decreases n,
{
    if n > 0 {
        let m = (n - 1) as nat;
        let entries = zooms[m as int].entries@;
        let old = run::stats_after_zooms(zooms, config, m);
        let stats = run::stats_after_zooms(zooms, config, n);
        let a = run::counted_all(entries, config, entries.len());
        the_largest_tile_of_a_run(zooms, config, m);
        assert forall|i: int| 0 <= i < entries.len() implies countable(
            (#[trigger] entries[i]).outcome(config),
        ) by {
            assert(countable(zooms[m as int].entries@[i].outcome(config)));
        }
        the_largest_tile_has_the_most_bytes(entries, config, entries.len());
        assert forall|z: int, i: int|
            0 <= z < n && 0 <= i < zooms[z].entries@.len() implies bytes_of()(
            (#[trigger] zooms[z].entries@[i]).outcome(config),
        ) <= stats.max_gzip_bytes by {
            if z == m {
                assert(bytes_of()(entries[i].outcome(config)) <= a.max_gzip_bytes);
            }
        }
        if a.max_gzip_bytes > old.max_gzip_bytes {
            let (tile, size) = a.largest->Some_0;
            let i = choose|i: int|
                {
                    &&& 0 <= i < entries.len()
                    &&& (#[trigger] entries[i]).tile == tile
                    &&& entries[i].outcome(config) is Published
                    &&& bytes_of()(entries[i].outcome(config)) == size
                    &&& forall|j: int|
                        0 <= j < i ==> bytes_of()((#[trigger] entries[j]).outcome(config)) < size
                };
            assert(zooms[m as int].entries@[i].tile == tile);
        } else if let Some(tile) = old.largest_tile {
            let (z, i) = choose|z: int, i: int|
                {
                    &&& 0 <= z < m
                    &&& 0 <= i < zooms[z].entries@.len()
                    &&& (#[trigger] zooms[z].entries@[i]).tile == tile
                    &&& zooms[z].entries@[i].outcome(config) is Published
                    &&& bytes_of()(zooms[z].entries@[i].outcome(config)) == old.max_gzip_bytes
                };
            assert(zooms[z].entries@[i].tile == tile);
        }
    }
}

/// Joining two counts adds the counters, keeps the larger tile, the first of two equal ones, and
/// the first error.
pub proof fn joined_counts_lose_nothing(a: ZoomAccum, b: ZoomAccum)
    ensures
        ({
            let c = run::merged(a, b);
            let w = 0x1_0000_0000_0000_0000int;
            &&& c.tiles_written == (a.tiles_written + b.tiles_written) % w
            &&& c.empty == (a.empty + b.empty) % w
            &&& c.gzip_bytes == (a.gzip_bytes + b.gzip_bytes) % w
            &&& c.feature_instances == (a.feature_instances + b.feature_instances) % w
            &&& c.mitigations == (a.mitigations + b.mitigations) % w
            &&& c.dropped == (a.dropped + b.dropped) % w
            &&& c.max_gzip_bytes >= a.max_gzip_bytes && c.max_gzip_bytes >= b.max_gzip_bytes
            &&& c.max_gzip_bytes == a.max_gzip_bytes || c.max_gzip_bytes == b.max_gzip_bytes
            &&& a.max_gzip_bytes >= b.max_gzip_bytes && a.largest is Some ==> c.largest == a.largest
            &&& a.max_gzip_bytes < b.max_gzip_bytes ==> c.largest == b.largest
            &&& a.first_error is Some ==> c.first_error == a.first_error
            &&& a.first_error is None ==> c.first_error == b.first_error
        }),
{
}

/// A tile is built of all its features with all their properties where the result fits, in the
/// frame of the tile.
pub proof fn inputs_are_built_whole(input: TileInput, config: TileConfig)
    ensures
        ({
            let all = Seq::new(input.features@.len(), |i: int| i as usize);
            let (l, n) = ladder::tile_layer(
                ladder::feature_views(input.features@),
                config,
                crate::tilemath::TileTransform {
                    tile: input.tile,
                    extent: config.extent,
                    buffer: config.buffer,
                },
                all,
                false,
                AttrMode::Full,
            );
            if n == 0 {
                input.outcome(config) == Outcome::Empty
            } else {
                match gzip::gzip_of(layer::tile_bytes(l), config.gzip_level) {
                    None => input.outcome(config) == Outcome::Failed,
                    Some(gz) => gz.len() <= config.hard_max_tile_bytes ==> input.outcome(config)
                        == (Outcome::Published {
                        bytes: gz,
                        mitigated: false,
                        dropped: 0,
                        instances: n,
                    }),
                }
            }
        }),
{
    reveal(TileInput::outcome);
    ladder_laws::tiles_that_fit_are_published_whole(
        ladder::feature_views(input.features@),
        config,
        input.frame(config),
        Seq::new(input.features@.len(), |i: int| i as usize),
    );
}

} // verus!
