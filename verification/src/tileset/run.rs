//! A generation run: tile assignment, the tiles of each zoom, and the statistics.
use vstd::prelude::*;
use std::collections::HashMap;
use crate::config::TileConfig;
use crate::error::{Result, TileError};
use crate::mvt::layer;
use crate::sink::{SinkCall, TileObjectMeta, TileSink};
use crate::tilemath::{TileId, TileTransform};
use crate::tileset::ladder;
use crate::tileset::ladder::{build_tile, BuiltTile, Outcome, TileFeature};
use crate::tileset::prepare::PreparedDataset;

verus! {

broadcast use vstd::std_specs::hash::group_hash_axioms;

/// A single feature assigned to more tiles than this at one zoom is skipped at that zoom.
pub const MAX_TILES_PER_FEATURE: u64 = 65_536;

/// An inclusive range of tile columns and rows.
#[derive(Debug, Clone, Copy, PartialEq, Eq, Structural)]
pub struct TileRange {
    pub x0: u32,
    pub x1: u32,
    pub y0: u32,
    pub y1: u32,
}

impl TileRange {
    /// Neither axis is empty.
    pub open spec fn wf(self) -> bool {
        self.x0 <= self.x1 && self.y0 <= self.y1
    }

    /// The number of tiles.
    pub open spec fn area(self) -> int {
        (self.x1 - self.x0 + 1) * (self.y1 - self.y0 + 1)
    }

    pub open spec fn has(self, x: u32, y: u32) -> bool {
        self.x0 <= x <= self.x1 && self.y0 <= y <= self.y1
    }

    fn tile_count(&self) -> (n: u128)
        requires
            self.wf(),
        ensures
            n == self.area(),
    {
        let w: u128 = (self.x1 - self.x0) as u128 + 1;
        let h: u128 = (self.y1 - self.y0) as u128 + 1;
        proof {
            assert(0 <= w * h <= 0x1_0000_0000 * 0x1_0000_0000) by (nonlinear_arith)
                requires
                    w <= 0x1_0000_0000,
                    h <= 0x1_0000_0000,
            ;
        }
        w * h
    }
}

/// Whether a feature with this range is assigned to tiles at all.
pub open spec fn assigned(range: Option<TileRange>) -> bool {
    range matches Some(r) && r.area() <= MAX_TILES_PER_FEATURE
}

/// The features among the first `n` that go into a tile, in order.
pub open spec fn covering(ranges: Seq<Option<TileRange>>, n: nat, x: u32, y: u32) -> Seq<usize>
    decreases n,
{
    if n == 0 {
        Seq::empty()
    } else {
        let rest = covering(ranges, (n - 1) as nat, x, y);
        if assigned(ranges[n - 1]) && ranges[n - 1]->Some_0.has(x, y) {
            rest.push((n - 1) as usize)
        } else {
            rest
        }
    }
}

/// How many of the first `n` features cover too many tiles.
pub open spec fn explosive(ranges: Seq<Option<TileRange>>, n: nat) -> nat
    decreases n,
{
    if n == 0 {
        0
    } else {
        explosive(ranges, (n - 1) as nat) + if ranges[n - 1] is Some && !assigned(ranges[n - 1]) {
            1nat
        } else {
            0nat
        }
    }
}

/// The feature lists of the tiles of one zoom.
struct TileLists {
    z: u8,
    entries: Vec<(TileId, Vec<usize>)>,
    index: HashMap<u64, usize>,
}

spec fn cell_code(x: u32, y: u32) -> int {
    x * 0x1_0000_0000 + y
}

impl TileLists {
    spec fn wf(&self) -> bool {
        &&& forall|c: u64| #[trigger]
            self.index@.contains_key(c) ==> self.index@[c] < self.entries@.len() && {
                let e = self.entries@[self.index@[c] as int];
                cell_code(e.0.x, e.0.y) == c
            }
        &&& forall|i: int|
            0 <= i < self.entries@.len() ==> {
                let e = #[trigger] self.entries@[i];
                &&& e.0.z == self.z
                &&& e.1@.len() > 0
                &&& self.index@.contains_key(cell_code(e.0.x, e.0.y) as u64)
                &&& self.index@[cell_code(e.0.x, e.0.y) as u64] == i
            }
    }

    spec fn list(&self, x: u32, y: u32) -> Seq<usize> {
        let c = cell_code(x, y) as u64;
        if self.index@.contains_key(c) {
            self.entries@[self.index@[c] as int].1@
        } else {
            Seq::empty()
        }
    }

    fn add_feature(&mut self, x: u32, y: u32, feature: usize)
        requires
            old(self).wf(),
        ensures
            final(self).wf(),
            final(self).z == old(self).z,
            forall|a: u32, b: u32| #[trigger]
                final(self).list(a, b) == if a == x && b == y {
                    old(self).list(x, y).push(feature)
                } else {
                    old(self).list(a, b)
                },
    {
        let code: u64 = x as u64 * 0x1_0000_0000 + y as u64;
        assert(code == cell_code(x, y));
        let found: Option<usize> = match self.index.get(&code) {
            Some(i) => Some(*i),
            None => None,
        };
        match found {
            Some(i) => {
                self.entries[i].1.push(feature);
            },
            None => {
                let i: usize = self.entries.len();
                let mut list: Vec<usize> = Vec::new();
                list.push(feature);
                self.entries.push((TileId::new(self.z, x, y), list));
                self.index.insert(code, i);
            },
        }
        proof {
            assert forall|i: int| 0 <= i < self.entries@.len() implies {
                let e = #[trigger] self.entries@[i];
                &&& e.0.z == self.z
                &&& e.1@.len() > 0
                &&& self.index@.contains_key(cell_code(e.0.x, e.0.y) as u64)
                &&& self.index@[cell_code(e.0.x, e.0.y) as u64] == i
            } by {
                if i < old(self).entries@.len() {
                    assert(self.entries@[i].0 == old(self).entries@[i].0);
                    assert(old(self).index@.contains_key(
                        cell_code(old(self).entries@[i].0.x, old(self).entries@[i].0.y) as u64,
                    ));
                }
            }
            assert forall|a: u32, b: u32| #[trigger]
                self.list(a, b) == if a == x && b == y {
                    old(self).list(x, y).push(feature)
                } else {
                    old(self).list(a, b)
                } by {
                if a == x && b == y {
                    assert(self.list(a, b) =~= old(self).list(x, y).push(feature));
                } else {
                    let c = cell_code(a, b) as u64;
                    assert(c != code);
                    if old(self).index@.contains_key(c) {
                        let i = old(self).index@[c] as int;
                        assert(cell_code(old(self).entries@[i].0.x, old(self).entries@[i].0.y)
                            == c);
                    }
                }
            }
        }
    }
}

/// The tiles of a zoom with the features that go into each.
pub struct Assignment {
    pub entries: Vec<(TileId, Vec<usize>)>,
    /// Features that cover too many tiles.
    pub skipped: u64,
}

impl Assignment {
    /// Each tile stands once, with the features whose range covers it; no tile is missing.
    pub open spec fn assigns(&self, z: u8, ranges: Seq<Option<TileRange>>) -> bool {
        let n = ranges.len();
        &&& forall|i: int|
            0 <= i < self.entries@.len() ==> {
                let e = #[trigger] self.entries@[i];
                &&& e.0.z == z
                &&& e.1@.len() > 0
                &&& e.1@ == covering(ranges, n, e.0.x, e.0.y)
            }
        &&& forall|i: int, j: int|
            0 <= i < j < self.entries@.len() ==> (#[trigger] self.entries@[i]).0 != (
            #[trigger] self.entries@[j]).0
        &&& forall|x: u32, y: u32|
            (#[trigger] covering(ranges, n, x, y)).len() > 0 ==> exists|i: int|
                0 <= i < self.entries@.len() && (#[trigger] self.entries@[i]).0 == (TileId {
                    z,
                    x,
                    y,
                })
        &&& self.skipped == explosive(ranges, n)
    }
}

/// Assigns features to the tiles of a zoom by the tile ranges of their buffered boxes. A feature
/// without a range goes nowhere; one that covers too many tiles is skipped and counted.
pub fn assign_tiles(z: u8, ranges: &[Option<TileRange>]) -> (a: Assignment)
    requires
        forall|i: int| 0 <= i < ranges@.len() ==> (#[trigger] ranges@[i] matches Some(r) ==> r.wf()),
    ensures
        a.assigns(z, ranges@),
{
    let mut lists = TileLists { z, entries: Vec::new(), index: HashMap::new() };
    let mut skipped: u64 = 0;
    let mut fi: usize = 0;
    while fi < ranges.len()
        invariant
            fi <= ranges@.len(),
            forall|i: int|
                0 <= i < ranges@.len() ==> (#[trigger] ranges@[i] matches Some(r) ==> r.wf()),
            lists.wf(),
            lists.z == z,
            skipped <= fi,
            skipped == explosive(ranges@, fi as nat),
            forall|a: u32, b: u32| #[trigger]
                lists.list(a, b) == covering(ranges@, fi as nat, a, b),
        decreases ranges@.len() - fi,
    {
        if let Some(r) = ranges[fi] {
            if r.tile_count() > MAX_TILES_PER_FEATURE as u128 {
                skipped = skipped + 1;
            } else {
                add_range(&mut lists, &r, fi);
            }
        }
        fi = fi + 1;
    }
    let a = Assignment { entries: lists.entries, skipped };
    proof {
        let n = ranges@.len();
        assert forall|i: int| 0 <= i < a.entries@.len() implies {
            let e = #[trigger] a.entries@[i];
            e.1@ == covering(ranges@, n, e.0.x, e.0.y)
        } by {
            let e = a.entries@[i];
            assert(lists.list(e.0.x, e.0.y) == e.1@);
        }
        assert forall|i: int, j: int| 0 <= i < j < a.entries@.len() implies (
        #[trigger] a.entries@[i]).0 != (#[trigger] a.entries@[j]).0 by {
            let e = a.entries@[i];
            let f = a.entries@[j];
            assert(lists.index@[cell_code(e.0.x, e.0.y) as u64] == i);
            assert(lists.index@[cell_code(f.0.x, f.0.y) as u64] == j);
        }
        assert forall|x: u32, y: u32|
            (#[trigger] covering(ranges@, n, x, y)).len() > 0 implies exists|i: int|
            0 <= i < a.entries@.len() && (#[trigger] a.entries@[i]).0 == (TileId { z, x, y }) by {
            assert(lists.list(x, y).len() > 0);
            let c = cell_code(x, y) as u64;
            let i = lists.index@[c] as int;
            let e = a.entries@[i];
            assert(cell_code(e.0.x, e.0.y) == c);
            assert(e.0 == (TileId { z, x, y }));
        }
    }
    a
}

/// Puts a feature on the list of every tile of its range.
fn add_range(lists: &mut TileLists, r: &TileRange, fi: usize)
    requires
        old(lists).wf(),
        r.wf(),
    ensures
        final(lists).wf(),
        final(lists).z == old(lists).z,
        forall|a: u32, b: u32| #[trigger]
            final(lists).list(a, b) == if r.has(a, b) {
                old(lists).list(a, b).push(fi)
            } else {
                old(lists).list(a, b)
            },
{
    let mut x: u64 = r.x0 as u64;
    while x <= r.x1 as u64
        invariant
            r.wf(),
            r.x0 <= x <= r.x1 + 1,
            lists.wf(),
            lists.z == old(lists).z,
            forall|a: u32, b: u32| #[trigger]
                lists.list(a, b) == if r.has(a, b) && a < x {
                    old(lists).list(a, b).push(fi)
                } else {
                    old(lists).list(a, b)
                },
        decreases r.x1 + 1 - x,
    {
        let mut y: u64 = r.y0 as u64;
        while y <= r.y1 as u64
            invariant
                r.wf(),
                r.x0 <= x <= r.x1,
                r.y0 <= y <= r.y1 + 1,
                lists.wf(),
                lists.z == old(lists).z,
                forall|a: u32, b: u32| #[trigger]
                    lists.list(a, b) == if r.has(a, b) && (a < x || a == x && b < y) {
                        old(lists).list(a, b).push(fi)
                    } else {
                        old(lists).list(a, b)
                    },
            decreases r.y1 + 1 - y,
        {
            lists.add_feature(x as u32, y as u32, fi);
            y = y + 1;
        }
        x = x + 1;
    }
}

/// Per-zoom generation statistics.
#[derive(Debug, Clone, Copy, PartialEq, Eq, Structural)]
pub struct ZoomStats {
    pub tiles: u64,
    pub gzip_bytes: u64,
    pub max_gzip_bytes: usize,
}

/// Aggregated statistics for a generation run. The counters wrap at 64 bits.
#[derive(Debug)]
pub struct TileStats {
    pub tiles_written: u64,
    pub empty_tiles_skipped: u64,
    pub total_gzip_bytes: u64,
    pub max_gzip_bytes: usize,
    pub largest_tile: Option<TileId>,
    /// Feature and tile pairs encoded.
    pub feature_instances: u64,
    /// Tiles that needed mitigation beyond the default attribute set.
    pub mitigations_applied: u64,
    /// Features dropped entirely to satisfy the hard size cap.
    pub features_dropped: u64,
    /// Statistics by zoom, in the order of the run.
    pub per_zoom: Vec<(u8, ZoomStats)>,
    pub elapsed_ms: u64,
}

/// What the statistics say.
#[verifier::ext_equal]
pub struct StatsView {
    pub tiles_written: u64,
    pub empty_tiles_skipped: u64,
    pub total_gzip_bytes: u64,
    pub max_gzip_bytes: usize,
    pub largest_tile: Option<TileId>,
    pub feature_instances: u64,
    pub mitigations_applied: u64,
    pub features_dropped: u64,
    pub per_zoom: Seq<(u8, ZoomStats)>,
    pub elapsed_ms: u64,
}

impl View for TileStats {
    type V = StatsView;

    open spec fn view(&self) -> StatsView {
        StatsView {
            tiles_written: self.tiles_written,
            empty_tiles_skipped: self.empty_tiles_skipped,
            total_gzip_bytes: self.total_gzip_bytes,
            max_gzip_bytes: self.max_gzip_bytes,
            largest_tile: self.largest_tile,
            feature_instances: self.feature_instances,
            mitigations_applied: self.mitigations_applied,
            features_dropped: self.features_dropped,
            per_zoom: self.per_zoom@,
            elapsed_ms: self.elapsed_ms,
        }
    }
}

/// The statistics before the first zoom.
pub open spec fn no_stats() -> StatsView {
    StatsView {
        tiles_written: 0,
        empty_tiles_skipped: 0,
        total_gzip_bytes: 0,
        max_gzip_bytes: 0,
        largest_tile: None,
        feature_instances: 0,
        mitigations_applied: 0,
        features_dropped: 0,
        per_zoom: Seq::empty(),
        elapsed_ms: 0,
    }
}

impl Default for TileStats {
    fn default() -> (s: Self)
        ensures
            s@ == no_stats(),
    {
        let s = TileStats {
            tiles_written: 0,
            empty_tiles_skipped: 0,
            total_gzip_bytes: 0,
            max_gzip_bytes: 0,
            largest_tile: None,
            feature_instances: 0,
            mitigations_applied: 0,
            features_dropped: 0,
            per_zoom: Vec::new(),
            elapsed_ms: 0,
        };
        assert(s@ =~= no_stats());
        s
    }
}

/// What is counted while the tiles of a zoom are built. The counters wrap at 64 bits.
#[derive(Debug)]
pub struct ZoomAccum {
    pub tiles_written: u64,
    pub empty: u64,
    pub gzip_bytes: u64,
    pub max_gzip_bytes: usize,
    pub largest: Option<(TileId, usize)>,
    pub feature_instances: u64,
    pub mitigations: u64,
    pub dropped: u64,
    pub first_error: Option<TileError>,
}

/// The result of a zoom.
#[derive(Debug, Clone, Copy, PartialEq, Eq, Structural)]
pub struct ZoomOutcome {
    pub tiles_written: u64,
    pub gzip_bytes: u64,
    pub max_gzip_bytes: usize,
}

/// Nothing counted.
pub open spec fn no_accum() -> ZoomAccum {
    ZoomAccum {
        tiles_written: 0,
        empty: 0,
        gzip_bytes: 0,
        max_gzip_bytes: 0,
        largest: None,
        feature_instances: 0,
        mitigations: 0,
        dropped: 0,
        first_error: None,
    }
}

/// The counts after one more tile.
pub open spec fn counted(a: ZoomAccum, tile: TileId, o: Outcome) -> ZoomAccum {
    match o {
        Outcome::Empty => ZoomAccum { empty: a.empty.wrapping_add(1), ..a },
        Outcome::Failed => a,
        Outcome::Published { bytes, mitigated, dropped, instances } => {
            let size = bytes.len() as usize;
            ZoomAccum {
                tiles_written: a.tiles_written.wrapping_add(1),
                gzip_bytes: a.gzip_bytes.wrapping_add(size as u64),
                max_gzip_bytes: if size > a.max_gzip_bytes {
                    size
                } else {
                    a.max_gzip_bytes
                },
                largest: if size > a.max_gzip_bytes {
                    Some((tile, size))
                } else {
                    a.largest
                },
                feature_instances: a.feature_instances.wrapping_add(instances as u64),
                mitigations: if mitigated {
                    a.mitigations.wrapping_add(1)
                } else {
                    a.mitigations
                },
                dropped: a.dropped.wrapping_add(dropped as u64),
                ..a
            }
        },
    }
}

/// Two counts joined; of two tiles of the same size the first is the largest.
pub open spec fn merged(a: ZoomAccum, b: ZoomAccum) -> ZoomAccum {
    ZoomAccum {
        tiles_written: a.tiles_written.wrapping_add(b.tiles_written),
        empty: a.empty.wrapping_add(b.empty),
        gzip_bytes: a.gzip_bytes.wrapping_add(b.gzip_bytes),
        max_gzip_bytes: if b.max_gzip_bytes > a.max_gzip_bytes {
            b.max_gzip_bytes
        } else {
            a.max_gzip_bytes
        },
        largest: if b.max_gzip_bytes > a.max_gzip_bytes || a.largest is None {
            b.largest
        } else {
            a.largest
        },
        feature_instances: a.feature_instances.wrapping_add(b.feature_instances),
        mitigations: a.mitigations.wrapping_add(b.mitigations),
        dropped: a.dropped.wrapping_add(b.dropped),
        first_error: if a.first_error is None {
            b.first_error
        } else {
            a.first_error
        },
    }
}

/// The statistics of a run after a zoom.
pub open spec fn stats_after(s: StatsView, a: ZoomAccum) -> StatsView {
    StatsView {
        tiles_written: s.tiles_written.wrapping_add(a.tiles_written),
        empty_tiles_skipped: s.empty_tiles_skipped.wrapping_add(a.empty),
        total_gzip_bytes: s.total_gzip_bytes.wrapping_add(a.gzip_bytes),
        max_gzip_bytes: if a.max_gzip_bytes > s.max_gzip_bytes {
            a.max_gzip_bytes
        } else {
            s.max_gzip_bytes
        },
        largest_tile: if a.max_gzip_bytes > s.max_gzip_bytes {
            match a.largest {
                Some((t, _)) => Some(t),
                None => None,
            }
        } else {
            s.largest_tile
        },
        feature_instances: s.feature_instances.wrapping_add(a.feature_instances),
        mitigations_applied: s.mitigations_applied.wrapping_add(a.mitigations),
        features_dropped: s.features_dropped.wrapping_add(a.dropped),
        ..s
    }
}

/// A built tile as an outcome.
pub open spec fn as_outcome(built: Option<BuiltTile>) -> Outcome {
    match built {
        Some(b) => Outcome::Published {
            bytes: b.bytes@,
            mitigated: b.mitigated,
            dropped: b.dropped as nat,
            instances: b.instances as nat,
        },
        None => Outcome::Empty,
    }
}

impl Default for ZoomAccum {
    fn default() -> (a: Self)
        ensures
            a == no_accum(),
    {
        ZoomAccum {
            tiles_written: 0,
            empty: 0,
            gzip_bytes: 0,
            max_gzip_bytes: 0,
            largest: None,
            feature_instances: 0,
            mitigations: 0,
            dropped: 0,
            first_error: None,
        }
    }
}

impl ZoomAccum {
    /// Counts one tile.
    pub fn record(&mut self, tile: TileId, built: &Option<BuiltTile>)
        ensures
            *final(self) == counted(*old(self), tile, as_outcome(*built)),
    {
        match built {
            None => {
                self.empty = self.empty.wrapping_add(1);
            },
            Some(b) => {
                let size: usize = b.bytes.len();
                self.tiles_written = self.tiles_written.wrapping_add(1);
                self.gzip_bytes = self.gzip_bytes.wrapping_add(size as u64);
                if size > self.max_gzip_bytes {
                    self.max_gzip_bytes = size;
                    self.largest = Some((tile, size));
                }
                self.feature_instances = self.feature_instances.wrapping_add(b.instances);
                if b.mitigated {
                    self.mitigations = self.mitigations.wrapping_add(1);
                }
                self.dropped = self.dropped.wrapping_add(b.dropped);
            },
        }
    }
}

/// The counts after one more tile was tried: the tile is counted, or the error kept if it is the
/// first.
pub open spec fn settled(a: ZoomAccum, tile: TileId, built: Result<Option<BuiltTile>>) -> ZoomAccum {
    match built {
        Ok(b) => counted(a, tile, as_outcome(b)),
        Err(e) => ZoomAccum {
            first_error: if a.first_error is None {
                Some(e)
            } else {
                a.first_error
            },
            ..a
        },
    }
}

impl ZoomAccum {
    /// Counts one tile, or keeps the error that ended it if there was none before.
    pub fn settle(&mut self, tile: TileId, built: Result<Option<BuiltTile>>)
        ensures
            *final(self) == settled(*old(self), tile, built),
    {
        match built {
            Ok(b) => self.record(tile, &b),
            Err(e) => {
                if self.first_error.is_none() {
                    self.first_error = Some(e);
                }
            },
        }
    }
}

/// Joins two counts.
pub fn merge_accum(a: ZoomAccum, b: ZoomAccum) -> (r: ZoomAccum)
    ensures
        r == merged(a, b),
{
    let bigger: bool = b.max_gzip_bytes > a.max_gzip_bytes;
    ZoomAccum {
        tiles_written: a.tiles_written.wrapping_add(b.tiles_written),
        empty: a.empty.wrapping_add(b.empty),
        gzip_bytes: a.gzip_bytes.wrapping_add(b.gzip_bytes),
        max_gzip_bytes: if bigger {
            b.max_gzip_bytes
        } else {
            a.max_gzip_bytes
        },
        largest: if bigger || a.largest.is_none() {
            b.largest
        } else {
            a.largest
        },
        feature_instances: a.feature_instances.wrapping_add(b.feature_instances),
        mitigations: a.mitigations.wrapping_add(b.mitigations),
        dropped: a.dropped.wrapping_add(b.dropped),
        first_error: if a.first_error.is_none() {
            b.first_error
        } else {
            a.first_error
        },
    }
}

/// Adds the counts of a zoom to the statistics, unless there was an error: then the error is
/// handed on and the statistics stay.
pub fn finish_accum(accum: ZoomAccum, stats: &mut TileStats) -> (r: Result<ZoomOutcome>)
    ensures
        match accum.first_error {
            Some(e) => r == Result::<ZoomOutcome>::Err(e) && *final(stats) == *old(stats),
            None => final(stats)@ == stats_after(old(stats)@, accum) && r == Result::<
                ZoomOutcome,
            >::Ok(
                ZoomOutcome {
                    tiles_written: accum.tiles_written,
                    gzip_bytes: accum.gzip_bytes,
                    max_gzip_bytes: accum.max_gzip_bytes,
                },
            ),
        },
{
    if let Some(e) = accum.first_error {
        return Err(e);
    }
    stats.tiles_written = stats.tiles_written.wrapping_add(accum.tiles_written);
    stats.empty_tiles_skipped = stats.empty_tiles_skipped.wrapping_add(accum.empty);
    stats.total_gzip_bytes = stats.total_gzip_bytes.wrapping_add(accum.gzip_bytes);
    if accum.max_gzip_bytes > stats.max_gzip_bytes {
        stats.max_gzip_bytes = accum.max_gzip_bytes;
        stats.largest_tile = match accum.largest {
            Some((t, _)) => Some(t),
            None => None,
        };
    }
    stats.feature_instances = stats.feature_instances.wrapping_add(accum.feature_instances);
    stats.mitigations_applied = stats.mitigations_applied.wrapping_add(accum.mitigations);
    stats.features_dropped = stats.features_dropped.wrapping_add(accum.dropped);
    Ok(
        ZoomOutcome {
            tiles_written: accum.tiles_written,
            gzip_bytes: accum.gzip_bytes,
            max_gzip_bytes: accum.max_gzip_bytes,
        },
    )
}

/// A tile with the features that go into it, in its coordinates.
#[derive(Debug)]
pub struct TileInput {
    pub tile: TileId,
    pub features: Vec<TileFeature>,
}

impl TileInput {
    /// The frame of the tile's coordinates.
    pub open spec fn frame(&self, config: TileConfig) -> TileTransform {
        TileTransform { tile: self.tile, extent: config.extent, buffer: config.buffer }
    }

    /// Every drawing has steps that fit in 32 bits.
    pub open spec fn fits(&self, config: TileConfig) -> bool {
        forall|i: int|
            0 <= i < self.features@.len() ==> ladder::feature_fits(
                #[trigger] self.features@[i]@,
                self.frame(config),
            )
    }

    /// The features are those of the dataset at the given places, in order.
    pub open spec fn draws(&self, dataset: PreparedDataset, places: Seq<usize>) -> bool {
        &&& self.features@.len() == places.len()
        &&& forall|k: int|
            0 <= k < places.len() ==> (#[trigger] places[k]) < dataset.features@.len() && {
                let f = self.features@[k];
                let d = dataset.features@[places[k] as int];
                &&& f.id == d.id
                &&& layer::props_view(f.properties@) == layer::props_view(d.properties@)
                &&& f.vertex_count == d.vertex_count
            }
    }

    /// What becomes of the tile.
    #[verifier::opaque]
    pub open spec fn outcome(&self, config: TileConfig) -> Outcome {
        ladder::climb(
            ladder::feature_views(self.features@),
            config,
            self.frame(config),
            ladder::first_rung(Seq::new(self.features@.len(), |i: int| i as usize)),
        )
    }
}

/// Builds the tile of an input from all its features.
pub fn build_input(input: &TileInput, config: &TileConfig) -> (r: Result<Option<BuiltTile>>)
    requires
        config.gzip_level <= 10,
        input.fits(*config),
    ensures
        match input.outcome(*config) {
            Outcome::Failed => r matches Err(e) && (e is Io || e is Compression),
            o => r matches Ok(built) && as_outcome(built) == o,
        },
{
    reveal(TileInput::outcome);
    let mut idxs: Vec<usize> = Vec::new();
    let mut i: usize = 0;
    while i < input.features.len()
        invariant
            i <= input.features@.len(),
            idxs@ == Seq::new(i as nat, |k: int| k as usize),
        decreases input.features@.len() - i,
    {
        idxs.push(i);
        assert(idxs@ =~= Seq::new((i + 1) as nat, |k: int| k as usize));
        i = i + 1;
    }
    build_tile(input.features.as_slice(), config, input.tile, idxs.as_slice())
}

/// The counts after the first `n` tiles.
pub open spec fn counted_all(entries: Seq<TileInput>, config: TileConfig, n: nat) -> ZoomAccum
    decreases n,
{
    if n == 0 {
        no_accum()
    } else {
        counted(
            counted_all(entries, config, (n - 1) as nat),
            entries[n - 1].tile,
            entries[n - 1].outcome(config),
        )
    }
}

/// What a sink holds for a tile after the first `n` tiles were written over `before`.
pub open spec fn stored_after(
    before: Option<Seq<u8>>,
    entries: Seq<TileInput>,
    config: TileConfig,
    n: nat,
    tile: TileId,
) -> Option<Seq<u8>>
    decreases n,
{
    if n == 0 {
        before
    } else {
        let e = entries[n - 1];
        match e.outcome(config) {
            Outcome::Published { bytes, .. } if e.tile == tile => Some(bytes),
            _ => stored_after(before, entries, config, (n - 1) as nat, tile),
        }
    }
}

/// The calls that write the first `n` tiles: those that have something to show, in order.
pub open spec fn tile_calls(
    entries: Seq<TileInput>,
    config: TileConfig,
    meta: TileObjectMeta,
    n: nat,
) -> Seq<SinkCall>
    decreases n,
{
    if n == 0 {
        Seq::empty()
    } else {
        let rest = tile_calls(entries, config, meta, (n - 1) as nat);
        let e = entries[n - 1];
        match e.outcome(config) {
            Outcome::Published { bytes, .. } => rest.push(
                SinkCall::Write { tile: e.tile, bytes, meta },
            ),
            _ => rest,
        }
    }
}

/// Whether what each call writes has a length that fits in a machine word.
pub open spec fn writes_fit(calls: Seq<SinkCall>) -> bool {
    forall|a: int|
        0 <= a < calls.len() ==> ((#[trigger] calls[a]) matches SinkCall::Write {
            bytes,
            ..
        } ==> bytes.len() <= usize::MAX)
}

/// Whether the compressor has no error for any of the tiles.
pub open spec fn none_fails(entries: Seq<TileInput>, config: TileConfig) -> bool {
    forall|k: int| 0 <= k < entries.len() ==> !((#[trigger] entries[k]).outcome(config) is Failed)
}

/// Whether a zoom can end at tile `i` with an error: no earlier tile failed, and this one failed in
/// the compressor or, where the sink may refuse tiles, was refused. An empty tile ends nothing.
pub open spec fn ends_at(
    entries: Seq<TileInput>,
    config: TileConfig,
    i: int,
    reliable: bool,
    e: TileError,
) -> bool {
    &&& 0 <= i < entries.len()
    &&& forall|k: int| 0 <= k < i ==> !((#[trigger] entries[k]).outcome(config) is Failed)
    &&& match entries[i].outcome(config) {
        Outcome::Empty => false,
        Outcome::Failed => e is Io || e is Compression,
        Outcome::Published { .. } => !reliable,
    }
}

/// Whether a zoom ended at tile `i`: the earlier tiles were written, and the error is the
/// compressor's or the one that the sink refused the tile with.
pub open spec fn ended_at<S: TileSink>(
    entries: Seq<TileInput>,
    config: TileConfig,
    meta: TileObjectMeta,
    before: S,
    after: S,
    i: int,
    e: TileError,
) -> bool {
    &&& ends_at(entries, config, i, before.reliable(), e)
    &&& after.taken() == before.taken() + tile_calls(entries, config, meta, i as nat)
    &&& entries[i].outcome(config) is Failed ==> forall|t: TileId| #[trigger]
        after.stored(t) == stored_after(before.stored(t), entries, config, i as nat, t)
    &&& entries[i].outcome(config) is Published ==> after.refusal() == Some(e)
}

/// Builds the tiles of a zoom one after the other and writes them into the sink. The first error
/// of the compressor or of the sink ends the zoom; the earlier tiles are written.
pub fn build_tiles_sequential<S: TileSink>(
    config: &TileConfig,
    meta: &TileObjectMeta,
    sink: &mut S,
    entries: &[TileInput],
    stats: &mut TileStats,
) -> (r: Result<ZoomOutcome>)
    requires
        config.gzip_level <= 10,
        forall|i: int| 0 <= i < entries@.len() ==> (#[trigger] entries@[i]).fits(*config),
        old(sink).ready(),
    ensures
        final(sink).ready(),
        old(sink).reliable() ==> final(sink).reliable(),
        old(sink).reliable() && none_fails(entries@, *config) ==> r is Ok,
        match r {
            Ok(z) => {
                let acc = counted_all(entries@, *config, entries@.len());
                &&& none_fails(entries@, *config)
                &&& final(stats)@ == stats_after(old(stats)@, acc)
                &&& z.tiles_written == acc.tiles_written
                &&& z.gzip_bytes == acc.gzip_bytes
                &&& z.max_gzip_bytes == acc.max_gzip_bytes
                &&& writes_fit(tile_calls(entries@, *config, *meta, entries@.len()))
                &&& final(sink).taken() == old(sink).taken() + tile_calls(
                    entries@,
                    *config,
                    *meta,
                    entries@.len(),
                )
                &&& forall|t: TileId| #[trigger]
                    final(sink).stored(t) == stored_after(
                        old(sink).stored(t),
                        entries@,
                        *config,
                        entries@.len(),
                        t,
                    )
            },
            Err(e) => {
                &&& *final(stats) == *old(stats)
                &&& exists|i: int| #[trigger]
                    ended_at(entries@, *config, *meta, *old(sink), *final(sink), i, e)
            },
        },
{
    let mut acc = ZoomAccum::default();
    let mut i: usize = 0;
    assert(sink.taken() + tile_calls(entries@, *config, *meta, 0) =~= sink.taken());
    while i < entries.len()
        invariant
            i <= entries@.len(),
            config.gzip_level <= 10,
            forall|k: int| 0 <= k < entries@.len() ==> (#[trigger] entries@[k]).fits(*config),
            forall|k: int|
                0 <= k < i ==> !((#[trigger] entries@[k]).outcome(*config) is Failed),
            sink.ready(),
            old(sink).reliable() ==> sink.reliable(),
            *stats == *old(stats),
            acc == counted_all(entries@, *config, i as nat),
            acc.first_error is None,
            writes_fit(tile_calls(entries@, *config, *meta, i as nat)),
            sink.taken() == old(sink).taken() + tile_calls(entries@, *config, *meta, i as nat),
            forall|t: TileId| #[trigger]
                sink.stored(t) == stored_after(
                    old(sink).stored(t),
                    entries@,
                    *config,
                    i as nat,
                    t,
                ),
        decreases entries@.len() - i,
    {
        let entry = &entries[i];
        let built = match build_input(entry, config) {
            Ok(built) => built,
            Err(e) => {
                assert(ended_at(entries@, *config, *meta, *old(sink), *sink, i as int, e));
                return Err(e);
            },
        };
        if let Some(b) = &built {
            assert(b.bytes.len() == b.bytes@.len());
            match sink.write_tile(&entry.tile, b.bytes.as_slice(), meta) {
                Ok(()) => {},
                Err(e) => {
                    assert(ended_at(entries@, *config, *meta, *old(sink), *sink, i as int, e));
                    return Err(e);
                },
            }
        }
        acc.record(entry.tile, &built);
        i = i + 1;
        assert(sink.taken() =~= old(sink).taken() + tile_calls(
            entries@,
            *config,
            *meta,
            i as nat,
        ));
    }
    finish_accum(acc, stats)
}

/// The tiles of one zoom.
#[derive(Debug)]
pub struct ZoomInput {
    pub z: u8,
    pub entries: Vec<TileInput>,
}

impl ZoomInput {
    /// Every drawing has steps that fit in 32 bits.
    pub open spec fn fits(&self, config: TileConfig) -> bool {
        forall|i: int|
            0 <= i < self.entries@.len() ==> (#[trigger] self.entries@[i]).fits(config)
    }

    /// Every tile is one of the zoom, and no two are the same.
    pub open spec fn holds_tiles(&self) -> bool {
        &&& forall|i: int|
            0 <= i < self.entries@.len() ==> (#[trigger] self.entries@[i]).tile.z == self.z
        &&& forall|i: int, j: int|
            0 <= i < j < self.entries@.len() ==> (#[trigger] self.entries@[i]).tile != (
            #[trigger] self.entries@[j]).tile
    }

    /// The tiles are those that the features' ranges cover, each with the features of the dataset
    /// that cover it.
    pub open spec fn assigned_by(
        &self,
        dataset: PreparedDataset,
        ranges: Seq<Option<TileRange>>,
    ) -> bool {
        &&& ranges.len() == dataset.features@.len()
        &&& forall|i: int|
            0 <= i < self.entries@.len() ==> {
                let e = #[trigger] self.entries@[i];
                let places = covering(ranges, ranges.len(), e.tile.x, e.tile.y);
                places.len() > 0 && e.draws(dataset, places)
            }
        &&& forall|x: u32, y: u32|
            (#[trigger] covering(ranges, ranges.len(), x, y)).len() > 0 ==> exists|i: int|
                0 <= i < self.entries@.len() && (#[trigger] self.entries@[i]).tile.x == x
                    && self.entries@[i].tile.y == y
    }

    /// The zoom of a dataset: its tiles, with the features that the ranges assign to them.
    pub open spec fn tiles_of(&self, dataset: PreparedDataset) -> bool {
        &&& self.holds_tiles()
        &&& exists|ranges: Seq<Option<TileRange>>| #[trigger] self.assigned_by(dataset, ranges)
    }
}

/// Whether these are the zooms of a run, one for each zoom of the range, from the lowest on.
pub open spec fn zooms_of(
    zooms: Seq<ZoomInput>,
    dataset: PreparedDataset,
    config: TileConfig,
) -> bool {
    let range = config.zoom_range;
    &&& zooms.len() == if range.min_zoom <= range.max_zoom {
        range.max_zoom - range.min_zoom + 1
    } else {
        0
    }
    &&& forall|i: int|
        0 <= i < zooms.len() ==> (#[trigger] zooms[i]).z == range.min_zoom + i
            && zooms[i].tiles_of(dataset)
}

/// The statistics of a run after a zoom, with the line of the zoom.
pub open spec fn stats_after_zoom(s: StatsView, z: u8, a: ZoomAccum) -> StatsView {
    let t = stats_after(s, a);
    StatsView {
        per_zoom: t.per_zoom.push(
            (
                z,
                ZoomStats {
                    tiles: a.tiles_written,
                    gzip_bytes: a.gzip_bytes,
                    max_gzip_bytes: a.max_gzip_bytes,
                },
            ),
        ),
        ..t
    }
}

/// The statistics after the first `n` zooms.
pub open spec fn stats_after_zooms(zooms: Seq<ZoomInput>, config: TileConfig, n: nat) -> StatsView
    decreases n,
{
    if n == 0 {
        no_stats()
    } else {
        let zoom = zooms[n - 1];
        stats_after_zoom(
            stats_after_zooms(zooms, config, (n - 1) as nat),
            zoom.z,
            counted_all(zoom.entries@, config, zoom.entries@.len()),
        )
    }
}

/// What a sink holds for a tile after the first `n` zooms were written over `before`.
pub open spec fn stored_after_zooms(
    before: Option<Seq<u8>>,
    zooms: Seq<ZoomInput>,
    config: TileConfig,
    n: nat,
    tile: TileId,
) -> Option<Seq<u8>>
    decreases n,
{
    if n == 0 {
        before
    } else {
        let zoom = zooms[n - 1];
        stored_after(
            stored_after_zooms(before, zooms, config, (n - 1) as nat, tile),
            zoom.entries@,
            config,
            zoom.entries@.len(),
            tile,
        )
    }
}

/// The calls that write the tiles of the first `n` zooms.
pub open spec fn run_calls(
    zooms: Seq<ZoomInput>,
    config: TileConfig,
    meta: TileObjectMeta,
    n: nat,
) -> Seq<SinkCall>
    decreases n,
{
    if n == 0 {
        Seq::empty()
    } else {
        let entries = zooms[n - 1].entries@;
        run_calls(zooms, config, meta, (n - 1) as nat) + tile_calls(
            entries,
            config,
            meta,
            entries.len(),
        )
    }
}

/// Whether the compressor has no error for any tile of the first `n` zooms.
pub open spec fn no_zoom_fails(zooms: Seq<ZoomInput>, config: TileConfig, n: int) -> bool {
    forall|i: int| 0 <= i < n ==> none_fails((#[trigger] zooms[i]).entries@, config)
}

/// Whether a run ended at tile `j` of zoom `i`: the earlier tiles were written, and the error is
/// the compressor's or the one that the sink refused the tile with.
pub open spec fn run_ended_at<S: TileSink>(
    zooms: Seq<ZoomInput>,
    config: TileConfig,
    meta: TileObjectMeta,
    before: S,
    after: S,
    i: int,
    j: int,
    e: TileError,
) -> bool {
    let entries = zooms[i].entries@;
    &&& 0 <= i < zooms.len()
    &&& no_zoom_fails(zooms, config, i)
    &&& ends_at(entries, config, j, before.reliable(), e)
    &&& after.taken() == before.taken() + run_calls(zooms, config, meta, i as nat) + tile_calls(
        entries,
        config,
        meta,
        j as nat,
    )
    &&& entries[j].outcome(config) is Failed ==> forall|t: TileId| #[trigger]
        after.stored(t) == stored_after(
            stored_after_zooms(before.stored(t), zooms, config, i as nat, t),
            entries,
            config,
            j as nat,
            t,
        )
    &&& entries[j].outcome(config) is Published ==> after.refusal() == Some(e)
}

/// Whether a run ended when the sink refused to finish: all tiles were written, and the error
/// carries what the sink said.
pub open spec fn finish_refused<S: TileSink>(
    zooms: Seq<ZoomInput>,
    config: TileConfig,
    meta: TileObjectMeta,
    before: S,
    after: S,
    e: TileError,
) -> bool {
    &&& !before.reliable()
    &&& no_zoom_fails(zooms, config, zooms.len() as int)
    &&& after.taken() == before.taken() + run_calls(zooms, config, meta, zooms.len())
    &&& forall|t: TileId| #[trigger]
        after.stored(t) == stored_after_zooms(before.stored(t), zooms, config, zooms.len(), t)
    &&& after.refusal() matches Some(f) && e matches TileError::Sink(m) && m@ == f.text()
}

/// Whether a run may start: the configuration is valid and there is something to tile.
pub fn check_run(dataset: &PreparedDataset, config: &TileConfig) -> (r: Result<()>)
    ensures
        match config.fault() {
            Some(msg) => r matches Err(TileError::Config(m)) && m@ == msg,
            None => if dataset.features@.len() == 0 {
                r matches Err(TileError::Geometry(m)) && m@ == "dataset has no features"@
            } else {
                r is Ok
            },
        },
{
    match config.validate() {
        Ok(()) => {},
        Err(msg) => return Err(TileError::Config(msg)),
    }
    if dataset.is_empty() {
        return Err(TileError::Geometry("dataset has no features".to_string()));
    }
    Ok(())
}

/// Adds the line of a zoom to the statistics.
pub fn record_zoom(z: u8, done: &ZoomOutcome, stats: &mut TileStats)
    ensures
        final(stats)@ == (StatsView {
            per_zoom: old(stats)@.per_zoom.push(
                (
                    z,
                    ZoomStats {
                        tiles: done.tiles_written,
                        gzip_bytes: done.gzip_bytes,
                        max_gzip_bytes: done.max_gzip_bytes,
                    },
                ),
            ),
            ..old(stats)@
        }),
{
    stats.per_zoom.push(
        (
            z,
            ZoomStats {
                tiles: done.tiles_written,
                gzip_bytes: done.gzip_bytes,
                max_gzip_bytes: done.max_gzip_bytes,
            },
        ),
    );
}

/// Finishes the sink of a run. Whatever error the sink has becomes an error of the sink.
pub fn finish_run<S: TileSink>(sink: &mut S) -> (r: Result<()>)
    requires
        old(sink).ready(),
    ensures
        final(sink).ready(),
        old(sink).reliable() ==> r is Ok && final(sink).reliable(),
        forall|t: TileId| #[trigger] final(sink).stored(t) == old(sink).stored(t),
        match r {
            Ok(_) => final(sink).taken() == old(sink).taken().push(SinkCall::Finish),
            Err(e) => {
                &&& final(sink).taken() == old(sink).taken()
                &&& final(sink).refusal() matches Some(f) && e matches TileError::Sink(m) && m@
                    == f.text()
            },
        },
{
    match sink.finish() {
        Ok(()) => Ok(()),
        Err(e) => Err(TileError::Sink(e.message())),
    }
}

/// Builds and writes the tiles of one zoom and adds its line to the statistics.
pub fn run_zoom<S: TileSink>(
    zoom: &ZoomInput,
    config: &TileConfig,
    meta: &TileObjectMeta,
    sink: &mut S,
    stats: &mut TileStats,
) -> (r: Result<()>)
    requires
        config.gzip_level <= 10,
        zoom.fits(*config),
        old(sink).ready(),
    ensures
        final(sink).ready(),
        old(sink).reliable() ==> final(sink).reliable(),
        old(sink).reliable() && none_fails(zoom.entries@, *config) ==> r is Ok,
        match r {
            Ok(_) => {
                let acc = counted_all(zoom.entries@, *config, zoom.entries@.len());
                &&& none_fails(zoom.entries@, *config)
                &&& final(stats)@ == stats_after_zoom(old(stats)@, zoom.z, acc)
                &&& writes_fit(tile_calls(zoom.entries@, *config, *meta, zoom.entries@.len()))
                &&& final(sink).taken() == old(sink).taken() + tile_calls(
                    zoom.entries@,
                    *config,
                    *meta,
                    zoom.entries@.len(),
                )
                &&& forall|t: TileId| #[trigger]
                    final(sink).stored(t) == stored_after(
                        old(sink).stored(t),
                        zoom.entries@,
                        *config,
                        zoom.entries@.len(),
                        t,
                    )
            },
            Err(e) => {
                &&& *final(stats) == *old(stats)
                &&& exists|i: int| #[trigger]
                    ended_at(zoom.entries@, *config, *meta, *old(sink), *final(sink), i, e)
            },
        },
{
    match build_tiles_sequential(config, meta, sink, zoom.entries.as_slice(), stats) {
        Ok(z) => {
            record_zoom(zoom.z, &z, stats);
            assert(stats@ =~= stats_after_zoom(
                old(stats)@,
                zoom.z,
                counted_all(zoom.entries@, *config, zoom.entries@.len()),
            ));
            Ok(())
        },
        Err(e) => Err(e),
    }
}

/// Generates all tiles of a dataset and streams them into `sink`. `zooms` are the tiles of each
/// zoom with the features of the dataset in their coordinates.
///
/// An invalid configuration and an empty dataset are refused before the sink is asked for anything;
/// after that the first error of the compressor or of the sink ends the run. In the end the sink is
/// finished.
pub fn generate_tiles<S: TileSink>(
    dataset: &PreparedDataset,
    config: &TileConfig,
    meta: &TileObjectMeta,
    sink: &mut S,
    zooms: &[ZoomInput],
) -> (r: Result<TileStats>)
    requires
        config.fault() is None && dataset.features@.len() > 0 ==> zooms_of(
            zooms@,
            *dataset,
            *config,
        ),
        forall|i: int| 0 <= i < zooms@.len() ==> (#[trigger] zooms@[i]).fits(*config),
        old(sink).ready(),
    ensures
        final(sink).ready(),
        old(sink).reliable() ==> final(sink).reliable(),
        config.fault() matches Some(msg) ==> {
            &&& r matches Err(TileError::Config(m)) && m@ == msg
            &&& *final(sink) == *old(sink)
        },
        config.fault() is None && dataset.features@.len() == 0 ==> {
            &&& r matches Err(TileError::Geometry(m)) && m@ == "dataset has no features"@
            &&& *final(sink) == *old(sink)
        },
        config.fault() is None && dataset.features@.len() > 0 && old(sink).reliable()
            && no_zoom_fails(zooms@, *config, zooms@.len() as int) ==> r is Ok,
        match r {
            Ok(stats) => {
                &&& config.fault() is None
                &&& dataset.features@.len() > 0
                &&& no_zoom_fails(zooms@, *config, zooms@.len() as int)
                &&& stats@ == stats_after_zooms(zooms@, *config, zooms@.len())
                &&& writes_fit(run_calls(zooms@, *config, *meta, zooms@.len()))
                &&& final(sink).taken() == (old(sink).taken() + run_calls(
                    zooms@,
                    *config,
                    *meta,
                    zooms@.len(),
                )).push(SinkCall::Finish)
                &&& forall|t: TileId| #[trigger]
                    final(sink).stored(t) == stored_after_zooms(
                        old(sink).stored(t),
                        zooms@,
                        *config,
                        zooms@.len(),
                        t,
                    )
            },
            Err(e) => {
                &&& e is Config ==> config.fault() is Some || final(sink).refusal() == Some(e)
                &&& e is Geometry ==> config.fault() is None && dataset.features@.len() == 0
                    || final(sink).refusal() == Some(e)
                &&& config.fault() is None && dataset.features@.len() > 0 ==> {
                    ||| exists|i: int, j: int| #[trigger]
                        run_ended_at(
                            zooms@,
                            *config,
                            *meta,
                            *old(sink),
                            *final(sink),
                            i,
                            j,
                            e,
                        )
                    ||| finish_refused(zooms@, *config, *meta, *old(sink), *final(sink), e)
                }
            },
        },
        old(sink).reliable() ==> {
            &&& (r is Err && r->Err_0 is Config) <==> config.fault() is Some
            &&& (r is Err && r->Err_0 is Geometry) <==> config.fault() is None
                && dataset.features@.len() == 0
        },
{
    match check_run(dataset, config) {
        Ok(()) => {},
        Err(e) => return Err(e),
    }
    let mut stats = TileStats::default();
    let mut i: usize = 0;
    assert(sink.taken() + run_calls(zooms@, *config, *meta, 0) =~= sink.taken());
    while i < zooms.len()
        invariant
            i <= zooms@.len(),
            config.fault() is None,
            dataset.features@.len() > 0,
            forall|k: int| 0 <= k < zooms@.len() ==> (#[trigger] zooms@[k]).fits(*config),
            no_zoom_fails(zooms@, *config, i as int),
            sink.ready(),
            old(sink).reliable() ==> sink.reliable(),
            stats@ == stats_after_zooms(zooms@, *config, i as nat),
            writes_fit(run_calls(zooms@, *config, *meta, i as nat)),
            sink.taken() == old(sink).taken() + run_calls(zooms@, *config, *meta, i as nat),
            forall|t: TileId| #[trigger]
                sink.stored(t) == stored_after_zooms(
                    old(sink).stored(t),
                    zooms@,
                    *config,
                    i as nat,
                    t,
                ),
        decreases zooms@.len() - i,
    {
        let ghost mid = *sink;
        match run_zoom(&zooms[i], config, meta, sink, &mut stats) {
            Ok(()) => {},
            Err(e) => {
                proof {
                    let entries = zooms@[i as int].entries@;
                    let j = choose|j: int| #[trigger]
                        ended_at(entries, *config, *meta, mid, *sink, j, e);
                    assert(run_ended_at(
                        zooms@,
                        *config,
                        *meta,
                        *old(sink),
                        *sink,
                        i as int,
                        j,
                        e,
                    ));
                }
                return Err(e);
            },
        }
        i = i + 1;
        assert(sink.taken() =~= old(sink).taken() + run_calls(
            zooms@,
            *config,
            *meta,
            i as nat,
        ));
    }
    match finish_run(sink) {
        Ok(()) => {},
        Err(e) => return Err(e),
    }
    Ok(stats)
}

/// The invariant of counts: without a largest tile no size was seen.
pub open spec fn sound(a: ZoomAccum) -> bool {
    a.largest is None ==> a.max_gzip_bytes == 0
}

/// Joining with nothing changes nothing.
pub proof fn merge_has_identity(a: ZoomAccum)
    requires
        sound(a),
    ensures
        merged(no_accum(), a) == a,
        merged(a, no_accum()) == a,
{
}

/// How counts are grouped when they are joined does not matter.
pub proof fn merge_is_associative(a: ZoomAccum, b: ZoomAccum, c: ZoomAccum)
    requires
        sound(a),
        sound(b),
        sound(c),
    ensures
        merged(merged(a, b), c) == merged(a, merged(b, c)),
        sound(merged(a, b)),
{
}

/// Counting keeps the invariant of counts.
pub proof fn counting_is_sound(a: ZoomAccum, tile: TileId, o: Outcome)
    requires
        sound(a),
    ensures
        sound(counted(a, tile, o)),
{
}

/// Counting a tile and joining can be exchanged: workers that count parts of a zoom and join the
/// counts in order get what one worker gets that counts them all.
pub proof fn merge_after_counting(a: ZoomAccum, b: ZoomAccum, tile: TileId, o: Outcome)
    requires
        sound(a),
        sound(b),
    ensures
        merged(a, counted(b, tile, o)) == counted(merged(a, b), tile, o),
{
}

/// A zoom split between two workers is counted as by one: the counts of the first `m` tiles
/// joined with those of the rest are the counts of all.
pub proof fn split_zoom_counts_the_same(entries: Seq<TileInput>, config: TileConfig, m: nat, n: nat)
    requires
        m + n <= entries.len(),
    ensures
        merged(
            counted_all(entries, config, m),
            counted_all(entries.skip(m as int), config, n),
        ) == counted_all(entries, config, m + n),
        sound(counted_all(entries, config, m + n)),
    decreases n,
{
    counted_is_sound(entries, config, m);
    counted_is_sound(entries, config, m + n);
    if n == 0 {
        merge_has_identity(counted_all(entries, config, m));
    } else {
        let k = (n - 1) as nat;
        split_zoom_counts_the_same(entries, config, m, k);
        counted_is_sound(entries.skip(m as int), config, k);
        let e = entries[m + n - 1];
        assert(entries.skip(m as int)[n - 1] == e);
        merge_after_counting(
            counted_all(entries, config, m),
            counted_all(entries.skip(m as int), config, k),
            e.tile,
            e.outcome(config),
        );
    }
}

proof fn counted_is_sound(entries: Seq<TileInput>, config: TileConfig, n: nat)
    ensures
        sound(counted_all(entries, config, n)),
    decreases n,
{
    if n > 0 {
        counted_is_sound(entries, config, (n - 1) as nat);
        counting_is_sound(
            counted_all(entries, config, (n - 1) as nat),
            entries[n - 1].tile,
            entries[n - 1].outcome(config),
        );
    }
}

} // verus!
