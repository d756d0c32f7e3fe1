//! Tile output sinks.
//!
//! The engine streams tiles into a [`TileSink`] instead of buffering them in memory.
use vstd::prelude::*;
use std::collections::HashMap;
use crate::error::{Result, TileError};
use crate::tilemath::TileId;

verus! {

broadcast use vstd::std_specs::hash::group_hash_axioms;

/// Object metadata written alongside each published tile.
#[derive(Debug, Clone)]
pub struct TileObjectMeta {
    pub tenant_id: String,
    pub layer_id: String,
    pub tile_version: String,
    pub source_format: String,
    pub crs: String,
    pub min_zoom: u8,
    pub max_zoom: u8,
}

impl Default for TileObjectMeta {
    fn default() -> (m: Self)
        ensures
            m.tenant_id@.len() == 0,
            m.layer_id@.len() == 0,
            m.tile_version@.len() == 0,
            m.source_format@.len() == 0,
            m.crs@.len() == 0,
            m.min_zoom == 0,
            m.max_zoom == 0,
    {
        TileObjectMeta {
            tenant_id: String::new(),
            layer_id: String::new(),
            tile_version: String::new(),
            source_format: String::new(),
            crs: String::new(),
            min_zoom: 0,
            max_zoom: 0,
        }
    }
}

/// A call that a sink carried out.
pub enum SinkCall {
    Write { tile: TileId, bytes: Seq<u8>, meta: TileObjectMeta },
    Finish,
}

/// Receives generated tiles.
pub trait TileSink {
    /// The calls that the sink carried out, in order. The default is for sinks outside of verified
    /// code; no verified sink that carries out a call can keep it.
    open spec fn taken(&self) -> Seq<SinkCall> {
        Seq::empty()
    }

    /// The error of the last call that the sink refused. The default is for sinks outside of
    /// verified code and for those that refuse nothing.
    open spec fn refusal(&self) -> Option<TileError> {
        None
    }

    /// The bytes that the sink holds for a tile. The default is for sinks outside of verified code;
    /// no verified sink that stores a tile can keep it.
    open spec fn stored(&self, tile: TileId) -> Option<Seq<u8>> {
        None
    }

    /// Whether the sink is in working order.
    open spec fn ready(&self) -> bool {
        true
    }

    /// Whether the sink takes every tile. The default is for sinks that may refuse one.
    open spec fn reliable(&self) -> bool {
        false
    }

    /// Writes one gzip-compressed tile with its metadata: it takes the place of what was stored for
    /// the tile before. What a sink that refuses a tile holds after that is its own affair.
    fn write_tile(&mut self, tile: &TileId, gzipped: &[u8], meta: &TileObjectMeta) -> (r: Result<
        (),
    >)
        requires
            old(self).ready(),
        ensures
            final(self).ready(),
            old(self).reliable() ==> r is Ok && final(self).reliable(),
            match r {
                Ok(_) => {
                    &&& final(self).taken() == old(self).taken().push(
                        SinkCall::Write { tile: *tile, bytes: gzipped@, meta: *meta },
                    )
                    &&& forall|t: TileId| #[trigger]
                        final(self).stored(t) == if t == *tile {
                            Some(gzipped@)
                        } else {
                            old(self).stored(t)
                        }
                },
                Err(e) => {
                    &&& final(self).taken() == old(self).taken()
                    &&& final(self).refusal() == Some(e)
                },
            },
    ;

    /// Called once after all tiles were written; the stored tiles stay. A sink with nothing left to
    /// do says `Ok(())`.
    fn finish(&mut self) -> (r: Result<()>)
        requires
            old(self).ready(),
        ensures
            final(self).ready(),
            old(self).reliable() ==> r is Ok && final(self).reliable(),
            forall|t: TileId| #[trigger] final(self).stored(t) == old(self).stored(t),
            match r {
                Ok(_) => final(self).taken() == old(self).taken().push(SinkCall::Finish),
                Err(e) => {
                    &&& final(self).taken() == old(self).taken()
                    &&& final(self).refusal() == Some(e)
                },
            },
    ;
}

/// In-memory sink for tests and very small layers.
pub struct MemoryTileSink {
    tiles: Vec<(TileId, Vec<u8>)>,
    index: HashMap<u128, usize>,
    calls: Ghost<Seq<SinkCall>>,
}

/// A number that tells tiles apart.
spec fn tile_code(t: TileId) -> int {
    t.z * 0x1_0000_0000_0000_0000 + t.x * 0x1_0000_0000 + t.y
}

fn code_of(t: &TileId) -> (c: u128)
    ensures
        c == tile_code(*t),
{
    t.z as u128 * 0x1_0000_0000_0000_0000 + t.x as u128 * 0x1_0000_0000 + t.y as u128
}

proof fn codes_differ(a: TileId, b: TileId)
    requires
        tile_code(a) == tile_code(b),
    ensures
        a == b,
{
}

impl MemoryTileSink {
    /// The tiles stand once each, and the index holds their places.
    pub closed spec fn wf(&self) -> bool {
        &&& forall|c: u128| #[trigger]
            self.index@.contains_key(c) ==> self.index@[c] < self.tiles@.len() && tile_code(
                self.tiles@[self.index@[c] as int].0,
            ) == c
        &&& forall|i: int|
            0 <= i < self.tiles@.len() ==> self.index@.contains_key(
                tile_code((#[trigger] self.tiles@[i]).0) as u128,
            ) && self.index@[tile_code(self.tiles@[i].0) as u128] == i
    }

    /// The bytes held for a tile.
    pub closed spec fn held(&self, t: TileId) -> Option<Seq<u8>> {
        let c = tile_code(t) as u128;
        if self.index@.contains_key(c) {
            Some(self.tiles@[self.index@[c] as int].1@)
        } else {
            None
        }
    }

    /// The tiles that are held, each once.
    pub closed spec fn ids(&self) -> Seq<TileId> {
        self.tiles@.map_values(|e: (TileId, Vec<u8>)| e.0)
    }

    /// The calls carried out.
    pub closed spec fn log(&self) -> Seq<SinkCall> {
        self.calls@
    }

    pub fn new() -> (s: Self)
        ensures
            s.wf(),
            s.ids().len() == 0,
            s.log().len() == 0,
            forall|t: TileId| #[trigger] s.held(t) is None,
    {
        MemoryTileSink { tiles: Vec::new(), index: HashMap::new(), calls: Ghost(Seq::empty()) }
    }

    /// The number of tiles held.
    pub fn len(&self) -> (n: usize)
        ensures
            n == self.ids().len(),
    {
        self.tiles.len()
    }

    pub fn is_empty(&self) -> (b: bool)
        ensures
            b == (self.ids().len() == 0),
    {
        self.len() == 0
    }

    pub fn get(&self, tile: &TileId) -> (r: Option<Vec<u8>>)
        requires
            self.wf(),
        ensures
            match r {
                Some(bytes) => self.held(*tile) == Some(bytes@),
                None => self.held(*tile) is None,
            },
    {
        match self.index.get(&code_of(tile)) {
            Some(i) => {
                let mut bytes: Vec<u8> = Vec::new();
                bytes.extend_from_slice(self.tiles[*i].1.as_slice());
                assert(bytes@ =~= self.tiles@[*i as int].1@);
                Some(bytes)
            },
            None => None,
        }
    }

    /// The tile at a place.
    pub fn tile_at(&self, i: usize) -> (t: TileId)
        requires
            i < self.ids().len(),
        ensures
            t == self.ids()[i as int],
    {
        self.tiles[i].0
    }
}

/// The tiles of a sink stand once each, and they are those that it holds bytes for.
pub proof fn sink_ids_are_its_tiles(s: MemoryTileSink)
    requires
        s.wf(),
    ensures
        s.ids().no_duplicates(),
        forall|i: int| 0 <= i < s.ids().len() ==> s.held(#[trigger] s.ids()[i]) is Some,
        forall|t: TileId| (#[trigger] s.held(t)) is Some ==> s.ids().contains(t),
{
    assert forall|i: int, j: int|
        0 <= i < s.ids().len() && 0 <= j < s.ids().len() && i != j implies s.ids()[i]
        != s.ids()[j] by {
        assert(s.index@[tile_code(s.tiles@[i].0) as u128] == i);
        assert(s.index@[tile_code(s.tiles@[j].0) as u128] == j);
    }
    assert forall|i: int| 0 <= i < s.ids().len() implies s.held(#[trigger] s.ids()[i]) is Some by {
        assert(s.index@.contains_key(tile_code(s.tiles@[i].0) as u128));
    }
    assert forall|t: TileId| (#[trigger] s.held(t)) is Some implies s.ids().contains(t) by {
        let c = tile_code(t) as u128;
        let i = s.index@[c] as int;
        assert(tile_code(s.tiles@[i].0) == c);
        codes_differ(s.tiles@[i].0, t);
        assert(s.ids()[i] == t);
    }
}

impl Default for MemoryTileSink {
    fn default() -> (s: Self)
        ensures
            s.wf(),
            s.ids().len() == 0,
            s.log().len() == 0,
            forall|t: TileId| #[trigger] s.held(t) is None,
    {
        MemoryTileSink::new()
    }
}

impl TileSink for MemoryTileSink {
    open spec fn taken(&self) -> Seq<SinkCall> {
        self.log()
    }

    open spec fn stored(&self, tile: TileId) -> Option<Seq<u8>> {
        self.held(tile)
    }

    open spec fn ready(&self) -> bool {
        self.wf()
    }

    open spec fn reliable(&self) -> bool {
        true
    }

    fn write_tile(&mut self, tile: &TileId, gzipped: &[u8], meta: &TileObjectMeta) -> (r: Result<
        (),
    >)
        ensures
            r is Ok,
            old(self).held(*tile) is Some ==> final(self).ids() == old(self).ids(),
            old(self).held(*tile) is None ==> final(self).ids() == old(self).ids().push(*tile),
    {
        let mut bytes: Vec<u8> = Vec::new();
        bytes.extend_from_slice(gzipped);
        assert(bytes@ =~= gzipped@);
        let code: u128 = code_of(tile);
        let found: Option<usize> = match self.index.get(&code) {
            Some(i) => Some(*i),
            None => None,
        };
        match found {
            Some(i) => {
                proof {
                    codes_differ(self.tiles@[i as int].0, *tile);
                }
                self.tiles.set(i, (*tile, bytes));
                assert(self.ids() =~= old(self).ids());
            },
            None => {
                let i: usize = self.tiles.len();
                self.tiles.push((*tile, bytes));
                self.index.insert(code, i);
                assert(self.ids() =~= old(self).ids().push(*tile));
            },
        }
        proof {
            self.calls@ = self.calls@.push(
                SinkCall::Write { tile: *tile, bytes: gzipped@, meta: *meta },
            );
            assert forall|t: TileId| #[trigger]
                self.held(t) == if t == *tile {
                    Some(gzipped@)
                } else {
                    old(self).held(t)
                } by {
                if t != *tile {
                    if tile_code(t) == tile_code(*tile) {
                        codes_differ(t, *tile);
                    }
                    if old(self).index@.contains_key(tile_code(t) as u128) {
                        let j = old(self).index@[tile_code(t) as u128] as int;
                        assert(tile_code(old(self).tiles@[j].0) == tile_code(t));
                    }
                }
            }
            assert forall|i: int| 0 <= i < self.tiles@.len() implies self.index@.contains_key(
                tile_code((#[trigger] self.tiles@[i]).0) as u128,
            ) && self.index@[tile_code(self.tiles@[i].0) as u128] == i by {
                if i < old(self).tiles@.len() {
                    assert(self.tiles@[i].0 == old(self).tiles@[i].0);
                    assert(old(self).index@.contains_key(
                        tile_code(old(self).tiles@[i].0) as u128,
                    ));
                }
            }
        }
        Ok(())
    }

    fn finish(&mut self) -> (r: Result<()>)
        ensures
            r is Ok,
            final(self).ids() == old(self).ids(),
    {
        proof {
            self.calls@ = self.calls@.push(SinkCall::Finish);
        }
        Ok(())
    }
}

} // verus!
