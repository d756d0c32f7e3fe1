//! Tile addresses in the Web Mercator XYZ scheme and tile-local coordinates.
use vstd::prelude::*;
use crate::text;
use crate::text::decimal_text;
use vstd::arithmetic::power2::*;
use vstd::string::*;

verus! {

/// A tile address in the XYZ scheme.
#[derive(Debug, Clone, Copy, PartialEq, Eq, Structural, Hash)]
pub struct TileId {
    pub z: u8,
    pub x: u32,
    pub y: u32,
}

impl TileId {
    pub fn new(z: u8, x: u32, y: u32) -> (t: Self)
        ensures
            t == (TileId { z, x, y }),
    {
        TileId { z, x, y }
    }

    /// Number of tiles per axis at this zoom.
    pub fn axis_count(&self) -> (n: u32)
        requires
            self.z < 32,
        ensures
            n == pow2(self.z as nat),
    {
        proof {
            lemma2_to64();
            lemma_pow2_strictly_increases(self.z as nat, 32);
            vstd::bits::lemma_u32_shl_is_mul(1, self.z as u32);
        }
        1u32 << self.z
    }

    /// The `z/x/y.pbf` object name fragment.
    pub open spec fn object_name(self) -> Seq<char> {
        text::decimal(self.z as nat) + "/"@ + text::decimal(self.x as nat) + "/"@ + text::decimal(
            self.y as nat,
        ) + ".pbf"@
    }

    /// Canonical `z/x/y.pbf` object name fragment.
    pub fn path(&self) -> (s: String)
        ensures
            s@ == self.object_name(),
    {
        let mut s = decimal_text(self.z as u64);
        s.append("/");
        s.append(decimal_text(self.x as u64).as_str());
        s.append("/");
        s.append(decimal_text(self.y as u64).as_str());
        s.append(".pbf");
        s
    }
}

/// A tile with its extent and buffer: the frame of tile-local coordinates.
///
/// `(0, 0)` is the tile's north-west corner, `(extent, extent)` its south-east corner. Coordinates
/// may fall outside `[0, extent]` for buffered geometry.
#[derive(Debug, Clone, Copy, PartialEq, Eq, Structural)]
pub struct TileTransform {
    pub tile: TileId,
    pub extent: u32,
    /// Buffer in extent units (256 with extent 4096 is a sixteenth of a tile).
    pub buffer: u32,
}

/// The two's-complement reading of 32 bits.
pub open spec fn signed32(u: u32) -> int {
    if u < 0x8000_0000 {
        u as int
    } else {
        u - 0x1_0000_0000
    }
}

fn to_signed32(u: u32) -> (i: i64)
    ensures
        i == signed32(u),
{
    if u < 0x8000_0000 {
        u as i64
    } else {
        u as i64 - 0x1_0000_0000
    }
}

impl TileTransform {
    pub fn new(tile: TileId, extent: u32, buffer: u32) -> (t: Self)
        ensures
            t == (TileTransform { tile, extent, buffer }),
    {
        TileTransform { tile, extent, buffer }
    }

    /// The point lies inside the tile expanded by the buffer.
    pub open spec fn buffered(self, p: (i32, i32)) -> bool {
        let low = -signed32(self.buffer);
        let high = signed32(self.extent) + signed32(self.buffer);
        low <= p.0 <= high && low <= p.1 <= high
    }

    /// True if the point lies inside the tile expanded by the buffer.
    pub fn contains_buffered(&self, p: (i32, i32)) -> (b: bool)
        ensures
            b == self.buffered(p),
    {
        let low: i64 = -to_signed32(self.buffer);
        let high: i64 = to_signed32(self.extent) + to_signed32(self.buffer);
        let x: i64 = p.0 as i64;
        let y: i64 = p.1 as i64;
        low <= x && x <= high && low <= y && y <= high
    }
}

/// With sizes below 2^31 a point is inside where neither coordinate is further out of the tile than
/// the buffer is wide; a wider buffer loses no point.
pub proof fn buffers_widen_the_tile(t: TileTransform, wider: TileTransform, p: (i32, i32))
    requires
        t.extent < 0x8000_0000,
        t.buffer < 0x8000_0000,
        wider.tile == t.tile && wider.extent == t.extent,
        t.buffer <= wider.buffer < 0x8000_0000,
    ensures
        t.buffered(p) <==> p.0 + t.buffer >= 0 && p.1 + t.buffer >= 0 && p.0 - t.buffer <= t.extent
            && p.1 - t.buffer <= t.extent,
        t.buffered(p) ==> wider.buffered(p),
{
}

} // verus!
