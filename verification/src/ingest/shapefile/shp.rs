//! Minimal `.shp` binary parser.
//!
//! Implements 2D Point, MultiPoint, PolyLine and Polygon, plus their Z and M variants, whose extra
//! ordinates are left unread. The file is scanned sequentially, so `.shx` is not needed.
use vstd::prelude::*;
use crate::bytes;
use crate::bytes::{read_be_u32, read_le};
use crate::double::Double;
use crate::geometry;
use crate::geometry::{Coord, Geometry, GeometryView, Polygon, PolygonView};
use crate::ingest::error::{IngestError, IngestResult};
use crate::text;
use crate::text::{decimal_text, join2, join3, signed_decimal_text};
use crate::tilemath;
use vstd::string::*;

verus! {

/// A parsed record geometry, in the source CRS.
#[derive(Debug)]
pub enum ShpGeometry {
    Point(Coord),
    MultiPoint(Vec<Coord>),
    Polyline { parts: Vec<Vec<Coord>> },
    Polygon { parts: Vec<Vec<Coord>> },
}

/// What a record geometry is.
pub enum ShpView {
    Point(Coord),
    MultiPoint(Seq<Coord>),
    Polyline(Seq<Seq<Coord>>),
    Polygon(Seq<Seq<Coord>>),
}

impl View for ShpGeometry {
    type V = ShpView;

    open spec fn view(&self) -> ShpView {
        match self {
            ShpGeometry::Point(c) => ShpView::Point(*c),
            ShpGeometry::MultiPoint(cs) => ShpView::MultiPoint(cs@),
            ShpGeometry::Polyline { parts } => ShpView::Polyline(geometry::coord_lists(parts@)),
            ShpGeometry::Polygon { parts } => ShpView::Polygon(geometry::coord_lists(parts@)),
        }
    }
}

/// Record geometries, by what they are.
pub open spec fn shape_views(shapes: Seq<ShpGeometry>) -> Seq<ShpView> {
    shapes.map_values(|s: ShpGeometry| s@)
}

/// The signed number of four bytes, least significant first.
pub open spec fn le_i32(s: Seq<u8>, at: int) -> int {
    tilemath::signed32(bytes::le_value(s.subrange(at, at + 4)) as u32)
}

/// The signed number of four bytes, most significant first.
pub open spec fn be_i32(s: Seq<u8>, at: int) -> int {
    tilemath::signed32(bytes::be_value(s.subrange(at, at + 4)) as u32)
}

/// The double-precision number of eight bytes, least significant first.
pub open spec fn le_double(s: Seq<u8>, at: int) -> Double {
    Double { bits: bytes::le_value(s.subrange(at, at + 8)) as u64 }
}

/// The coordinate pair at a place.
pub open spec fn coord_at(s: Seq<u8>, at: int) -> Coord {
    Coord { x: le_double(s, at), y: le_double(s, at + 8) }
}

/// `n` coordinate pairs from a place on.
pub open spec fn coords_at(s: Seq<u8>, at: int, n: nat) -> Seq<Coord> {
    Seq::new(n, |i: int| coord_at(s, at + 16 * i))
}

/// The message for a read past the end.
pub open spec fn eof(at: int) -> Seq<char> {
    "unexpected EOF at offset "@ + text::decimal(at as nat)
}

/// Where reading `n` items of `width` bytes from `at` on first runs past the end.
pub open spec fn run_fault(len: int, at: int, width: int, n: int) -> Option<int> {
    if at + width * n <= len {
        None
    } else {
        Some(at + width * ((len - at) / width))
    }
}

/// Where part `i` ends: where the next one starts, or behind the last point.
pub open spec fn part_end(s: Seq<u8>, at: int, parts: int, points: int, i: int) -> int {
    if i + 1 < parts {
        le_i32(s, at + 4 * (i + 1))
    } else {
        points
    }
}

/// Whether the offsets of the parts are in order and within the points.
pub open spec fn offsets_ok(s: Seq<u8>, at: int, parts: int, points: int) -> bool {
    forall|i: int|
        0 <= i < parts ==> 0 <= #[trigger] le_i32(s, at + 4 * i) <= part_end(
            s,
            at,
            parts,
            points,
            i,
        ) <= points
}

/// The parts of a PolyLine or Polygon record: box, counts, offsets, points.
pub open spec fn parts_of(s: Seq<u8>) -> Result<Seq<Seq<Coord>>, Seq<char>> {
    let len = s.len() as int;
    let parts = le_i32(s, 36);
    let points = le_i32(s, 40);
    let first = 44 + 4 * parts;
    if len < 36 {
        Err(eof(4))
    } else if len < 40 {
        Err(eof(36))
    } else if len < 44 {
        Err(eof(40))
    } else if parts < 0 || parts > 1_000_000 || points < 0 || points > 100_000_000 {
        Err("implausible part/point counts"@)
    } else {
        match run_fault(len, 44, 4, parts) {
            Some(at) => Err(eof(at)),
            None => match run_fault(len, first, 8, 2 * points) {
                Some(at) => Err(eof(at)),
                None => if offsets_ok(s, 44, parts, points) {
                    Ok(
                        Seq::new(
                            parts as nat,
                            |i: int|
                                coords_at(s, first, points as nat).subrange(
                                    le_i32(s, 44 + 4 * i),
                                    part_end(s, 44, parts, points, i),
                                ),
                        ),
                    )
                } else {
                    Err("corrupt part offset table"@)
                },
            },
        }
    }
}

/// The geometry of a record's content; nothing for a null shape.
pub open spec fn record_shape(s: Seq<u8>) -> Result<Option<ShpView>, Seq<char>> {
    let len = s.len() as int;
    let t = le_i32(s, 0);
    if len < 4 {
        Err(eof(0))
    } else if t == 0 {
        Ok(None)
    } else if t == 1 || t == 11 || t == 21 {
        if len < 12 {
            Err(eof(4))
        } else if len < 20 {
            Err(eof(12))
        } else {
            Ok(Some(ShpView::Point(coord_at(s, 4))))
        }
    } else if t == 8 || t == 18 || t == 28 {
        let n = le_i32(s, 36);
        if len < 36 {
            Err(eof(4))
        } else if len < 40 {
            Err(eof(36))
        } else if n < 0 || n > 10_000_000 {
            Err("implausible multipoint count "@ + text::signed_decimal(n))
        } else {
            match run_fault(len, 40, 8, 2 * n) {
                Some(at) => Err(eof(at)),
                None => Ok(Some(ShpView::MultiPoint(coords_at(s, 40, n as nat)))),
            }
        }
    } else if t == 3 || t == 13 || t == 23 {
        match parts_of(s) {
            Ok(parts) => Ok(Some(ShpView::Polyline(parts))),
            Err(msg) => Err(msg),
        }
    } else if t == 5 || t == 15 || t == 25 {
        match parts_of(s) {
            Ok(parts) => Ok(Some(ShpView::Polygon(parts))),
            Err(msg) => Err(msg),
        }
    } else {
        Err(
            "unsupported shape type "@ + text::signed_decimal(t)
                + " (MVP supports point/multipoint/polyline/polygon)"@,
        )
    }
}

/// The geometries of the records from `pos` on whose headers stand before `limit`. Each of these
/// records is read whole, also where it goes beyond `limit`.
pub open spec fn shapes_from(body: Seq<u8>, limit: int, pos: nat) -> Result<
    Seq<ShpView>,
    Seq<char>,
>
    decreases body.len() - pos,
{
    if pos + 8 > limit || pos + 8 > body.len() {
        Ok(Seq::empty())
    } else {
        let size = 2 * be_i32(body, (pos + 4) as int);
        if size < 0 || body.len() - pos - 8 < size {
            Err("record length exceeds remaining file"@)
        } else {
            let end = (pos + 8 + size) as nat;
            match record_shape(body.subrange((pos + 8) as int, end as int)) {
                Err(msg) => Err(msg),
                Ok(shape) => match shapes_from(body, limit, end) {
                    Err(msg) => Err(msg),
                    Ok(rest) => match shape {
                        Some(s) => Ok(seq![s] + rest),
                        None => Ok(rest),
                    },
                },
            }
        }
    }
}

/// Where the records end: at the declared length, or at the end of a shorter file. A negative
/// length declares nothing.
pub open spec fn body_end(data: Seq<u8>) -> int {
    let declared = 2 * be_i32(data, 24);
    if declared < 0 || declared > data.len() {
        data.len() as int
    } else {
        declared
    }
}

/// The geometries of a file: the records behind the header are scanned one after the other, up to
/// the length that the header declares.
pub open spec fn shapes_of(data: Seq<u8>) -> Result<Seq<ShpView>, Seq<char>> {
    if data.len() < 100 {
        Err("file smaller than the 100-byte header"@)
    } else if be_i32(data, 0) != 9994 {
        Err("bad magic number "@ + text::signed_decimal(be_i32(data, 0)) + " (expected 9994)"@)
    } else if body_end(data) < 100 {
        Err("declared length smaller than the 100-byte header"@)
    } else {
        shapes_from(data.skip(100), body_end(data) - 100, 0)
    }
}

fn to_signed(u: u32) -> (i: i64)
    ensures
        i == tilemath::signed32(u),
{
    if u < 0x8000_0000 {
        u as i64
    } else {
        u as i64 - 0x1_0000_0000
    }
}

fn read_i32(data: &[u8], at: usize) -> (v: i64)
    requires
        at + 4 <= data.len(),
    ensures
        v == le_i32(data@, at as int),
        -0x8000_0000 <= v <= 0x7fff_ffff,
{
    let v: u64 = read_le(data, at, 4);
    proof {
        reveal_with_fuel(bytes::pow256, 5);
    }
    to_signed(v as u32)
}

fn read_be_i32(data: &[u8], at: usize) -> (v: i64)
    requires
        at + 4 <= data.len(),
    ensures
        v == be_i32(data@, at as int),
        -0x8000_0000 <= v <= 0x7fff_ffff,
{
    to_signed(read_be_u32(data, at))
}

fn read_coord(data: &[u8], at: usize) -> (c: Coord)
    requires
        at + 16 <= data.len(),
    ensures
        c == coord_at(data@, at as int),
{
    Coord { x: Double { bits: read_le(data, at, 8) }, y: Double { bits: read_le(data, at + 8, 8) } }
}

fn read_coords(data: &[u8], at: usize, n: usize) -> (out: Vec<Coord>)
    requires
        at + 16 * n <= data.len(),
    ensures
        out@ == coords_at(data@, at as int, n as nat),
{
    let mut out: Vec<Coord> = Vec::new();
    let mut i: usize = 0;
    while i < n
        invariant
            i <= n,
            at + 16 * n <= data.len(),
            out@ == coords_at(data@, at as int, i as nat),
        decreases n - i,
    {
        out.push(read_coord(data, at + 16 * i));
        assert(out@ =~= coords_at(data@, at as int, (i + 1) as nat));
        i = i + 1;
    }
    out
}

fn eof_error(at: u64) -> (e: IngestError)
    ensures
        e.is_shapefile(eof(at as int)),
{
    IngestError::InvalidShapefile(
        join2("unexpected EOF at offset ", decimal_text(at).as_str()),
    )
}

/// Where reading `n` items of `width` bytes from `at` on first runs past the end.
fn find_run_fault(len: usize, at: u64, width: u64, n: u64) -> (r: Option<u64>)
    requires
        at <= len,
        width == 4 || width == 8,
        n <= 400_000_000,
        len <= u64::MAX,
    ensures
        match r {
            Some(p) => run_fault(len as int, at as int, width as int, n as int) == Some(p as int),
            None => run_fault(len as int, at as int, width as int, n as int) is None,
        },
{
    let room: u64 = len as u64 - at;
    proof {
        assert(width * n <= 8 * 400_000_000) by (nonlinear_arith)
            requires
                width <= 8,
                n <= 400_000_000,
        ;
    }
    if width * n <= room {
        None
    } else {
        proof {
            vstd::arithmetic::div_mod::lemma_fundamental_div_mod(room as int, width as int);
        }
        Some(at + width * (room / width))
    }
}

/// Reads the shared PolyLine and Polygon record layout.
fn read_parts(s: &[u8]) -> (r: IngestResult<Vec<Vec<Coord>>>)
    ensures
        match parts_of(s@) {
            Ok(parts) => r matches Ok(out) && geometry::coord_lists(out@) == parts,
            Err(msg) => r matches Err(e) && e.is_shapefile(msg),
        },
{
    let len: usize = s.len();
    if len < 36 {
        return Err(eof_error(4));
    }
    if len < 40 {
        return Err(eof_error(36));
    }
    if len < 44 {
        return Err(eof_error(40));
    }
    let parts: i64 = read_i32(s, 36);
    let points: i64 = read_i32(s, 40);
    if parts < 0 || parts > 1_000_000 || points < 0 || points > 100_000_000 {
        return Err(IngestError::InvalidShapefile("implausible part/point counts".to_string()));
    }
    if let Some(at) = find_run_fault(len, 44, 4, parts as u64) {
        return Err(eof_error(at));
    }
    let first: u64 = 44 + 4 * parts as u64;
    if let Some(at) = find_run_fault(len, first, 8, 2 * points as u64) {
        return Err(eof_error(at));
    }
    let count: usize = points as usize;
    let coords = read_coords(s, first as usize, count);
    let ghost all = coords_at(s@, first as int, points as nat);
    let mut out: Vec<Vec<Coord>> = Vec::new();
    let n: usize = parts as usize;
    let mut i: usize = 0;
    while i < n
        invariant
            i <= n,
            n == parts,
            count == points,
            s@.len() >= 44,
            parts == le_i32(s@, 36),
            points == le_i32(s@, 40),
            run_fault(s@.len() as int, 44, 4, parts as int) is None,
            run_fault(s@.len() as int, 44 + 4 * parts, 8, 2 * points) is None,
            0 <= parts <= 1_000_000,
            0 <= points <= 100_000_000,
            44 + 4 * parts <= s.len(),
            coords@ == all,
            all.len() == count,
            out@.len() == i,
            forall|k: int|
                0 <= k < i ==> 0 <= #[trigger] le_i32(s@, 44 + 4 * k) <= part_end(
                    s@,
                    44,
                    parts as int,
                    points as int,
                    k,
                ) <= points && out@[k]@ == all.subrange(
                    le_i32(s@, 44 + 4 * k),
                    part_end(s@, 44, parts as int, points as int, k),
                ),
        decreases n - i,
    {
        let start: i64 = read_i32(s, 44 + 4 * i);
        let end: i64 = if i + 1 < n {
            read_i32(s, 44 + 4 * (i + 1))
        } else {
            points
        };
        assert(start == le_i32(s@, 44 + 4 * i as int));
        assert(end == part_end(s@, 44, parts as int, points as int, i as int));
        if start < 0 || start > end || end > points {
            assert(!offsets_ok(s@, 44, parts as int, points as int));
            return Err(IngestError::InvalidShapefile("corrupt part offset table".to_string()));
        }
        let mut part: Vec<Coord> = Vec::new();
        part.extend_from_slice(&coords.as_slice()[start as usize..end as usize]);
        assert(part@ =~= all.subrange(start as int, end as int));
        out.push(part);
        i = i + 1;
    }
    proof {
        assert(geometry::coord_lists(out@) =~= Seq::new(
            parts as nat,
            |k: int|
                all.subrange(
                    le_i32(s@, 44 + 4 * k),
                    part_end(s@, 44, parts as int, points as int, k),
                ),
        ));
    }
    Ok(out)
}

fn parse_record_content(s: &[u8]) -> (r: IngestResult<Option<ShpGeometry>>)
    ensures
        match record_shape(s@) {
            Ok(None) => r matches Ok(None),
            Ok(Some(v)) => r matches Ok(Some(g)) && g@ == v,
            Err(msg) => r matches Err(e) && e.is_shapefile(msg),
        },
{
    let len: usize = s.len();
    if len < 4 {
        return Err(eof_error(0));
    }
    let t: i64 = read_i32(s, 0);
    if t == 0 {
        Ok(None)
    } else if t == 1 || t == 11 || t == 21 {
        if len < 12 {
            return Err(eof_error(4));
        }
        if len < 20 {
            return Err(eof_error(12));
        }
        Ok(Some(ShpGeometry::Point(read_coord(s, 4))))
    } else if t == 8 || t == 18 || t == 28 {
        if len < 36 {
            return Err(eof_error(4));
        }
        if len < 40 {
            return Err(eof_error(36));
        }
        let n: i64 = read_i32(s, 36);
        if n < 0 || n > 10_000_000 {
            return Err(
                IngestError::InvalidShapefile(
                    join2("implausible multipoint count ", signed_decimal_text(n).as_str()),
                ),
            );
        }
        if let Some(at) = find_run_fault(len, 40, 8, 2 * n as u64) {
            return Err(eof_error(at));
        }
        Ok(Some(ShpGeometry::MultiPoint(read_coords(s, 40, n as usize))))
    } else if t == 3 || t == 13 || t == 23 {
        match read_parts(s) {
            Ok(parts) => Ok(Some(ShpGeometry::Polyline { parts })),
            Err(e) => Err(e),
        }
    } else if t == 5 || t == 15 || t == 25 {
        match read_parts(s) {
            Ok(parts) => Ok(Some(ShpGeometry::Polygon { parts })),
            Err(e) => Err(e),
        }
    } else {
        Err(
            IngestError::InvalidShapefile(
                join3(
                    "unsupported shape type ",
                    signed_decimal_text(t).as_str(),
                    " (MVP supports point/multipoint/polyline/polygon)",
                ),
            ),
        )
    }
}

/// Parses an entire `.shp` file into geometries.
pub fn parse_shp(data: &[u8]) -> (r: IngestResult<Vec<ShpGeometry>>)
    ensures
        match shapes_of(data@) {
            Ok(shapes) => r matches Ok(out) && shape_views(out@) == shapes,
            Err(msg) => r matches Err(e) && e.is_shapefile(msg),
        },
{
    if data.len() < 100 {
        return Err(
            IngestError::InvalidShapefile("file smaller than the 100-byte header".to_string()),
        );
    }
    let file_code: i64 = read_be_i32(data, 0);
    if file_code != 9994 {
        return Err(
            IngestError::InvalidShapefile(
                join3(
                    "bad magic number ",
                    signed_decimal_text(file_code).as_str(),
                    " (expected 9994)",
                ),
            ),
        );
    }
    let declared: i64 = 2 * read_be_i32(data, 24);
    let end: usize = if declared < 0 || declared as u64 > data.len() as u64 {
        data.len()
    } else {
        declared as usize
    };
    if end < 100 {
        return Err(
            IngestError::InvalidShapefile(
                "declared length smaller than the 100-byte header".to_string(),
            ),
        );
    }
    let limit: usize = end - 100;
    let body: &[u8] = &data[100..data.len()];
    assert(body@ =~= data@.skip(100));
    let mut out: Vec<ShpGeometry> = Vec::new();
    let mut pos: usize = 0;
    proof {
        if let Ok(shapes) = shapes_from(body@, limit as int, 0) {
            assert(shape_views(out@) + shapes =~= shapes);
        }
    }
    while pos < limit && limit - pos >= 8
        invariant
            pos <= body.len(),
            limit <= body.len(),
            shapes_of(data@) == shapes_from(body@, limit as int, 0),
            match shapes_from(body@, limit as int, pos as nat) {
                Ok(rest) => shapes_from(body@, limit as int, 0) == Result::<Seq<ShpView>, Seq<char>>::Ok(
                    shape_views(out@) + rest,
                ),
                Err(msg) => shapes_from(body@, limit as int, 0) == Result::<Seq<ShpView>, Seq<char>>::Err(msg),
            },
        decreases body.len() - pos,
    {
        let words: i64 = read_be_i32(body, pos + 4);
        if words < 0 || ((body.len() - pos - 8) as u64) < 2 * words as u64 {
            return Err(
                IngestError::InvalidShapefile("record length exceeds remaining file".to_string()),
            );
        }
        let next: usize = pos + 8 + 2 * words as usize;
        let content: &[u8] = &body[pos + 8..next];
        assert(content@ =~= body@.subrange((pos + 8) as int, next as int));
        let ghost before = shape_views(out@);
        match parse_record_content(content) {
            Ok(Some(g)) => {
                let ghost v = g@;
                out.push(g);
                proof {
                    assert(shape_views(out@) =~= before.push(v));
                    if let Ok(rest) = shapes_from(body@, limit as int, next as nat) {
                        assert(before + (seq![v] + rest) =~= before.push(v) + rest);
                    }
                }
            },
            Ok(None) => {},
            Err(e) => return Err(e),
        }
        pos = next;
    }
    assert(shape_views(out@) + Seq::<ShpView>::empty() =~= shape_views(out@));
    Ok(out)
}

/// Which way a ring turns in the source plane (y growing upward). Exterior rings of a shapefile
/// turn clockwise, holes counter-clockwise.
#[derive(Debug, Clone, Copy, PartialEq, Eq, Structural)]
pub enum RingTurn {
    /// No area to speak of.
    Flat,
    Clockwise,
    CounterClockwise,
}

/// Rings grouped into polygons: a clockwise ring starts one; another is a hole of the last, and
/// starts one where there is none. Rings of fewer than four points and flat ones are left out.
pub open spec fn grouped(
    parts: Seq<Seq<Coord>>,
    turns: Seq<RingTurn>,
    n: nat,
) -> Seq<(Seq<Coord>, Seq<Seq<Coord>>)>
    decreases n,
{
    if n == 0 {
        Seq::empty()
    } else {
        let rest = grouped(parts, turns, (n - 1) as nat);
        let ring = parts[n - 1];
        if ring.len() < 4 || turns[n - 1] is Flat {
            rest
        } else if turns[n - 1] is Clockwise || rest.len() == 0 {
            rest.push((ring, Seq::empty()))
        } else {
            rest.drop_last().push((rest.last().0, rest.last().1.push(ring)))
        }
    }
}

/// Grouped rings as polygons with closed rings.
pub open spec fn made_polygons(groups: Seq<(Seq<Coord>, Seq<Seq<Coord>>)>) -> Seq<PolygonView> {
    groups.map_values(|g: (Seq<Coord>, Seq<Seq<Coord>>)| Polygon::made(g.0, g.1))
}

/// The geometry of polygons: nothing, one, or several.
pub open spec fn polygons_geometry(polygons: Seq<PolygonView>) -> Option<GeometryView> {
    if polygons.len() == 0 {
        None
    } else if polygons.len() == 1 {
        Some(GeometryView::Polygon(polygons[0]))
    } else {
        Some(GeometryView::MultiPolygon(polygons))
    }
}

/// The geometry of a record.
pub open spec fn shape_geometry(s: ShpView, turns: Seq<RingTurn>) -> Option<GeometryView> {
    match s {
        ShpView::Point(c) => Some(GeometryView::Point(c)),
        ShpView::MultiPoint(cs) => if cs.len() > 0 {
            Some(GeometryView::MultiPoint(cs))
        } else {
            None
        },
        ShpView::Polyline(parts) => {
            let lines = crate::simplify::long_enough(parts, 2);
            if lines.len() > 0 {
                Some(GeometryView::MultiLineString(lines))
            } else {
                None
            }
        },
        ShpView::Polygon(parts) => polygons_geometry(
            made_polygons(grouped(parts, turns, parts.len())),
        ),
    }
}

/// The rings of a shape that have to be told apart by their turn.
pub open spec fn rings_of(s: ShpView) -> nat {
    match s {
        ShpView::Polygon(parts) => parts.len(),
        _ => 0,
    }
}

/// Groups by what they hold.
spec fn group_views(groups: Seq<(Vec<Coord>, Vec<Vec<Coord>>)>) -> Seq<
    (Seq<Coord>, Seq<Seq<Coord>>),
> {
    groups.map_values(
        |g: (Vec<Coord>, Vec<Vec<Coord>>)| (g.0@, geometry::coord_lists(g.1@)),
    )
}

/// Groups the rings of a polygon record by their turn.
pub fn group_polygon_parts(parts: Vec<Vec<Coord>>, turns: &[RingTurn]) -> (r: Option<Geometry>)
    requires
        turns@.len() == parts@.len(),
    ensures
        ({
            let lists = geometry::coord_lists(parts@);
            match polygons_geometry(made_polygons(grouped(lists, turns@, lists.len()))) {
                Some(g) => r matches Some(out) && out@ == g,
                None => r is None,
            }
        }),
{
    let ghost lists = geometry::coord_lists(parts@);
    let mut groups: Vec<(Vec<Coord>, Vec<Vec<Coord>>)> = Vec::new();
    let mut i: usize = 0;
    let count: usize = parts.len();
    assert(group_views(groups@) =~= grouped(lists, turns@, 0));
    for ring in it: parts
        invariant
            it.seq() == parts@,
            i == it.index(),
            count == parts@.len(),
            lists == geometry::coord_lists(parts@),
            turns@.len() == parts@.len(),
            group_views(groups@) == grouped(lists, turns@, it.index() as nat),
    {
        let ghost before = group_views(groups@);
        assert(lists[i as int] == ring@);
        let ghost v = ring@;
        if ring.len() >= 4 && turns[i] != RingTurn::Flat {
            if turns[i] == RingTurn::Clockwise || groups.len() == 0 {
                let holes: Vec<Vec<Coord>> = Vec::new();
                groups.push((ring, holes));
                assert(geometry::coord_lists(holes@) =~= Seq::empty());
                assert(group_views(groups@) =~= before.push((v, Seq::empty())));
            } else {
                let last: usize = groups.len() - 1;
                groups[last].1.push(ring);
                proof {
                    let old_last = before.last();
                    assert(geometry::coord_lists(groups@[last as int].1@) =~= old_last.1.push(v));
                    assert(group_views(groups@) =~= before.drop_last().push(
                        (old_last.0, old_last.1.push(v)),
                    ));
                }
            }
        }
        i = i + 1;
    }
    let ghost final_groups = group_views(groups@);
    let mut polygons: Vec<Polygon> = Vec::new();
    assert(geometry::polygon_views(polygons@) =~= made_polygons(final_groups.take(0)));
    for g in it: groups
        invariant
            it.seq() == groups@,
            final_groups == group_views(groups@),
            geometry::polygon_views(polygons@) == made_polygons(
                final_groups.take(it.index() as int),
            ),
    {
        let ghost k = it.index() as int;
        let ghost before = geometry::polygon_views(polygons@);
        assert(final_groups[k] == (g.0@, geometry::coord_lists(g.1@)));
        let p = Polygon::new(g.0, g.1);
        polygons.push(p);
        assert(geometry::polygon_views(polygons@) =~= before.push(p@));
        assert(made_polygons(final_groups.take(k + 1)) =~= before.push(p@));
    }
    assert(final_groups.take(final_groups.len() as int) =~= final_groups);
    if polygons.len() == 0 {
        return None;
    }
    if polygons.len() == 1 {
        let ghost views = geometry::polygon_views(polygons@);
        match polygons.pop() {
            Some(p) => {
                assert(p@ == views[0]);
                return Some(Geometry::Polygon(p));
            },
            None => {
                return None;
            },
        }
    }
    Some(Geometry::MultiPolygon(polygons))
}

/// Converts a parsed record into a geometry. `turns` tells which way each ring of a polygon
/// record turns.
pub fn shp_to_geometry(shape: ShpGeometry, turns: &[RingTurn]) -> (r: Option<Geometry>)
    requires
        turns@.len() == rings_of(shape@),
    ensures
        match shape_geometry(shape@, turns@) {
            Some(g) => r matches Some(out) && out@ == g,
            None => r is None,
        },
{
    match shape {
        ShpGeometry::Point(c) => Some(Geometry::Point(c)),
        ShpGeometry::MultiPoint(cs) => if cs.len() > 0 {
            Some(Geometry::MultiPoint(cs))
        } else {
            None
        },
        ShpGeometry::Polyline { parts } => {
            let lines = crate::simplify::keep_long(parts, 2);
            if lines.len() > 0 {
                Some(Geometry::MultiLineString(lines))
            } else {
                None
            }
        },
        ShpGeometry::Polygon { parts } => group_polygon_parts(parts, turns),
    }
}

} // verus!
