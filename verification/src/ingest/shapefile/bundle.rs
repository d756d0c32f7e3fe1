//! Zipped shapefile bundles: `.shp`, `.shx`, `.dbf` and `.prj` in one archive.
use vstd::prelude::*;
use crate::geometry::Geometry;
use crate::geometry::GeometryView;
use crate::ingest::error::IngestError;
use crate::ingest::error::IngestResult;
use crate::ingest::error::MISSING_DBF;
use crate::ingest::error::MISSING_SHP;
use crate::ingest::shapefile::archive;
use crate::ingest::shapefile::archive::MemberHeader;
use crate::ingest::shapefile::archive::HeaderView;
use crate::ingest::shapefile::archive::MemberView;
use crate::ingest::shapefile::dbf;
use crate::ingest::shapefile::shp;
use crate::ingest::shapefile::shp::RingTurn;
use crate::ingest::shapefile::shp::ShpGeometry;
use crate::ingest::shapefile::shp::ShpView;
use crate::json::Entry;
use crate::json::JsonMap;
use crate::scan;
use crate::text;

verus! {

/// The largest uncompressed size of a member: 4 GB.
pub const MAX_MEMBER_BYTES: u64 = 4_294_967_296;

/// The components of a bundle, in memory.
#[derive(Debug)]
pub struct ShapefileBundle {
    pub shp: Vec<u8>,
    pub dbf: Vec<u8>,
    pub shx_present: bool,
    /// The text of the `.prj`, when present.
    pub prj: Option<String>,
}

/// The components of a bundle.
#[verifier::ext_equal]
pub struct BundleView {
    pub shp: Seq<u8>,
    pub dbf: Seq<u8>,
    pub shx_present: bool,
    pub prj: Option<Seq<char>>,
}

impl View for ShapefileBundle {
    type V = BundleView;

    open spec fn view(&self) -> BundleView {
        BundleView {
            shp: self.shp@,
            dbf: self.dbf@,
            shx_present: self.shx_present,
            prj: match self.prj {
                Some(s) => Some(s@),
                None => None,
            },
        }
    }
}

/// What a member of the archive is to the bundle.
#[derive(Debug, Clone, Copy, PartialEq, Eq, Structural)]
pub enum MemberRole {
    Shp,
    Dbf,
    Prj,
    /// Only its presence counts.
    Shx,
    /// Neither read nor counted.
    Other,
}

impl MemberRole {
    /// The members whose contents are read.
    pub open spec fn is_read(self) -> bool {
        self is Shp || self is Dbf || self is Prj
    }
}

/// The role by the extension in lower case.
pub open spec fn extension_role(ext: Seq<char>) -> MemberRole {
    if ext == "shp"@ {
        MemberRole::Shp
    } else if ext == "dbf"@ {
        MemberRole::Dbf
    } else if ext == "prj"@ {
        MemberRole::Prj
    } else if ext == "shx"@ {
        MemberRole::Shx
    } else {
        MemberRole::Other
    }
}

/// The role by the extension in lower case.
pub fn role_of_extension(ext: &str) -> (r: MemberRole)
    ensures
        r == extension_role(ext@),
{
    if text::str_equal(ext, "shp") {
        MemberRole::Shp
    } else if text::str_equal(ext, "dbf") {
        MemberRole::Dbf
    } else if text::str_equal(ext, "prj") {
        MemberRole::Prj
    } else if text::str_equal(ext, "shx") {
        MemberRole::Shx
    } else {
        MemberRole::Other
    }
}

/// Why a bundle is refused.
pub enum BundleFault {
    /// The archive cannot be read.
    Zip(Seq<char>),
    /// The archive is no acceptable bundle.
    Shapefile(Seq<char>),
}

/// The error for a fault.
pub open spec fn error_of(e: IngestError, fault: BundleFault) -> bool {
    match fault {
        BundleFault::Zip(msg) => e matches IngestError::Zip(m) && m@ == msg,
        BundleFault::Shapefile(msg) => e.is_shapefile(msg),
    }
}

/// What a member with a header is to the bundle, or why the bundle is refused for it: a path that
/// leaves the archive, then a size over the limit. Members that are no files are passed over.
pub open spec fn header_role(h: HeaderView) -> Result<MemberRole, Seq<char>> {
    if !h.is_file {
        Ok(MemberRole::Other)
    } else {
        match h.base {
            None => Err(
                "archive entry with unsafe path rejected: "@ + text::debug_quoted(h.name),
            ),
            Some(base) => if h.size > MAX_MEMBER_BYTES {
                Err("member "@ + base + " exceeds the 4 GB member limit"@)
            } else {
                Ok(extension_role(text::lowercase(scan::last_piece(base, '.'))))
            },
        }
    }
}

/// What a member with a header is to the bundle.
pub fn judge_header(h: &MemberHeader) -> (r: IngestResult<MemberRole>)
    ensures
        match header_role(h@) {
            Ok(role) => r == IngestResult::<MemberRole>::Ok(role),
            Err(msg) => r matches Err(e) && e.is_shapefile(msg),
        },
{
    if !h.is_file {
        return Ok(MemberRole::Other);
    }
    match &h.base {
        None => {
            let name = text::debug_text(h.name.as_str());
            Err(
                IngestError::InvalidShapefile(
                    text::join2("archive entry with unsafe path rejected: ", name.as_str()),
                ),
            )
        },
        Some(base) => {
            if h.size > MAX_MEMBER_BYTES {
                return Err(
                    IngestError::InvalidShapefile(
                        text::join3("member ", base.as_str(), " exceeds the 4 GB member limit"),
                    ),
                );
            }
            let piece = scan::rsplit_piece(base.as_str(), '.');
            let ext = text::to_lower(piece.as_str());
            Ok(role_of_extension(ext.as_str()))
        },
    }
}

/// The components found so far.
#[derive(Debug)]
pub struct Found {
    pub shp: Option<Vec<u8>>,
    pub dbf: Option<Vec<u8>>,
    pub prj: Option<String>,
    pub shx_present: bool,
}

/// The components found so far.
#[verifier::ext_equal]
pub struct FoundView {
    pub shp: Option<Seq<u8>>,
    pub dbf: Option<Seq<u8>>,
    pub prj: Option<Seq<char>>,
    pub shx_present: bool,
}

impl View for Found {
    type V = FoundView;

    open spec fn view(&self) -> FoundView {
        FoundView {
            shp: match self.shp {
                Some(v) => Some(v@),
                None => None,
            },
            dbf: match self.dbf {
                Some(v) => Some(v@),
                None => None,
            },
            prj: match self.prj {
                Some(s) => Some(s@),
                None => None,
            },
            shx_present: self.shx_present,
        }
    }
}

/// Nothing is found.
pub open spec fn nothing() -> FoundView {
    FoundView { shp: None, dbf: None, prj: None, shx_present: false }
}

/// What is found once a member of a role is stored: a later member takes an earlier one's place.
pub open spec fn stored(f: FoundView, role: MemberRole, data: Seq<u8>) -> FoundView {
    match role {
        MemberRole::Shp => FoundView { shp: Some(data), ..f },
        MemberRole::Dbf => FoundView { dbf: Some(data), ..f },
        MemberRole::Prj => FoundView { prj: Some(text::utf8_lossy(data)), ..f },
        MemberRole::Shx => FoundView { shx_present: true, ..f },
        MemberRole::Other => f,
    }
}

/// The bundle of what is found; both the `.shp` and the `.dbf` are needed.
pub open spec fn finished(f: FoundView) -> Result<BundleView, Seq<char>> {
    match (f.shp, f.dbf) {
        (None, _) => Err(MISSING_SHP@),
        (Some(_), None) => Err(MISSING_DBF@),
        (Some(shp), Some(dbf)) => Ok(
            BundleView { shp, dbf, shx_present: f.shx_present, prj: f.prj },
        ),
    }
}

impl Found {
    /// Nothing is found.
    pub fn new() -> (f: Found)
        ensures
            f@ == nothing(),
    {
        Found { shp: None, dbf: None, prj: None, shx_present: false }
    }

    /// Stores a member of a role.
    pub fn store(&mut self, role: MemberRole, data: Vec<u8>)
        ensures
            final(self)@ == stored(old(self)@, role, data@),
    {
        match role {
            MemberRole::Shp => {
                self.shp = Some(data);
            },
            MemberRole::Dbf => {
                self.dbf = Some(data);
            },
            MemberRole::Prj => {
                self.prj = Some(text::from_utf8_lossy(data.as_slice()));
            },
            MemberRole::Shx => {
                self.shx_present = true;
            },
            MemberRole::Other => {},
        }
    }

    /// The bundle of what is found.
    pub fn finish(self) -> (r: IngestResult<ShapefileBundle>)
        ensures
            match finished(self@) {
                Ok(b) => r matches Ok(bundle) && bundle@ == b,
                Err(msg) => r matches Err(e) && e.is_shapefile(msg),
            },
    {
        match (self.shp, self.dbf) {
            (None, _) => Err(
                IngestError::InvalidShapefile(MISSING_SHP.to_string()),
            ),
            (Some(_), None) => Err(
                IngestError::InvalidShapefile(MISSING_DBF.to_string()),
            ),
            (Some(shp), Some(dbf)) => Ok(
                ShapefileBundle { shp, dbf, shx_present: self.shx_present, prj: self.prj },
            ),
        }
    }
}

/// What is found after one more member.
pub open spec fn with_member(f: FoundView, m: MemberView) -> Result<FoundView, BundleFault> {
    match m.header {
        Err(msg) => Err(BundleFault::Zip(msg)),
        Ok(h) => match header_role(h) {
            Err(msg) => Err(BundleFault::Shapefile(msg)),
            Ok(role) => if role.is_read() {
                match m.data {
                    Err(msg) => Err(BundleFault::Zip(msg)),
                    Ok(data) => Ok(stored(f, role, data)),
                }
            } else {
                Ok(stored(f, role, Seq::empty()))
            },
        },
    }
}

/// What is found in the first `n` members, or the first fault.
pub open spec fn collected(members: Seq<MemberView>, n: nat) -> Result<FoundView, BundleFault>
    decreases n,
{
    if n == 0 {
        Ok(nothing())
    } else {
        match collected(members, (n - 1) as nat) {
            Err(fault) => Err(fault),
            Ok(f) => with_member(f, members[n - 1]),
        }
    }
}

/// The bundle in an archive with the given members.
pub open spec fn bundle_of(members: Seq<MemberView>) -> Result<BundleView, BundleFault> {
    match collected(members, members.len()) {
        Err(fault) => Err(fault),
        Ok(f) => match finished(f) {
            Err(msg) => Err(BundleFault::Shapefile(msg)),
            Ok(b) => Ok(b),
        },
    }
}

/// A fault among the first members is the fault of them all.
proof fn fault_stays(members: Seq<MemberView>, n: nat, m: nat)
    requires
        n <= m,
        collected(members, n) is Err,
    ensures
        collected(members, m) == collected(members, n),
    decreases m,
{
    if n < m {
        fault_stays(members, n, (m - 1) as nat);
    }
}

/// Opens a zipped bundle and reads its components.
///
/// The `.shp` and the `.dbf` are mandatory; whether a missing `.prj` is acceptable is left to the
/// policy on coordinate systems. Only base names count, so a bundle may sit in a folder. Members
/// with a path that leaves the archive are refused.
pub fn extract_bundle(zip_bytes: &[u8]) -> (r: IngestResult<ShapefileBundle>)
    ensures
        match archive::zip_members(zip_bytes@) {
            Err(msg) => r matches Err(IngestError::Zip(m)) && m@ == msg,
            Ok(members) => match bundle_of(members) {
                Ok(b) => r matches Ok(bundle) && bundle@ == b,
                Err(fault) => r matches Err(e) && error_of(e, fault),
            },
        },
{
    let mut opened = match archive::open_archive(zip_bytes) {
        Ok(a) => a,
        Err(msg) => {
            return Err(IngestError::Zip(msg));
        },
    };
    let ghost members = archive::archive_members(opened);
    let count: usize = archive::archive_len(&opened);
    let mut found = Found::new();
    for i in 0..count
        invariant
            count == members.len(),
            archive::zip_members(zip_bytes@) == Result::<Seq<MemberView>, Seq<char>>::Ok(members),
            archive::archive_members(opened) == members,
            collected(members, i as nat) == Result::<FoundView, BundleFault>::Ok(found@),
    {
        proof {
            if collected(members, (i + 1) as nat) is Err {
                fault_stays(members, (i + 1) as nat, members.len());
            }
        }
        let header = match archive::member_header(&mut opened, i) {
            Ok(h) => h,
            Err(msg) => {
                return Err(IngestError::Zip(msg));
            },
        };
        let role = match judge_header(&header) {
            Ok(role) => role,
            Err(e) => {
                return Err(e);
            },
        };
        match role {
            MemberRole::Shp | MemberRole::Dbf | MemberRole::Prj => {
                match archive::member_data(&mut opened, i) {
                    Ok(data) => {
                        found.store(role, data);
                    },
                    Err(msg) => {
                        return Err(IngestError::Zip(msg));
                    },
                }
            },
            MemberRole::Shx | MemberRole::Other => {
                found.store(role, Vec::new());
            },
        }
    }
    found.finish()
}

/// A row of a bundle: a shape and its attributes.
pub type Row = (ShpView, Seq<Entry>);

/// The rows as views.
pub open spec fn row_views(rows: Seq<(ShpGeometry, JsonMap)>) -> Seq<Row> {
    Seq::new(rows.len(), |i: int| (rows[i].0@, rows[i].1@))
}

/// Pairs shapes and records in order, as many as there are of both.
pub open spec fn paired(shapes: Seq<ShpView>, records: Seq<Seq<Entry>>) -> Seq<Row> {
    let n = if shapes.len() <= records.len() {
        shapes.len()
    } else {
        records.len()
    };
    Seq::new(n, |i: int| (shapes[i], records[i]))
}

/// The records of a table that has no fault.
pub open spec fn table_records(data: Seq<u8>) -> Seq<Seq<Entry>> {
    dbf::records_of(
        data,
        dbf::fields_from(data, 32, dbf::header_size(data)),
        dbf::header_size(data),
        dbf::record_size(data),
        dbf::record_count(data),
    )
}

/// The rows of a bundle, or why it cannot be read.
pub open spec fn bundle_rows(b: BundleView) -> Result<Seq<Row>, Seq<char>> {
    match shp::shapes_of(b.shp) {
        Err(msg) => Err(msg),
        Ok(shapes) => match dbf::dbf_fault(b.dbf) {
            Some(msg) => Err(msg),
            None => Ok(paired(shapes, table_records(b.dbf))),
        },
    }
}

/// Reads a bundle into rows: shapes paired with their attributes, as many as there are of both.
pub fn read_bundle(bundle: &ShapefileBundle) -> (r: IngestResult<Vec<(ShpGeometry, JsonMap)>>)
    ensures
        match bundle_rows(bundle@) {
            Ok(rows) => {
                &&& r matches Ok(out)
                &&& row_views(out@) == rows
                &&& forall|i: int| 0 <= i < out@.len() ==> (#[trigger] out@[i]).1.wf()
            },
            Err(msg) => r matches Err(e) && e.is_shapefile(msg),
        },
{
    let shapes = match shp::parse_shp(bundle.shp.as_slice()) {
        Ok(s) => s,
        Err(e) => {
            return Err(e);
        },
    };
    let table = match dbf::parse_dbf(bundle.dbf.as_slice()) {
        Ok(t) => t,
        Err(e) => {
            return Err(e);
        },
    };
    let ghost all = shapes@;
    let records = table.records;
    let mut out: Vec<(ShpGeometry, JsonMap)> = Vec::new();
    let n: usize = if shapes.len() <= records.len() {
        shapes.len()
    } else {
        records.len()
    };
    for shape in it: shapes
        invariant
            it.seq() == all,
            n <= all.len(),
            n <= records@.len(),
            out@.len() == if it.index() <= n {
                it.index() as int
            } else {
                n as int
            },
            forall|k: int|
                0 <= k < out@.len() ==> (#[trigger] out@[k]).0@ == all[k]@ && out@[k].1@
                    == records@[k]@ && out@[k].1.wf(),
            forall|k: int| 0 <= k < records@.len() ==> (#[trigger] records@[k]).wf(),
    {
        let k: usize = out.len();
        if k < n {
            out.push((shape, records[k].clone()));
        }
    }
    proof {
        let shape_list = shp::shape_views(all);
        let record_list = dbf::record_views(records@);
        assert(row_views(out@) =~= paired(shape_list, record_list));
    }
    Ok(out)
}

/// The features of the first `n` rows: the shapes that make a geometry, with their attributes.
/// `turns` says for each row how its rings turn.
pub open spec fn row_features(rows: Seq<Row>, turns: Seq<Seq<RingTurn>>, n: nat) -> Seq<
    (GeometryView, Seq<Entry>),
>
    decreases n,
{
    if n == 0 {
        Seq::empty()
    } else {
        let before = row_features(rows, turns, (n - 1) as nat);
        match shp::shape_geometry(rows[n - 1].0, turns[n - 1]) {
            Some(g) => before.push((g, rows[n - 1].1)),
            None => before,
        }
    }
}

/// The features as views.
pub open spec fn feature_pairs(s: Seq<(Geometry, JsonMap)>) -> Seq<(GeometryView, Seq<Entry>)> {
    Seq::new(s.len(), |i: int| (s[i].0@, s[i].1@))
}

/// How the rings of each row turn, as nested sequences.
pub open spec fn turn_lists(turns: Seq<Vec<RingTurn>>) -> Seq<Seq<RingTurn>> {
    Seq::new(turns.len(), |i: int| turns[i]@)
}

/// Turns rows into features; rows whose shape makes no geometry are dropped.
pub fn rows_to_features(rows: Vec<(ShpGeometry, JsonMap)>, turns: &[Vec<RingTurn>]) -> (out: Vec<
    (Geometry, JsonMap),
>)
    requires
        turns@.len() == rows@.len(),
        forall|i: int|
            0 <= i < rows@.len() ==> (#[trigger] turns@[i])@.len() == shp::rings_of(rows@[i].0@),
    ensures
        feature_pairs(out@) == row_features(
            row_views(rows@),
            turn_lists(turns@),
            rows@.len(),
        ),
        (forall|i: int| 0 <= i < rows@.len() ==> (#[trigger] rows@[i]).1.wf()) ==> forall|i: int|
            0 <= i < out@.len() ==> (#[trigger] out@[i]).1.wf(),
{
    let ghost all = rows@;
    let ghost views = row_views(all);
    let ghost lists = turn_lists(turns@);
    let mut out: Vec<(Geometry, JsonMap)> = Vec::new();
    let mut k: usize = 0;
    for row in it: rows
        invariant
            it.seq() == all,
            k == it.index(),
            views == row_views(all),
            lists == turn_lists(turns@),
            turns@.len() == all.len(),
            forall|i: int|
                0 <= i < all.len() ==> (#[trigger] turns@[i])@.len() == shp::rings_of(all[i].0@),
            feature_pairs(out@) == row_features(views, lists, it.index() as nat),
            (forall|i: int| 0 <= i < all.len() ==> (#[trigger] all[i]).1.wf()) ==> forall|i: int|
                0 <= i < out@.len() ==> (#[trigger] out@[i]).1.wf(),
    {
        proof {
            assert(views[k as int] == (row.0@, row.1@));
            assert(lists[k as int] == turns@[k as int]@);
        }
        let (shape, record) = row;
        let ghost before = out@;
        if let Some(g) = shp::shp_to_geometry(shape, turns[k].as_slice()) {
            out.push((g, record));
            assert(feature_pairs(out@) =~= feature_pairs(before).push((g@, record@)));
        }
        k = k + 1;
    }
    out
}

} // verus!
