//! Which members of an archive make up a bundle, and how its shapes and records are paired.
use vstd::prelude::*;
use crate::geometry::GeometryView;
use crate::ingest::shapefile::archive::{HeaderView, MemberView};
use crate::ingest::shapefile::bundle;
use crate::ingest::shapefile::bundle::{BundleFault, BundleView, FoundView, MemberRole, Row};
use crate::ingest::shapefile::dbf;
use crate::ingest::shapefile::shp;
use crate::ingest::shapefile::shp::{RingTurn, ShpView};
use crate::json::Entry;
use crate::picking;
use crate::scan;
use crate::text;

verus! {

/// The role of a member goes by what stands behind the last dot of its name, in whatever case.
pub proof fn roles_go_by_extension(name: Seq<char>, size: u64, stem: Seq<char>, ext: Seq<char>)
    requires
        size <= 4_294_967_296,
        !ext.contains('.'),
    ensures
        ({
            let h = HeaderView {
                is_file: true,
                name,
                base: Some(stem + seq!['.'] + ext),
                size,
            };
            let role = bundle::header_role(h);
            let lower = text::lowercase(ext);
            &&& role is Ok
            &&& role->Ok_0 is Shp <==> lower == "shp"@
            &&& role->Ok_0 is Dbf <==> lower == "dbf"@
            &&& role->Ok_0 is Prj <==> lower == "prj"@
            &&& role->Ok_0 is Shx <==> lower == "shx"@
        }),
{
    scan::last_piece_behind(stem, '.', ext);
    extensions_differ();
}

proof fn extensions_differ()
    ensures
        "shp"@ != "dbf"@ && "shp"@ != "prj"@ && "shp"@ != "shx"@,
        "dbf"@ != "prj"@ && "dbf"@ != "shx"@ && "prj"@ != "shx"@,
{
    reveal_strlit("shp");
    reveal_strlit("dbf");
    reveal_strlit("prj");
    reveal_strlit("shx");
    assert("shp"@[1] == 'h' && "dbf"@[1] == 'b' && "prj"@[1] == 'r');
    assert("shp"@[2] == 'p' && "shx"@[2] == 'x');
    assert("shx"@[1] == 'h');
}

/// A member that is no file plays no role. A file whose path leaves the archive is refused by its
/// name, one over four gigabytes by its base name, whatever its extension.
pub proof fn bad_members_are_refused(h: HeaderView)
    ensures
        !h.is_file ==> bundle::header_role(h) == Result::<MemberRole, Seq<char>>::Ok(
            MemberRole::Other,
        ),
        h.is_file && h.base is None ==> bundle::header_role(h) == Result::<
            MemberRole,
            Seq<char>,
        >::Err("archive entry with unsafe path rejected: "@ + text::debug_quoted(h.name)),
        h.is_file && h.base is Some && h.size > 4_294_967_296 ==> bundle::header_role(h)
            == Result::<MemberRole, Seq<char>>::Err(
            "member "@ + h.base->Some_0 + " exceeds the 4 GB member limit"@,
        ),
        h.is_file && h.base is Some && h.size <= 4_294_967_296 ==> bundle::header_role(h) is Ok,
{
}

/// The role of a member, where it has a readable header and is let in.
pub open spec fn role_of(m: MemberView) -> Option<MemberRole> {
    match m.header {
        Ok(h) => match bundle::header_role(h) {
            Ok(role) => Some(role),
            Err(_) => None,
        },
        Err(_) => None,
    }
}

/// Whether `data` is what the last of the first `n` members of a role holds.
pub open spec fn last_of(members: Seq<MemberView>, n: nat, role: MemberRole, data: Seq<u8>) -> bool {
    exists|i: int|
        {
            &&& 0 <= i < n
            &&& role_of(#[trigger] members[i]) == Some(role)
            &&& members[i].data == Result::<Seq<u8>, Seq<char>>::Ok(data)
            &&& forall|k: int| i < k < n ==> role_of(#[trigger] members[k]) != Some(role)
        }
}

/// Whether none of the first `n` members has a role.
pub open spec fn none_of(members: Seq<MemberView>, n: nat, role: MemberRole) -> bool {
    forall|i: int| 0 <= i < n ==> role_of(#[trigger] members[i]) != Some(role)
}

/// What is wrong with a member, where something is: its header cannot be read, it is not let in, or
/// it is needed and cannot be read.
pub open spec fn member_fault(m: MemberView) -> Option<BundleFault> {
    match m.header {
        Err(msg) => Some(BundleFault::Zip(msg)),
        Ok(h) => match bundle::header_role(h) {
            Err(msg) => Some(BundleFault::Shapefile(msg)),
            Ok(role) => if role is Shp || role is Dbf || role is Prj {
                match m.data {
                    Err(msg) => Some(BundleFault::Zip(msg)),
                    Ok(_) => None,
                }
            } else {
                None
            },
        },
    }
}

proof fn found_steps(members: Seq<MemberView>, n: nat, role: MemberRole, data: Seq<u8>)
    requires
        n > 0,
    ensures
        role_of(members[n - 1]) != Some(role) && last_of(members, (n - 1) as nat, role, data)
            ==> last_of(members, n, role, data),
        role_of(members[n - 1]) != Some(role) && none_of(members, (n - 1) as nat, role) ==> none_of(
            members,
            n,
            role,
        ),
        role_of(members[n - 1]) == Some(role) && members[n - 1].data == Result::<
            Seq<u8>,
            Seq<char>,
        >::Ok(data) ==> last_of(members, n, role, data),
{
    let m = (n - 1) as nat;
    if role_of(members[m as int]) != Some(role) && last_of(members, m, role, data) {
        let i = choose|i: int|
            {
                &&& 0 <= i < m
                &&& role_of(#[trigger] members[i]) == Some(role)
                &&& members[i].data == Result::<Seq<u8>, Seq<char>>::Ok(data)
                &&& forall|k: int| i < k < m ==> role_of(#[trigger] members[k]) != Some(role)
            };
        assert(role_of(members[i]) == Some(role));
    }
}

/// Of several members of a role the last one counts; the index counts where there is one. The first
/// bad member is the fault of the archive.
pub proof fn the_last_member_of_a_role_counts(members: Seq<MemberView>, n: nat)
    requires
        n <= members.len(),
    ensures
        match bundle::collected(members, n) {
            Ok(f) => {
                &&& match f.shp {
                    Some(data) => last_of(members, n, MemberRole::Shp, data),
                    None => none_of(members, n, MemberRole::Shp),
                }
                &&& match f.dbf {
                    Some(data) => last_of(members, n, MemberRole::Dbf, data),
                    None => none_of(members, n, MemberRole::Dbf),
                }
                &&& match f.prj {
                    Some(wkt) => exists|data: Seq<u8>|
                        wkt == text::utf8_lossy(data) && #[trigger] last_of(
                            members,
                            n,
                            MemberRole::Prj,
                            data,
                        ),
                    None => none_of(members, n, MemberRole::Prj),
                }
                &&& f.shx_present <==> !none_of(members, n, MemberRole::Shx)
                &&& forall|i: int| 0 <= i < n ==> member_fault(#[trigger] members[i]) is None
            },
            Err(fault) => exists|i: int|
                0 <= i < n && member_fault(#[trigger] members[i]) == Some(fault) && forall|k: int|
                    0 <= k < i ==> member_fault(#[trigger] members[k]) is None,
        },
    decreases n,
{
    if n > 0 {
        let p = (n - 1) as nat;
        let m = members[n - 1];
        the_last_member_of_a_role_counts(members, p);
        match bundle::collected(members, p) {
            Err(fault) => {
                let i = choose|i: int|
                    0 <= i < p && member_fault(#[trigger] members[i]) == Some(fault) && forall|
                        k: int,
                    |
                        0 <= k < i ==> member_fault(#[trigger] members[k]) is None;
                assert(member_fault(members[i]) == Some(fault));
            },
            Ok(f) => match bundle::collected(members, n) {
                Err(fault) => {
                    assert(member_fault(members[p as int]) == Some(fault));
                },
                Ok(g) => {
                    let data = match m.data {
                        Ok(d) => d,
                        Err(_) => Seq::empty(),
                    };
                    let a = match f.shp {
                        Some(d) => d,
                        None => data,
                    };
                    let b = match f.dbf {
                        Some(d) => d,
                        None => data,
                    };
                    found_steps(members, n, MemberRole::Shp, a);
                    found_steps(members, n, MemberRole::Shp, data);
                    found_steps(members, n, MemberRole::Dbf, b);
                    found_steps(members, n, MemberRole::Dbf, data);
                    found_steps(members, n, MemberRole::Prj, data);
                    if let Some(wkt) = f.prj {
                        let d = choose|d: Seq<u8>|
                            wkt == text::utf8_lossy(d) && #[trigger] last_of(
                                members,
                                p,
                                MemberRole::Prj,
                                d,
                            );
                        found_steps(members, n, MemberRole::Prj, d);
                    }
                    if f.shx_present {
                        let i = choose|i: int|
                            0 <= i < p && role_of(#[trigger] members[i]) == Some(MemberRole::Shx);
                        assert(role_of(members[i]) == Some(MemberRole::Shx));
                    }
                    if role_of(m) == Some(MemberRole::Shx) {
                        assert(role_of(members[n - 1]) == Some(MemberRole::Shx));
                    }
                    assert forall|i: int| 0 <= i < n implies member_fault(
                        #[trigger] members[i],
                    ) is None by {
                        if i == p {
                            assert(member_fault(m) is None);
                        }
                    }
                },
            },
        }
    }
}

/// A bundle needs the shapes first and then the table; with both it has what was found.
pub proof fn bundles_need_shapes_and_table(f: FoundView)
    ensures
        f.shp is None ==> bundle::finished(f) == Result::<BundleView, Seq<char>>::Err(
            "Missing required .shp file."@,
        ),
        f.shp is Some && f.dbf is None ==> bundle::finished(f) == Result::<
            BundleView,
            Seq<char>,
        >::Err("Missing required .dbf file."@),
        f.shp is Some && f.dbf is Some ==> (bundle::finished(f) matches Ok(b) && Some(b.shp) == f.shp
            && Some(b.dbf) == f.dbf && b.prj == f.prj && b.shx_present == f.shx_present),
{
}

/// Shapes and records are paired in order, the first with the first, as many as there are of both.
pub proof fn shapes_and_records_are_paired(
    shapes: Seq<ShpView>,
    records: Seq<Seq<Entry>>,
    i: int,
)
    ensures
        bundle::paired(shapes, records).len() <= shapes.len(),
        bundle::paired(shapes, records).len() <= records.len(),
        bundle::paired(shapes, records).len() == shapes.len() || bundle::paired(
            shapes,
            records,
        ).len() == records.len(),
        0 <= i < bundle::paired(shapes, records).len() ==> bundle::paired(shapes, records)[i] == (
            shapes[i],
            records[i],
        ),
{
}

/// The rows of a bundle are its shapes with its records; a fault of the shapes goes before one of
/// the table.
pub proof fn bundles_are_read_into_rows(b: BundleView)
    ensures
        match (shp::shapes_of(b.shp), dbf::dbf_fault(b.dbf)) {
            (Err(msg), _) => bundle::bundle_rows(b) == Result::<Seq<Row>, Seq<char>>::Err(msg),
            (Ok(_), Some(msg)) => bundle::bundle_rows(b) == Result::<Seq<Row>, Seq<char>>::Err(msg),
            (Ok(shapes), None) => bundle::bundle_rows(b) == Result::<Seq<Row>, Seq<char>>::Ok(
                bundle::paired(shapes, bundle::table_records(b.dbf)),
            ),
        },
{
}

/// A row with how its rings turn.
pub type TurnedRow = (Row, Seq<RingTurn>);

/// The rows with how their rings turn.
pub open spec fn turned_rows(rows: Seq<Row>, turns: Seq<Seq<RingTurn>>, n: nat) -> Seq<TurnedRow> {
    Seq::new(n, |i: int| (rows[i], turns[i]))
}

/// A row as a feature, where its shape makes a geometry.
pub open spec fn if_shaped() -> spec_fn(TurnedRow) -> Option<(GeometryView, Seq<Entry>)> {
    |r: TurnedRow|
        match shp::shape_geometry(r.0.0, r.1) {
            Some(g) => Some((g, r.0.1)),
            None => None,
        }
}

/// Every row whose shape makes a geometry becomes a feature with its own record, in order.
pub proof fn rows_become_features(rows: Seq<Row>, turns: Seq<Seq<RingTurn>>, n: nat)
    ensures
        picking::picked(
            turned_rows(rows, turns, n),
            if_shaped(),
            bundle::row_features(rows, turns, n),
        ),
    decreases n,
{
    let s = turned_rows(rows, turns, n);
    if n == 0 {
        picking::picked_of_nothing(s, if_shaped());
    } else {
        rows_become_features(rows, turns, (n - 1) as nat);
        assert(s.drop_last() =~= turned_rows(rows, turns, (n - 1) as nat));
        picking::picked_grows(
            s,
            if_shaped(),
            bundle::row_features(rows, turns, (n - 1) as nat),
            bundle::row_features(rows, turns, n),
        );
    }
}

} // verus!
