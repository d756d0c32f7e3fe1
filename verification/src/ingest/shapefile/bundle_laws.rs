//! What reading a bundle gives back of what was packed into it.
use vstd::prelude::*;
use vstd::utf8::*;
use crate::geometry::Coord;
use crate::ingest::shapefile;
use crate::ingest::shapefile::archive;
use crate::ingest::shapefile::bundle;
use crate::ingest::shapefile::bundle::BundleFault;
use crate::ingest::shapefile::bundle::BundleView;
use crate::ingest::shapefile::bundle::FoundView;
use crate::ingest::shapefile::bundle::MemberRole;
use crate::ingest::shapefile::table_laws;
use crate::ingest::shapefile::write::FieldSpecView;
use crate::ingest::shapefile::write_laws;
use crate::scan;
use crate::text;

verus! {

/// Lower-casing keeps the four extensions of a bundle.
proof fn extensions_are_lower()
    ensures
        text::lowercase("shp"@) == "shp"@,
        text::lowercase("shx"@) == "shx"@,
        text::lowercase("dbf"@) == "dbf"@,
        text::lowercase("prj"@) == "prj"@,
{
    reveal_strlit("shp");
    reveal_strlit("shx");
    reveal_strlit("dbf");
    reveal_strlit("prj");
    assert(text::lowercase("shp"@) =~= "shp"@);
    assert(text::lowercase("shx"@) =~= "shx"@);
    assert(text::lowercase("dbf"@) =~= "dbf"@);
    assert(text::lowercase("prj"@) =~= "prj"@);
}

/// The members of a bundle whose files share a stem.
pub open spec fn bundle_members(
    stem: Seq<char>,
    shp: Seq<u8>,
    shx: Seq<u8>,
    dbf: Seq<u8>,
    prj: Seq<char>,
) -> Seq<(Seq<char>, Seq<u8>)> {
    seq![
        (stem + seq!['.'] + "shp"@, shp),
        (stem + seq!['.'] + "shx"@, shx),
        (stem + seq!['.'] + "dbf"@, dbf),
        (stem + seq!['.'] + "prj"@, encode_utf8(prj)),
    ]
}

/// What is found once a written member is stored.
proof fn written_member_is_stored(
    f: FoundView,
    stem: Seq<char>,
    ext: Seq<char>,
    content: Seq<u8>,
)
    requires
        !ext.contains('.'),
        text::lowercase(ext) == ext,
        content.len() <= 0xffff_ffff,
    ensures
        bundle::with_member(f, archive::read_back((stem + seq!['.'] + ext, content)))
            == Result::<FoundView, BundleFault>::Ok(
            bundle::stored(
                f,
                bundle::extension_role(ext),
                if bundle::extension_role(ext).is_read() {
                    content
                } else {
                    Seq::empty()
                },
            ),
        ),
{
    scan::last_piece_behind(stem, '.', ext);
}

/// A bundle of four files, written under plain names, is extracted as it was packed.
pub proof fn written_bundles_are_extracted(
    stem: Seq<char>,
    shp: Seq<u8>,
    shx: Seq<u8>,
    dbf: Seq<u8>,
    prj: Seq<char>,
)
    requires
        shp.len() <= 0xffff_ffff,
        shx.len() <= 0xffff_ffff,
        dbf.len() <= 0xffff_ffff,
        encode_utf8(prj).len() <= 0xffff_ffff,
    ensures
        ({
            let members = bundle_members(stem, shp, shx, dbf, prj);
            bundle::bundle_of(Seq::new(members.len(), |i: int| archive::read_back(members[i])))
                == Result::<BundleView, BundleFault>::Ok(
                BundleView { shp, dbf, shx_present: true, prj: Some(prj) },
            )
        }),
{
    let members = bundle_members(stem, shp, shx, dbf, prj);
    let read = Seq::new(members.len(), |i: int| archive::read_back(members[i]));
    extensions_are_lower();
    reveal_strlit("shp");
    reveal_strlit("shx");
    reveal_strlit("dbf");
    reveal_strlit("prj");
    assert("shp"@[0] == 's' && "shp"@[2] == 'p');
    assert("shx"@[0] == 's' && "shx"@[2] == 'x');
    assert("dbf"@[0] == 'd');
    assert("prj"@[0] == 'p');
    let f0 = bundle::nothing();
    written_member_is_stored(f0, stem, "shp"@, shp);
    let f1 = bundle::stored(f0, MemberRole::Shp, shp);
    written_member_is_stored(f1, stem, "shx"@, shx);
    let f2 = bundle::stored(f1, MemberRole::Shx, Seq::empty());
    written_member_is_stored(f2, stem, "dbf"@, dbf);
    let f3 = bundle::stored(f2, MemberRole::Dbf, dbf);
    written_member_is_stored(f3, stem, "prj"@, encode_utf8(prj));
    text::utf8_lossy_of_text(prj);
    assert(bundle::collected(read, 0) == Result::<FoundView, BundleFault>::Ok(f0));
    assert(bundle::collected(read, 1) == Result::<FoundView, BundleFault>::Ok(f1));
    assert(bundle::collected(read, 2) == Result::<FoundView, BundleFault>::Ok(f2));
    assert(bundle::collected(read, 3) == Result::<FoundView, BundleFault>::Ok(f3));
}

/// A bundle of written shapes and a written table is read as the rings, one polygon each, paired
/// with the properties of the records.
pub proof fn written_bundles_come_back(
    rings: Seq<Seq<Coord>>,
    fields: Seq<FieldSpecView>,
    records: Seq<Seq<Seq<u8>>>,
    prj: Option<Seq<char>>,
    shx_present: bool,
)
    requires
        forall|i: int| 0 <= i < rings.len() ==> (#[trigger] rings[i]).len() <= 100_000_000,
        shapefile::write::shp_bytes(rings).len() <= 0xffff_fffe,
        table_laws::table_fits(fields, records),
    ensures
        bundle::bundle_rows(
            BundleView {
                shp: shapefile::write::shp_bytes(rings),
                dbf: shapefile::write::dbf_bytes(fields, records),
                shx_present,
                prj,
            },
        ) == Result::<Seq<bundle::Row>, Seq<char>>::Ok(
            bundle::paired(
                write_laws::ring_polygons(rings),
                table_laws::table_entries(fields, records, records.len()),
            ),
        ),
{
    write_laws::written_shapes_come_back(rings);
    table_laws::written_tables_come_back(fields, records);
}

} // verus!
