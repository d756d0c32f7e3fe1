//! What the sample bundle holds, and what is said where a bundle cannot be packed.
use vstd::prelude::*;
use vstd::utf8::*;
use crate::ingest::error::IngestError;
use crate::ingest::shapefile;
use crate::ingest::shapefile::archive;
use crate::ingest::shapefile::bundle;
use crate::ingest::shapefile::bundle::BundleFault;

verus! {

/// A square is a closed ring of its four corners: up from the first corner, to the right, down, and
/// back.
pub proof fn squares_are_closed(x0: u64, y0: u64, x1: u64, y1: u64)
    ensures
        ({
            let ring = shapefile::write::square_ring(x0, y0, x1, y1);
            &&& ring.len() == 5
            &&& ring[0] == ring[4]
            &&& ring[0].x.bits == x0 && ring[0].y.bits == y0
            &&& ring[1].x.bits == x0 && ring[1].y.bits == y1
            &&& ring[2].x.bits == x1 && ring[2].y.bits == y1
            &&& ring[3].x.bits == x1 && ring[3].y.bits == y0
        }),
{
}

/// Every sample parcel is a square whose first corner is the one in the south-west.
pub proof fn sample_parcels_are_squares(i: int)
    requires
        0 <= i < 3,
    ensures
        shapefile::write::sample_rings().len() == 3,
        ({
            let ring = shapefile::write::sample_rings()[i];
            &&& ring.len() == 5
            &&& ring[0] == ring[4]
            &&& ring[0].x == ring[1].x && ring[2].x == ring[3].x
            &&& ring[0].y == ring[3].y && ring[1].y == ring[2].y
            &&& ring[0].x.lt_num(ring[2].x)
            &&& ring[0].y.lt_num(ring[2].y)
        }),
        ({
            let rings = shapefile::write::sample_rings();
            &&& rings[0][0].x.bits == 0xc052_7f5c_28f5_c28f && rings[0][0].y.bits
                == 0x4044_6000_0000_0000
            &&& rings[0][2].x.bits == 0xc052_7f0a_3d70_a3d7 && rings[0][2].y.bits
                == 0x4044_60a3_d70a_3d71
            &&& rings[1][0].x.bits == 0xc052_7eb8_51eb_851f && rings[1][0].y.bits
                == 0x4044_5eb8_51eb_851f
            &&& rings[1][2].x.bits == 0xc052_7e66_6666_6666 && rings[1][2].y.bits
                == 0x4044_5f5c_28f5_c28f
            &&& rings[2][0].x.bits == 0xc052_7e14_7ae1_47ae && rings[2][0].y.bits
                == 0x4044_6147_ae14_7ae1
            &&& rings[2][2].x.bits == 0xc052_7dc2_8f5c_28f6 && rings[2][2].y.bits
                == 0x4044_61eb_851e_b852
        }),
{
}

/// Every sample parcel has a parcel, an asset, a market and a property type, in this order.
pub proof fn sample_parcels_have_attributes(i: int)
    requires
        0 <= i < 3,
    ensures
        ({
            let columns = shapefile::write::sample_columns();
            &&& columns.len() == 4
            &&& columns[0].name == encode_utf8("PARCELID"@) && columns[0].length == 16
            &&& columns[1].name == encode_utf8("ASSETID"@) && columns[1].length == 16
            &&& columns[2].name == encode_utf8("MARKET"@) && columns[2].length == 16
            &&& columns[3].name == encode_utf8("PROPTYPE"@) && columns[3].length == 12
            &&& forall|k: int|
                0 <= k < 4 ==> (#[trigger] columns[k]).ftype == 67 && columns[k].decimal_count == 0
        }),
        ({
            let rows = shapefile::write::sample_values();
            &&& rows.len() == 3
            &&& rows[i].len() == 4
            &&& rows[0][0] == encode_utf8("NYC-BB-000001"@)
            &&& rows[1][0] == encode_utf8("NYC-BB-000002"@)
            &&& rows[2][0] == encode_utf8("NYC-BB-000003"@)
            &&& rows[0][1] == encode_utf8("AST-000123"@)
            &&& rows[1][1] == encode_utf8("AST-000124"@)
            &&& rows[2][1] == encode_utf8("AST-000125"@)
            &&& rows[i][2] == encode_utf8("New York"@)
            &&& rows[0][3] == encode_utf8("OFFICE"@)
            &&& rows[1][3] == encode_utf8("RETAIL"@)
            &&& rows[2][3] == encode_utf8("MULTIFAM"@)
        }),
{
}

/// The sample bundle has shapes and their index, the table just where it is asked for, and the
/// description of the system just where that is asked for.
pub proof fn sample_bundles_hold_what_is_asked_for(include_dbf: bool, include_prj: bool)
    ensures
        ({
            let m = shapefile::write::sample_members(include_dbf, include_prj);
            let dbf: int = if include_dbf {
                1
            } else {
                0
            };
            let prj: int = if include_prj {
                1
            } else {
                0
            };
            &&& m.len() == 2 + dbf + prj
            &&& m[0].0 == "parcels.shp"@
            &&& m[0].1 == shapefile::write::shp_bytes(
                shapefile::write::sample_rings(),
            )
            &&& m[1].0 == "parcels.shx"@
            &&& m[1].1 == shapefile::write::shx_bytes()
            &&& include_dbf ==> m[2].0 == "parcels.dbf"@ && m[2].1
                == shapefile::write::dbf_bytes(
                shapefile::write::sample_columns(),
                shapefile::write::sample_values(),
            )
            &&& include_prj ==> m[2 + dbf].0 == "parcels.prj"@ && m[2 + dbf].1 == encode_utf8(
                shapefile::write::WGS84_PRJ@,
            )
        }),
{
}

/// Packing fails on the first member that cannot be written behind those before it, else where the
/// archive cannot be closed; otherwise it does not fail.
pub proof fn the_first_fault_is_reported(entries: Seq<(Seq<char>, Seq<u8>)>, i: int)
    requires
        0 <= i < entries.len(),
        forall|k: int|
            0 <= k < i ==> archive::write_fault(
                #[trigger] entries.take(k),
                entries[k].0,
                entries[k].1,
            ) is None,
    ensures
        archive::write_fault(entries.take(i), entries[i].0, entries[i].1) matches Some(msg)
            ==> shapefile::write::packing_fault(entries) == Some(msg),
        i == entries.len() - 1 && archive::write_fault(
            entries.take(i),
            entries[i].0,
            entries[i].1,
        ) is None ==> shapefile::write::packing_fault(entries)
            == archive::finish_fault(entries),
{
    no_fault_before(entries, i as nat);
    if archive::write_fault(entries.take(i), entries[i].0, entries[i].1) is Some {
        faults_stay(entries, (i + 1) as nat, entries.len());
    }
}

proof fn no_fault_before(entries: Seq<(Seq<char>, Seq<u8>)>, n: nat)
    requires
        n <= entries.len(),
        forall|k: int|
            0 <= k < n ==> archive::write_fault(
                #[trigger] entries.take(k),
                entries[k].0,
                entries[k].1,
            ) is None,
    ensures
        shapefile::write::entries_fault(entries, n) is None,
    decreases n,
{
    if n > 0 {
        no_fault_before(entries, (n - 1) as nat);
        assert(archive::write_fault(entries.take(n - 1), entries[n - 1].0, entries[n - 1].1) is None);
    }
}

proof fn faults_stay(entries: Seq<(Seq<char>, Seq<u8>)>, k: nat, n: nat)
    requires
        k <= n,
        shapefile::write::entries_fault(entries, k) is Some,
    ensures
        shapefile::write::entries_fault(entries, n)
            == shapefile::write::entries_fault(entries, k),
    decreases n,
{
    if k < n {
        faults_stay(entries, k, (n - 1) as nat);
    }
}

/// A bundle that is refused is refused with its reason: an archive that cannot be read as such, a
/// bundle that is none as a bad shapefile.
pub proof fn refused_bundles_name_the_reason(e: IngestError, m: String, msg: Seq<char>)
    ensures
        bundle::error_of(IngestError::Zip(m), BundleFault::Zip(msg)) <==> m@ == msg,
        bundle::error_of(e, BundleFault::Zip(msg)) ==> e is Zip,
        bundle::error_of(e, BundleFault::Shapefile(msg)) <==> e.is_shapefile(msg),
{
}

} // verus!
