//! What requests promise: tenants are kept apart, tile paths name tiles, and answers carry what
//! lets clients keep them.
use vstd::prelude::*;
use vstd::arithmetic::power2::*;
use crate::api::auth;
use crate::api::auth::{AccessDecision, Audit, Refusal};
use crate::api::dto::JobResponse;
use crate::api::error::ApiError;
use crate::api::jobs;
use crate::api::tiles;
use crate::model::JobRecord;
use crate::scan;
use crate::text;
use crate::text_laws;
use crate::tilemath::TileId;

verus! {

/// The token is what stands behind the word `Bearer` and a space; any other header carries none.
pub proof fn tokens_follow_the_word_bearer(token: Seq<char>, header: Seq<char>)
    ensures
        auth::bearer(Some("Bearer "@ + token)) == token,
        auth::bearer(None) == Seq::<char>::empty(),
        !scan::has_prefix(header, "Bearer "@) ==> auth::bearer(Some(header)) == Seq::<char>::empty(),
{
    text_laws::parts_are_found(Seq::empty(), "Bearer "@, token);
    assert(("Bearer "@ + token).skip("Bearer "@.len() as int) =~= token);
}

/// Everything below the API and below the tiles belongs to a tenant, and nothing else does.
pub proof fn scoped_paths(rest: Seq<char>, path: Seq<char>)
    ensures
        auth::tenant_scoped("/api/v1/"@ + rest),
        auth::tenant_scoped("/tiles/"@ + rest),
        auth::tenant_scoped(path) ==> scan::has_prefix(path, "/api/v1/"@) || scan::has_prefix(
            path,
            "/tiles/"@,
        ),
{
    text_laws::parts_are_found(Seq::empty(), "/api/v1/"@, rest);
    text_laws::parts_are_found(Seq::empty(), "/tiles/"@, rest);
}

/// Tenants are kept apart: a caller with a tenant may touch what is that tenant's, and nothing of
/// any other. Without authentication nothing is scoped.
pub proof fn tenants_are_kept_apart(caller: Seq<char>, tenant: Seq<char>)
    ensures
        auth::may_touch(Some(caller), caller),
        auth::may_touch(Some(caller), tenant) ==> caller == tenant,
        auth::may_touch(None, tenant),
{
}

/// White space around a claim does not count, and a blank one is as good as none; the same holds of
/// a break-glass reference.
pub proof fn blank_headers_are_none(before: Seq<char>, s: Seq<char>, after: Seq<char>)
    requires
        text_laws::blank(before),
        text_laws::blank(after),
        text_laws::tight(s),
    ensures
        auth::claimed(Some(before + s + after)) == s,
        auth::claimed(None) == Seq::<char>::empty(),
        auth::reference(Some(before + s + after)) == if s.len() > 0 {
            Some(s)
        } else {
            None
        },
        auth::reference(None) is None,
{
    text_laws::trimming_takes_white_space_only(before, s, after);
}

/// The segments of a path name the tile with their numbers, with or without the extension.
pub proof fn paths_name_tiles(t: TileId)
    ensures
        ({
            let z = text::decimal(t.z as nat);
            let x = text::decimal(t.x as nat);
            let y = text::decimal(t.y as nat);
            &&& tiles::tile_of(z, x, y) == Result::<TileId, Seq<char>>::Ok(t)
            &&& tiles::tile_of(z, x, y + ".pbf"@) == Result::<TileId, Seq<char>>::Ok(t)
        }),
{
    let y = text::decimal(t.y as nat);
    text_laws::unsigned_numbers_are_read_back(t.z as nat, u8::MAX as nat);
    text_laws::unsigned_numbers_are_read_back(t.x as nat, u32::MAX as nat);
    text_laws::unsigned_numbers_are_read_back(t.y as nat, u32::MAX as nat);
    text_laws::decimals_are_read_back(t.y as nat);
    reveal_strlit(".pbf");
    text_laws::parts_are_found(y, ".pbf"@, Seq::empty());
    assert((y + ".pbf"@).take(y.len() as int) =~= y);
    if scan::has_suffix(y, ".pbf"@) {
        text_laws::found_parts_are_there(y, ".pbf"@);
        assert(y.skip(y.len() - 4)[0] == y[y.len() - 4]);
        assert(".pbf"@[0] == '.');
    }
}

/// A segment that is no number in range is refused by name, the first one of them.
pub proof fn bad_segments_are_refused(z: Seq<char>, x: Seq<char>, y: Seq<char>)
    ensures
        scan::unsigned(z, 255) is None ==> tiles::tile_of(z, x, y) == Result::<
            TileId,
            Seq<char>,
        >::Err("invalid "@ + "zoom"@ + " coordinate: "@ + text::debug_quoted(z)),
        scan::unsigned(z, 255) is Some && scan::unsigned(x, 0xffff_ffff) is None ==> tiles::tile_of(
            z,
            x,
            y,
        ) == Result::<TileId, Seq<char>>::Err(
            "invalid "@ + "x"@ + " coordinate: "@ + text::debug_quoted(x),
        ),
        scan::unsigned(z, 255) is Some && scan::unsigned(x, 0xffff_ffff) is Some && scan::unsigned(
            tiles::without_extension(y),
            0xffff_ffff,
        ) is None ==> tiles::tile_of(z, x, y) == Result::<TileId, Seq<char>>::Err(
            "invalid "@ + "y"@ + " coordinate: "@ + text::debug_quoted(y),
        ),
{
}

/// The object of a tile is named by its zoom, column and row, so that its segments name the tile
/// again: different tiles have different names.
pub proof fn object_names_name_tiles(t: TileId)
    ensures
        ({
            let name = t.object_name();
            &&& scan::piece(name, '/', 0) == Some(text::decimal(t.z as nat))
            &&& scan::piece(name, '/', 1) == Some(text::decimal(t.x as nat))
            &&& scan::piece(name, '/', 2) == Some(text::decimal(t.y as nat) + ".pbf"@)
            &&& scan::piece(name, '/', 3) is None
        }),
{
    reveal_strlit("/");
    reveal_strlit(".pbf");
    let z = text::decimal(t.z as nat);
    let x = text::decimal(t.x as nat);
    let y = text::decimal(t.y as nat) + ".pbf"@;
    let none = Seq::<char>::empty();
    assert("/"@ =~= seq!['/']);
    decimals_have_no_slash(t.z as nat);
    decimals_have_no_slash(t.x as nat);
    decimals_have_no_slash(t.y as nat);
    if y.contains('/') {
        let i = choose|i: int| 0 <= i < y.len() && y[i] == '/';
        let d = text::decimal(t.y as nat);
        if i < d.len() {
            assert(d.contains(d[i]));
        } else {
            assert(".pbf"@[i - d.len()] == '/');
        }
    }
    let rest = x + seq!['/'] + y;
    assert(t.object_name() =~= z + seq!['/'] + rest);
    text_laws::pieces_stand_between_separators(z, '/', rest, 0);
    text_laws::pieces_stand_between_separators(z, '/', rest, 1);
    text_laws::pieces_stand_between_separators(z, '/', rest, 2);
    text_laws::pieces_stand_between_separators(x, '/', y, 0);
    text_laws::pieces_stand_between_separators(x, '/', y, 1);
    text_laws::pieces_stand_between_separators(y, '/', none, 0);
}

proof fn decimals_have_no_slash(n: nat)
    ensures
        !text::decimal(n).contains('/'),
{
    text_laws::decimals_are_read_back(n);
    let d = text::decimal(n);
    if d.contains('/') {
        let i = choose|i: int| 0 <= i < d.len() && d[i] == '/';
        assert('0' <= d[i] <= '9');
    }
}

/// A tile is served exactly where its zoom is published, the grid goes that deep, and its column
/// and row are on the grid.
pub proof fn tiles_on_the_grid_are_served(t: TileId, layer: Seq<char>, min_zoom: u8, max_zoom: u8)
    ensures
        tiles::tile_fault(t, layer, min_zoom, max_zoom) is None <==> min_zoom <= t.z <= max_zoom
            && t.z < 32 && t.x < pow2(t.z as nat) && t.y < pow2(t.z as nat),
        !(min_zoom <= t.z <= max_zoom) || t.z >= 32 ==> (tiles::tile_fault(
            t,
            layer,
            min_zoom,
            max_zoom,
        ) matches Some((code, _)) && code == "ZOOM_OUT_OF_RANGE"@),
        min_zoom <= t.z <= max_zoom && t.z < 32 && (t.x >= pow2(t.z as nat) || t.y >= pow2(
            t.z as nat,
        )) ==> (tiles::tile_fault(t, layer, min_zoom, max_zoom) matches Some((code, _)) && code
            == "INVALID_TILE_COORDINATES"@),
{
}

/// What is said of a tile that is not served names its numbers and those that would do.
pub proof fn refused_tiles_are_told_the_range(
    t: TileId,
    layer: Seq<char>,
    min_zoom: u8,
    max_zoom: u8,
)
    ensures
        tiles::tile_fault(t, layer, min_zoom, max_zoom) matches Some((_, msg)) ==> msg == if !(
        min_zoom <= t.z <= max_zoom) {
            "zoom "@ + text::decimal(t.z as nat) + " is outside the published range "@
                + text::decimal(min_zoom as nat) + "..="@ + text::decimal(max_zoom as nat)
                + " for layer "@ + layer
        } else if t.z >= 32 {
            "zoom "@ + text::decimal(t.z as nat) + " exceeds the supported tile grid"@
        } else {
            "x/y ("@ + text::decimal(t.x as nat) + ", "@ + text::decimal(t.y as nat)
                + ") out of range for zoom "@ + text::decimal(t.z as nat) + " (valid: 0..="@
                + text::decimal((pow2(t.z as nat) - 1) as nat) + ")"@
        },
{
}

/// Tiles of low zooms may be kept for a day, the others for an hour.
pub proof fn low_zooms_may_be_kept_longer(z: u8)
    ensures
        z <= 10 ==> tiles::cache_control(z) == "public, max-age=86400"@,
        z > 10 ==> tiles::cache_control(z) == "public, max-age=3600"@,
{
}

/// An entity tag is the version and the address of the tile in quotation marks.
pub proof fn tags_name_version_and_tile(version: Seq<char>, t: TileId)
    ensures
        tiles::etag(version, t) == "\""@ + version + "/"@ + text::decimal(t.z as nat) + "/"@
            + text::decimal(t.x as nat) + "/"@ + text::decimal(t.y as nat) + "\""@,
{
}

/// Tiles of one version that have the same tag are the same tile.
pub proof fn tags_tell_tiles_apart(version: Seq<char>, t: TileId, u: TileId)
    requires
        tiles::etag(version, t) == tiles::etag(version, u),
    ensures
        t == u,
{
    reveal_strlit("/");
    reveal_strlit("\"");
    let slash = seq!['/'];
    let quote = seq!['"'];
    let front = quote + version + slash;
    assert("/"@ =~= slash);
    assert("\""@ =~= quote);
    let (tz, tx, ty) = (
        text::decimal(t.z as nat),
        text::decimal(t.x as nat),
        text::decimal(t.y as nat),
    );
    let (uz, ux, uy) = (
        text::decimal(u.z as nat),
        text::decimal(u.x as nat),
        text::decimal(u.y as nat),
    );
    let a = tz + slash + (tx + slash + (ty + quote));
    let b = uz + slash + (ux + slash + (uy + quote));
    assert(tiles::etag(version, t) =~= front + a);
    assert(tiles::etag(version, u) =~= front + b);
    assert((front + a).skip(front.len() as int) =~= a);
    assert((front + b).skip(front.len() as int) =~= b);
    decimals_have_no_slash(t.z as nat);
    decimals_have_no_slash(t.x as nat);
    decimals_have_no_slash(u.z as nat);
    decimals_have_no_slash(u.x as nat);
    text_laws::pieces_stand_between_separators(tz, '/', tx + slash + (ty + quote), 0);
    text_laws::pieces_stand_between_separators(uz, '/', ux + slash + (uy + quote), 0);
    text_laws::pieces_stand_between_separators(tx, '/', ty + quote, 0);
    text_laws::pieces_stand_between_separators(ux, '/', uy + quote, 0);
    text_laws::pieces_stand_between_separators(tz, '/', tx + slash + (ty + quote), 1);
    text_laws::pieces_stand_between_separators(uz, '/', ux + slash + (uy + quote), 1);
    assert(tz == uz && tx == ux);
    let n = (tz.len() + 1 + tx.len() + 1) as int;
    assert(a.skip(n) =~= ty + quote);
    assert(b.skip(n) =~= uy + quote);
    assert((ty + quote).drop_last() =~= ty);
    assert((uy + quote).drop_last() =~= uy);
    text_laws::decimals_are_read_back(t.z as nat);
    text_laws::decimals_are_read_back(t.x as nat);
    text_laws::decimals_are_read_back(t.y as nat);
    text_laws::decimals_are_read_back(u.z as nat);
    text_laws::decimals_are_read_back(u.x as nat);
    text_laws::decimals_are_read_back(u.y as nat);
}

/// Control characters do not stand in headers, but for the tab.
pub proof fn header_bytes(b: u8)
    ensures
        tiles::header_byte(b) <==> b == 9 || 32 <= b < 127 || b > 127,
{
}

/// Empty and unmodified answers have classes of their own; other successes, client errors and
/// server errors one each. An error that is not a server error counts as the client's.
pub proof fn statuses_have_classes(status: u16)
    ensures
        status == 204 ==> tiles::class_of(status, false) == "204"@,
        status == 304 ==> tiles::class_of(status, false) == "304"@,
        200 <= status < 300 && status != 204 ==> tiles::class_of(status, false) == "200"@,
        400 <= status < 500 ==> tiles::class_of(status, false) == "4xx"@,
        !(200 <= status < 300) && status != 304 && !(400 <= status < 500) ==> tiles::class_of(
            status,
            false,
        ) == "5xx"@,
        500 <= status < 600 ==> tiles::class_of(status, true) == "5xx"@,
        !(500 <= status < 600) ==> tiles::class_of(status, true) == "4xx"@,
{
}

/// What is said of a job is what its record holds; the summary only where it has an outcome.
pub proof fn jobs_are_described_by_their_records(
    r: JobResponse,
    job: JobRecord,
    completed_at: Option<Seq<char>>,
)
    requires
        jobs::describes(r, job, completed_at),
    ensures
        r.job_id == job.job_id,
        r.status == job.status,
        r.layer_id == job.layer_id,
        r.error == job.error,
        r.error_code == job.error_code,
        r.failed_stage == job.failed_stage,
        job.outcome matches Some(o) ==> r.feature_count == Some(o.feature_count)
            && r.published_tile_count == Some(o.published_tile_count) && (
        r.bounding_box matches Some(v) && v@ == seq![
            o.bounding_box.min_lon,
            o.bounding_box.min_lat,
            o.bounding_box.max_lon,
            o.bounding_box.max_lat,
        ]),
        job.outcome is Some && completed_at is Some ==> (r.completed_at matches Some(s) && Some(s@)
            == completed_at),
        job.outcome is None ==> r.feature_count is None && r.published_tile_count is None
            && r.bounding_box is None && r.completed_at is None,
        jobs::completion(job) == match job.outcome {
            Some(o) => jobs::utc_text(o.completed_at),
            None => None,
        },
{
}

/// A decision that goes to the audit trail names the caller, what was asked for and what was decided:
/// one that denies says that the tenant is another, one that allows gives no reason.
pub proof fn decisions_are_recorded(
    d: AccessDecision,
    caller: Seq<char>,
    kind: Seq<char>,
    id: Seq<char>,
)
    ensures
        d.denies(caller, kind, id) || d.allows(caller, kind, id) ==> d.tenant_id@ == caller
            && d.resource_type@ == kind && d.resource_id@ == id && d.action@ == "ACCESS"@,
        d.denies(caller, kind, id) ==> !d.allowed && d.reason is Some && d.reason->Some_0@
            == "TENANT_MISMATCH"@,
        d.allows(caller, kind, id) ==> d.allowed && d.reason is None,
{
}

/// A denial that goes to the audit trail names the tenant that asked and the resource.
pub proof fn denials_are_recorded(
    a: Audit,
    tenant: String,
    resource: String,
    asked_by: Seq<char>,
    asked_for: Seq<char>,
)
    ensures
        (Audit::Denied { tenant_id: tenant, resource }).records(asked_by, asked_for)
            <==> tenant@ == asked_by && resource@ == asked_for,
        a.records(asked_by, asked_for) ==> a is Denied,
{
}

/// An error is what its status, code and message say; a refusal without a decision leaves no trace
/// in the audit trail.
pub proof fn errors_are_told_by_status_code_and_message(
    e: ApiError,
    d: Refusal,
    status: u16,
    code: Seq<char>,
    message: Seq<char>,
)
    ensures
        e.is(status, code, message) <==> e.status == status && e.code@ == code && e.message@
            == message,
        d.plain(status, code, message) <==> d.error.status == status && d.error.code@ == code
            && d.error.message@ == message && d.audit is None,
{
}

} // verus!
