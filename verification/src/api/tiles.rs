//! Tile requests.
//!
//! A tile that exists is answered with its gzipped bytes, a void one without content and never as an
//! error. Foreign tenants are refused, unknown layers not found, and coordinates off the grid or out
//! of the published zoom range unprocessable.
use vstd::prelude::*;
use vstd::arithmetic::power2::*;
use vstd::utf8::*;
use crate::api::auth;
use crate::api::auth::is_own;
use crate::api::auth::Audit;
use crate::api::auth::Refusal;
use crate::api::error::ApiError;
use crate::api::error::BAD_REQUEST;
use crate::api::error::FORBIDDEN;
use crate::api::error::INTERNAL_SERVER_ERROR;
use crate::api::error::NOT_FOUND;
use crate::api::error::UNPROCESSABLE_ENTITY;
use crate::ingest::validate;
use crate::model::LayerMetadata;
use crate::scan;
use crate::text;
use crate::tilemath::TileId;

verus! {

/// The media type of tiles.
pub const MVT_CONTENT_TYPE: &'static str = "application/vnd.mapbox-vector-tile";

/// The `y` of a path, without its extension.
pub open spec fn without_extension(y: Seq<char>) -> Seq<char> {
    if scan::has_suffix(y, ".pbf"@) {
        y.take(y.len() - ".pbf"@.len())
    } else {
        y
    }
}

fn strip_extension(y: &str) -> (s: String)
    ensures
        s@ == without_extension(y@),
{
    if scan::ends_with(y, ".pbf") {
        proof {
            reveal_strlit(".pbf");
        }
        let chars = text::to_chars(y);
        let s = text::from_chars(chars.as_slice(), 0, chars.len() - 4);
        assert(s@ =~= y@.take(y@.len() - 4));
        s
    } else {
        y.to_string()
    }
}

/// The message for a coordinate that is no number.
pub open spec fn invalid(which: Seq<char>, value: Seq<char>) -> Seq<char> {
    "invalid "@ + which + " coordinate: "@ + text::debug_quoted(value)
}

fn invalid_coordinate(which: &str, value: &str) -> (e: ApiError)
    ensures
        e.is(BAD_REQUEST, "INVALID_TILE_COORDINATES"@, invalid(which@, value@)),
{
    let mut message = text::join3("invalid ", which, " coordinate: ");
    message.append(text::debug_text(value).as_str());
    ApiError::bad_request("INVALID_TILE_COORDINATES", message)
}

/// The tile that path segments name, or what is wrong with the first bad one.
pub open spec fn tile_of(z: Seq<char>, x: Seq<char>, y: Seq<char>) -> Result<TileId, Seq<char>> {
    match scan::unsigned(z, u8::MAX as nat) {
        None => Err(invalid("zoom"@, z)),
        Some(zn) => match scan::unsigned(x, u32::MAX as nat) {
            None => Err(invalid("x"@, x)),
            Some(xn) => match scan::unsigned(without_extension(y), u32::MAX as nat) {
                None => Err(invalid("y"@, y)),
                Some(yn) => Ok(TileId { z: zn as u8, x: xn as u32, y: yn as u32 }),
            },
        },
    }
}

/// Reads `z/x/y` path segments; `y` may end in `.pbf`.
pub fn parse_tile_coords(z_raw: &str, x_raw: &str, y_raw: &str) -> (r: Result<TileId, ApiError>)
    ensures
        match tile_of(z_raw@, x_raw@, y_raw@) {
            Ok(t) => r == Result::<TileId, ApiError>::Ok(t),
            Err(msg) => r matches Err(e) && e.is(BAD_REQUEST, "INVALID_TILE_COORDINATES"@, msg),
        },
{
    let z: u64 = match scan::parse_unsigned(z_raw, u8::MAX as u64) {
        Some(n) => n,
        None => {
            return Err(invalid_coordinate("zoom", z_raw));
        },
    };
    let x: u64 = match scan::parse_unsigned(x_raw, u32::MAX as u64) {
        Some(n) => n,
        None => {
            return Err(invalid_coordinate("x", x_raw));
        },
    };
    let bare = strip_extension(y_raw);
    let y: u64 = match scan::parse_unsigned(bare.as_str(), u32::MAX as u64) {
        Some(n) => n,
        None => {
            return Err(invalid_coordinate("y", y_raw));
        },
    };
    Ok(TileId { z: z as u8, x: x as u32, y: y as u32 })
}

/// What is wrong with a tile of a layer: its zoom is not published, or it is off the grid. The code
/// and the message.
pub open spec fn tile_fault(t: TileId, layer_id: Seq<char>, min_zoom: u8, max_zoom: u8) -> Option<
    (Seq<char>, Seq<char>),
> {
    if t.z < min_zoom || t.z > max_zoom {
        Some(
            (
                "ZOOM_OUT_OF_RANGE"@,
                "zoom "@ + text::decimal(t.z as nat) + " is outside the published range "@
                    + text::decimal(min_zoom as nat) + "..="@ + text::decimal(max_zoom as nat)
                    + " for layer "@ + layer_id,
            ),
        )
    } else if t.z >= 32 {
        Some(
            (
                "ZOOM_OUT_OF_RANGE"@,
                "zoom "@ + text::decimal(t.z as nat) + " exceeds the supported tile grid"@,
            ),
        )
    } else if t.x >= pow2(t.z as nat) || t.y >= pow2(t.z as nat) {
        Some(
            (
                "INVALID_TILE_COORDINATES"@,
                "x/y ("@ + text::decimal(t.x as nat) + ", "@ + text::decimal(t.y as nat)
                    + ") out of range for zoom "@ + text::decimal(t.z as nat) + " (valid: 0..="@
                    + text::decimal((pow2(t.z as nat) - 1) as nat) + ")"@,
            ),
        )
    } else {
        None
    }
}

/// Checks a tile against the published zooms and the grid.
pub fn check_tile(t: TileId, layer_id: &str, min_zoom: u8, max_zoom: u8) -> (r: Result<(), ApiError>)
    ensures
        match tile_fault(t, layer_id@, min_zoom, max_zoom) {
            None => r is Ok,
            Some((code, msg)) => r matches Err(e) && e.is(UNPROCESSABLE_ENTITY, code, msg),
        },
{
    if t.z < min_zoom || t.z > max_zoom {
        let mut m = text::join3(
            "zoom ",
            text::decimal_text(t.z as u64).as_str(),
            " is outside the published range ",
        );
        m.append(text::decimal_text(min_zoom as u64).as_str());
        m.append("..=");
        m.append(text::decimal_text(max_zoom as u64).as_str());
        m.append(" for layer ");
        m.append(layer_id);
        return Err(ApiError::unprocessable("ZOOM_OUT_OF_RANGE", m));
    }
    if t.z >= 32 {
        return Err(
            ApiError::unprocessable(
                "ZOOM_OUT_OF_RANGE",
                text::join3(
                    "zoom ",
                    text::decimal_text(t.z as u64).as_str(),
                    " exceeds the supported tile grid",
                ),
            ),
        );
    }
    let count: u32 = t.axis_count();
    if t.x >= count || t.y >= count {
        proof {
            lemma_pow2_pos(t.z as nat);
        }
        let mut m = text::join3("x/y (", text::decimal_text(t.x as u64).as_str(), ", ");
        m.append(text::decimal_text(t.y as u64).as_str());
        m.append(") out of range for zoom ");
        m.append(text::decimal_text(t.z as u64).as_str());
        m.append(" (valid: 0..=");
        m.append(text::decimal_text((count - 1) as u64).as_str());
        m.append(")");
        return Err(ApiError::unprocessable("INVALID_TILE_COORDINATES", m));
    }
    Ok(())
}

/// Authorizes a tile request, finds its layer and its tile. `found` is what the catalog has under
/// the layer's id. A layer of another tenant is as good as none.
pub fn resolve_request(
    caller: Option<&str>,
    tenant_id: &str,
    layer_id: &str,
    found: Result<Option<LayerMetadata>, ApiError>,
    z_raw: &str,
    x_raw: &str,
    y_raw: &str,
) -> (r: Result<(LayerMetadata, TileId), Refusal>)
    ensures
        if !auth::may_touch(validate::opt_str(caller), tenant_id@) {
            &&& r matches Err(d)
            &&& d.error.is(
                FORBIDDEN,
                "FORBIDDEN"@,
                "tenant "@ + validate::opt_str(caller)->Some_0 + " cannot access tiles of tenant "@
                    + tenant_id@,
            )
            &&& d.audit matches Some(a) && a.records(
                validate::opt_str(caller)->Some_0,
                "tiles of layer "@ + layer_id@,
            )
        } else {
            match found {
                Err(e) => r matches Err(d) && d.error == e && d.audit is None,
                Ok(Some(layer)) if layer.tenant_id@ == tenant_id@ => match tile_of(
                    z_raw@,
                    x_raw@,
                    y_raw@,
                ) {
                    Err(msg) => r matches Err(d) && d.plain(
                        BAD_REQUEST,
                        "INVALID_TILE_COORDINATES"@,
                        msg,
                    ),
                    Ok(t) => match tile_fault(t, layer_id@, layer.min_zoom, layer.max_zoom) {
                        Some((code, msg)) => r matches Err(d) && d.plain(
                            UNPROCESSABLE_ENTITY,
                            code,
                            msg,
                        ),
                        None => r == Result::<(LayerMetadata, TileId), Refusal>::Ok((layer, t)),
                    },
                },
                _ => r matches Err(d) && d.plain(
                    NOT_FOUND,
                    "LAYER_NOT_FOUND"@,
                    "layer "@ + layer_id@ + " not found"@,
                ),
            }
        },
{
    if let Some(c) = caller {
        if !is_own(caller, tenant_id) {
            let mut message = text::join3("tenant ", c, " cannot access tiles of tenant ");
            message.append(tenant_id);
            return Err(
                Refusal {
                    error: ApiError::forbidden(message),
                    audit: Some(
                        Audit::Denied {
                            tenant_id: c.to_string(),
                            resource: text::join2("tiles of layer ", layer_id),
                        },
                    ),
                },
            );
        }
    }
    let layer = match found {
        Err(e) => {
            return Err(Refusal::of(e));
        },
        Ok(Some(layer)) => layer,
        Ok(None) => {
            return Err(Refusal::of(layer_not_found(layer_id)));
        },
    };
    if !text::str_equal(layer.tenant_id.as_str(), tenant_id) {
        return Err(Refusal::of(layer_not_found(layer_id)));
    }
    let t = match parse_tile_coords(z_raw, x_raw, y_raw) {
        Ok(t) => t,
        Err(e) => {
            return Err(Refusal::of(e));
        },
    };
    match check_tile(t, layer_id, layer.min_zoom, layer.max_zoom) {
        Ok(_) => Ok((layer, t)),
        Err(e) => Err(Refusal::of(e)),
    }
}

/// The error for a layer that is not there, or not the caller's.
pub fn layer_not_found(layer_id: &str) -> (e: ApiError)
    ensures
        e.is(NOT_FOUND, "LAYER_NOT_FOUND"@, "layer "@ + layer_id@ + " not found"@),
{
    ApiError::not_found("LAYER_NOT_FOUND", text::join3("layer ", layer_id, " not found"))
}

/// What reading a tile's object gave.
#[derive(Debug)]
pub enum TileRead {
    Found(Vec<u8>),
    Missing,
    /// What went wrong.
    Failed(String),
}

/// How a tile request is answered.
#[derive(Debug)]
pub enum TileReply {
    /// A void tile.
    NoContent,
    /// The client has the tile.
    NotModified { cache_control: String, etag: String },
    /// The tile, gzipped.
    Tile { cache_control: String, etag: String, bytes: Vec<u8> },
}

/// How long a tile may be kept: a day for low zooms, an hour for detail.
pub open spec fn cache_control(z: u8) -> Seq<char> {
    if z <= 10 {
        "public, max-age=86400"@
    } else {
        "public, max-age=3600"@
    }
}

/// The entity tag of a tile.
pub open spec fn etag(version: Seq<char>, t: TileId) -> Seq<char> {
    "\""@ + version + "/"@ + text::decimal(t.z as nat) + "/"@ + text::decimal(t.x as nat) + "/"@
        + text::decimal(t.y as nat) + "\""@
}

fn tile_etag(version: &str, t: TileId) -> (s: String)
    ensures
        s@ == etag(version@, t),
{
    let mut s = text::join3("\"", version, "/");
    s.append(text::decimal_text(t.z as u64).as_str());
    s.append("/");
    s.append(text::decimal_text(t.x as u64).as_str());
    s.append("/");
    s.append(text::decimal_text(t.y as u64).as_str());
    s.append("\"");
    s
}

/// Whether a byte may stand in a header: anything but control characters; the tab may.
pub open spec fn header_byte(b: u8) -> bool {
    b >= 32 && b != 127 || b == 9
}

/// Whether a text may stand in a header.
pub open spec fn header_safe(s: Seq<char>) -> bool {
    forall|i: int| 0 <= i < encode_utf8(s).len() ==> header_byte(#[trigger] encode_utf8(s)[i])
}

/// Holds a text against `axum::http::HeaderValue::from_str`, which takes any byte but control
/// characters other than the tab, and refuses everything else with one fixed error text.
#[verifier::external_body]
fn header_value(s: &str) -> (r: Result<(), String>)
    ensures
        match r {
            Ok(_) => header_safe(s@),
            Err(msg) => !header_safe(s@) && msg@ == "failed to parse header value"@,
        },
{
    axum::http::HeaderValue::from_str(s).map(|_| ()).map_err(|e| e.to_string())
}

/// Answers a tile request from what reading the tile's object gave. A client that has the tile, by
/// its entity tag, is spared the bytes.
pub fn serve_tile(read: TileRead, tile_version: &str, t: TileId, if_none_match: Option<&str>) -> (r:
    Result<TileReply, ApiError>)
    ensures
        match read {
            TileRead::Missing => r matches Ok(TileReply::NoContent),
            TileRead::Failed(msg) => r matches Err(e) && e.is(
                INTERNAL_SERVER_ERROR,
                "INTERNAL_ERROR"@,
                "reading tile failed: "@ + msg@,
            ),
            TileRead::Found(data) => {
                let tag = etag(tile_version@, t);
                if !header_safe(tag) {
                    r matches Err(e) && e.is(
                        INTERNAL_SERVER_ERROR,
                        "INTERNAL_ERROR"@,
                        "invalid etag: failed to parse header value"@,
                    )
                } else if validate::opt_str(if_none_match) == Some(tag) {
                    r matches Ok(TileReply::NotModified { cache_control: c, etag: e }) && c@
                        == cache_control(t.z) && e@ == tag
                } else {
                    r matches Ok(TileReply::Tile { cache_control: c, etag: e, bytes }) && c@
                        == cache_control(t.z) && e@ == tag && bytes == data
                }
            },
        },
{
    let bytes = match read {
        TileRead::Found(bytes) => bytes,
        TileRead::Missing => {
            return Ok(TileReply::NoContent);
        },
        TileRead::Failed(msg) => {
            return Err(ApiError::internal(text::join2("reading tile failed: ", msg.as_str())));
        },
    };
    let cache_control = if t.z <= 10 {
        "public, max-age=86400".to_string()
    } else {
        "public, max-age=3600".to_string()
    };
    let etag = tile_etag(tile_version, t);
    if let Err(msg) = header_value(etag.as_str()) {
        proof {
            reveal_strlit("invalid etag: ");
            reveal_strlit("failed to parse header value");
            reveal_strlit("invalid etag: failed to parse header value");
            assert("invalid etag: "@ + msg@ =~= "invalid etag: failed to parse header value"@);
        }
        return Err(ApiError::internal(text::join2("invalid etag: ", msg.as_str())));
    }
    let known = match if_none_match {
        Some(h) => text::str_equal(h, etag.as_str()),
        None => false,
    };
    if known {
        Ok(TileReply::NotModified { cache_control, etag })
    } else {
        Ok(TileReply::Tile { cache_control, etag, bytes })
    }
}

/// What there is to know of the live version of a layer's tiles.
#[derive(Debug)]
pub enum VersionLookup {
    /// From the layer registry.
    Registered(String),
    /// There is no record in the registry; from the manifest.
    Manifest(String),
    /// There is neither.
    Unpublished,
    /// The manifest cannot be read.
    Failed(String),
}

/// The live version of a layer's tiles.
pub fn live_version(found: VersionLookup, layer_id: &str) -> (r: Result<String, ApiError>)
    ensures
        match found {
            VersionLookup::Registered(v) => r == Result::<String, ApiError>::Ok(v),
            VersionLookup::Manifest(v) => r == Result::<String, ApiError>::Ok(v),
            VersionLookup::Unpublished => r matches Err(e) && e.is(
                NOT_FOUND,
                "LAYER_NOT_PUBLISHED"@,
                "layer "@ + layer_id@ + " has no published tiles"@,
            ),
            VersionLookup::Failed(msg) => r matches Err(e) && e.is(
                INTERNAL_SERVER_ERROR,
                "INTERNAL_ERROR"@,
                "reading manifest failed: "@ + msg@,
            ),
        },
{
    match found {
        VersionLookup::Registered(v) => Ok(v),
        VersionLookup::Manifest(v) => Ok(v),
        VersionLookup::Unpublished => Err(
            ApiError::not_found(
                "LAYER_NOT_PUBLISHED",
                text::join3("layer ", layer_id, " has no published tiles"),
            ),
        ),
        VersionLookup::Failed(msg) => Err(
            ApiError::internal(text::join2("reading manifest failed: ", msg.as_str())),
        ),
    }
}

/// The class of a status in telemetry.
pub open spec fn class_of(status: u16, is_error: bool) -> Seq<char> {
    if !is_error && status == 204 {
        "204"@
    } else if !is_error && status == 304 {
        "304"@
    } else if !is_error && 200 <= status < 300 {
        "200"@
    } else if !is_error && 400 <= status < 500 {
        "4xx"@
    } else if is_error && !(500 <= status < 600) {
        "4xx"@
    } else {
        "5xx"@
    }
}

/// The class of a response's status in telemetry; `is_error` for one that comes from an error.
pub fn status_class(status: u16, is_error: bool) -> (s: &'static str)
    ensures
        s@ == class_of(status, is_error),
{
    if is_error {
        if 500 <= status && status < 600 {
            "5xx"
        } else {
            "4xx"
        }
    } else if status == 204 {
        "204"
    } else if status == 304 {
        "304"
    } else if 200 <= status && status < 300 {
        "200"
    } else if 400 <= status && status < 500 {
        "4xx"
    } else {
        "5xx"
    }
}

} // verus!
