//! The decisions behind the API, for two synthetic tenants: same-tenant requests are allowed,
//! cross-tenant ones are not, missing and malformed claims are refused.
use vtile::api::auth::{
    admit_claim, audit_break_glass_if_present, authorized_tenant, break_glass_ref,
    check_tenant_access, require_auth, Audit, Gate,
};
use vtile::api::dto::{
    AuditQuery, LayerListQuery, LayerMetadataInputDto, ReplayJobRequest, RollbackRequest,
    UploadRequest,
};
use vtile::api::error::{ingest_error_to_api, ApiError};
use vtile::api::jobs::{describe_job, get_job};
use vtile::api::layers::{get_layer, list_layers, scoped_tenant};
use vtile::api::ops::{
    list_dlq, newest_first, query_audit, replay_accepted, replay_job, replay_no_op,
    rollback_error, rollback_layer, ReplayDecision, RollbackFailure,
};
use vtile::api::tiles::{
    live_version, parse_tile_coords, resolve_request, serve_tile, status_class, TileRead,
    TileReply, VersionLookup,
};
use vtile::api::uploads::{
    admit_content, create_upload, crs_policy_for, object_key, plan_upload,
    resolve_existing_upload, run_settings, upload_content, upload_created, ContentRefusal,
    Creation, EventDecision, EventRoute, JobSeed, UploadOutcome, UploadPlan,
};
use vtile::double::Double;
use vtile::ingest::normalize::CrsPolicy;
use vtile::ingest::IngestError;
use vtile::model::{
    Bbox, GeometryKind, JobOutcomeSummary, JobRecord, JobStatus, LayerCategory, LayerMetadata,
    LayerMetadataInput, SecurityClassification, SourceFormat, ZoomRange,
};
use vtile::tilemath::TileId;

const TENANT_A: &str = "tenant-alpha";
const TENANT_B: &str = "tenant-beta";
const LAYER_A: &str = "parcels-alpha";
const LAYER_B: &str = "parcels-beta";
const JOB_A: &str = "job-alpha-001";
const JOB_B: &str = "job-beta-001";
const TOKEN: &str = "test-secret";
const PATTERN: &str = "^[a-z][a-z0-9-]{2,62}$";

fn num(x: f64) -> Double {
    Double { bits: x.to_bits() }
}

fn layer_meta(tenant: &str, layer_id: &str) -> LayerMetadata {
    LayerMetadata {
        layer_id: layer_id.to_string(),
        tenant_id: tenant.to_string(),
        name: layer_id.to_string(),
        description: None,
        category: LayerCategory::Parcel,
        source_format: SourceFormat::GeoJson,
        crs: "EPSG:4326".to_string(),
        geometry_type: GeometryKind::Polygon,
        feature_count: 3,
        bounding_box: Bbox::new(num(-74.0), num(40.0), num(-73.0), num(41.0)),
        min_zoom: 10,
        max_zoom: 16,
        tags: vec![],
        security_classification: SecurityClassification::Internal,
        published_at: None,
        tile_version: "v-test".to_string(),
        tile_url_template: None,
        assumed_crs: false,
    }
}

fn job_record(tenant: &str, job_id: &str, status: JobStatus) -> JobRecord {
    JobRecord {
        job_id: job_id.to_string(),
        tenant_id: tenant.to_string(),
        layer_id: if tenant == TENANT_A { LAYER_A } else { LAYER_B }.to_string(),
        status,
        source_format: SourceFormat::GeoJson,
        source_uri: format!("mem://{tenant}"),
        requested_zoom_range: ZoomRange::new(10, 16),
        created_at: 0,
        updated_at: 0,
        error: None,
        error_code: None,
        failed_stage: None,
        error_class: None,
        replay_eligible: false,
        idempotency_key: None,
        trace_id: None,
        request_fingerprint: None,
        event_dedupe_fingerprint: None,
        state_version: 1,
        lease_token: None,
        locked_by: None,
        lease_expires_at: None,
        duplicate_event_count: 0,
        requested_tile_version: None,
        replay_audit: None,
        replay_count: 0,
        outcome: None,
        layer_input: None,
    }
}

fn upload_request(tenant: &str, file_name: &str) -> UploadRequest {
    UploadRequest {
        tenant_id: tenant.to_string(),
        layer_id: LAYER_A.to_string(),
        file_name: file_name.to_string(),
        content_type: Some("application/geo+json".to_string()),
        source_format: SourceFormat::GeoJson,
        metadata: None,
        requested_zoom_range: None,
        assume_crs_wgs84: false,
        processing_profile: None,
    }
}

fn catalog() -> Vec<LayerMetadata> {
    vec![layer_meta(TENANT_B, LAYER_B), layer_meta(TENANT_A, LAYER_A)]
}

fn no_filter() -> LayerListQuery {
    LayerListQuery { tenant_id: None, category: None, market: None }
}

// Layer catalog access.

#[test]
fn same_tenant_layer_read_allowed() {
    let reply = get_layer(Some(TENANT_A), LAYER_A, Ok(Some(layer_meta(TENANT_A, LAYER_A))));
    assert_eq!(reply.result.unwrap().layer_id, LAYER_A);
    let audit = reply.audit.unwrap();
    assert!(audit.allowed);
    assert_eq!(audit.tenant_id, TENANT_A);
    assert_eq!(audit.resource_id, LAYER_A);
}

#[test]
fn cross_tenant_layer_read_denied() {
    let reply = get_layer(Some(TENANT_B), LAYER_A, Ok(Some(layer_meta(TENANT_A, LAYER_A))));
    // Existence-hiding: cross-tenant reads surface as 404, not 403.
    let err = reply.result.unwrap_err();
    assert_eq!(err.status, 404);
    // The denial is audited under the caller's tenant.
    let audit = reply.audit.unwrap();
    assert!(!audit.allowed);
    assert_eq!(audit.tenant_id, TENANT_B);
    // The answer is the one for a layer that is not there.
    let absent = get_layer(Some(TENANT_B), LAYER_A, Ok(None)).result.unwrap_err();
    assert_eq!((absent.status, absent.code, absent.message), (err.status, err.code, err.message));
}

#[test]
fn layer_listing_is_tenant_scoped() {
    let layers = list_layers(Some(TENANT_A), no_filter(), catalog());
    assert_eq!(layers.len(), 1, "tenant-alpha sees exactly its own layer");
    assert_eq!(layers[0].layer_id, LAYER_A);
    // Whatever the query says.
    let mut query = no_filter();
    query.tenant_id = Some(TENANT_B.to_string());
    let layers = list_layers(Some(TENANT_A), query.clone(), catalog());
    assert_eq!(layers[0].layer_id, LAYER_A);
    assert_eq!(list_layers(None, query, catalog())[0].layer_id, LAYER_B);
    assert_eq!(scoped_tenant(None, None), None);
}

#[test]
fn listings_are_filtered_and_ordered() {
    let mut layers = catalog();
    let mut tagged = layer_meta(TENANT_A, "a-first");
    tagged.tags = vec!["NYC metro".to_string()];
    tagged.category = LayerCategory::Zoning;
    layers.push(tagged);
    let ids = |q: LayerListQuery| {
        list_layers(None, q, layers.clone())
            .into_iter()
            .map(|l| l.layer_id)
            .collect::<Vec<String>>()
    };
    assert_eq!(ids(no_filter()), vec!["a-first", LAYER_A, LAYER_B]);
    let mut q = no_filter();
    q.market = Some("nyc".to_string());
    assert_eq!(ids(q), vec!["a-first"]);
    let mut q = no_filter();
    q.market = Some("BETA".to_string());
    assert_eq!(ids(q), vec![LAYER_B]);
    let mut q = no_filter();
    q.category = Some(LayerCategory::Zoning);
    assert_eq!(ids(q), vec!["a-first"]);
}

// Job access.

#[test]
fn cross_tenant_job_status_denied() {
    let job = |t: &str, id: &str| Ok(Some(job_record(t, id, JobStatus::Failed)));
    // tenant-alpha requests tenant-beta's job.
    let err = get_job(Some(TENANT_A), JOB_B, job(TENANT_B, JOB_B)).unwrap_err();
    assert_eq!(err.status, 403);
    // Same-tenant access is allowed.
    assert!(get_job(Some(TENANT_A), JOB_A, job(TENANT_A, JOB_A)).is_ok());
    assert_eq!(get_job(None, "nope", Ok(None)).unwrap_err().code, "JOB_NOT_FOUND");
}

#[test]
fn finished_jobs_tell_their_outcome() {
    let mut job = job_record(TENANT_A, JOB_A, JobStatus::Completed);
    job.outcome = Some(JobOutcomeSummary {
        feature_count: 5,
        published_tile_count: 7,
        bounding_box: Bbox::new(num(1.0), num(2.0), num(3.0), num(4.0)),
        tile_version: "v1".to_string(),
        completed_at: 947_638_923_004,
    });
    let r = get_job(None, JOB_A, Ok(Some(job.clone()))).unwrap();
    assert_eq!(r.feature_count, Some(5));
    assert_eq!(r.published_tile_count, Some(7));
    assert_eq!(r.bounding_box, Some(vec![num(1.0), num(2.0), num(3.0), num(4.0)]));
    assert_eq!(r.completed_at.as_deref(), Some("2000-01-12T01:02:03Z"));
    let r = describe_job(job_record(TENANT_A, JOB_A, JobStatus::Queued), Some("x".to_string()));
    assert_eq!(r.completed_at, None);
}

// Tile delivery.

#[test]
fn cross_tenant_tile_request_denied() {
    let found = || Ok(Some(layer_meta(TENANT_A, LAYER_A)));
    // tenant-beta requests tenant-alpha's tile path.
    let refusal =
        resolve_request(Some(TENANT_B), TENANT_A, LAYER_A, found(), "12", "100", "100.pbf")
            .unwrap_err();
    assert_eq!(refusal.error.status, 403);
    assert!(matches!(
        refusal.audit,
        Some(Audit::Denied { tenant_id, resource })
            if tenant_id == TENANT_B && resource == "tiles of layer parcels-alpha"
    ));
    // The same tenant passes.
    let (layer, tile) =
        resolve_request(Some(TENANT_A), TENANT_A, LAYER_A, found(), "12", "100", "100.pbf")
            .unwrap();
    assert_eq!(layer.layer_id, LAYER_A);
    assert_eq!(tile, TileId::new(12, 100, 100));
    // Without a manifest nothing is published.
    let err = live_version(VersionLookup::Unpublished, LAYER_A).unwrap_err();
    assert_eq!((err.status, err.code.as_str()), (404, "LAYER_NOT_PUBLISHED"));
}

#[test]
fn traversal_layer_id_in_tile_path_rejected() {
    let refusal =
        resolve_request(Some(TENANT_A), TENANT_A, "../evil", Ok(None), "12", "100", "100.pbf")
            .unwrap_err();
    assert!(refusal.error.status == 400 || refusal.error.status == 404);
}

#[test]
fn tile_requests_off_the_grid_are_unprocessable() {
    let found = || Ok(Some(layer_meta(TENANT_A, LAYER_A)));
    let err = |z: &str, x: &str, y: &str| {
        resolve_request(None, TENANT_A, LAYER_A, found(), z, x, y).unwrap_err().error
    };
    let e = err("9", "0", "0");
    assert_eq!((e.status, e.code.as_str()), (422, "ZOOM_OUT_OF_RANGE"));
    assert_eq!(e.message, "zoom 9 is outside the published range 10..=16 for layer parcels-alpha");
    let e = err("10", "1024", "0");
    assert_eq!(e.code, "INVALID_TILE_COORDINATES");
    assert_eq!(e.message, "x/y (1024, 0) out of range for zoom 10 (valid: 0..=1023)");
    let e = err("10", "x", "0");
    assert_eq!((e.status, e.message.as_str()), (400, "invalid x coordinate: \"x\""));
    assert!(parse_tile_coords("256", "0", "0").is_err());
    assert_eq!(parse_tile_coords("+3", "1", "2").unwrap(), TileId::new(3, 1, 2));
    let mut deep = layer_meta(TENANT_A, LAYER_A);
    deep.max_zoom = 40;
    let e = resolve_request(None, TENANT_A, LAYER_A, Ok(Some(deep)), "32", "0", "0")
        .unwrap_err()
        .error;
    assert_eq!(e.message, "zoom 32 exceeds the supported tile grid");
    // Another tenant's layer under the caller's own path is not found.
    let e = resolve_request(None, TENANT_B, LAYER_A, found(), "10", "0", "0").unwrap_err().error;
    assert_eq!(e.code, "LAYER_NOT_FOUND");
}

#[test]
fn tiles_are_served_by_their_tag() {
    let t = TileId::new(10, 1, 2);
    let found = || TileRead::Found(vec![1, 2, 3]);
    match serve_tile(found(), "v1", t, None).unwrap() {
        TileReply::Tile { cache_control, etag, bytes } => {
            assert_eq!(cache_control, "public, max-age=86400");
            assert_eq!(etag, "\"v1/10/1/2\"");
            assert_eq!(bytes, vec![1, 2, 3]);
        }
        other => panic!("unexpected: {other:?}"),
    }
    assert!(matches!(
        serve_tile(found(), "v1", t, Some("\"v1/10/1/2\"")).unwrap(),
        TileReply::NotModified { .. }
    ));
    assert!(matches!(
        serve_tile(found(), "v1", TileId::new(11, 0, 0), Some("other")).unwrap(),
        TileReply::Tile { cache_control, .. } if cache_control == "public, max-age=3600"
    ));
    assert!(matches!(
        serve_tile(TileRead::Missing, "v1", t, None).unwrap(),
        TileReply::NoContent
    ));
    let e = serve_tile(TileRead::Failed("disk".to_string()), "v1", t, None).unwrap_err();
    assert_eq!((e.status, e.message.as_str()), (500, "reading tile failed: disk"));
    let e = serve_tile(found(), "v\n1", t, None).unwrap_err();
    assert_eq!(e.message, "invalid etag: failed to parse header value");
    assert!(serve_tile(found(), "v\u{e9}", t, None).is_ok());
    assert_eq!(live_version(VersionLookup::Registered("v9".to_string()), "l").unwrap(), "v9");
    assert_eq!(live_version(VersionLookup::Manifest("v8".to_string()), "l").unwrap(), "v8");
    let e = live_version(VersionLookup::Failed("x".to_string()), "l").unwrap_err();
    assert_eq!(e.message, "reading manifest failed: x");
}

#[test]
fn statuses_have_classes() {
    assert_eq!(status_class(204, false), "204");
    assert_eq!(status_class(304, false), "304");
    assert_eq!(status_class(206, false), "200");
    assert_eq!(status_class(404, false), "4xx");
    assert_eq!(status_class(404, true), "4xx");
    assert_eq!(status_class(500, true), "5xx");
    assert_eq!(status_class(302, false), "5xx");
}

// Replay and rollback.

fn replay_request(reason: &str) -> ReplayJobRequest {
    ReplayJobRequest {
        reason: reason.to_string(),
        requested_by: None,
        assume_crs_wgs84: false,
        create_new_version: false,
    }
}

#[test]
fn cross_tenant_replay_denied() {
    // tenant-beta attempts to replay tenant-alpha's failed job.
    let found = Ok(Some(job_record(TENANT_A, JOB_A, JobStatus::Failed)));
    let refusal =
        replay_job(Some(TENANT_B), JOB_A, found, replay_request("test"), 3).unwrap_err();
    assert_eq!(refusal.error.status, 403);
    assert!(matches!(
        refusal.audit,
        Some(Audit::Denied { resource, .. }) if resource == "job job-alpha-001"
    ));
}

#[test]
fn replays_are_judged_by_the_job() {
    let judge = |job: JobRecord, reason: &str| {
        replay_job(Some(TENANT_A), JOB_A, Ok(Some(job)), replay_request(reason), 3)
    };
    let job = |s: JobStatus| job_record(TENANT_A, JOB_A, s);
    let e = judge(job(JobStatus::Failed), "  ").unwrap_err().error;
    assert_eq!((e.status, e.code.as_str()), (400, "INVALID_REQUEST"));
    assert!(matches!(
        judge(job(JobStatus::Completed), "r").unwrap(),
        ReplayDecision::NoOp { .. }
    ));
    let e = judge(job(JobStatus::Cancelled), "r").unwrap_err().error;
    assert_eq!(e.message, "cancelled jobs cannot be replayed");
    let e = judge(job(JobStatus::Tiling), "r").unwrap_err().error;
    assert_eq!((e.status, e.message.as_str()), (409, "job job-alpha-001 is TILING"));
    let mut permanent = job(JobStatus::Failed);
    permanent.error_code = Some("INVALID_GEOJSON".to_string());
    let e = judge(permanent, "r").unwrap_err().error;
    assert_eq!(
        e.message,
        "original job failed permanent validation (Some(\"INVALID_GEOJSON\")); correct the source data and submit a new upload"
    );
    let mut worn = job(JobStatus::Failed);
    worn.replay_eligible = true;
    worn.replay_count = 3;
    let e = judge(worn, "r").unwrap_err().error;
    assert_eq!(
        e.message,
        "job job-alpha-001 reached the maximum of 3 manual replays; submit a new upload"
    );
    let mut good = job(JobStatus::Failed);
    good.replay_eligible = true;
    good.idempotency_key = Some("k".to_string());
    good.layer_input = Some(LayerMetadataInput {
        name: None,
        description: None,
        category: None,
        tags: vec!["assume-wgs84".to_string()],
    });
    match judge(good, " because ").unwrap() {
        ReplayDecision::Start(plan) => {
            assert_eq!(plan.reason, "because");
            assert_eq!(plan.requested_by, "api:tenant-alpha");
            assert!(plan.assume_wgs84);
            assert_eq!(plan.idempotency_key.as_deref(), Some("k"));
        }
        other => panic!("unexpected: {other:?}"),
    }
    let (code, r) = replay_accepted(JOB_A.to_string(), "rp".to_string(), None, 5);
    assert_eq!(code, 202);
    assert_eq!((r.status.as_str(), r.replay_id.as_deref()), ("REPLAY_ACCEPTED", Some("rp")));
    let (code, r) = replay_no_op(JOB_A.to_string(), None, 5);
    assert_eq!(code, 200);
    assert_eq!(r.status, "REPLAY_NO_OP");
    assert_eq!(r.created_at, 5);
}

#[test]
fn rollbacks_need_a_target_and_a_reason() {
    let found = || Ok(Some(layer_meta(TENANT_A, LAYER_A)));
    let req = |t: &str, r: &str| RollbackRequest {
        target_tile_version: t.to_string(),
        reason: r.to_string(),
    };
    let e = rollback_layer(Some(TENANT_B), LAYER_A, found(), req("v1", "r")).unwrap_err();
    assert_eq!(e.code, "LAYER_NOT_FOUND");
    let e = rollback_layer(None, LAYER_A, found(), req(" ", "r")).unwrap_err();
    assert_eq!(e.message, "targetTileVersion is required");
    let e = rollback_layer(None, LAYER_A, found(), req("v1", " ")).unwrap_err();
    assert!(e.message.starts_with("reason is required"));
    let plan = rollback_layer(None, LAYER_A, found(), req(" v1 ", "r")).unwrap();
    assert_eq!((plan.target.as_str(), plan.actor.as_str()), ("v1", "api:operator"));
    let e = rollback_error(RollbackFailure::InvalidTarget("gone".to_string()));
    assert_eq!((e.status, e.code.as_str()), (422, "ROLLBACK_INVALID_TARGET"));
    let e = rollback_error(RollbackFailure::Other(ApiError::internal("x".to_string())));
    assert_eq!(e.status, 500);
}

#[test]
fn dead_letters_come_newest_first() {
    assert_eq!(newest_first(&[3, 9, 3, 5]), vec![(9, 1), (5, 3), (3, 0), (3, 2)]);
    assert_eq!(list_dlq(Some(TENANT_A), Some(TENANT_B.to_string())).as_deref(), Some(TENANT_A));
    assert_eq!(list_dlq(None, None), None);
}

#[test]
fn audit_query_is_tenant_scoped() {
    // Records are pinned to the caller's tenant even when the query asks for tenant-beta.
    let scope = query_audit(
        Some(TENANT_A),
        AuditQuery {
            tenant_id: Some(TENANT_B.to_string()),
            layer_id: None,
            event_type: None,
            limit: None,
        },
    );
    assert_eq!(scope.tenant_id.as_deref(), Some(TENANT_A));
    assert_eq!(scope.limit, 200);
}

// Authentication and tenant claims.

#[test]
fn invalid_token_rejected() {
    let e = require_auth(
        Some(TOKEN),
        Some("Bearer wrong-token"),
        "/api/v1/layers",
        Some(TENANT_A),
    )
    .unwrap_err();
    assert_eq!(e.status, 401);
    assert!(require_auth(Some(TOKEN), None, "/healthz", None).is_err());
    assert!(require_auth(Some(TOKEN), Some(TOKEN), "/healthz", None).is_err());
}

#[test]
fn missing_tenant_claim_rejected() {
    let bearer = format!("Bearer {TOKEN}");
    let e = require_auth(Some(TOKEN), Some(&bearer), "/api/v1/layers", None).unwrap_err();
    assert_eq!((e.status, e.code.as_str()), (401, "MISSING_TENANT_CLAIM"));
    let e = require_auth(Some(TOKEN), Some(&bearer), "/tiles/a/b", Some("  ")).unwrap_err();
    assert_eq!(e.code, "MISSING_TENANT_CLAIM");
    assert!(matches!(
        require_auth(Some(TOKEN), Some(&bearer), "/healthz", None).unwrap(),
        Gate::Open
    ));
    assert!(matches!(require_auth(None, None, "/api/v1/layers", None).unwrap(), Gate::Open));
}

#[test]
fn malformed_tenant_claim_rejected() {
    let bearer = format!("Bearer {TOKEN}");
    for bad in ["../evil", "Tenant", "tenant/../x", "ab"] {
        let claim = match require_auth(Some(TOKEN), Some(&bearer), "/api/v1/layers", Some(bad)) {
            Ok(Gate::CheckClaim(c)) => c,
            other => panic!("unexpected: {other:?}"),
        };
        assert_eq!(claim, bad);
        let e = admit_claim(&claim, false, PATTERN).unwrap_err();
        assert_eq!((e.status, e.code.as_str()), (401, "INVALID_TENANT_CLAIM"));
    }
    let e = admit_claim("ab", false, "P").unwrap_err();
    assert_eq!(e.message, "tenant claim \"ab\" does not match P");
    assert!(admit_claim(TENANT_A, true, PATTERN).is_ok());
}

#[test]
fn callers_touch_their_own_resources_only() {
    assert_eq!(authorized_tenant(false, Some(TENANT_A)), None);
    assert_eq!(authorized_tenant(true, Some(TENANT_A)).as_deref(), Some(TENANT_A));
    assert!(!check_tenant_access(None, TENANT_A, "layer", LAYER_A).unwrap());
    assert!(check_tenant_access(Some(TENANT_A), TENANT_A, "layer", LAYER_A).unwrap());
    let d = check_tenant_access(Some(TENANT_B), TENANT_A, "layer", LAYER_A).unwrap_err();
    assert_eq!(
        d.error.message,
        "tenant tenant-beta cannot access layer owned by tenant tenant-alpha"
    );
    assert!(matches!(
        d.audit,
        Some(Audit::Decision(a)) if !a.allowed && a.reason.as_deref() == Some("TENANT_MISMATCH")
    ));
}

#[test]
fn break_glass_is_audited_when_referenced() {
    assert_eq!(break_glass_ref(Some("  ")), None);
    assert_eq!(break_glass_ref(Some(" INC-1 ")).as_deref(), Some("INC-1"));
    let b = audit_break_glass_if_present(
        Some("INC-1"),
        Some(TENANT_B.to_string()),
        TENANT_A,
        "ROLLBACK",
    )
    .unwrap();
    assert_eq!(b.reference, "INC-1");
    assert_eq!(b.principal.as_deref(), Some(TENANT_B));
    assert!(audit_break_glass_if_present(None, None, TENANT_A, "ROLLBACK").is_none());
}

// Uploads.

#[test]
fn upload_body_tenant_mismatch_denied() {
    // Authenticated as tenant-beta, but the body names tenant-alpha.
    let refusal =
        plan_upload(Some(TENANT_B), upload_request(TENANT_A, "parcels.geojson"), true, PATTERN)
            .unwrap_err();
    assert_eq!(refusal.error.status, 403);
}

#[test]
fn upload_invalid_tenant_id_rejected_in_local_mode() {
    // Auth disabled (local-dev mode): the body tenant id is still validated.
    let refusal = plan_upload(None, upload_request("../evil", "parcels.geojson"), false, PATTERN)
        .unwrap_err();
    assert_eq!(refusal.error.status, 400);
    assert_eq!(refusal.error.code, "INVALID_TENANT_ID");
}

#[test]
fn upload_traversal_file_name_rejected() {
    let refusal =
        plan_upload(None, upload_request(TENANT_A, "../../etc/passwd.geojson"), true, PATTERN)
            .unwrap_err();
    assert_eq!(refusal.error.status, 400);
    assert_eq!(refusal.error.code, "INVALID_RESOURCE_ID");
}

#[test]
fn upload_file_names_may_have_directories() {
    let accepted = |name: &str| plan_upload(None, upload_request(TENANT_A, name), true, PATTERN);
    for name in ["nyc/parcels.geojson", "a..b.geojson", "./x.geojson", "..x/y.geojson"] {
        assert!(accepted(name).is_ok(), "{name}");
    }
    for name in ["/etc/a.geojson", "\\a.geojson", "a/../b.geojson", "a\\..\\b.geojson", ".."] {
        let e = accepted(name).unwrap_err().error;
        assert_eq!((e.status, e.code.as_str()), (400, "INVALID_RESOURCE_ID"), "{name}");
    }
}

#[test]
fn upload_requests_are_checked_in_order() {
    let mut req = upload_request(" ", "a.geojson");
    let e = plan_upload(None, req, false, PATTERN).unwrap_err().error;
    assert_eq!(e.message, "tenantId and layerId are required");
    req = upload_request(TENANT_A, "a.kml");
    req.source_format = SourceFormat::Kml;
    let e = plan_upload(None, req, true, PATTERN).unwrap_err().error;
    assert_eq!(e.message, "Kml is not supported in MVP (GeoJSON and Shapefile only)");
    let e = plan_upload(None, upload_request(TENANT_A, "a.zip"), true, PATTERN).unwrap_err().error;
    assert_eq!((e.status, e.code.as_str()), (422, "INVALID_FILE_TYPE"));
}

fn plan(wgs84: bool) -> UploadPlan {
    let mut req = upload_request(TENANT_A, "parcels.geojson");
    req.assume_crs_wgs84 = wgs84;
    req.metadata = Some(LayerMetadataInputDto {
        name: Some("n".to_string()),
        description: None,
        category: Some(LayerCategory::Macro),
        tags: vec!["t".to_string()],
    });
    plan_upload(Some(TENANT_A), req, true, PATTERN).unwrap()
}

fn seed() -> JobSeed {
    JobSeed {
        job_id: "job-1".to_string(),
        staging_root: "data/staging/tenant-alpha/job-1".to_string(),
        now: 77,
        trace_id: "trace".to_string(),
        tile_version: "v1".to_string(),
    }
}

#[test]
fn new_uploads_wait_for_their_content() {
    let p = plan(true);
    assert_eq!(p.zoom_range, ZoomRange::new(0, 8));
    let job = match create_upload(p, seed(), "k".into(), "f".into(), Ok(None), 900).unwrap() {
        UploadOutcome::Create(job) => job,
        other => panic!("unexpected: {other:?}"),
    };
    assert_eq!(job.status, JobStatus::UploadPending);
    assert_eq!(job.source_uri, "data/staging/tenant-alpha/job-1/input/parcels.geojson");
    assert_eq!(job.created_at, 77);
    let input = job.layer_input.as_ref().unwrap();
    assert_eq!(input.tags, vec!["t", "assume-wgs84"]);
    assert_eq!(crs_policy_for(Some(&job)), CrsPolicy::AssumeWgs84);
    assert_eq!(crs_policy_for(None), CrsPolicy::RequireKnown);
    let (tiles, opts) = run_settings(&job, "macro_l".to_string(), 5);
    assert_eq!(tiles.layer_name, "macro_l");
    assert_eq!(tiles.zoom_range, ZoomRange::new(0, 8));
    assert_eq!(opts.max_upload_bytes, 5);
    assert_eq!(opts.crs_policy, CrsPolicy::AssumeWgs84);
    let (status, r) =
        upload_created(Creation::Created, "job-1", "f", "k".to_string(), 900).unwrap();
    assert_eq!(status, 202);
    assert_eq!(r.upload_url, "/api/v1/ingest/uploads/job-1/content");
    assert_eq!(r.expires_in, 900);
    // The same request again leads to the same job; another payload is a conflict.
    match create_upload(plan(true), seed(), "k".into(), "f".into(), Ok(Some(job.clone())), 900) {
        Ok(UploadOutcome::Answer(200, r)) => assert_eq!(r.job_id, "job-1"),
        other => panic!("unexpected: {other:?}"),
    }
    let e = resolve_existing_upload(&job, "g", "k".to_string(), 900).unwrap_err();
    assert_eq!((e.status, e.code.as_str()), (409, "IDEMPOTENCY_KEY_PAYLOAD_MISMATCH"));
    // Losing a race leads to the winner's job.
    let (status, r) = upload_created(
        Creation::AlreadyExists(Some(job)),
        "job-2",
        "f",
        "k".to_string(),
        900,
    )
    .unwrap();
    assert_eq!((status, r.job_id.as_str()), (200, "job-1"));
    let e = upload_created(Creation::AlreadyExists(None), "job-2", "f", "k".to_string(), 900)
        .unwrap_err();
    assert_eq!(e.status, 500);
}

#[test]
fn cross_tenant_upload_content_denied() {
    // tenant-beta tries to feed tenant-alpha's job.
    let found = Ok(Some(job_record(TENANT_A, JOB_A, JobStatus::Failed)));
    match admit_content(Some(TENANT_B), JOB_A, found, 42, 1000) {
        Err(ContentRefusal::Refused(d)) => assert_eq!(d.error.status, 403),
        other => panic!("unexpected: {other:?}"),
    }
}

#[test]
fn content_is_admitted_by_job_and_size() {
    let found = || Ok(Some(job_record(TENANT_A, JOB_A, JobStatus::UploadPending)));
    match admit_content(None, "ghost", Ok(None), 1, 10) {
        Err(ContentRefusal::Orphan(o, e)) => {
            assert_eq!(o.object_key, "staging/ghost");
            assert_eq!(e.status, 404);
        }
        other => panic!("unexpected: {other:?}"),
    }
    match admit_content(None, JOB_A, found(), 11, 10) {
        Err(ContentRefusal::Refused(d)) => {
            assert_eq!((d.error.status, d.error.message.as_str()), (413, "11 bytes exceeds limit of 10"))
        }
        other => panic!("unexpected: {other:?}"),
    }
    match admit_content(None, JOB_A, found(), 0, 10) {
        Err(ContentRefusal::Refused(d)) => assert_eq!(d.error.code, "EMPTY_DATASET"),
        other => panic!("unexpected: {other:?}"),
    }
    let job = admit_content(Some(TENANT_A), JOB_A, found(), 10, 10).unwrap();
    match upload_content(EventDecision::StartRun, job, JOB_A.to_string(), "fp".to_string(), 9) {
        Ok(EventRoute::Start { queued, response }) => {
            assert_eq!(queued.status, JobStatus::Queued);
            assert_eq!(queued.state_version, 2);
            assert_eq!(queued.event_dedupe_fingerprint.as_deref(), Some("fp"));
            assert_eq!(queued.updated_at, 9);
            assert_eq!(queued.tenant_id, TENANT_A);
            assert_eq!(response.status, JobStatus::Queued);
        }
        other => panic!("unexpected: {other:?}"),
    }
    let job = job_record(TENANT_A, JOB_A, JobStatus::Completed);
    match upload_content(EventDecision::TerminalAck, job, JOB_A.into(), "fp".into(), 9) {
        Ok(EventRoute::Acknowledge(r)) => assert_eq!(r.status, JobStatus::Completed),
        other => panic!("unexpected: {other:?}"),
    }
    let job = job_record(TENANT_A, JOB_A, JobStatus::Queued);
    assert!(upload_content(EventDecision::Orphan, job, JOB_A.into(), "fp".into(), 9).is_err());
    assert_eq!(object_key("file://file:///data/x"), "/data/x");
    assert_eq!(object_key("mem://x"), "mem://x");
}

// Errors.

#[test]
fn ingest_errors_have_their_statuses() {
    let status = |e: IngestError| {
        let a = ingest_error_to_api(&e);
        (a.status, a.code, a.message)
    };
    assert_eq!(
        status(IngestError::InvalidShapefile("m".to_string())),
        (422, "INVALID_SHAPEFILE".to_string(), "m".to_string())
    );
    assert_eq!(
        status(IngestError::PayloadTooLarge { size: 2, max: 1 }),
        (413, "PAYLOAD_TOO_LARGE".to_string(), "2 bytes exceeds limit of 1".to_string())
    );
    assert_eq!(status(IngestError::DatasetTooLarge { features: 2, max: 1 }).0, 413);
    assert_eq!(status(IngestError::MissingShapefileComponents("m".to_string())).0, 422);
    assert_eq!(status(IngestError::Io("m".to_string())).0, 500);
    assert_eq!(status(IngestError::Other("m".to_string())).1, "INTERNAL_ERROR");
    assert_eq!(
        status(IngestError::GeometryErrors { unrecoverable: 1, first: "f".to_string() }).2,
        "geometry errors: 1 unrecoverable feature(s); first: f"
    );
    let e = ApiError::bad_request("C", "m".to_string());
    assert_eq!((e.status, e.code.as_str()), (400, "C"));
    assert_eq!(ApiError::forbidden("m".to_string()).status, 403);
}
