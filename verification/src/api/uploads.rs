//! Uploads: creating a job, and receiving its content.
//!
//! A repeated request with the same idempotency key and an equivalent payload leads to the existing
//! job; with another payload it is a conflict. Repeated content is acknowledged without new work.
use vstd::prelude::*;
use crate::api::auth;
use crate::api::auth::check_tenant_access;
use crate::api::auth::Audit;
use crate::api::auth::Refusal;
use crate::api::dto::LayerMetadataInputDto;
use crate::api::dto::UploadAcceptedResponse;
use crate::api::dto::UploadRequest;
use crate::api::dto::UploadResponse;
use crate::api::error;
use crate::api::error::ingest_error_to_api;
use crate::api::error::ApiError;
use crate::api::error::BAD_REQUEST;
use crate::api::error::CONFLICT;
use crate::api::error::FORBIDDEN;
use crate::api::error::INTERNAL_SERVER_ERROR;
use crate::api::error::NOT_FOUND;
use crate::api::error::PAYLOAD_TOO_LARGE;
use crate::api::error::UNPROCESSABLE_ENTITY;
use crate::api::jobs::job_not_found;
use crate::api::layers;
use crate::config;
use crate::config::has_name;
use crate::config::TileConfig;
use crate::ingest::normalize::CrsPolicy;
use crate::ingest::normalize::NormalizeOptions;
use crate::ingest::validate;
use crate::ingest::validate::validate_file_type;
use crate::model::JobRecord;
use crate::model::JobStatus;
use crate::model::LayerCategory;
use crate::model::LayerMetadataInput;
use crate::model::SourceFormat;
use crate::model::ZoomRange;
use crate::scan;
use crate::text;

verus! {

/// The tag that says that WGS84 may be assumed.
pub const ASSUME_WGS84_TAG: &'static str = "assume-wgs84";

/// Whether a job was uploaded with the choice to assume WGS84.
pub open spec fn assumes_wgs84(job: JobRecord) -> bool {
    job.layer_input matches Some(m) && config::strings(m.tags@).contains(ASSUME_WGS84_TAG@)
}

/// Whether a job was uploaded with the choice to assume WGS84.
pub fn is_tagged_wgs84(job: &JobRecord) -> (b: bool)
    ensures
        b == assumes_wgs84(*job),
{
    match &job.layer_input {
        Some(m) => has_name(m.tags.as_slice(), ASSUME_WGS84_TAG),
        None => false,
    }
}

/// The CRS policy of a job: the choice made at upload, as it is stored with the job.
pub fn crs_policy_for(found: Option<&JobRecord>) -> (p: CrsPolicy)
    ensures
        p == match found {
            Some(job) => if assumes_wgs84(*job) {
                CrsPolicy::AssumeWgs84
            } else {
                CrsPolicy::RequireKnown
            },
            None => CrsPolicy::RequireKnown,
        },
{
    match found {
        Some(job) => if is_tagged_wgs84(job) {
            CrsPolicy::AssumeWgs84
        } else {
            CrsPolicy::RequireKnown
        },
        None => CrsPolicy::RequireKnown,
    }
}

/// A character between the components of a path.
pub open spec fn separates(c: char) -> bool {
    c == '/' || c == '\\'
}

/// Whether a component `..` stands at `i`.
pub open spec fn climbs_at(s: Seq<char>, i: int) -> bool {
    &&& 0 <= i
    &&& i + 2 <= s.len()
    &&& s[i] == '.' && s[i + 1] == '.'
    &&& i == 0 || separates(s[i - 1])
    &&& i + 2 == s.len() || separates(s[i + 2])
}

/// Whether a file name stays below the directory it is put in: it is not absolute, and no component
/// of it is `..`.
pub open spec fn stays_below(s: Seq<char>) -> bool {
    &&& s.len() > 0 ==> !separates(s[0])
    &&& forall|i: int| !#[trigger] climbs_at(s, i)
}

fn is_separator(c: char) -> (b: bool)
    ensures
        b == separates(c),
{
    c == '/' || c == '\\'
}

fn is_below(s: &str) -> (b: bool)
    ensures
        b == stays_below(s@),
{
    let chars = text::to_chars(s);
    let n: usize = chars.len();
    if n > 0 && is_separator(chars[0]) {
        return false;
    }
    let mut i: usize = 0;
    while i < n
        invariant
            chars@ == s@,
            n == chars@.len(),
            i <= n,
            forall|k: int| 0 <= k < i ==> !#[trigger] climbs_at(chars@, k),
        decreases n - i,
    {
        if n - i >= 2 && chars[i] == '.' && chars[i + 1] == '.' && (i == 0 || is_separator(
            chars[i - 1],
        )) && (n - i == 2 || is_separator(chars[i + 2])) {
            assert(climbs_at(chars@, i as int));
            return false;
        }
        i = i + 1;
    }
    true
}

/// An upload that may go ahead.
#[derive(Debug)]
pub struct UploadPlan {
    pub tenant_id: String,
    pub layer_id: String,
    pub file_name: String,
    pub content_type: Option<String>,
    pub source_format: SourceFormat,
    pub category: Option<LayerCategory>,
    pub zoom_range: ZoomRange,
    pub layer_input: Option<LayerMetadataInput>,
    pub processing_profile: Option<String>,
}

/// The name of a source format in messages.
pub open spec fn format_name(f: SourceFormat) -> Seq<char> {
    match f {
        SourceFormat::GeoJson => "GeoJson"@,
        SourceFormat::Shapefile => "Shapefile"@,
        SourceFormat::Kml => "Kml"@,
        SourceFormat::GeoPackage => "GeoPackage"@,
        SourceFormat::FlatGeobuf => "FlatGeobuf"@,
    }
}

fn format_label(f: SourceFormat) -> (s: &'static str)
    ensures
        s@ == format_name(f),
{
    match f {
        SourceFormat::GeoJson => "GeoJson",
        SourceFormat::Shapefile => "Shapefile",
        SourceFormat::Kml => "Kml",
        SourceFormat::GeoPackage => "GeoPackage",
        SourceFormat::FlatGeobuf => "FlatGeobuf",
    }
}

/// The category that an uploader names.
pub open spec fn named_category(metadata: Option<LayerMetadataInputDto>) -> Option<LayerCategory> {
    match metadata {
        Some(m) => m.category,
        None => None,
    }
}

/// The zooms of an upload: those asked for, else those of the category.
pub open spec fn chosen_zooms(req: UploadRequest) -> ZoomRange {
    match req.requested_zoom_range {
        Some(z) => z,
        None => {
            let c = match named_category(req.metadata) {
                Some(c) => c,
                None => LayerCategory::Other,
            };
            ZoomRange { min_zoom: c.zooms().0, max_zoom: c.zooms().1 }
        },
    }
}

/// The tags of an upload: those given, with the one for the choice to assume WGS84.
pub open spec fn chosen_tags(given: Seq<Seq<char>>, wgs84: bool) -> Seq<Seq<char>> {
    if wgs84 && !given.contains(ASSUME_WGS84_TAG@) {
        given.push(ASSUME_WGS84_TAG@)
    } else {
        given
    }
}

/// Whether layer metadata is what is stored of a request.
pub open spec fn stores(
    input: Option<LayerMetadataInput>,
    metadata: Option<LayerMetadataInputDto>,
    wgs84: bool,
) -> bool {
    match metadata {
        Some(m) => {
            &&& input matches Some(i)
            &&& i.name == m.name
            &&& i.description == m.description
            &&& i.category == m.category
            &&& config::strings(i.tags@) == chosen_tags(config::strings(m.tags@), wgs84)
        },
        None => if wgs84 {
            &&& input matches Some(i)
            &&& i.name is None
            &&& i.description is None
            &&& i.category is None
            &&& config::strings(i.tags@) == seq![ASSUME_WGS84_TAG@]
        } else {
            input is None
        },
    }
}

fn store_metadata(metadata: Option<LayerMetadataInputDto>, wgs84: bool) -> (r: Option<
    LayerMetadataInput,
>)
    ensures
        stores(r, metadata, wgs84),
{
    match metadata {
        Some(m) => {
            let ghost given = m.tags@;
            let mut tags = m.tags;
            if wgs84 && !has_name(tags.as_slice(), ASSUME_WGS84_TAG) {
                tags.push(ASSUME_WGS84_TAG.to_string());
                assert(config::strings(tags@) =~= config::strings(given).push(ASSUME_WGS84_TAG@));
            }
            Some(
                LayerMetadataInput {
                    name: m.name,
                    description: m.description,
                    category: m.category,
                    tags,
                },
            )
        },
        None => {
            if wgs84 {
                let mut tags: Vec<String> = Vec::new();
                tags.push(ASSUME_WGS84_TAG.to_string());
                assert(config::strings(tags@) =~= seq![ASSUME_WGS84_TAG@]);
                Some(LayerMetadataInput { name: None, description: None, category: None, tags })
            } else {
                None
            }
        },
    }
}

/// Why a request for an upload is refused: status, code and message. `tenant_valid` says whether the
/// tenant id matches the approved pattern.
pub open spec fn upload_fault(req: UploadRequest, tenant_valid: bool, pattern: Seq<char>) -> Option<
    (u16, Seq<char>, Seq<char>),
> {
    if scan::trimmed(req.tenant_id@).len() == 0 || scan::trimmed(req.layer_id@).len() == 0 {
        Some((BAD_REQUEST, "INVALID_REQUEST"@, "tenantId and layerId are required"@))
    } else if !tenant_valid {
        Some(
            (
                BAD_REQUEST,
                "INVALID_TENANT_ID"@,
                "tenantId "@ + text::debug_quoted(req.tenant_id@) + " does not match "@ + pattern,
            ),
        )
    } else if !stays_below(req.file_name@) {
        Some(
            (
                BAD_REQUEST,
                "INVALID_RESOURCE_ID"@,
                "fileName "@ + text::debug_quoted(req.file_name@) + " leaves its directory"@,
            ),
        )
    } else if !req.source_format.supported() {
        Some(
            (
                UNPROCESSABLE_ENTITY,
                "UNSUPPORTED_FORMAT"@,
                format_name(req.source_format)
                    + " is not supported in MVP (GeoJSON and Shapefile only)"@,
            ),
        )
    } else {
        match validate::file_type_fault(
            req.file_name@,
            layers::opt_text(req.content_type),
            req.source_format,
        ) {
            Some(msg) => Some((UNPROCESSABLE_ENTITY, "INVALID_FILE_TYPE"@, msg)),
            None => None,
        }
    }
}

fn check_upload(req: &UploadRequest, tenant_valid: bool, pattern: &str) -> (r: Result<(), ApiError>)
    ensures
        match upload_fault(*req, tenant_valid, pattern@) {
            None => r is Ok,
            Some((status, code, msg)) => r matches Err(e) && e.is(status, code, msg),
        },
{
    if scan::trim(req.tenant_id.as_str()).as_str().is_empty() || scan::trim(
        req.layer_id.as_str(),
    ).as_str().is_empty() {
        return Err(
            ApiError::bad_request(
                "INVALID_REQUEST",
                "tenantId and layerId are required".to_string(),
            ),
        );
    }
    if !tenant_valid {
        let mut message = text::join3(
            "tenantId ",
            text::debug_text(req.tenant_id.as_str()).as_str(),
            " does not match ",
        );
        message.append(pattern);
        return Err(ApiError::bad_request("INVALID_TENANT_ID", message));
    }
    if !is_below(req.file_name.as_str()) {
        return Err(
            ApiError::bad_request(
                "INVALID_RESOURCE_ID",
                text::join3(
                    "fileName ",
                    text::debug_text(req.file_name.as_str()).as_str(),
                    " leaves its directory",
                ),
            ),
        );
    }
    if !req.source_format.is_supported_in_mvp() {
        return Err(
            ApiError::unprocessable(
                "UNSUPPORTED_FORMAT",
                text::join2(
                    format_label(req.source_format),
                    " is not supported in MVP (GeoJSON and Shapefile only)",
                ),
            ),
        );
    }
    let content_type = match &req.content_type {
        Some(c) => Some(c.as_str()),
        None => None,
    };
    match validate_file_type(req.file_name.as_str(), content_type, req.source_format) {
        Ok(_) => Ok(()),
        Err(e) => Err(ingest_error_to_api(&e)),
    }
}

/// Judges a request for an upload. It may name the caller's own tenant only. `tenant_valid` says
/// whether its tenant id matches the approved pattern.
pub fn plan_upload(
    caller: Option<&str>,
    req: UploadRequest,
    tenant_valid: bool,
    pattern: &str,
) -> (r: Result<UploadPlan, Refusal>)
    ensures
        match upload_fault(req, tenant_valid, pattern@) {
            Some((status, code, msg)) => r matches Err(d) && d.plain(status, code, msg),
            None => if !auth::may_touch(validate::opt_str(caller), req.tenant_id@) {
                let c = validate::opt_str(caller)->Some_0;
                &&& r matches Err(d)
                &&& d.error.is(
                    FORBIDDEN,
                    "FORBIDDEN"@,
                    "tenant "@ + c + " cannot access upload owned by tenant "@ + req.tenant_id@,
                )
                &&& d.audit matches Some(Audit::Decision(a)) && a.denies(
                    c,
                    "upload"@,
                    req.layer_id@,
                )
            } else {
                &&& r matches Ok(plan)
                &&& plan.tenant_id == req.tenant_id
                &&& plan.layer_id == req.layer_id
                &&& plan.file_name == req.file_name
                &&& plan.content_type == req.content_type
                &&& plan.source_format == req.source_format
                &&& plan.category == named_category(req.metadata)
                &&& plan.zoom_range == chosen_zooms(req)
                &&& stores(plan.layer_input, req.metadata, req.assume_crs_wgs84)
                &&& plan.processing_profile == req.processing_profile
            },
        },
{
    if let Err(e) = check_upload(&req, tenant_valid, pattern) {
        return Err(Refusal::of(e));
    }
    if let Err(d) = check_tenant_access(
        caller,
        req.tenant_id.as_str(),
        "upload",
        req.layer_id.as_str(),
    ) {
        proof {
            reveal_strlit(" cannot access ");
            reveal_strlit("upload");
            reveal_strlit(" owned by tenant ");
            reveal_strlit(" cannot access upload owned by tenant ");
            let c = validate::opt_str(caller)->Some_0;
            assert("tenant "@ + c + " cannot access "@ + "upload"@ + " owned by tenant "@
                + req.tenant_id@ =~= "tenant "@ + c + " cannot access upload owned by tenant "@
                + req.tenant_id@);
        }
        return Err(d);
    }
    let category: Option<LayerCategory> = match &req.metadata {
        Some(m) => m.category,
        None => None,
    };
    let zoom_range = match req.requested_zoom_range {
        Some(z) => z,
        None => match category {
            Some(c) => c.default_zoom_range(),
            None => LayerCategory::Other.default_zoom_range(),
        },
    };
    let layer_input = store_metadata(req.metadata, req.assume_crs_wgs84);
    Ok(
        UploadPlan {
            tenant_id: req.tenant_id,
            layer_id: req.layer_id,
            file_name: req.file_name,
            content_type: req.content_type,
            source_format: req.source_format,
            category,
            zoom_range,
            layer_input,
            processing_profile: req.processing_profile,
        },
    )
}

/// Where the content of a job is sent.
pub open spec fn upload_url(job_id: Seq<char>) -> Seq<char> {
    "/api/v1/ingest/uploads/"@ + job_id + "/content"@
}

fn content_url(job_id: &str) -> (s: String)
    ensures
        s@ == upload_url(job_id@),
{
    text::join3("/api/v1/ingest/uploads/", job_id, "/content")
}

/// Whether an answer is that to a request for an upload: its status and what it says.
pub open spec fn answers(
    r: (u16, UploadResponse),
    status: u16,
    job_id: Seq<char>,
    key: Seq<char>,
    expires_in: u64,
    state: JobStatus,
) -> bool {
    &&& r.0 == status
    &&& r.1.job_id@ == job_id
    &&& r.1.idempotency_key@ == key
    &&& r.1.upload_url@ == upload_url(job_id)
    &&& r.1.expires_in == expires_in
    &&& r.1.status == state
}

/// Whether a stored request is the one with a fingerprint.
pub open spec fn same_request(existing: JobRecord, fingerprint: Seq<char>) -> bool {
    existing.request_fingerprint matches Some(f) && f@ == fingerprint
}

/// Whether `r` is how a repeated request is answered.
pub open spec fn resolves(
    r: Result<(u16, UploadResponse), ApiError>,
    existing: JobRecord,
    fingerprint: Seq<char>,
    key: Seq<char>,
    expires_in: u64,
) -> bool {
    if same_request(existing, fingerprint) {
        r matches Ok(a) && answers(
            a,
            200,
            existing.job_id@,
            key,
            expires_in,
            existing.status,
        )
    } else {
        r matches Err(e) && e.is(
            CONFLICT,
            "IDEMPOTENCY_KEY_PAYLOAD_MISMATCH"@,
            "Idempotency-Key was already used with a different payload (job "@ + existing.job_id@
                + ")"@,
        )
    }
}

/// Answers a repeated request: an equivalent payload leads to the existing job, a different one is a
/// conflict.
pub fn resolve_existing_upload(
    existing: &JobRecord,
    payload_fingerprint: &str,
    idempotency_key: String,
    expires_secs: u64,
) -> (r: Result<(u16, UploadResponse), ApiError>)
    ensures
        resolves(r, *existing, payload_fingerprint@, idempotency_key@, expires_secs),
{
    let same = match &existing.request_fingerprint {
        Some(f) => text::str_equal(f.as_str(), payload_fingerprint),
        None => false,
    };
    if same {
        return Ok(
            (
                200,
                UploadResponse {
                    job_id: existing.job_id.clone(),
                    idempotency_key,
                    upload_url: content_url(existing.job_id.as_str()),
                    expires_in: expires_secs,
                    status: existing.status,
                },
            ),
        );
    }
    Err(
        ApiError::new(
            CONFLICT,
            "IDEMPOTENCY_KEY_PAYLOAD_MISMATCH",
            text::join3(
                "Idempotency-Key was already used with a different payload (job ",
                existing.job_id.as_str(),
                ")",
            ),
        ),
    )
}

/// The names and times that a new job gets.
#[derive(Debug)]
pub struct JobSeed {
    pub job_id: String,
    /// Where the job's files are staged.
    pub staging_root: String,
    pub now: i64,
    pub trace_id: String,
    pub tile_version: String,
}

/// What comes of a request for an upload.
#[derive(Debug)]
pub enum UploadOutcome {
    /// There is an answer.
    Answer(u16, UploadResponse),
    /// The job is to be created, if there is none of its id.
    Create(JobRecord),
}

/// Whether a job is the one that an upload creates.
pub open spec fn creates(
    job: JobRecord,
    plan: UploadPlan,
    seed: JobSeed,
    key: Seq<char>,
    fingerprint: Seq<char>,
) -> bool {
    &&& job.job_id == seed.job_id
    &&& job.tenant_id == plan.tenant_id
    &&& job.layer_id == plan.layer_id
    &&& job.status == JobStatus::UploadPending
    &&& job.source_format == plan.source_format
    &&& job.source_uri@ == seed.staging_root@ + "/input/"@ + plan.file_name@
    &&& job.requested_zoom_range == plan.zoom_range
    &&& job.created_at == seed.now
    &&& job.updated_at == seed.now
    &&& job.error is None
    &&& job.error_code is None
    &&& job.error_class is None
    &&& job.failed_stage is None
    &&& !job.replay_eligible
    &&& job.replay_count == 0
    &&& job.trace_id == Some(seed.trace_id)
    &&& job.idempotency_key matches Some(k) && k@ == key
    &&& job.request_fingerprint matches Some(f) && f@ == fingerprint
    &&& job.event_dedupe_fingerprint is None
    &&& job.state_version == 1
    &&& job.lease_token is None
    &&& job.locked_by is None
    &&& job.lease_expires_at is None
    &&& job.duplicate_event_count == 0
    &&& job.requested_tile_version == Some(seed.tile_version)
    &&& job.replay_audit is None
    &&& job.outcome is None
    &&& job.layer_input == plan.layer_input
}

/// Decides what comes of an upload that may go ahead: the answer of a repeated request where a job
/// with its idempotency key exists, else a new job that waits for its content.
pub fn create_upload(
    plan: UploadPlan,
    seed: JobSeed,
    idempotency_key: String,
    payload_fingerprint: String,
    existing: Result<Option<JobRecord>, ApiError>,
    expires_secs: u64,
) -> (r: Result<UploadOutcome, ApiError>)
    ensures
        match existing {
            Err(e) => r == Result::<UploadOutcome, ApiError>::Err(e),
            Ok(Some(job)) => match r {
                Ok(UploadOutcome::Answer(status, response)) => resolves(
                    Ok((status, response)),
                    job,
                    payload_fingerprint@,
                    idempotency_key@,
                    expires_secs,
                ),
                Ok(UploadOutcome::Create(_)) => false,
                Err(e) => resolves(
                    Err(e),
                    job,
                    payload_fingerprint@,
                    idempotency_key@,
                    expires_secs,
                ),
            },
            Ok(None) => r matches Ok(UploadOutcome::Create(job)) && creates(
                job,
                plan,
                seed,
                idempotency_key@,
                payload_fingerprint@,
            ),
        },
{
    match existing {
        Err(e) => {
            return Err(e);
        },
        Ok(Some(job)) => {
            return match resolve_existing_upload(
                &job,
                payload_fingerprint.as_str(),
                idempotency_key,
                expires_secs,
            ) {
                Ok((status, response)) => Ok(UploadOutcome::Answer(status, response)),
                Err(e) => Err(e),
            };
        },
        Ok(None) => {},
    }
    let source_uri = text::join3(seed.staging_root.as_str(), "/input/", plan.file_name.as_str());
    Ok(
        UploadOutcome::Create(
            JobRecord {
                job_id: seed.job_id,
                tenant_id: plan.tenant_id,
                layer_id: plan.layer_id,
                status: JobStatus::UploadPending,
                source_format: plan.source_format,
                source_uri,
                requested_zoom_range: plan.zoom_range,
                created_at: seed.now,
                updated_at: seed.now,
                error: None,
                error_code: None,
                error_class: None,
                failed_stage: None,
                replay_eligible: false,
                replay_count: 0,
                trace_id: Some(seed.trace_id),
                idempotency_key: Some(idempotency_key),
                request_fingerprint: Some(payload_fingerprint),
                event_dedupe_fingerprint: None,
                state_version: 1,
                lease_token: None,
                locked_by: None,
                lease_expires_at: None,
                duplicate_event_count: 0,
                requested_tile_version: Some(seed.tile_version),
                replay_audit: None,
                outcome: None,
                layer_input: plan.layer_input,
            },
        ),
    )
}

/// What creating a job gave.
#[derive(Debug)]
pub enum Creation {
    Created,
    /// There is a job of that id; with it, the one that has the idempotency key by now.
    AlreadyExists(Option<JobRecord>),
    Failed(ApiError),
}

/// Answers a request for an upload once its job was created. Losing a race to a request with the
/// same key leads to the winner's job.
pub fn upload_created(
    creation: Creation,
    job_id: &str,
    payload_fingerprint: &str,
    idempotency_key: String,
    expires_secs: u64,
) -> (r: Result<(u16, UploadResponse), ApiError>)
    ensures
        match creation {
            Creation::Created => r matches Ok(a) && answers(
                a,
                202,
                job_id@,
                idempotency_key@,
                expires_secs,
                JobStatus::UploadPending,
            ),
            Creation::AlreadyExists(Some(job)) => resolves(
                r,
                job,
                payload_fingerprint@,
                idempotency_key@,
                expires_secs,
            ),
            Creation::AlreadyExists(None) => r matches Err(e) && e.is(
                INTERNAL_SERVER_ERROR,
                "INTERNAL_ERROR"@,
                "job registry conflict: duplicate jobId without a matching idempotency key"@,
            ),
            Creation::Failed(e) => r == Result::<(u16, UploadResponse), ApiError>::Err(e),
        },
{
    match creation {
        Creation::Created => Ok(
            (
                202,
                UploadResponse {
                    job_id: job_id.to_string(),
                    idempotency_key,
                    upload_url: content_url(job_id),
                    expires_in: expires_secs,
                    status: JobStatus::UploadPending,
                },
            ),
        ),
        Creation::AlreadyExists(Some(job)) => resolve_existing_upload(
            &job,
            payload_fingerprint,
            idempotency_key,
            expires_secs,
        ),
        Creation::AlreadyExists(None) => Err(
            ApiError::internal(
                "job registry conflict: duplicate jobId without a matching idempotency key".to_string(),
            ),
        ),
        Creation::Failed(e) => Err(e),
    }
}

/// Content for a job that nobody knows.
#[derive(Debug)]
pub struct Orphan {
    pub source_event_type: String,
    pub object_key: String,
    pub reason: String,
}

/// Why content is refused.
#[derive(Debug)]
pub enum ContentRefusal {
    /// There is no such job; the event goes to the orphans.
    Orphan(Orphan, ApiError),
    Refused(Refusal),
}

/// Judges content that comes for a job: the job has to exist and to be the caller's, and the content
/// has to be neither empty nor too large.
pub fn admit_content(
    caller: Option<&str>,
    job_id: &str,
    found: Result<Option<JobRecord>, ApiError>,
    size: u64,
    max_upload_bytes: u64,
) -> (r: Result<JobRecord, ContentRefusal>)
    ensures
        match found {
            Err(e) => r matches Err(ContentRefusal::Refused(d)) && d.error == e && d.audit is None,
            Ok(None) => {
                &&& r matches Err(ContentRefusal::Orphan(o, e))
                &&& o.source_event_type@ == "UPLOAD_CONTENT"@
                &&& o.object_key@ == "staging/"@ + job_id@
                &&& o.reason@ == "content PUT for an unknown jobId"@
                &&& e.is(NOT_FOUND, "JOB_NOT_FOUND"@, "job "@ + job_id@ + " not found"@)
            },
            Ok(Some(job)) => if !auth::may_touch(validate::opt_str(caller), job.tenant_id@) {
                let c = validate::opt_str(caller)->Some_0;
                &&& r matches Err(ContentRefusal::Refused(d))
                &&& d.error.status == FORBIDDEN
                &&& d.error.code@ == "FORBIDDEN"@
                &&& d.error.message@ == "tenant "@ + c + " cannot access "@ + "job"@
                    + " owned by tenant "@ + job.tenant_id@
                &&& d.audit matches Some(Audit::Decision(a)) && a.denies(c, "job"@, job_id@)
            } else if size > max_upload_bytes {
                r matches Err(ContentRefusal::Refused(d)) && d.plain(
                    PAYLOAD_TOO_LARGE,
                    "PAYLOAD_TOO_LARGE"@,
                    text::decimal(size as nat) + " bytes exceeds limit of "@ + text::decimal(
                        max_upload_bytes as nat,
                    ),
                )
            } else if size == 0 {
                r matches Err(ContentRefusal::Refused(d)) && d.plain(
                    UNPROCESSABLE_ENTITY,
                    "EMPTY_DATASET"@,
                    "upload body is empty"@,
                )
            } else {
                r == Result::<JobRecord, ContentRefusal>::Ok(job)
            },
        },
{
    let job = match found {
        Err(e) => {
            return Err(ContentRefusal::Refused(Refusal::of(e)));
        },
        Ok(None) => {
            let orphan = Orphan {
                source_event_type: "UPLOAD_CONTENT".to_string(),
                object_key: text::join2("staging/", job_id),
                reason: "content PUT for an unknown jobId".to_string(),
            };
            return Err(ContentRefusal::Orphan(orphan, job_not_found(job_id)));
        },
        Ok(Some(job)) => job,
    };
    if let Err(d) = check_tenant_access(caller, job.tenant_id.as_str(), "job", job_id) {
        return Err(ContentRefusal::Refused(d));
    }
    if size > max_upload_bytes {
        let a = text::decimal_text(size);
        let b = text::decimal_text(max_upload_bytes);
        return Err(
            ContentRefusal::Refused(
                Refusal::of(
                    ApiError::new(
                        PAYLOAD_TOO_LARGE,
                        "PAYLOAD_TOO_LARGE",
                        text::join3(a.as_str(), " bytes exceeds limit of ", b.as_str()),
                    ),
                ),
            ),
        );
    }
    if size == 0 {
        return Err(
            ContentRefusal::Refused(
                Refusal::of(
                    ApiError::unprocessable("EMPTY_DATASET", "upload body is empty".to_string()),
                ),
            ),
        );
    }
    Ok(job)
}

/// A location without the `file://` in front of it, however often it stands there.
pub open spec fn without_scheme(uri: Seq<char>) -> Seq<char>
    decreases uri.len(),
{
    if uri.len() >= 7 && uri.take(7) == seq!['f', 'i', 'l', 'e', ':', '/', '/'] {
        without_scheme(uri.skip(7))
    } else {
        uri
    }
}

/// The key of the object that content is stored under.
pub fn object_key(source_uri: &str) -> (s: String)
    ensures
        s@ == without_scheme(source_uri@),
{
    let chars = text::to_chars(source_uri);
    let mut from: usize = 0;
    assert(chars@.skip(0) =~= chars@);
    while chars.len() - from >= 7 && chars[from] == 'f' && chars[from + 1] == 'i' && chars[from + 2]
        == 'l' && chars[from + 3] == 'e' && chars[from + 4] == ':' && chars[from + 5] == '/'
        && chars[from + 6] == '/'
        invariant
            from <= chars@.len(),
            without_scheme(chars@.skip(from as int)) == without_scheme(source_uri@),
        decreases chars@.len() - from,
    {
        proof {
            let rest = chars@.skip(from as int);
            assert(rest.take(7) =~= seq!['f', 'i', 'l', 'e', ':', '/', '/']);
            assert(rest.skip(7) =~= chars@.skip(from + 7));
        }
        from = from + 7;
    }
    proof {
        let rest = chars@.skip(from as int);
        if rest.len() >= 7 && rest.take(7) == seq!['f', 'i', 'l', 'e', ':', '/', '/'] {
            let w = rest.take(7);
            assert(w[0] == rest[0] && w[1] == rest[1] && w[2] == rest[2] && w[3] == rest[3] && w[4]
                == rest[4] && w[5] == rest[5] && w[6] == rest[6]);
        }
    }
    let s = text::from_chars(chars.as_slice(), from, chars.len());
    assert(s@ =~= chars@.skip(from as int));
    s
}

/// What an event is, given what is known of its job and of earlier events.
#[derive(Debug, Clone, Copy, PartialEq, Eq, Structural)]
pub enum EventDecision {
    /// It has no job.
    Orphan,
    /// It came before.
    DuplicateSuppressed,
    /// Its job has ended.
    TerminalAck,
    /// It starts a run.
    StartRun,
}

/// What comes of an event.
#[derive(Debug)]
pub enum EventRoute {
    /// It is acknowledged, and counted as a duplicate of the job's.
    Acknowledge(UploadAcceptedResponse),
    /// The job is queued.
    Start { queued: JobRecord, response: UploadAcceptedResponse },
}

/// Routes the event that content for a job is. A run binds the event to the job and queues it.
pub fn upload_content(
    decision: EventDecision,
    job: JobRecord,
    job_id: String,
    fingerprint: String,
    now: i64,
) -> (r: Result<EventRoute, ApiError>)
    requires
        job.state_version < u64::MAX,
    ensures
        match decision {
            EventDecision::Orphan => r matches Err(e) && e.is(
                NOT_FOUND,
                "JOB_NOT_FOUND"@,
                "job "@ + job_id@ + " not found"@,
            ),
            EventDecision::DuplicateSuppressed | EventDecision::TerminalAck => r matches Ok(
                EventRoute::Acknowledge(a),
            ) && a.job_id == job_id && a.status == job.status,
            EventDecision::StartRun => {
                &&& r matches Ok(EventRoute::Start { queued, response })
                &&& queued == (JobRecord {
                    status: JobStatus::Queued,
                    event_dedupe_fingerprint: Some(fingerprint),
                    state_version: (job.state_version + 1) as u64,
                    updated_at: now,
                    ..job
                })
                &&& response.job_id == job_id
                &&& response.status == JobStatus::Queued
            },
        },
{
    match decision {
        EventDecision::Orphan => Err(job_not_found(job_id.as_str())),
        EventDecision::DuplicateSuppressed | EventDecision::TerminalAck => Ok(
            EventRoute::Acknowledge(UploadAcceptedResponse { job_id, status: job.status }),
        ),
        EventDecision::StartRun => {
            let mut queued = job;
            queued.status = JobStatus::Queued;
            queued.event_dedupe_fingerprint = Some(fingerprint);
            queued.state_version = queued.state_version + 1;
            queued.updated_at = now;
            Ok(
                EventRoute::Start {
                    queued,
                    response: UploadAcceptedResponse { job_id, status: JobStatus::Queued },
                },
            )
        },
    }
}

/// The settings of a job's run: tiles under the layer's name for the job's zooms, everything else
/// by default.
pub fn run_settings(job: &JobRecord, layer_name: String, max_upload_bytes: u64) -> (r: (
    TileConfig,
    NormalizeOptions,
))
    ensures
        r.0.layer_name == layer_name,
        r.0.zoom_range == job.requested_zoom_range,
        r.0.extent == config::DEFAULT_EXTENT,
        r.0.buffer == 256,
        r.0.simplify_below_zoom == config::SIMPLIFY_BELOW_ZOOM,
        r.0.target_max_tile_bytes == config::TARGET_MAX_TILE_BYTES,
        r.0.hard_max_tile_bytes == config::HARD_MAX_TILE_BYTES,
        r.0.gzip_level == 6,
        r.0.property_policy.is_default(),
        r.0.parallel,
        r.1.max_upload_bytes == max_upload_bytes,
        r.1.max_features == validate::DEFAULT_MAX_FEATURES,
        r.1.crs_policy == if assumes_wgs84(*job) {
            CrsPolicy::AssumeWgs84
        } else {
            CrsPolicy::RequireKnown
        },
        r.1.property_policy.is_default(),
{
    let mut tiles = TileConfig::default();
    tiles.layer_name = layer_name;
    tiles.zoom_range = job.requested_zoom_range;
    let mut opts = NormalizeOptions::default();
    opts.max_upload_bytes = max_upload_bytes;
    opts.crs_policy = crs_policy_for(Some(job));
    (tiles, opts)
}

/// A repeated request that is equivalent leads to the job that the first one created.
pub proof fn repeated_uploads_converge(
    job: JobRecord,
    plan: UploadPlan,
    seed: JobSeed,
    key: Seq<char>,
    fingerprint: Seq<char>,
    expires_in: u64,
    r: Result<(u16, UploadResponse), ApiError>,
)
    requires
        creates(job, plan, seed, key, fingerprint),
        resolves(r, job, fingerprint, key, expires_in),
    ensures
        r matches Ok(a) && a.1.job_id@ == seed.job_id@ && a.1.idempotency_key@ == key,
{
}

/// The choice to assume WGS84 that a request makes is the one that its job's run goes by.
pub proof fn crs_choice_is_kept(
    job: JobRecord,
    plan: UploadPlan,
    seed: JobSeed,
    key: Seq<char>,
    fingerprint: Seq<char>,
    req: UploadRequest,
)
    requires
        creates(job, plan, seed, key, fingerprint),
        stores(plan.layer_input, req.metadata, req.assume_crs_wgs84),
        req.assume_crs_wgs84,
    ensures
        assumes_wgs84(job),
{
    match req.metadata {
        Some(m) => {
            let given = config::strings(m.tags@);
            let tags = chosen_tags(given, true);
            if !given.contains(ASSUME_WGS84_TAG@) {
                assert(tags[tags.len() - 1] == ASSUME_WGS84_TAG@);
            }
        },
        None => {
            assert(seq![ASSUME_WGS84_TAG@][0] == ASSUME_WGS84_TAG@);
        },
    }
}

} // verus!
