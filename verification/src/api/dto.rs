//! Requests and responses of the API.
use vstd::prelude::*;
use crate::double::Double;
use crate::model::JobStatus;
use crate::model::LayerCategory;
use crate::model::SourceFormat;
use crate::model::ZoomRange;

verus! {

/// A request for an upload.
#[derive(Debug, Clone)]
pub struct UploadRequest {
    pub tenant_id: String,
    pub layer_id: String,
    pub file_name: String,
    pub content_type: Option<String>,
    pub source_format: SourceFormat,
    pub metadata: Option<LayerMetadataInputDto>,
    /// Overrides the zoom range that the category suggests.
    pub requested_zoom_range: Option<ZoomRange>,
    /// Assume EPSG:4326 when a shapefile has no `.prj`.
    pub assume_crs_wgs84: bool,
    /// Named processing profile; part of the idempotency key.
    pub processing_profile: Option<String>,
}

/// What the uploader says of the layer.
#[derive(Debug, Clone)]
pub struct LayerMetadataInputDto {
    pub name: Option<String>,
    pub description: Option<String>,
    pub category: Option<LayerCategory>,
    pub tags: Vec<String>,
}

/// The answer to a request for an upload.
#[derive(Debug, Clone)]
pub struct UploadResponse {
    pub job_id: String,
    /// The key under which repeated requests lead to the same job.
    pub idempotency_key: String,
    pub upload_url: String,
    pub expires_in: u64,
    pub status: JobStatus,
}

/// The answer to an upload.
#[derive(Debug, Clone)]
pub struct UploadAcceptedResponse {
    pub job_id: String,
    pub status: JobStatus,
}

/// The state of a job.
#[derive(Debug, Clone)]
pub struct JobResponse {
    pub job_id: String,
    pub status: JobStatus,
    pub layer_id: String,
    pub feature_count: Option<u64>,
    pub published_tile_count: Option<u64>,
    pub bounding_box: Option<Vec<Double>>,
    pub completed_at: Option<String>,
    pub error: Option<String>,
    /// Machine-readable code of the failure.
    pub error_code: Option<String>,
    /// Workflow stage where a failed job stopped.
    pub failed_stage: Option<String>,
}

/// Filters on the layer catalog.
#[derive(Debug, Clone)]
pub struct LayerListQuery {
    pub tenant_id: Option<String>,
    pub category: Option<LayerCategory>,
    /// Free text, looked for in names and tags.
    pub market: Option<String>,
}

/// A request for a rollback. The reason goes to the audit trail.
#[derive(Debug, Clone)]
pub struct RollbackRequest {
    pub target_tile_version: String,
    pub reason: String,
}

/// A request for a replay. The reason goes to the audit trail.
#[derive(Debug, Clone)]
pub struct ReplayJobRequest {
    pub reason: String,
    /// The authenticated caller where it is not given.
    pub requested_by: Option<String>,
    /// Assume EPSG:4326 for an unknown CRS.
    pub assume_crs_wgs84: bool,
    /// Replay a completed job to publish a new version.
    pub create_new_version: bool,
}

/// The answer to a request for a replay: `REPLAY_ACCEPTED` or `REPLAY_NO_OP`.
#[derive(Debug, Clone)]
pub struct ReplayJobResponse {
    pub original_job_id: String,
    pub replay_id: Option<String>,
    pub status: String,
    pub idempotency_key: Option<String>,
    pub reason: Option<String>,
    pub created_at: i64,
}

/// Filters on the dead-letter queue.
#[derive(Debug, Clone)]
pub struct DlqListQuery {
    pub tenant_id: Option<String>,
}

/// Filters on the audit trail.
#[derive(Debug, Clone)]
pub struct AuditQuery {
    pub tenant_id: Option<String>,
    pub layer_id: Option<String>,
    pub event_type: Option<String>,
    pub limit: Option<usize>,
}

} // verus!
