//! Domain models shared across the pipeline.
//!
//! Points in time are milliseconds since the Unix epoch.
use vstd::prelude::*;
use crate::double::Double;

verus! {

/// Source file formats supported by the pipeline.
#[derive(Debug, Clone, Copy, PartialEq, Eq, Structural)]
pub enum SourceFormat {
    GeoJson,
    Shapefile,
    Kml,
    GeoPackage,
    FlatGeobuf,
}

impl SourceFormat {
    /// The formats that the readers handle.
    pub open spec fn supported(self) -> bool {
        self is GeoJson || self is Shapefile
    }

    /// The name of the format in records and messages.
    pub open spec fn name(self) -> Seq<char> {
        match self {
            SourceFormat::GeoJson => "GEOJSON"@,
            SourceFormat::Shapefile => "SHAPEFILE"@,
            SourceFormat::Kml => "KML"@,
            SourceFormat::GeoPackage => "GEOPACKAGE"@,
            SourceFormat::FlatGeobuf => "FLATGEOBUF"@,
        }
    }

    pub fn is_supported_in_mvp(&self) -> (b: bool)
        ensures
            b == self.supported(),
    {
        match self {
            SourceFormat::GeoJson => true,
            SourceFormat::Shapefile => true,
            _ => false,
        }
    }

    pub fn as_str(&self) -> (s: &'static str)
        ensures
            s@ == self.name(),
    {
        match self {
            SourceFormat::GeoJson => "GEOJSON",
            SourceFormat::Shapefile => "SHAPEFILE",
            SourceFormat::Kml => "KML",
            SourceFormat::GeoPackage => "GEOPACKAGE",
            SourceFormat::FlatGeobuf => "FLATGEOBUF",
        }
    }
}

/// Job lifecycle states. `Cancelled` is terminal and not replayable.
#[derive(Debug, Clone, Copy, PartialEq, Eq, Structural)]
pub enum JobStatus {
    UploadPending,
    Queued,
    Validating,
    Normalizing,
    Tiling,
    Publishing,
    Completed,
    Failed,
    Cancelled,
}

impl JobStatus {
    /// No worker will touch the job again by itself.
    pub open spec fn terminal(self) -> bool {
        self is Completed || self is Failed || self is Cancelled
    }

    /// An active processor owns the job.
    pub open spec fn active(self) -> bool {
        self is Queued || self is Validating || self is Normalizing || self is Tiling
            || self is Publishing
    }

    /// A worker may acquire the lease and process the job.
    pub open spec fn runnable(self) -> bool {
        self is UploadPending || self is Queued
    }

    /// The stage that follows when all goes well.
    pub open spec fn next_stage(self) -> Option<JobStatus> {
        match self {
            JobStatus::UploadPending => Some(JobStatus::Queued),
            JobStatus::Queued => Some(JobStatus::Validating),
            JobStatus::Validating => Some(JobStatus::Normalizing),
            JobStatus::Normalizing => Some(JobStatus::Tiling),
            JobStatus::Tiling => Some(JobStatus::Publishing),
            JobStatus::Publishing => Some(JobStatus::Completed),
            _ => None,
        }
    }

    /// The legal edges: the next stage, failure or cancellation of an active job, and the replay
    /// of a failed or a completed one.
    pub open spec fn edge(self, next: JobStatus) -> bool {
        ||| self.next_stage() == Some(next)
        ||| self.active() && (next is Failed || next is Cancelled)
        ||| (self is Failed || self is Completed) && next is Queued
    }

    /// The serialized form.
    pub open spec fn name(self) -> Seq<char> {
        match self {
            JobStatus::UploadPending => "UPLOAD_PENDING"@,
            JobStatus::Queued => "QUEUED"@,
            JobStatus::Validating => "VALIDATING"@,
            JobStatus::Normalizing => "NORMALIZING"@,
            JobStatus::Tiling => "TILING"@,
            JobStatus::Publishing => "PUBLISHING"@,
            JobStatus::Completed => "COMPLETED"@,
            JobStatus::Failed => "FAILED"@,
            JobStatus::Cancelled => "CANCELLED"@,
        }
    }

    pub fn is_terminal(&self) -> (b: bool)
        ensures
            b == self.terminal(),
    {
        matches!(self, JobStatus::Completed | JobStatus::Failed | JobStatus::Cancelled)
    }

    /// Jobs in these states are owned by an active processor; duplicate events for them are
    /// acknowledged without starting new work.
    pub fn is_active(&self) -> (b: bool)
        ensures
            b == self.active(),
    {
        matches!(
            self,
            JobStatus::Queued | JobStatus::Validating | JobStatus::Normalizing | JobStatus::Tiling
                | JobStatus::Publishing
        )
    }

    /// Optimistic state machine: the only legal edges. Replay adds `Failed` to `Queued` and the
    /// guarded `Completed` to `Queued`.
    pub fn can_transition_to(self, next: JobStatus) -> (b: bool)
        ensures
            b == self.edge(next),
    {
        match self {
            JobStatus::UploadPending => matches!(next, JobStatus::Queued),
            JobStatus::Queued => matches!(
                next,
                JobStatus::Validating | JobStatus::Failed | JobStatus::Cancelled
            ),
            JobStatus::Validating => matches!(
                next,
                JobStatus::Normalizing | JobStatus::Failed | JobStatus::Cancelled
            ),
            JobStatus::Normalizing => matches!(
                next,
                JobStatus::Tiling | JobStatus::Failed | JobStatus::Cancelled
            ),
            JobStatus::Tiling => matches!(
                next,
                JobStatus::Publishing | JobStatus::Failed | JobStatus::Cancelled
            ),
            JobStatus::Publishing => matches!(
                next,
                JobStatus::Completed | JobStatus::Failed | JobStatus::Cancelled
            ),
            JobStatus::Failed => matches!(next, JobStatus::Queued),
            JobStatus::Completed => matches!(next, JobStatus::Queued),
            JobStatus::Cancelled => false,
        }
    }

    /// Serialized form, used for `failedStage` reporting.
    pub fn as_str(&self) -> (s: &'static str)
        ensures
            s@ == self.name(),
    {
        match self {
            JobStatus::UploadPending => "UPLOAD_PENDING",
            JobStatus::Queued => "QUEUED",
            JobStatus::Validating => "VALIDATING",
            JobStatus::Normalizing => "NORMALIZING",
            JobStatus::Tiling => "TILING",
            JobStatus::Publishing => "PUBLISHING",
            JobStatus::Completed => "COMPLETED",
            JobStatus::Failed => "FAILED",
            JobStatus::Cancelled => "CANCELLED",
        }
    }

    /// States in which a worker may acquire the lease and process the job.
    pub fn is_runnable(&self) -> (b: bool)
        ensures
            b == self.runnable(),
    {
        matches!(self, JobStatus::UploadPending | JobStatus::Queued)
    }
}

/// Layer categories.
#[derive(Debug, Clone, Copy, PartialEq, Eq, Structural)]
pub enum LayerCategory {
    Parcel,
    Zoning,
    FloodRisk,
    Submarket,
    AssetPoint,
    Macro,
    Other,
}

impl LayerCategory {
    /// The recommended lowest and highest zoom.
    pub open spec fn zooms(self) -> (u8, u8) {
        match self {
            LayerCategory::Macro => (0, 8),
            LayerCategory::Submarket => (4, 12),
            LayerCategory::Parcel => (10, 16),
            LayerCategory::AssetPoint => (4, 16),
            LayerCategory::FloodRisk => (6, 14),
            LayerCategory::Zoning => (8, 16),
            LayerCategory::Other => (0, 16),
        }
    }

    /// Recommended zoom range per category.
    pub fn default_zoom_range(&self) -> (r: ZoomRange)
        ensures
            r.min_zoom == self.zooms().0,
            r.max_zoom == self.zooms().1,
    {
        match self {
            LayerCategory::Macro => ZoomRange::new(0, 8),
            LayerCategory::Submarket => ZoomRange::new(4, 12),
            LayerCategory::Parcel => ZoomRange::new(10, 16),
            LayerCategory::AssetPoint => ZoomRange::new(4, 16),
            LayerCategory::FloodRisk => ZoomRange::new(6, 14),
            LayerCategory::Zoning => ZoomRange::new(8, 16),
            LayerCategory::Other => ZoomRange::new(0, 16),
        }
    }
}

/// Data classification tags.
#[derive(Debug, Clone, Copy, PartialEq, Eq, Structural)]
pub enum SecurityClassification {
    Public,
    Internal,
    Confidential,
}

impl Default for SecurityClassification {
    fn default() -> (c: Self)
        ensures
            c == SecurityClassification::Internal,
    {
        SecurityClassification::Internal
    }
}

/// Inclusive zoom range.
#[derive(Debug, Clone, Copy, PartialEq, Eq, Structural)]
pub struct ZoomRange {
    pub min_zoom: u8,
    pub max_zoom: u8,
}

impl ZoomRange {
    /// The zooms of the range.
    pub open spec fn has(self, z: int) -> bool {
        self.min_zoom <= z <= self.max_zoom
    }

    pub fn new(min_zoom: u8, max_zoom: u8) -> (r: Self)
        ensures
            r.min_zoom == min_zoom,
            r.max_zoom == if max_zoom >= min_zoom {
                max_zoom
            } else {
                min_zoom
            },
    {
        ZoomRange {
            min_zoom,
            max_zoom: if max_zoom >= min_zoom {
                max_zoom
            } else {
                min_zoom
            },
        }
    }

    pub fn contains(&self, z: u8) -> (b: bool)
        ensures
            b == self.has(z as int),
    {
        z >= self.min_zoom && z <= self.max_zoom
    }

    /// The zooms of the range, from the lowest to the highest.
    pub fn iter(&self) -> (zooms: Vec<u8>)
        ensures
            zooms@.len() == if self.min_zoom <= self.max_zoom {
                self.max_zoom - self.min_zoom + 1
            } else {
                0
            },
            forall|i: int| 0 <= i < zooms@.len() ==> #[trigger] zooms@[i] == self.min_zoom + i,
    {
        let mut zooms: Vec<u8> = Vec::new();
        let mut z: u16 = self.min_zoom as u16;
        while z <= self.max_zoom as u16
            invariant
                self.min_zoom <= z <= 256,
                z <= self.max_zoom + 1 || z == self.min_zoom,
                zooms@.len() == z - self.min_zoom,
                forall|i: int| 0 <= i < zooms@.len() ==> #[trigger] zooms@[i] == self.min_zoom + i,
            decreases 256 - z,
        {
            zooms.push(z as u8);
            z = z + 1;
        }
        zooms
    }
}

/// Geographic bounding box in EPSG:4326 `[minLon, minLat, maxLon, maxLat]`.
#[derive(Debug, Clone, Copy, PartialEq, Eq, Structural)]
pub struct Bbox {
    pub min_lon: Double,
    pub min_lat: Double,
    pub max_lon: Double,
    pub max_lat: Double,
}

impl Bbox {
    /// The smallest box around both.
    pub open spec fn joined(self, other: Bbox) -> Bbox {
        Bbox {
            min_lon: self.min_lon.min_num(other.min_lon),
            min_lat: self.min_lat.min_num(other.min_lat),
            max_lon: self.max_lon.max_num(other.max_lon),
            max_lat: self.max_lat.max_num(other.max_lat),
        }
    }

    pub fn new(min_lon: Double, min_lat: Double, max_lon: Double, max_lat: Double) -> (b: Self)
        ensures
            b == (Bbox { min_lon, min_lat, max_lon, max_lat }),
    {
        Bbox { min_lon, min_lat, max_lon, max_lat }
    }

    pub fn union(&self, other: &Bbox) -> (b: Bbox)
        ensures
            b == self.joined(*other),
    {
        Bbox {
            min_lon: self.min_lon.min(other.min_lon),
            min_lat: self.min_lat.min(other.min_lat),
            max_lon: self.max_lon.max(other.max_lon),
            max_lat: self.max_lat.max(other.max_lat),
        }
    }

    pub fn to_vec(&self) -> (v: Vec<Double>)
        ensures
            v@ == seq![self.min_lon, self.min_lat, self.max_lon, self.max_lat],
    {
        vec![self.min_lon, self.min_lat, self.max_lon, self.max_lat]
    }

    /// The box with the given corners, where there are exactly four values.
    pub fn from_vec(v: &[Double]) -> (r: Result<Bbox, String>)
        ensures
            match r {
                Ok(b) => v@.len() == 4 && v@ == seq![b.min_lon, b.min_lat, b.max_lon, b.max_lat],
                Err(msg) => v@.len() != 4 && msg@ == "bbox must have exactly 4 values"@,
            },
    {
        if v.len() == 4 {
            let b = Bbox { min_lon: v[0], min_lat: v[1], max_lon: v[2], max_lat: v[3] };
            assert(v@ =~= seq![b.min_lon, b.min_lat, b.max_lon, b.max_lat]);
            Ok(b)
        } else {
            Err("bbox must have exactly 4 values".to_string())
        }
    }
}

/// Geometry kind summary.
#[derive(Debug, Clone, Copy, PartialEq, Eq, Structural)]
pub enum GeometryKind {
    Point,
    MultiPoint,
    LineString,
    MultiLineString,
    Polygon,
    MultiPolygon,
    Mixed,
}

impl GeometryKind {
    /// The name of the kind in records.
    pub open spec fn name(self) -> Seq<char> {
        match self {
            GeometryKind::Point => "POINT"@,
            GeometryKind::MultiPoint => "MULTIPOINT"@,
            GeometryKind::LineString => "LINESTRING"@,
            GeometryKind::MultiLineString => "MULTILINESTRING"@,
            GeometryKind::Polygon => "POLYGON"@,
            GeometryKind::MultiPolygon => "MULTIPOLYGON"@,
            GeometryKind::Mixed => "MIXED"@,
        }
    }

    pub fn as_str(&self) -> (s: &'static str)
        ensures
            s@ == self.name(),
    {
        match self {
            GeometryKind::Point => "POINT",
            GeometryKind::MultiPoint => "MULTIPOINT",
            GeometryKind::LineString => "LINESTRING",
            GeometryKind::MultiLineString => "MULTILINESTRING",
            GeometryKind::Polygon => "POLYGON",
            GeometryKind::MultiPolygon => "MULTIPOLYGON",
            GeometryKind::Mixed => "MIXED",
        }
    }
}

/// Job record.
#[derive(Debug, Clone)]
pub struct JobRecord {
    pub job_id: String,
    pub tenant_id: String,
    pub layer_id: String,
    pub status: JobStatus,
    pub source_format: SourceFormat,
    pub source_uri: String,
    pub requested_zoom_range: ZoomRange,
    pub created_at: i64,
    pub updated_at: i64,
    pub error: Option<String>,
    /// Machine-readable taxonomy code of the failure.
    pub error_code: Option<String>,
    /// Whether the failure was of the transient or of the permanent class.
    pub error_class: Option<String>,
    /// Workflow stage that failed.
    pub failed_stage: Option<String>,
    /// Whether a replay of the failed job is allowed.
    pub replay_eligible: bool,
    /// How often the job was replayed.
    pub replay_count: u32,
    /// Trace id of the request that created the job.
    pub trace_id: Option<String>,
    /// Idempotency key of the upload request: duplicate requests with the same key return this
    /// job instead of creating a new one.
    pub idempotency_key: Option<String>,
    /// Fingerprint of the upload request payload, used to detect a reused idempotency key with a
    /// different payload.
    pub request_fingerprint: Option<String>,
    /// Fingerprint of the event that started processing.
    pub event_dedupe_fingerprint: Option<String>,
    /// Optimistic-concurrency version; every state write bumps it.
    pub state_version: u64,
    /// Active worker lease; cleared when the run finishes.
    pub lease_token: Option<String>,
    pub locked_by: Option<String>,
    pub lease_expires_at: Option<i64>,
    /// Duplicate events acknowledged for this job.
    pub duplicate_event_count: u64,
    /// Tile version requested at upload time.
    pub requested_tile_version: Option<String>,
    /// Audit record of the most recent replay.
    pub replay_audit: Option<ReplayAudit>,
    /// Populated when the job completes.
    pub outcome: Option<JobOutcomeSummary>,
    /// Layer metadata supplied at upload time.
    pub layer_input: Option<LayerMetadataInput>,
}

/// Audit record persisted on the job whenever a replay is performed.
#[derive(Debug, Clone)]
pub struct ReplayAudit {
    /// Operator identity.
    pub requested_by: String,
    /// Free-form reason.
    pub reason: String,
    /// Replaying a completed job requires this explicit intent to publish a new tile version.
    pub create_new_version: bool,
    pub occurred_at: i64,
}

/// Summary attached to a completed job.
#[derive(Debug, Clone)]
pub struct JobOutcomeSummary {
    pub feature_count: u64,
    pub published_tile_count: u64,
    pub bounding_box: Bbox,
    pub tile_version: String,
    pub completed_at: i64,
}

/// User-supplied layer metadata captured at upload time.
#[derive(Debug, Clone)]
pub struct LayerMetadataInput {
    pub name: Option<String>,
    pub description: Option<String>,
    pub category: Option<LayerCategory>,
    pub tags: Vec<String>,
}

/// Layer catalog record.
#[derive(Debug, Clone)]
pub struct LayerMetadata {
    pub layer_id: String,
    pub tenant_id: String,
    pub name: String,
    pub description: Option<String>,
    pub category: LayerCategory,
    pub source_format: SourceFormat,
    /// Recorded CRS.
    pub crs: String,
    pub geometry_type: GeometryKind,
    pub feature_count: u64,
    pub bounding_box: Bbox,
    pub min_zoom: u8,
    pub max_zoom: u8,
    pub tags: Vec<String>,
    pub security_classification: SecurityClassification,
    pub published_at: Option<i64>,
    /// Current live tile version; tiles live under this version prefix.
    pub tile_version: String,
    /// Where clients find the tiles.
    pub tile_url_template: Option<String>,
    /// True when the source CRS was missing and WGS84 was assumed.
    pub assumed_crs: bool,
}

/// A job is terminal, active, or waiting for its upload, and never two of these at once.
pub proof fn states_are_exclusive(s: JobStatus)
    ensures
        s.terminal() || s.active() || s is UploadPending,
        !(s.terminal() && s.active()),
        !(s.terminal() && s.runnable()),
        s is UploadPending ==> !s.terminal() && !s.active(),
{
}

/// A cancelled job stays cancelled; the other terminal states are left only by a replay, which
/// queues the job again.
pub proof fn terminal_states_are_left_only_by_replay(s: JobStatus, next: JobStatus)
    requires
        s.terminal(),
        s.edge(next),
    ensures
        next is Queued,
        !(s is Cancelled),
{
}

/// No edge leads back to the pending upload, and none from a state to itself.
pub proof fn edges_move_on(s: JobStatus, next: JobStatus)
    requires
        s.edge(next),
    ensures
        next != s,
        !(next is UploadPending),
{
}

/// Publication is only reached stage by stage: `Completed` comes from `Publishing` alone.
pub proof fn completion_comes_from_publishing(s: JobStatus)
    requires
        s.edge(JobStatus::Completed),
    ensures
        s is Publishing,
{
}

/// The union of two boxes is the same in either order, up to the numbers it holds.
pub proof fn box_union_commutes(a: Bbox, b: Bbox)
    requires
        !a.min_lon.nan() && !a.min_lat.nan() && !a.max_lon.nan() && !a.max_lat.nan(),
        !b.min_lon.nan() && !b.min_lat.nan() && !b.max_lon.nan() && !b.max_lat.nan(),
    ensures
        a.joined(b).min_lon.eq_num(b.joined(a).min_lon),
        a.joined(b).min_lat.eq_num(b.joined(a).min_lat),
        a.joined(b).max_lon.eq_num(b.joined(a).max_lon),
        a.joined(b).max_lat.eq_num(b.joined(a).max_lat),
{
}

/// How far a job has come on its way to completion; nothing for a job that left the way.
pub open spec fn progress(s: JobStatus) -> Option<int> {
    match s {
        JobStatus::UploadPending => Some(0),
        JobStatus::Queued => Some(1),
        JobStatus::Validating => Some(2),
        JobStatus::Normalizing => Some(3),
        JobStatus::Tiling => Some(4),
        JobStatus::Publishing => Some(5),
        JobStatus::Completed => Some(6),
        JobStatus::Failed => None,
        JobStatus::Cancelled => None,
    }
}

/// A job moves on by one stage at a time; while it is being worked on it may fail or be cancelled;
/// a failed or a completed one may be queued again. Nothing else happens to a job.
pub proof fn jobs_move_stage_by_stage(s: JobStatus, next: JobStatus)
    ensures
        s.edge(next) <==> {
            ||| progress(s) is Some && progress(next) is Some && progress(next)->Some_0
                == progress(s)->Some_0 + 1
            ||| progress(s) is Some && 1 <= progress(s)->Some_0 <= 5 && (next is Failed
                || next is Cancelled)
            ||| (s is Failed || s is Completed) && next is Queued
        },
        s.active() <==> progress(s) is Some && 1 <= progress(s)->Some_0 <= 5,
        s.terminal() <==> progress(s) == Some(6int) || progress(s) is None,
        s.runnable() <==> progress(s) == Some(0int) || progress(s) == Some(1int),
{
}

/// The names of the states.
pub proof fn states_have_names()
    ensures
        JobStatus::UploadPending.name() == "UPLOAD_PENDING"@,
        JobStatus::Queued.name() == "QUEUED"@,
        JobStatus::Validating.name() == "VALIDATING"@,
        JobStatus::Normalizing.name() == "NORMALIZING"@,
        JobStatus::Tiling.name() == "TILING"@,
        JobStatus::Publishing.name() == "PUBLISHING"@,
        JobStatus::Completed.name() == "COMPLETED"@,
        JobStatus::Failed.name() == "FAILED"@,
        JobStatus::Cancelled.name() == "CANCELLED"@,
{
}

/// The names of the formats, of which GeoJSON and shapefiles are read.
pub proof fn formats_have_names()
    ensures
        SourceFormat::GeoJson.name() == "GEOJSON"@,
        SourceFormat::Shapefile.name() == "SHAPEFILE"@,
        SourceFormat::Kml.name() == "KML"@,
        SourceFormat::GeoPackage.name() == "GEOPACKAGE"@,
        SourceFormat::FlatGeobuf.name() == "FLATGEOBUF"@,
        SourceFormat::GeoJson.supported(),
        SourceFormat::Shapefile.supported(),
        !SourceFormat::Kml.supported(),
        !SourceFormat::GeoPackage.supported(),
        !SourceFormat::FlatGeobuf.supported(),
{
}

/// The recommended zooms of the categories.
pub proof fn categories_have_zooms()
    ensures
        LayerCategory::Macro.zooms() == (0u8, 8u8),
        LayerCategory::Submarket.zooms() == (4u8, 12u8),
        LayerCategory::Parcel.zooms() == (10u8, 16u8),
        LayerCategory::AssetPoint.zooms() == (4u8, 16u8),
        LayerCategory::FloodRisk.zooms() == (6u8, 14u8),
        LayerCategory::Zoning.zooms() == (8u8, 16u8),
        LayerCategory::Other.zooms() == (0u8, 16u8),
{
}

/// The recommended zooms of every category lie between 0 and 16, the lowest before the highest.
pub proof fn recommended_zooms_are_ranges(c: LayerCategory)
    ensures
        c.zooms().0 < c.zooms().1 <= 16,
{
}

/// A range holds exactly the zooms from its lowest to its highest.
pub proof fn ranges_hold_their_zooms(r: ZoomRange, z: int)
    ensures
        r.has(z) <==> r.min_zoom <= z && z <= r.max_zoom,
{
}

} // verus!
