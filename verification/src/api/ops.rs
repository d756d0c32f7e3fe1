//! Operations: rollback of a layer's tiles, replay of a failed job, dead letters, the audit trail.
use vstd::prelude::*;
use crate::api::auth;
use crate::api::auth::is_own;
use crate::api::auth::Audit;
use crate::api::auth::Refusal;
use crate::api::dto::AuditQuery;
use crate::api::dto::ReplayJobRequest;
use crate::api::dto::ReplayJobResponse;
use crate::api::dto::RollbackRequest;
use crate::api::error::ApiError;
use crate::api::error::BAD_REQUEST;
use crate::api::error::CONFLICT;
use crate::api::error::FORBIDDEN;
use crate::api::error::NOT_FOUND;
use crate::api::error::UNPROCESSABLE_ENTITY;
use crate::api::jobs::job_not_found;
use crate::api::layers;
use crate::api::layers::scoped_tenant;
use crate::api::tiles::layer_not_found;
use crate::api::uploads;
use crate::ingest::validate;
use crate::model::JobRecord;
use crate::model::JobStatus;
use crate::model::LayerMetadata;
use crate::scan;
use crate::text;

verus! {

/// Who an operation is attributed to.
pub open spec fn actor(caller: Option<Seq<char>>) -> Seq<char> {
    match caller {
        Some(c) => "api:"@ + c,
        None => "api:operator"@,
    }
}

fn actor_of(caller: Option<&str>) -> (s: String)
    ensures
        s@ == actor(validate::opt_str(caller)),
{
    match caller {
        Some(c) => text::join2("api:", c),
        None => "api:operator".to_string(),
    }
}

/// A rollback that may go ahead.
#[derive(Debug)]
pub struct RollbackPlan {
    pub tenant_id: String,
    pub layer_id: String,
    pub target: String,
    pub reason: String,
    pub actor: String,
}

/// Judges a request to roll a layer back to an earlier tile version. Other tenants' layers are not
/// found. The target and the reason are mandatory.
pub fn rollback_layer(
    caller: Option<&str>,
    layer_id: &str,
    found: Result<Option<LayerMetadata>, ApiError>,
    req: RollbackRequest,
) -> (r: Result<RollbackPlan, ApiError>)
    ensures
        match found {
            Err(e) => r == Result::<RollbackPlan, ApiError>::Err(e),
            Ok(Some(layer)) if auth::may_touch(validate::opt_str(caller), layer.tenant_id@) => {
                if scan::trimmed(req.target_tile_version@).len() == 0 {
                    r matches Err(e) && e.is(
                        BAD_REQUEST,
                        "INVALID_REQUEST"@,
                        "targetTileVersion is required"@,
                    )
                } else if scan::trimmed(req.reason@).len() == 0 {
                    r matches Err(e) && e.is(
                        BAD_REQUEST,
                        "INVALID_REQUEST"@,
                        "reason is required for rollback (auditability, US-AP-06)"@,
                    )
                } else {
                    &&& r matches Ok(plan)
                    &&& plan.tenant_id == layer.tenant_id
                    &&& plan.layer_id == layer.layer_id
                    &&& plan.target@ == scan::trimmed(req.target_tile_version@)
                    &&& plan.reason@ == scan::trimmed(req.reason@)
                    &&& plan.actor@ == actor(validate::opt_str(caller))
                }
            },
            Ok(_) => r matches Err(e) && e.is(
                NOT_FOUND,
                "LAYER_NOT_FOUND"@,
                "layer "@ + layer_id@ + " not found"@,
            ),
        },
{
    let layer = match found {
        Err(e) => {
            return Err(e);
        },
        Ok(None) => {
            return Err(layer_not_found(layer_id));
        },
        Ok(Some(layer)) => layer,
    };
    if !is_own(caller, layer.tenant_id.as_str()) {
        return Err(layer_not_found(layer_id));
    }
    let target = scan::trim(req.target_tile_version.as_str());
    let reason = scan::trim(req.reason.as_str());
    if target.as_str().is_empty() {
        return Err(
            ApiError::bad_request("INVALID_REQUEST", "targetTileVersion is required".to_string()),
        );
    }
    if reason.as_str().is_empty() {
        return Err(
            ApiError::bad_request(
                "INVALID_REQUEST",
                "reason is required for rollback (auditability, US-AP-06)".to_string(),
            ),
        );
    }
    Ok(
        RollbackPlan {
            tenant_id: layer.tenant_id,
            layer_id: layer.layer_id,
            target,
            reason,
            actor: actor_of(caller),
        },
    )
}

/// Why a rollback that was tried did not succeed.
#[derive(Debug)]
pub enum RollbackFailure {
    /// The target cannot be rolled back to, or what is there does not validate.
    InvalidTarget(String),
    /// Anything else, as it is answered.
    Other(ApiError),
}

/// How a rollback that did not succeed is answered.
pub fn rollback_error(failure: RollbackFailure) -> (e: ApiError)
    ensures
        match failure {
            RollbackFailure::InvalidTarget(msg) => e.is(
                UNPROCESSABLE_ENTITY,
                "ROLLBACK_INVALID_TARGET"@,
                msg@,
            ),
            RollbackFailure::Other(other) => e == other,
        },
{
    match failure {
        RollbackFailure::InvalidTarget(msg) => ApiError::unprocessable(
            "ROLLBACK_INVALID_TARGET",
            msg,
        ),
        RollbackFailure::Other(e) => e,
    }
}

/// A replay that may go ahead.
#[derive(Debug)]
pub struct ReplayPlan {
    pub tenant_id: String,
    pub layer_id: String,
    pub job_id: String,
    pub idempotency_key: Option<String>,
    pub requested_by: String,
    pub reason: String,
    pub assume_wgs84: bool,
    pub create_new_version: bool,
}

/// What comes of a request for a replay.
#[derive(Debug)]
pub enum ReplayDecision {
    /// The job has completed; there is nothing to replay.
    NoOp { idempotency_key: Option<String> },
    /// The replay starts.
    Start(ReplayPlan),
}

/// An optional text as `Debug` writes it.
pub open spec fn debug_opt(s: Option<String>) -> Seq<char> {
    match s {
        Some(t) => "Some("@ + text::debug_quoted(t@) + ")"@,
        None => "None"@,
    }
}

fn debug_opt_text(s: &Option<String>) -> (r: String)
    ensures
        r@ == debug_opt(*s),
{
    match s {
        Some(t) => text::join3("Some(", text::debug_text(t.as_str()).as_str(), ")"),
        None => "None".to_string(),
    }
}

/// Why a job cannot be replayed: status, code and message.
pub open spec fn replay_fault(job: JobRecord, job_id: Seq<char>, max_replays: u32) -> Option<
    (u16, Seq<char>, Seq<char>),
> {
    if job.status is Cancelled {
        Some(
            (UNPROCESSABLE_ENTITY, "REPLAY_NOT_ALLOWED"@, "cancelled jobs cannot be replayed"@),
        )
    } else if !(job.status is Failed) {
        Some((CONFLICT, "JOB_ALREADY_ACTIVE"@, "job "@ + job_id + " is "@ + job.status.name()))
    } else if !job.replay_eligible {
        Some(
            (
                UNPROCESSABLE_ENTITY,
                "REPLAY_NOT_ALLOWED"@,
                "original job failed permanent validation ("@ + debug_opt(job.error_code)
                    + "); correct the source data and submit a new upload"@,
            ),
        )
    } else if job.replay_count >= max_replays {
        Some(
            (
                UNPROCESSABLE_ENTITY,
                "REPLAY_NOT_ALLOWED"@,
                "job "@ + job_id + " reached the maximum of "@ + text::decimal(max_replays as nat)
                    + " manual replays; submit a new upload"@,
            ),
        )
    } else {
        None
    }
}

fn check_replay(job: &JobRecord, job_id: &str, max_replays: u32) -> (r: Result<(), ApiError>)
    ensures
        match replay_fault(*job, job_id@, max_replays) {
            None => r is Ok,
            Some((status, code, msg)) => r matches Err(e) && e.is(status, code, msg),
        },
{
    match job.status {
        JobStatus::Cancelled => {
            return Err(
                ApiError::unprocessable(
                    "REPLAY_NOT_ALLOWED",
                    "cancelled jobs cannot be replayed".to_string(),
                ),
            );
        },
        JobStatus::Failed => {},
        _ => {
            let mut message = text::join3("job ", job_id, " is ");
            message.append(job.status.as_str());
            return Err(ApiError::new(CONFLICT, "JOB_ALREADY_ACTIVE", message));
        },
    }
    if !job.replay_eligible {
        let code = debug_opt_text(&job.error_code);
        return Err(
            ApiError::unprocessable(
                "REPLAY_NOT_ALLOWED",
                text::join3(
                    "original job failed permanent validation (",
                    code.as_str(),
                    "); correct the source data and submit a new upload",
                ),
            ),
        );
    }
    if job.replay_count >= max_replays {
        let mut message = text::join3("job ", job_id, " reached the maximum of ");
        message.append(text::decimal_text(max_replays as u64).as_str());
        message.append(" manual replays; submit a new upload");
        return Err(ApiError::unprocessable("REPLAY_NOT_ALLOWED", message));
    }
    Ok(())
}

/// Who asked for a replay: the name in the request where there is one to see, else the caller.
pub open spec fn requester(asked: Option<String>, caller: Option<Seq<char>>) -> Seq<char> {
    match asked {
        Some(s) => if scan::trimmed(s@).len() > 0 {
            s@
        } else {
            actor(caller)
        },
        None => actor(caller),
    }
}

/// Judges a request to replay a job. Callers may replay their own jobs only; attempts on others are
/// audited. The reason is mandatory. A completed job is left alone; only a failed one that is
/// eligible and has replays left runs again.
pub fn replay_job(
    caller: Option<&str>,
    job_id: &str,
    found: Result<Option<JobRecord>, ApiError>,
    req: ReplayJobRequest,
    max_replays: u32,
) -> (r: Result<ReplayDecision, Refusal>)
    ensures
        match found {
            Err(e) => r matches Err(d) && d.error == e && d.audit is None,
            Ok(None) => r matches Err(d) && d.plain(
                NOT_FOUND,
                "JOB_NOT_FOUND"@,
                "job "@ + job_id@ + " not found"@,
            ),
            Ok(Some(job)) => if !auth::may_touch(validate::opt_str(caller), job.tenant_id@) {
                &&& r matches Err(d)
                &&& d.error.is(
                    FORBIDDEN,
                    "FORBIDDEN"@,
                    "tenant "@ + validate::opt_str(caller)->Some_0 + " cannot replay job "@ + job_id@,
                )
                &&& d.audit matches Some(a) && a.records(
                    validate::opt_str(caller)->Some_0,
                    "job "@ + job_id@,
                )
            } else if scan::trimmed(req.reason@).len() == 0 {
                r matches Err(d) && d.plain(
                    BAD_REQUEST,
                    "INVALID_REQUEST"@,
                    "reason is required for replay (auditability, US-AP-06)"@,
                )
            } else if job.status is Completed {
                r matches Ok(ReplayDecision::NoOp { idempotency_key }) && idempotency_key
                    == job.idempotency_key
            } else {
                match replay_fault(job, job_id@, max_replays) {
                    Some((status, code, msg)) => r matches Err(d) && d.plain(status, code, msg),
                    None => {
                        &&& r matches Ok(ReplayDecision::Start(plan))
                        &&& plan.tenant_id == job.tenant_id
                        &&& plan.layer_id == job.layer_id
                        &&& plan.job_id == job.job_id
                        &&& plan.idempotency_key == job.idempotency_key
                        &&& plan.requested_by@ == requester(
                            req.requested_by,
                            validate::opt_str(caller),
                        )
                        &&& plan.reason@ == scan::trimmed(req.reason@)
                        &&& plan.assume_wgs84 == (req.assume_crs_wgs84 || uploads::assumes_wgs84(
                            job,
                        ))
                        &&& plan.create_new_version == req.create_new_version
                    },
                }
            },
        },
{
    let job = match found {
        Err(e) => {
            return Err(Refusal::of(e));
        },
        Ok(None) => {
            return Err(Refusal::of(job_not_found(job_id)));
        },
        Ok(Some(job)) => job,
    };
    if let Some(c) = caller {
        if !is_own(caller, job.tenant_id.as_str()) {
            let mut message = text::join3("tenant ", c, " cannot replay job ");
            message.append(job_id);
            return Err(
                Refusal {
                    error: ApiError::forbidden(message),
                    audit: Some(
                        Audit::Denied {
                            tenant_id: c.to_string(),
                            resource: text::join2("job ", job_id),
                        },
                    ),
                },
            );
        }
    }
    let reason = scan::trim(req.reason.as_str());
    if reason.as_str().is_empty() {
        return Err(
            Refusal::of(
                ApiError::bad_request(
                    "INVALID_REQUEST",
                    "reason is required for replay (auditability, US-AP-06)".to_string(),
                ),
            ),
        );
    }
    let requested_by = match req.requested_by {
        Some(s) => {
            if scan::trim(s.as_str()).as_str().is_empty() {
                actor_of(caller)
            } else {
                s
            }
        },
        None => actor_of(caller),
    };
    if let JobStatus::Completed = job.status {
        return Ok(ReplayDecision::NoOp { idempotency_key: job.idempotency_key });
    }
    if let Err(e) = check_replay(&job, job_id, max_replays) {
        return Err(Refusal::of(e));
    }
    let tagged = uploads::is_tagged_wgs84(&job);
    Ok(
        ReplayDecision::Start(
            ReplayPlan {
                tenant_id: job.tenant_id,
                layer_id: job.layer_id,
                job_id: job.job_id,
                idempotency_key: job.idempotency_key,
                requested_by,
                reason,
                assume_wgs84: req.assume_crs_wgs84 || tagged,
                create_new_version: req.create_new_version,
            },
        ),
    )
}

/// The answer to a replay that has nothing to do, with its HTTP status.
pub fn replay_no_op(job_id: String, idempotency_key: Option<String>, now: i64) -> (r: (
    u16,
    ReplayJobResponse,
))
    ensures
        r.0 == 200,
        r.1.original_job_id == job_id,
        r.1.replay_id is None,
        r.1.status@ == "REPLAY_NO_OP"@,
        r.1.idempotency_key == idempotency_key,
        r.1.reason matches Some(s) && s@ == "original job already completed successfully"@,
        r.1.created_at == now,
{
    (
        200,
        ReplayJobResponse {
            original_job_id: job_id,
            replay_id: None,
            status: "REPLAY_NO_OP".to_string(),
            idempotency_key,
            reason: Some("original job already completed successfully".to_string()),
            created_at: now,
        },
    )
}

/// The answer to a replay that has started, with its HTTP status.
pub fn replay_accepted(
    job_id: String,
    replay_id: String,
    idempotency_key: Option<String>,
    now: i64,
) -> (r: (u16, ReplayJobResponse))
    ensures
        r.0 == 202,
        r.1.original_job_id == job_id,
        r.1.replay_id == Some(replay_id),
        r.1.status@ == "REPLAY_ACCEPTED"@,
        r.1.idempotency_key == idempotency_key,
        r.1.reason is None,
        r.1.created_at == now,
{
    (
        202,
        ReplayJobResponse {
            original_job_id: job_id,
            replay_id: Some(replay_id),
            status: "REPLAY_ACCEPTED".to_string(),
            idempotency_key,
            reason: None,
            created_at: now,
        },
    )
}

/// Where the record with a time goes among records in order: behind those that are not older.
pub open spec fn newest_slot(t: Seq<(i64, usize)>, time: i64) -> int
    decreases t.len(),
{
    if t.len() == 0 || t.last().0 >= time {
        t.len() as int
    } else {
        newest_slot(t.drop_last(), time)
    }
}

/// The first `n` records by their times, the newest first, each with its place.
pub open spec fn newest(times: Seq<i64>, n: nat) -> Seq<(i64, usize)>
    decreases n,
{
    if n == 0 {
        Seq::empty()
    } else {
        let before = newest(times, (n - 1) as nat);
        before.insert(newest_slot(before, times[n - 1]), (times[n - 1], (n - 1) as usize))
    }
}

/// The order in which dead letters are listed: the newest first, those of one time as they came.
/// Gives the times with the places of their records.
pub fn newest_first(times: &[i64]) -> (out: Vec<(i64, usize)>)
    ensures
        out@ == newest(times@, times@.len()),
{
    let mut out: Vec<(i64, usize)> = Vec::new();
    let mut i: usize = 0;
    while i < times.len()
        invariant
            i <= times@.len(),
            out@ == newest(times@, i as nat),
        decreases times@.len() - i,
    {
        let time: i64 = times[i];
        let mut at: usize = out.len();
        assert(out@.take(at as int) =~= out@);
        while at > 0 && out[at - 1].0 < time
            invariant
                at <= out@.len(),
                newest_slot(out@.take(at as int), time) == newest_slot(out@, time),
            decreases at,
        {
            assert(out@.take(at as int).drop_last() =~= out@.take(at - 1));
            at = at - 1;
        }
        assert(newest_slot(out@.take(at as int), time) == at);
        out.insert(at, (time, i));
        i = i + 1;
    }
    out
}

/// A query on the audit trail as it is put.
#[derive(Debug)]
pub struct AuditScope {
    pub tenant_id: Option<String>,
    pub layer_id: Option<String>,
    pub event_type: Option<String>,
    pub limit: usize,
}

/// Limits a query on the audit trail: to an authenticated caller's own tenant, whatever the query
/// says, and to 200 records where it says nothing.
pub fn query_audit(caller: Option<&str>, query: AuditQuery) -> (r: AuditScope)
    ensures
        layers::opt_text(r.tenant_id) == layers::scope(
            validate::opt_str(caller),
            layers::opt_text(query.tenant_id),
        ),
        r.layer_id == query.layer_id,
        r.event_type == query.event_type,
        r.limit == match query.limit {
            Some(n) => n,
            None => 200usize,
        },
{
    let limit: usize = match query.limit {
        Some(n) => n,
        None => 200,
    };
    AuditScope {
        tenant_id: scoped_tenant(caller, query.tenant_id),
        layer_id: query.layer_id,
        event_type: query.event_type,
        limit,
    }
}

/// The tenant whose dead letters are listed: an authenticated caller's own, whatever the query says;
/// everybody's where there is neither a caller nor a tenant in the query.
pub fn list_dlq(caller: Option<&str>, asked: Option<String>) -> (r: Option<String>)
    ensures
        layers::opt_text(r) == layers::scope(validate::opt_str(caller), layers::opt_text(asked)),
{
    scoped_tenant(caller, asked)
}

} // verus!
