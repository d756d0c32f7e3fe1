//! The state of jobs.
use vstd::prelude::*;
use crate::api::auth;
use crate::api::auth::is_own;
use crate::api::dto::JobResponse;
use crate::api::error::ApiError;
use crate::api::error::FORBIDDEN;
use crate::api::error::NOT_FOUND;
use crate::ingest::validate;
use crate::model::JobRecord;
use crate::text;

verus! {

/// The format of points in time: seconds in UTC.
pub const TIME_FORMAT: &'static str = "%Y-%m-%dT%H:%M:%SZ";

/// A point in time, in milliseconds since the Unix epoch, as `chrono` writes it in UTC by
/// [`TIME_FORMAT`]; nothing where it is outside of `chrono`'s range.
pub uninterp spec fn utc_text(millis: i64) -> Option<Seq<char>>;

/// Writes a point in time with `chrono::DateTime::from_timestamp_millis` and `format`; the time
/// determines the text.
#[verifier::external_body]
fn format_utc(millis: i64, format: &str) -> (r: Option<String>)
    requires
        format@ == TIME_FORMAT@,
    ensures
        match r {
            Some(s) => utc_text(millis) == Some(s@),
            None => utc_text(millis) is None,
        },
{
    chrono::DateTime::from_timestamp_millis(millis).map(|t| t.format(format).to_string())
}

/// The error for a job that is not there.
pub fn job_not_found(job_id: &str) -> (e: ApiError)
    ensures
        e.is(NOT_FOUND, "JOB_NOT_FOUND"@, "job "@ + job_id@ + " not found"@),
{
    ApiError::not_found("JOB_NOT_FOUND", text::join3("job ", job_id, " not found"))
}

/// What a response says of a job; `completed_at` is the written time of completion.
pub open spec fn describes(r: JobResponse, job: JobRecord, completed_at: Option<Seq<char>>) -> bool {
    &&& r.job_id == job.job_id
    &&& r.status == job.status
    &&& r.layer_id == job.layer_id
    &&& r.error == job.error
    &&& r.error_code == job.error_code
    &&& r.failed_stage == job.failed_stage
    &&& match job.outcome {
        Some(o) => {
            &&& r.feature_count == Some(o.feature_count)
            &&& r.published_tile_count == Some(o.published_tile_count)
            &&& r.bounding_box matches Some(v) && v@ == seq![
                o.bounding_box.min_lon,
                o.bounding_box.min_lat,
                o.bounding_box.max_lon,
                o.bounding_box.max_lat,
            ]
            &&& match completed_at {
                Some(t) => r.completed_at matches Some(s) && s@ == t,
                None => r.completed_at is None,
            }
        },
        None => {
            &&& r.feature_count is None
            &&& r.published_tile_count is None
            &&& r.bounding_box is None
            &&& r.completed_at is None
        },
    }
}

/// Describes a job; `completed_at` is the written time of completion.
pub fn describe_job(job: JobRecord, completed_at: Option<String>) -> (r: JobResponse)
    ensures
        describes(
            r,
            job,
            match completed_at {
                Some(s) => Some(s@),
                None => None,
            },
        ),
{
    let (feature_count, published_tile_count, bounding_box, completed_at) = match &job.outcome {
        Some(o) => (
            Some(o.feature_count),
            Some(o.published_tile_count),
            Some(o.bounding_box.to_vec()),
            completed_at,
        ),
        None => (None, None, None, None),
    };
    JobResponse {
        job_id: job.job_id,
        status: job.status,
        layer_id: job.layer_id,
        feature_count,
        published_tile_count,
        bounding_box,
        completed_at,
        error: job.error,
        error_code: job.error_code,
        failed_stage: job.failed_stage,
    }
}

/// The written time of a job's completion.
pub open spec fn completion(job: JobRecord) -> Option<Seq<char>> {
    match job.outcome {
        Some(o) => utc_text(o.completed_at),
        None => None,
    }
}

/// Answers a request for a job's state: its status and, once it is finished, the summary of its
/// outcome. Authenticated callers see their own tenant's jobs only.
pub fn get_job(
    caller: Option<&str>,
    job_id: &str,
    found: Result<Option<JobRecord>, ApiError>,
) -> (r: Result<JobResponse, ApiError>)
    ensures
        match found {
            Err(e) => r == Result::<JobResponse, ApiError>::Err(e),
            Ok(None) => r matches Err(e) && e.is(
                NOT_FOUND,
                "JOB_NOT_FOUND"@,
                "job "@ + job_id@ + " not found"@,
            ),
            Ok(Some(job)) => if auth::may_touch(validate::opt_str(caller), job.tenant_id@) {
                r matches Ok(out) && describes(out, job, completion(job))
            } else {
                r matches Err(e) && e.is(
                    FORBIDDEN,
                    "FORBIDDEN"@,
                    "tenant "@ + validate::opt_str(caller)->Some_0 + " cannot access job "@ + job_id@,
                )
            },
        },
{
    let job = match found {
        Err(e) => {
            return Err(e);
        },
        Ok(None) => {
            return Err(job_not_found(job_id));
        },
        Ok(Some(job)) => job,
    };
    if let Some(c) = caller {
        if !is_own(caller, job.tenant_id.as_str()) {
            let mut message = text::join3("tenant ", c, " cannot access job ");
            message.append(job_id);
            return Err(ApiError::forbidden(message));
        }
    }
    let completed_at = match &job.outcome {
        Some(o) => format_utc(o.completed_at, TIME_FORMAT),
        None => None,
    };
    Ok(describe_job(job, completed_at))
}

} // verus!
