//! The errors that the API answers with.
use vstd::prelude::*;
use crate::ingest::error::IngestError;
use crate::text;

verus! {

pub const BAD_REQUEST: u16 = 400;

pub const UNAUTHORIZED: u16 = 401;

pub const FORBIDDEN: u16 = 403;

pub const NOT_FOUND: u16 = 404;

pub const CONFLICT: u16 = 409;

pub const PAYLOAD_TOO_LARGE: u16 = 413;

pub const UNPROCESSABLE_ENTITY: u16 = 422;

pub const INTERNAL_SERVER_ERROR: u16 = 500;

/// An error with its HTTP status, a machine-readable code and a message.
#[derive(Debug)]
pub struct ApiError {
    pub status: u16,
    pub code: String,
    pub message: String,
}

impl ApiError {
    /// Whether the error has the given parts.
    pub open spec fn is(self, status: u16, code: Seq<char>, message: Seq<char>) -> bool {
        self.status == status && self.code@ == code && self.message@ == message
    }

    pub fn new(status: u16, code: &str, message: String) -> (e: Self)
        ensures
            e.is(status, code@, message@),
    {
        ApiError { status, code: code.to_string(), message }
    }

    pub fn bad_request(code: &str, message: String) -> (e: Self)
        ensures
            e.is(BAD_REQUEST, code@, message@),
    {
        ApiError::new(BAD_REQUEST, code, message)
    }

    pub fn unauthorized(message: String) -> (e: Self)
        ensures
            e.is(UNAUTHORIZED, "UNAUTHORIZED"@, message@),
    {
        ApiError::new(UNAUTHORIZED, "UNAUTHORIZED", message)
    }

    pub fn forbidden(message: String) -> (e: Self)
        ensures
            e.is(FORBIDDEN, "FORBIDDEN"@, message@),
    {
        ApiError::new(FORBIDDEN, "FORBIDDEN", message)
    }

    pub fn not_found(code: &str, message: String) -> (e: Self)
        ensures
            e.is(NOT_FOUND, code@, message@),
    {
        ApiError::new(NOT_FOUND, code, message)
    }

    pub fn unprocessable(code: &str, message: String) -> (e: Self)
        ensures
            e.is(UNPROCESSABLE_ENTITY, code@, message@),
    {
        ApiError::new(UNPROCESSABLE_ENTITY, code, message)
    }

    pub fn internal(message: String) -> (e: Self)
        ensures
            e.is(INTERNAL_SERVER_ERROR, "INTERNAL_ERROR"@, message@),
    {
        ApiError::new(INTERNAL_SERVER_ERROR, "INTERNAL_ERROR", message)
    }
}

/// The status that an ingestion error is answered with.
pub open spec fn ingest_status(err: IngestError) -> u16 {
    match err {
        IngestError::PayloadTooLarge { .. } => PAYLOAD_TOO_LARGE,
        IngestError::DatasetTooLarge { .. } => PAYLOAD_TOO_LARGE,
        IngestError::Io(_) => INTERNAL_SERVER_ERROR,
        IngestError::Other(_) => INTERNAL_SERVER_ERROR,
        _ => UNPROCESSABLE_ENTITY,
    }
}

/// The code that an ingestion error is answered with: its own, but for errors that are not the
/// client's.
pub open spec fn ingest_code(err: IngestError) -> Seq<char> {
    match err {
        IngestError::Other(_) => "INTERNAL_ERROR"@,
        _ => err.code(),
    }
}

/// The message that an ingestion error is answered with.
pub open spec fn ingest_message(err: IngestError) -> Seq<char> {
    match err {
        IngestError::InvalidShapefile(msg) => msg@,
        IngestError::MissingShapefileComponents(msg) => msg@,
        IngestError::InvalidFileType(msg) => msg@,
        IngestError::InvalidGeoJson(msg) => msg@,
        IngestError::EmptyDataset(msg) => msg@,
        IngestError::PayloadTooLarge { size, max } => text::decimal(size as nat)
            + " bytes exceeds limit of "@ + text::decimal(max as nat),
        IngestError::DatasetTooLarge { features, max } => text::decimal(features as nat)
            + " features exceeds limit of "@ + text::decimal(max as nat),
        IngestError::UnsupportedCrs(msg) => msg@,
        IngestError::UnknownCrs(msg) => msg@,
        IngestError::GeometryErrors { .. } => err.text(),
        IngestError::Encoding(msg) => msg@,
        IngestError::Zip(msg) => msg@,
        IngestError::Io(msg) => msg@,
        IngestError::Other(msg) => msg@,
    }
}

/// How an ingestion error is answered.
pub fn ingest_error_to_api(err: &IngestError) -> (e: ApiError)
    ensures
        e.is(ingest_status(*err), ingest_code(*err), ingest_message(*err)),
{
    match err {
        IngestError::InvalidShapefile(msg) => ApiError::unprocessable(
            err.error_code(),
            msg.clone(),
        ),
        IngestError::MissingShapefileComponents(msg) => ApiError::unprocessable(
            "MISSING_SHAPEFILE_COMPONENTS",
            msg.clone(),
        ),
        IngestError::InvalidFileType(msg) => ApiError::unprocessable(
            "INVALID_FILE_TYPE",
            msg.clone(),
        ),
        IngestError::InvalidGeoJson(msg) => ApiError::unprocessable("INVALID_GEOJSON", msg.clone()),
        IngestError::EmptyDataset(msg) => ApiError::unprocessable("EMPTY_DATASET", msg.clone()),
        IngestError::PayloadTooLarge { size, max } => {
            let a = text::decimal_text(*size);
            let b = text::decimal_text(*max);
            ApiError::new(
                PAYLOAD_TOO_LARGE,
                "PAYLOAD_TOO_LARGE",
                text::join3(a.as_str(), " bytes exceeds limit of ", b.as_str()),
            )
        },
        IngestError::DatasetTooLarge { features, max } => {
            let a = text::decimal_text(*features);
            let b = text::decimal_text(*max);
            ApiError::new(
                PAYLOAD_TOO_LARGE,
                "FILE_TOO_LARGE",
                text::join3(a.as_str(), " features exceeds limit of ", b.as_str()),
            )
        },
        IngestError::UnsupportedCrs(msg) => ApiError::unprocessable("UNSUPPORTED_CRS", msg.clone()),
        IngestError::UnknownCrs(msg) => ApiError::unprocessable("UNKNOWN_CRS", msg.clone()),
        IngestError::GeometryErrors { .. } => ApiError::unprocessable(
            "GEOMETRY_ERRORS",
            err.message(),
        ),
        IngestError::Zip(msg) => ApiError::unprocessable("INVALID_SHAPEFILE", msg.clone()),
        IngestError::Encoding(msg) => ApiError::unprocessable("ENCODING_ERROR", msg.clone()),
        IngestError::Io(msg) => ApiError::internal(msg.clone()),
        IngestError::Other(msg) => ApiError::internal(msg.clone()),
    }
}

/// What is too large is answered with 413, what is not the client's fault with 500, everything else
/// with 422.
pub proof fn errors_have_a_status(err: IngestError)
    ensures
        err is PayloadTooLarge || err is DatasetTooLarge <==> ingest_status(err) == 413,
        err is Io || err is Other <==> ingest_status(err) == 500,
        ingest_status(err) == 413 || ingest_status(err) == 500 || ingest_status(err) == 422,
        ingest_status(err) == 500 ==> ingest_code(err) == "INTERNAL_ERROR"@,
        ingest_status(err) != 500 ==> ingest_code(err) == err.code(),
{
}

/// An error is answered with its reason, without the words that name its kind.
pub proof fn errors_are_answered_with_their_reason(err: IngestError, m: String)
    ensures
        err == IngestError::InvalidShapefile(m) ==> ingest_message(err) == m@,
        err == IngestError::MissingShapefileComponents(m) ==> ingest_message(err) == m@,
        err == IngestError::InvalidFileType(m) ==> ingest_message(err) == m@,
        err == IngestError::InvalidGeoJson(m) ==> ingest_message(err) == m@,
        err == IngestError::EmptyDataset(m) ==> ingest_message(err) == m@,
        err == IngestError::UnsupportedCrs(m) ==> ingest_message(err) == m@,
        err == IngestError::UnknownCrs(m) ==> ingest_message(err) == m@,
        err == IngestError::Encoding(m) ==> ingest_message(err) == m@,
        err == IngestError::Zip(m) ==> ingest_message(err) == m@,
        err == IngestError::Io(m) ==> ingest_message(err) == m@,
        err == IngestError::Other(m) ==> ingest_message(err) == m@,
        err is GeometryErrors ==> ingest_message(err) == err.text(),
        err matches IngestError::PayloadTooLarge { size, max } ==> ingest_message(err)
            == text::decimal(size as nat) + " bytes exceeds limit of "@ + text::decimal(max as nat),
        err matches IngestError::DatasetTooLarge { features, max } ==> ingest_message(err)
            == text::decimal(features as nat) + " features exceeds limit of "@ + text::decimal(
            max as nat,
        ),
{
}

/// The statuses have their numbers.
pub proof fn statuses_have_numbers()
    ensures
        BAD_REQUEST == 400,
        UNAUTHORIZED == 401,
        FORBIDDEN == 403,
        NOT_FOUND == 404,
        CONFLICT == 409,
        PAYLOAD_TOO_LARGE == 413,
        UNPROCESSABLE_ENTITY == 422,
        INTERNAL_SERVER_ERROR == 500,
{
}

} // verus!
