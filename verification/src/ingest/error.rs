//! Ingestion errors.
//!
//! Every variant carries a stable taxonomy code, used in failure events, error responses, job
//! records and the quarantine workflow.
use vstd::prelude::*;
use crate::text;
use crate::text::{decimal_text, join2, str_equal};
use vstd::string::*;

verus! {

/// What can go wrong between an upload and a normalized dataset.
#[derive(Debug)]
pub enum IngestError {
    InvalidShapefile(String),
    /// Shapefile bundle is missing mandatory members.
    MissingShapefileComponents(String),
    /// Upload extension or content type does not match the declared source format.
    InvalidFileType(String),
    InvalidGeoJson(String),
    EmptyDataset(String),
    PayloadTooLarge { size: u64, max: u64 },
    /// Feature count exceeds the pipeline limit.
    DatasetTooLarge { features: u64, max: u64 },
    /// Unsupported CRS without a safe reprojection path.
    UnsupportedCrs(String),
    /// CRS unknown, user confirmation required.
    UnknownCrs(String),
    GeometryErrors { unrecoverable: u64, first: String },
    Encoding(String),
    Zip(String),
    Io(String),
    Other(String),
}

/// What is said of a bundle without geometry.
pub const MISSING_SHP: &'static str = "Missing required .shp file.";

/// What is said of a bundle without attributes.
pub const MISSING_DBF: &'static str = "Missing required .dbf file.";

/// The result of an ingestion call.
pub type IngestResult<T> = core::result::Result<T, IngestError>;

impl IngestError {
    /// The taxonomy code. A bundle without a mandatory member is told apart from other invalid
    /// shapefiles.
    pub open spec fn code(self) -> Seq<char> {
        match self {
            IngestError::InvalidShapefile(m) => if m@ == MISSING_SHP@ || m@ == MISSING_DBF@ {
                "MISSING_SHAPEFILE_COMPONENTS"@
            } else {
                "INVALID_SHAPEFILE"@
            },
            IngestError::MissingShapefileComponents(_) => "MISSING_SHAPEFILE_COMPONENTS"@,
            IngestError::InvalidFileType(_) => "INVALID_FILE_TYPE"@,
            IngestError::InvalidGeoJson(_) => "INVALID_GEOJSON"@,
            IngestError::EmptyDataset(_) => "EMPTY_DATASET"@,
            IngestError::PayloadTooLarge { .. } => "PAYLOAD_TOO_LARGE"@,
            IngestError::DatasetTooLarge { .. } => "FILE_TOO_LARGE"@,
            IngestError::UnsupportedCrs(_) => "UNSUPPORTED_CRS"@,
            IngestError::UnknownCrs(_) => "UNKNOWN_CRS"@,
            IngestError::GeometryErrors { .. } => "GEOMETRY_ERRORS"@,
            IngestError::Encoding(_) => "ENCODING_ERROR"@,
            IngestError::Zip(_) => "INVALID_SHAPEFILE"@,
            IngestError::Io(_) => "INTERNAL_ERROR"@,
            IngestError::Other(_) => "INGEST_FAILED"@,
        }
    }

    /// What the error says to a reader.
    pub open spec fn text(self) -> Seq<char> {
        match self {
            IngestError::InvalidShapefile(m) => "invalid shapefile: "@ + m@,
            IngestError::MissingShapefileComponents(m) => "missing shapefile components: "@ + m@,
            IngestError::InvalidFileType(m) => "invalid file type: "@ + m@,
            IngestError::InvalidGeoJson(m) => "invalid geojson: "@ + m@,
            IngestError::EmptyDataset(m) => "empty dataset: "@ + m@,
            IngestError::PayloadTooLarge { size, max } => "payload too large: "@ + text::decimal(
                size as nat,
            ) + " bytes exceeds limit of "@ + text::decimal(max as nat) + " bytes"@,
            IngestError::DatasetTooLarge { features, max } => "dataset too large: "@
                + text::decimal(features as nat) + " features exceeds limit of "@ + text::decimal(
                max as nat,
            ),
            IngestError::UnsupportedCrs(m) => "unsupported CRS: "@ + m@,
            IngestError::UnknownCrs(m) => "unknown CRS: "@ + m@,
            IngestError::GeometryErrors { unrecoverable, first } => "geometry errors: "@
                + text::decimal(unrecoverable as nat) + " unrecoverable feature(s); first: "@
                + first@,
            IngestError::Encoding(m) => "encoding error: "@ + m@,
            IngestError::Zip(m) => "zip error: "@ + m@,
            IngestError::Io(m) => "io error: "@ + m@,
            IngestError::Other(m) => m@,
        }
    }

    /// Machine-readable taxonomy code.
    pub fn error_code(&self) -> (s: &'static str)
        ensures
            s@ == self.code(),
    {
        match self {
            IngestError::InvalidShapefile(m) => if str_equal(m.as_str(), MISSING_SHP) || str_equal(
                m.as_str(),
                MISSING_DBF,
            ) {
                "MISSING_SHAPEFILE_COMPONENTS"
            } else {
                "INVALID_SHAPEFILE"
            },
            IngestError::MissingShapefileComponents(_) => "MISSING_SHAPEFILE_COMPONENTS",
            IngestError::InvalidFileType(_) => "INVALID_FILE_TYPE",
            IngestError::InvalidGeoJson(_) => "INVALID_GEOJSON",
            IngestError::EmptyDataset(_) => "EMPTY_DATASET",
            IngestError::PayloadTooLarge { .. } => "PAYLOAD_TOO_LARGE",
            IngestError::DatasetTooLarge { .. } => "FILE_TOO_LARGE",
            IngestError::UnsupportedCrs(_) => "UNSUPPORTED_CRS",
            IngestError::UnknownCrs(_) => "UNKNOWN_CRS",
            IngestError::GeometryErrors { .. } => "GEOMETRY_ERRORS",
            IngestError::Encoding(_) => "ENCODING_ERROR",
            IngestError::Zip(_) => "INVALID_SHAPEFILE",
            IngestError::Io(_) => "INTERNAL_ERROR",
            IngestError::Other(_) => "INGEST_FAILED",
        }
    }

    /// What the error says to a reader.
    pub fn message(&self) -> (s: String)
        ensures
            s@ == self.text(),
    {
        match self {
            IngestError::InvalidShapefile(m) => join2("invalid shapefile: ", m.as_str()),
            IngestError::MissingShapefileComponents(m) => join2(
                "missing shapefile components: ",
                m.as_str(),
            ),
            IngestError::InvalidFileType(m) => join2("invalid file type: ", m.as_str()),
            IngestError::InvalidGeoJson(m) => join2("invalid geojson: ", m.as_str()),
            IngestError::EmptyDataset(m) => join2("empty dataset: ", m.as_str()),
            IngestError::PayloadTooLarge { size, max } => {
                let mut s = join2("payload too large: ", decimal_text(*size).as_str());
                s.append(" bytes exceeds limit of ");
                s.append(decimal_text(*max).as_str());
                s.append(" bytes");
                s
            },
            IngestError::DatasetTooLarge { features, max } => {
                let mut s = join2("dataset too large: ", decimal_text(*features).as_str());
                s.append(" features exceeds limit of ");
                s.append(decimal_text(*max).as_str());
                s
            },
            IngestError::UnsupportedCrs(m) => join2("unsupported CRS: ", m.as_str()),
            IngestError::UnknownCrs(m) => join2("unknown CRS: ", m.as_str()),
            IngestError::GeometryErrors { unrecoverable, first } => {
                let mut s = join2("geometry errors: ", decimal_text(*unrecoverable).as_str());
                s.append(" unrecoverable feature(s); first: ");
                s.append(first.as_str());
                s
            },
            IngestError::Encoding(m) => join2("encoding error: ", m.as_str()),
            IngestError::Zip(m) => join2("zip error: ", m.as_str()),
            IngestError::Io(m) => join2("io error: ", m.as_str()),
            IngestError::Other(m) => m.clone(),
        }
    }

    /// An invalid shapefile, for the reason given.
    pub open spec fn is_shapefile(self, msg: Seq<char>) -> bool {
        self matches IngestError::InvalidShapefile(m) && m@ == msg
    }

    /// An invalid GeoJSON document, for the reason given.
    pub open spec fn is_geojson(self, msg: Seq<char>) -> bool {
        self matches IngestError::InvalidGeoJson(m) && m@ == msg
    }
}

/// Every error has the code of its kind. A bundle without a mandatory member is told apart from
/// other invalid shapefiles.
pub proof fn errors_have_codes(e: IngestError)
    ensures
        e is MissingShapefileComponents ==> e.code() == "MISSING_SHAPEFILE_COMPONENTS"@,
        e is InvalidFileType ==> e.code() == "INVALID_FILE_TYPE"@,
        e is InvalidGeoJson ==> e.code() == "INVALID_GEOJSON"@,
        e is EmptyDataset ==> e.code() == "EMPTY_DATASET"@,
        e is PayloadTooLarge ==> e.code() == "PAYLOAD_TOO_LARGE"@,
        e is DatasetTooLarge ==> e.code() == "FILE_TOO_LARGE"@,
        e is UnsupportedCrs ==> e.code() == "UNSUPPORTED_CRS"@,
        e is UnknownCrs ==> e.code() == "UNKNOWN_CRS"@,
        e is GeometryErrors ==> e.code() == "GEOMETRY_ERRORS"@,
        e is Encoding ==> e.code() == "ENCODING_ERROR"@,
        e is Zip ==> e.code() == "INVALID_SHAPEFILE"@,
        e is Io ==> e.code() == "INTERNAL_ERROR"@,
        e is Other ==> e.code() == "INGEST_FAILED"@,
        e matches IngestError::InvalidShapefile(m) ==> e.code() == if m@
            == "Missing required .shp file."@ || m@ == "Missing required .dbf file."@ {
            "MISSING_SHAPEFILE_COMPONENTS"@
        } else {
            "INVALID_SHAPEFILE"@
        },
{
}

/// An error says what kind it is and then its reason, word for word.
pub proof fn errors_say_their_reason(e: IngestError, m: String)
    ensures
        e == IngestError::InvalidShapefile(m) ==> e.text() == "invalid shapefile: "@ + m@
            && e.is_shapefile(m@),
        e == IngestError::MissingShapefileComponents(m) ==> e.text()
            == "missing shapefile components: "@ + m@,
        e == IngestError::InvalidFileType(m) ==> e.text() == "invalid file type: "@ + m@,
        e == IngestError::InvalidGeoJson(m) ==> e.text() == "invalid geojson: "@ + m@
            && e.is_geojson(m@),
        e == IngestError::EmptyDataset(m) ==> e.text() == "empty dataset: "@ + m@,
        e == IngestError::UnsupportedCrs(m) ==> e.text() == "unsupported CRS: "@ + m@,
        e == IngestError::UnknownCrs(m) ==> e.text() == "unknown CRS: "@ + m@,
        e == IngestError::Encoding(m) ==> e.text() == "encoding error: "@ + m@,
        e == IngestError::Zip(m) ==> e.text() == "zip error: "@ + m@,
        e == IngestError::Io(m) ==> e.text() == "io error: "@ + m@,
        e == IngestError::Other(m) ==> e.text() == m@,
        !(e is InvalidShapefile) ==> !e.is_shapefile(m@),
        !(e is InvalidGeoJson) ==> !e.is_geojson(m@),
{
}

/// An error about numbers says them.
pub proof fn errors_say_their_numbers(n: u64, max: u64, first: String)
    ensures
        (IngestError::PayloadTooLarge { size: n, max }).text() == "payload too large: "@
            + text::decimal(n as nat) + " bytes exceeds limit of "@ + text::decimal(max as nat)
            + " bytes"@,
        (IngestError::DatasetTooLarge { features: n, max }).text() == "dataset too large: "@
            + text::decimal(n as nat) + " features exceeds limit of "@ + text::decimal(max as nat),
        (IngestError::GeometryErrors { unrecoverable: n, first }).text() == "geometry errors: "@
            + text::decimal(n as nat) + " unrecoverable feature(s); first: "@ + first@,
{
}

} // verus!
