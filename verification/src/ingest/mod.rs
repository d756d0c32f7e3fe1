//! Source-format readers and normalization.
//!
//! A raw upload is read (GeoJSON or zipped Shapefile), validated, repaired, brought to longitude
//! and latitude, and its properties are cleaned.
pub mod artifact;
pub mod crs;
pub mod crs_laws;
pub mod dataset_laws;
pub mod document;
pub mod document_laws;
pub mod error;
pub mod normalize;
pub mod normalize_laws;
pub mod shapefile;
pub mod validate;
pub mod validate_laws;
pub use error::{IngestError, IngestResult};
