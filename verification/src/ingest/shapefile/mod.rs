//! Shapefile ingestion.
pub mod archive;
pub mod bundle;
pub mod bundle_laws;
pub mod dbf;
pub mod field_laws;
pub mod layout_laws;
pub mod member_laws;
pub mod record_laws;
pub mod sample_laws;
pub mod shp;
pub mod table_laws;
pub mod write;
pub mod write_laws;
pub use bundle::{extract_bundle, read_bundle, rows_to_features, ShapefileBundle};
