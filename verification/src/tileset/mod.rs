//! Tile generation: feature preparation, per-zoom tile assignment, tile assembly, compression and
//! size mitigation.
pub mod assign_laws;
pub mod count_laws;
pub mod ladder;
pub mod ladder_laws;
pub mod prepare;
pub mod prepare_laws;
pub mod run;
pub mod run_laws;
pub mod rung_laws;
pub use prepare::{prepare_features, PreparedDataset, PreparedFeature, RawFeature};
pub use run::{generate_tiles, TileStats, ZoomStats};
