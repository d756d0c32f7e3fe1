pub mod api;
pub mod bytes;
pub mod config;
pub mod double;
pub mod drawing_laws;
pub mod error;
pub mod geometry;
pub mod gzip;
pub mod ingest;
pub mod json;
pub mod json_laws;
pub mod model;
pub mod mvt;
pub mod picking;
pub mod properties;
pub mod property_laws;
pub mod repair;
pub mod simplify;
pub mod sink;
pub mod sorted;
pub mod scan;
pub mod text;
pub mod text_laws;
pub mod tile_geometry;
pub mod tilemath;
pub mod tileset;
