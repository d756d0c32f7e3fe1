//! Vector-tile encoding.
//!
//! * [`pbf`] holds the protobuf wire-format writer.
//! * [`commands`] encodes geometries as command sequences.
pub mod builder_laws;
pub mod command_laws;
pub mod commands;
pub mod decode;
pub mod decode_laws;
pub mod format_laws;
pub mod layer;
pub mod layer_laws;
pub mod pbf;
pub use commands::{
    encode_lines, encode_points, encode_rings, signed_area2, GeomKind, GeometryCommands, Ring,
    CMD_CLOSE_PATH, CMD_LINE_TO, CMD_MOVE_TO,
};
pub use layer::{EncodedFeature, MvtLayer, MvtValue, MVT_VERSION};
