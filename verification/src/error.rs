//! Error types of the tile-generation engine.
use vstd::prelude::*;
use crate::text;
use crate::text::{decimal_text, join2};
use crate::tilemath::TileId;
use vstd::string::*;

verus! {

/// Errors produced by the tile-generation engine.
#[derive(Debug)]
pub enum TileError {
    Geometry(String),
    /// A tile exceeds the hard size cap after the full mitigation ladder.
    ///
    /// The ladder always converges: as a last resort it publishes a single oversized
    /// feature-tile and flags it in the statistics. This variant is for configurations that
    /// choose to fail instead.
    SizeExceeded { tile: TileId, bytes: usize, limit: usize },
    Encoding(String),
    Config(String),
    Sink(String),
    Compression(String),
    Io(String),
}

/// The result of an engine call.
pub type Result<T> = core::result::Result<T, TileError>;

impl TileError {
    /// An encoding error with the given text.
    pub open spec fn is_encoding(self, msg: Seq<char>) -> bool {
        self matches TileError::Encoding(m) && m@ == msg
    }

    /// What the error says to a reader.
    pub open spec fn text(self) -> Seq<char> {
        match self {
            TileError::Geometry(m) => "invalid geometry: "@ + m@,
            TileError::SizeExceeded { tile, bytes, limit } => "tile size exceeded: z"@
                + text::decimal(tile.z as nat) + "/"@ + text::decimal(tile.x as nat) + "/"@
                + text::decimal(tile.y as nat) + " is "@ + text::decimal(bytes as nat)
                + " bytes gzipped (limit "@ + text::decimal(limit as nat) + ")"@,
            TileError::Encoding(m) => "tile encoding failed: "@ + m@,
            TileError::Config(m) => "invalid configuration: "@ + m@,
            TileError::Sink(m) => "tile sink write failed: "@ + m@,
            TileError::Compression(m) => "gzip compression failed: "@ + m@,
            TileError::Io(m) => m@,
        }
    }

    /// What the error says to a reader.
    pub fn message(&self) -> (s: String)
        ensures
            s@ == self.text(),
    {
        match self {
            TileError::Geometry(m) => join2("invalid geometry: ", m.as_str()),
            TileError::SizeExceeded { tile, bytes, limit } => {
                let mut s = String::from_str("tile size exceeded: z");
                s.append(decimal_text(tile.z as u64).as_str());
                s.append("/");
                s.append(decimal_text(tile.x as u64).as_str());
                s.append("/");
                s.append(decimal_text(tile.y as u64).as_str());
                s.append(" is ");
                s.append(decimal_text(*bytes as u64).as_str());
                s.append(" bytes gzipped (limit ");
                s.append(decimal_text(*limit as u64).as_str());
                s.append(")");
                s
            },
            TileError::Encoding(m) => join2("tile encoding failed: ", m.as_str()),
            TileError::Config(m) => join2("invalid configuration: ", m.as_str()),
            TileError::Sink(m) => join2("tile sink write failed: ", m.as_str()),
            TileError::Compression(m) => join2("gzip compression failed: ", m.as_str()),
            TileError::Io(m) => m.clone(),
        }
    }
}

/// An error says what kind it is and then its reason, word for word.
pub proof fn errors_say_their_reason(e: TileError, m: String)
    ensures
        e == TileError::Geometry(m) ==> e.text() == "invalid geometry: "@ + m@,
        e == TileError::Encoding(m) ==> e.text() == "tile encoding failed: "@ + m@ && e.is_encoding(
            m@,
        ),
        e == TileError::Config(m) ==> e.text() == "invalid configuration: "@ + m@,
        e == TileError::Sink(m) ==> e.text() == "tile sink write failed: "@ + m@,
        e == TileError::Compression(m) ==> e.text() == "gzip compression failed: "@ + m@,
        e == TileError::Io(m) ==> e.text() == m@,
        !(e is Encoding) ==> !e.is_encoding(m@),
{
}

/// An oversized tile is named with its size and the limit.
pub proof fn oversized_tiles_are_named(tile: TileId, bytes: usize, limit: usize)
    ensures
        (TileError::SizeExceeded { tile, bytes, limit }).text() == "tile size exceeded: z"@
            + text::decimal(tile.z as nat) + "/"@ + text::decimal(tile.x as nat) + "/"@
            + text::decimal(tile.y as nat) + " is "@ + text::decimal(bytes as nat)
            + " bytes gzipped (limit "@ + text::decimal(limit as nat) + ")"@,
{
}

} // verus!
