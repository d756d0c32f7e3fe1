//! Gzip compression of tiles.
use vstd::prelude::*;
use crate::error::{Result, TileError};
use flate2::read::GzDecoder;
use flate2::write::GzEncoder;
use flate2::Compression;
use std::io::Read;
use std::io::Write;

verus! {

/// What `flate2` makes of a byte string at a compression level: a gzip file with one member and
/// an empty header, or nothing where the encoder reports an error.
pub uninterp spec fn gzip_of(data: Seq<u8>, level: u32) -> Option<Seq<u8>>;

/// What `flate2` reads from a gzip file: the bytes of its first member, or the text of the error.
pub uninterp spec fn gunzip_of(gz: Seq<u8>) -> core::result::Result<Seq<u8>, Seq<char>>;

/// Compresses with `flate2::write::GzEncoder` into a vector. The bytes and the level determine
/// the result, and `flate2` reads back what it wrote. An error of `write_all` is an `Io` error,
/// one of `finish` a `Compression` error; that the calls succeed is left unsaid. The encoder
/// asserts that the level is at most ten.
#[verifier::external_body]
fn gzip_encode(data: &[u8], level: u32) -> (r: Result<Vec<u8>>)
    requires
        level <= 10,
    ensures
        match r {
            Ok(gz) => gzip_of(data@, level) == Some(gz@) && gunzip_of(gz@)
                == core::result::Result::<Seq<u8>, Seq<char>>::Ok(data@),
            Err(e) => gzip_of(data@, level) is None && (e is Io || e is Compression),
        },
{
    let mut encoder = GzEncoder::new(Vec::with_capacity(data.len() / 2), Compression::new(level));
    encoder.write_all(data).map_err(|e| TileError::Io(e.to_string()))?;
    encoder.finish().map_err(|e| TileError::Compression(e.to_string()))
}

/// Decompresses with `flate2::read::GzDecoder`, read to its end. The bytes determine the result;
/// an error is handed on as its text.
#[verifier::external_body]
pub(crate) fn gunzip(gz: &[u8]) -> (r: core::result::Result<Vec<u8>, String>)
    ensures
        match r {
            Ok(raw) => gunzip_of(gz@) == core::result::Result::<Seq<u8>, Seq<char>>::Ok(raw@),
            Err(msg) => gunzip_of(gz@) == core::result::Result::<Seq<u8>, Seq<char>>::Err(msg@),
        },
{
    let mut raw = Vec::new();
    GzDecoder::new(gz).read_to_end(&mut raw).map_err(|e| e.to_string())?;
    Ok(raw)
}

/// Gzip-compresses raw tile bytes.
pub fn gzip(data: &[u8], level: u32) -> (r: Result<Vec<u8>>)
    requires
        level <= 10,
    ensures
        match r {
            Ok(gz) => gzip_of(data@, level) == Some(gz@) && gunzip_of(gz@)
                == core::result::Result::<Seq<u8>, Seq<char>>::Ok(data@),
            Err(e) => gzip_of(data@, level) is None && (e is Io || e is Compression),
        },
{
    gzip_encode(data, level)
}

} // verus!
