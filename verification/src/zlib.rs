//! Data compressed with zlib.
use vstd::prelude::*;

use flate2::read::ZlibDecoder;
use std::io::Read;

verus! {

#[verifier::external_type_specification]
#[verifier::external_body]
pub struct ExIoError(std::io::Error);

/// What `flate2::read::ZlibDecoder` makes of compressed data: the data before compression, or
/// the error that it reports.
pub uninterp spec fn zlib_decoded(data: Seq<u8>) -> Result<Seq<u8>, std::io::Error>;

/// The outcome of decompressing, with the decompressed data taken by its view.
pub open spec fn decoding(result: Result<Vec<u8>, std::io::Error>) -> Result<
    Seq<u8>,
    std::io::Error,
> {
    match result {
        Ok(decoded) => Ok(decoded@),
        Err(error) => Err(error),
    }
}

/// Reads a `flate2::read::ZlibDecoder` over `data` to its end. The contract names the outcome,
/// the decompressed data or the error, and says no more of it than that it depends on `data`
/// alone: the decoder reports an error only where the data ends too early or is corrupt.
#[verifier::external_body]
pub(crate) fn zlib_decode(data: &[u8]) -> (res: Result<Vec<u8>, std::io::Error>)
    ensures
        decoding(res) == zlib_decoded(data@),
{
    let mut decoded = Vec::new();
    match ZlibDecoder::new(data).read_to_end(&mut decoded) {
        Ok(_) => Ok(decoded),
        Err(error) => Err(error),
    }
}

} // verus!
