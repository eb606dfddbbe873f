//! The generic byte-compression layer that wraps every serialized bundle.
//!
//! The two functions here are the library's only calls into the `zstd`
//! crate; everything above them works on plain bytes.

use vstd::prelude::*;

use crate::errors::Error;

verus! {

/// The compression level every bundle is written with.
pub const COMPRESSION_LEVEL: i32 = 9;

/// What a compressed frame inflates to: `Some` of the original bytes for
/// a frame that `zstd` decoding accepts, `None` for bytes it rejects.
pub uninterp spec fn zstd_inflate(b: Seq<u8>) -> Option<Seq<u8>>;

/// Relies on `zstd::stream::encode_all`: compressing an in-memory slice
/// at a valid level cannot fail, and `zstd::stream::decode_all` of the
/// produced frame yields exactly the input bytes.
#[verifier::external_body]
pub fn compress_bytes(b: &Vec<u8>, level: i32) -> (r: Vec<u8>)
    requires
        1 <= level <= 19,
    ensures
        zstd_inflate(r@) == Some(b@),
{
    zstd::encode_all(&b[..], level).unwrap()
}

/// Relies on `zstd::stream::decode_all`: it yields the bytes the frame
/// was compressed from, and reports corrupt frames as errors rather than
/// aborting.
#[verifier::external_body]
pub fn decompress_bytes(b: &Vec<u8>) -> (r: Result<Vec<u8>, Error>)
    ensures
        match r {
            Ok(v) => zstd_inflate(b@) == Some(v@),
            Err(e) => zstd_inflate(b@) is None && e == Error::DecompressionError,
        },
{
    match zstd::decode_all(&b[..]) {
        Ok(v) => Ok(v),
        Err(_) => Err(Error::DecompressionError),
    }
}

} // verus!
