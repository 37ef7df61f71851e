//! Decompression of gzip data.
use std::io::Read;
use vstd::prelude::*;

verus! {

/// An error of input, output or decompression.
#[verifier::external_type_specification]
#[verifier::external_body]
pub struct ExIoError(std::io::Error);

/// What the first member of the gzip data `bytes` decompresses to. There is nothing where the
/// data is not gzip, is cut short or fails its checksum.
pub uninterp spec fn gunzipped(bytes: Seq<u8>) -> Option<Seq<u8>>;

/// Decompresses the first member of gzip data with `flate2::read::GzDecoder`, read to its end.
/// Whether it succeeds and what it then yields depend on `bytes` alone; nothing is said of the
/// error.
#[verifier::external_body]
pub(crate) fn gunzip(bytes: &[u8]) -> (plain: Result<Vec<u8>, std::io::Error>)
    ensures
        gunzipped(bytes@) == match plain {
            Ok(data) => Some(data@),
            Err(_) => None,
        },
{
    let mut plain = Vec::new();
    flate2::read::GzDecoder::new(bytes).read_to_end(&mut plain)?;
    Ok(plain)
}

} // verus!
