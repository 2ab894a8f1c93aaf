//! Compression of the backup: the gzip format.

use flate2::read::GzDecoder;
use flate2::write::GzEncoder;
use flate2::Compression;
use std::io::{Read, Write};
use vstd::prelude::*;
use crate::error::EngineError;

verus! {

/// The gzip stream that the encoder makes of `data` at its default level, or
/// nothing where it fails.
pub uninterp spec fn gzipped(data: Seq<u8>) -> Option<Seq<u8>>;

/// The data that the decoder reads out of the gzip stream `data`, or, where
/// `data` is no such stream, the words in which the decoder says why.
pub uninterp spec fn gunzipped(data: Seq<u8>) -> Result<Seq<u8>, Seq<char>>;

/// Writes `data` through `flate2::write::GzEncoder` into a vector.
/// Believed, not proved: the stream is a function of `data`, named
/// [`gzipped`], and the decoder reads `data` out of it. A failure of
/// `write_all` comes back as `BackupWrite`, one of `finish` as
/// `Compression`, each with the words of the outside error.
#[verifier::external_body]
pub(crate) fn compress(data: &[u8]) -> (out: Result<Vec<u8>, EngineError>)
    ensures
        match out {
            Ok(stream) => gzipped(data@) == Some(stream@),
            Err(error) => gzipped(data@) is None && (error is BackupWrite || error is Compression),
        },
        out matches Ok(stream) ==> gunzipped(stream@) is Ok && gunzipped(stream@)->Ok_0 == data@,
{
    let mut encoder = GzEncoder::new(Vec::new(), Compression::default());
    match encoder.write_all(data) {
        Ok(()) => match encoder.finish() {
            Ok(stream) => Ok(stream),
            Err(error) => Err(EngineError::Compression(error.to_string())),
        },
        Err(error) => Err(EngineError::BackupWrite(error.to_string())),
    }
}

/// Reads `data` through `flate2::read::GzDecoder` to its end. Believed, not
/// proved: the result is a function of `data`, named [`gunzipped`]: the
/// bytes that were read, or the words of the decoder's error.
#[verifier::external_body]
pub(crate) fn decompress(data: &[u8]) -> (out: Result<Vec<u8>, String>)
    ensures
        match out {
            Ok(plain) => gunzipped(data@) is Ok && gunzipped(data@)->Ok_0 == plain@,
            Err(cause) => gunzipped(data@) is Err && gunzipped(data@)->Err_0 == cause@,
        },
{
    let mut decoder = GzDecoder::new(data);
    let mut plain = Vec::new();
    match decoder.read_to_end(&mut plain) {
        Ok(_) => Ok(plain),
        Err(error) => Err(error.to_string()),
    }
}

} // verus!
