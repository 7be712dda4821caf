//! The zlib streams inside compressed frames.

use std::io::{Read, Write};

use flate2::read::ZlibDecoder;
use flate2::write::ZlibEncoder;
use flate2::Compression;
use vstd::prelude::*;

use crate::codec::dec::{io_kind, IoKind};

verus! {

/// What compressing came to.
pub enum Deflated {
    /// The zlib stream that came out.
    Stream(Seq<u8>),
    /// The compressor gave up, with an I/O error of this kind.
    Failed(IoKind),
}

/// What flate2 makes of `raw` at its default level: a zlib stream, or a
/// failure.
pub uninterp spec fn zlib_deflated(raw: Seq<u8>) -> Deflated;

/// An outcome of compressing, by content.
pub open spec fn deflated_of(outcome: Result<Vec<u8>, std::io::Error>) -> Deflated {
    match outcome {
        Ok(stream) => Deflated::Stream(stream@),
        Err(err) => Deflated::Failed(io_kind(err)),
    }
}

/// Why a zlib stream could not be read.
#[derive(Debug)]
pub struct InflateError {
    /// Whether the stream ended before it was complete.
    pub eof: bool,
    /// What the decompressor reports.
    pub message: String,
}

/// What reading a zlib stream came to.
pub enum Inflated {
    /// The bytes that came out.
    Bytes(Seq<u8>),
    /// A failure: whether it reports an early end, and its text.
    Failed { eof: bool, message: Seq<char> },
}

/// What flate2 reads out of the zlib stream `body` when asked for no more
/// than `limit` bytes.
pub uninterp spec fn zlib_inflated(body: Seq<u8>, limit: nat) -> Inflated;

/// An outcome of reading, by content.
pub open spec fn inflated_of(outcome: Result<Vec<u8>, InflateError>) -> Inflated {
    match outcome {
        Ok(out) => Inflated::Bytes(out@),
        Err(err) => Inflated::Failed { eof: err.eof, message: err.message@ },
    }
}

/// `flate2::write::ZlibEncoder` over a `Vec`, with `Compression::default()`:
/// all of `raw` is written and the stream finished. The outcome is named,
/// not described: the stream where there is one, and else the kind of the
/// error with which the compressor failed. That it succeeds is not claimed.
#[verifier::external_body]
pub(crate) fn zlib_compress(raw: &[u8]) -> (r: Result<Vec<u8>, std::io::Error>)
    ensures
        deflated_of(r) == zlib_deflated(raw@),
{
    let mut encoder = ZlibEncoder::new(Vec::new(), Compression::default());
    encoder.write_all(raw)?;
    encoder.finish()
}

/// `flate2::read::ZlibDecoder` over `body`, read to its end through
/// `Read::take(limit)`. The outcome is named: the bytes, or of the error
/// whether its kind is `UnexpectedEof` and the text that it displays, which
/// flate2 sets itself. The bytes are no more than `limit`. Of a stream that
/// `ZlibEncoder` made it is claimed that reading it does not fail and gives
/// the bytes back, as many of them as `limit` allows.
#[verifier::external_body]
pub(crate) fn zlib_inflate(body: &[u8], limit: u64) -> (r: Result<Vec<u8>, InflateError>)
    ensures
        inflated_of(r) == zlib_inflated(body@, limit as nat),
        r matches Ok(out) ==> out@.len() <= limit,
        r matches Ok(out) ==> forall|raw: Seq<u8>|
            #[trigger] zlib_deflated(raw) == Deflated::Stream(body@) ==> out@ == raw.take(
                vstd::math::min(raw.len() as int, limit as int),
            ),
        r is Err ==> forall|raw: Seq<u8>|
            #[trigger] zlib_deflated(raw) != Deflated::Stream(body@),
{
    let mut raw = Vec::new();
    match ZlibDecoder::new(body).take(limit).read_to_end(&mut raw) {
        Ok(_) => Ok(raw),
        Err(err) => Err(InflateError {
            eof: err.kind() == std::io::ErrorKind::UnexpectedEof,
            message: err.to_string(),
        }),
    }
}

} // verus!
