//! Transport of model snapshots: the gzip framing around the
//! serialized model text.

use vstd::prelude::*;
use std::io::Read;
use vstd::string::StringSliceAdditionalSpecFns;
use std::io::Write;

verus! {

/// What the gzip encoder at its default level makes of the bytes: a
/// function of the input alone for this build of the library.
pub uninterp spec fn gzip_of(data: Seq<u8>) -> Seq<u8>;

/// Relies on flate2's `GzEncoder` over a growable buffer at the default
/// level, and on `GzDecoder` inverting it: the stream depends on the
/// text's bytes alone, writing into memory does not fail, and decoding
/// the stream back to text returns the text.
#[verifier::external_body]
pub(crate) fn gzip_compress_text(text: &str) -> (r: Vec<u8>)
    ensures
        r@ == gzip_of(text.spec_bytes()),
        gunzip_text_of(r@) == Some(text@),
{
    let mut encoder = flate2::write::GzEncoder::new(Vec::new(), flate2::Compression::default());
    match encoder.write_all(text.as_bytes()) {
        Ok(()) => match encoder.finish() {
            Ok(compressed) => compressed,
            Err(_) => Vec::new(),
        },
        Err(_) => Vec::new(),
    }
}

/// What the gzip decoder reads out of the bytes: the carried text, or
/// nothing when the bytes are not a gzip stream of text; a function of
/// the input alone.
pub uninterp spec fn gunzip_text_of(data: Seq<u8>) -> Option<Seq<char>>;

/// Relies on flate2's `GzDecoder` and `read_to_string`: the outcome
/// depends on the input bytes alone, and bytes that are no gzip stream
/// of text are refused with the decoder's message.
#[verifier::external_body]
pub(crate) fn gzip_decompress_to_string(data: &[u8]) -> (r: Result<String, String>)
    ensures
        r matches Ok(s) ==> gunzip_text_of(data@) == Some(s@),
        r is Ok <==> gunzip_text_of(data@) is Some,
{
    let mut decoder = flate2::read::GzDecoder::new(data);
    let mut text = String::new();
    match decoder.read_to_string(&mut text) {
        Ok(_) => Ok(text),
        Err(error) => Err(error.to_string()),
    }
}

/// Why a transported snapshot was rejected before the model was even
/// parsed.
#[derive(Clone, Debug, PartialEq)]
pub enum SnapshotTransportError {
    /// The bytes are not a gzip stream of text; the decoder's message
    Gz(String),
}

/// Wrap a serialized snapshot for transport. Together with
/// `decode_snapshot`'s contract, the second clause gives the transport
/// round trip: decoding the result yields the text back.
pub fn encode_snapshot(text: &str) -> (r: Vec<u8>)
    ensures
        r@ == gzip_of(text.spec_bytes()),
        gunzip_text_of(r@) == Some(text@),
{
    gzip_compress_text(text)
}

/// Unwrap a transported snapshot back to its serialized text; the
/// framing error is told apart from anything later in the pipeline.
pub fn decode_snapshot(bytes: &[u8]) -> (r: Result<String, SnapshotTransportError>)
    ensures
        r matches Ok(s) ==> gunzip_text_of(bytes@) == Some(s@),
        r is Ok <==> gunzip_text_of(bytes@) is Some,
{
    match gzip_decompress_to_string(bytes) {
        Ok(text) => Ok(text),
        Err(message) => Err(SnapshotTransportError::Gz(message)),
    }
}

} // verus!
