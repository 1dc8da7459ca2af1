//! The codec adapter: gzip compression and decompression over flate2.
//!
//! The byte-level primitive is an external collaborator; it enters the
//! library through the two trusted wrappers below, whose contracts name its
//! results.  Everything downstream — including the round trip — is proved
//! from those contracts.

use vstd::prelude::*;
use vstd::utf8::{decode_utf8, encode_utf8_decode_utf8, encode_utf8_valid_utf8, valid_utf8};

verus! {

/// The gzip encoding of a byte sequence, at this crate's fixed compression
/// level.  Named, not spelled out: the encoding depends on the input bytes
/// alone, but its definition is the compressor's.
pub uninterp spec fn gzip_of(bytes: Seq<u8>) -> Seq<u8>;

/// The gzip decoding of a byte sequence: the decompressed bytes, or `None`
/// when the input is not a well-formed gzip stream.
pub uninterp spec fn gunzip_of(bytes: Seq<u8>) -> Option<Seq<u8>>;

/// Why a codec call failed.
#[derive(Debug, PartialEq, Eq)]
pub enum CodecError {
    /// The compressor reported a failure.  This crate's own compression
    /// calls are proved never to return it; it remains so the error
    /// taxonomy is complete for callers of the codec.
    CompressFailed,
    /// The input was not a well-formed gzip stream, or its contents were
    /// not text.
    DecodeFailed,
}

impl CodecError {
    /// A human-readable description.
    pub fn message(&self) -> (r: &'static str)
        ensures
            r@.len() > 0,
            self is CompressFailed ==> r@ == "compression failed"@,
            self is DecodeFailed ==> r@ == "malformed compressed data"@,
    {
        proof {
            reveal_strlit("compression failed");
            reveal_strlit("malformed compressed data");
        }
        match self {
            CodecError::CompressFailed => "compression failed",
            CodecError::DecodeFailed => "malformed compressed data",
        }
    }
}

/// Relies on flate2's `bufread::GzEncoder` (over an in-memory slice, at
/// `Compression::best`) and `Read::read_to_end`: the output is the gzip
/// encoding of the input, a function of the input bytes alone, and gzip is
/// lossless, so decoding the output yields the input back.  The call always
/// succeeds: the encoder's reads can fail only through the underlying
/// reader, reading from a byte slice is infallible, and the deflate backend
/// reports no error while compressing.
#[verifier::external_body]
fn gzip_compress(input: &[u8]) -> (r: Result<Vec<u8>, CodecError>)
    ensures
        r is Ok,
        r matches Ok(c) ==> c@ == gzip_of(input@) && gunzip_of(c@) == Some(input@),
{
    let mut gz = flate2::bufread::GzEncoder::new(input, flate2::Compression::best());
    let mut out = Vec::new();
    match std::io::Read::read_to_end(&mut gz, &mut out) {
        Ok(_) => Ok(out),
        Err(_) => Err(CodecError::CompressFailed),
    }
}

/// Relies on flate2's `bufread::GzDecoder` (over an in-memory slice) and
/// `Read::read_to_string`: the call succeeds exactly when the input decodes
/// as gzip and the decoded bytes are valid UTF-8, and then yields that text.
#[verifier::external_body]
fn gzip_decompress_text(input: &[u8]) -> (r: Result<String, CodecError>)
    ensures
        r matches Ok(t) ==> gunzip_of(input@) matches Some(d) && valid_utf8(d) && t@
            == decode_utf8(d),
        (r is Ok) == (gunzip_of(input@) matches Some(d) && valid_utf8(d)),
{
    let mut gz = flate2::bufread::GzDecoder::new(input);
    let mut s = String::new();
    match std::io::Read::read_to_string(&mut gz, &mut s) {
        Ok(_) => Ok(s),
        Err(_) => Err(CodecError::DecodeFailed),
    }
}

/// Compress bytes to a gzip stream.  The call succeeds, and the result is
/// the gzip encoding of the input and decodes back to it.
pub fn compress_json(file_content: &[u8]) -> (r: Result<Vec<u8>, CodecError>)
    ensures
        r matches Ok(c) && c@ == gzip_of(file_content@) && gunzip_of(c@) == Some(file_content@),
{
    match gzip_compress(file_content) {
        Ok(c) => Ok(c),
        Err(e) => {
            proof {
                assert(false);
            }
            Err(e)
        },
    }
}

/// Decompress a gzip stream to text.  Succeeds exactly when the input is
/// well-formed gzip whose contents are UTF-8, and then returns that text.
pub fn decompress_json(file_content: &[u8]) -> (r: Result<String, CodecError>)
    ensures
        r matches Ok(t) ==> gunzip_of(file_content@) matches Some(d) && valid_utf8(d) && t@
            == decode_utf8(d),
        (r is Ok) == (gunzip_of(file_content@) matches Some(d) && valid_utf8(d)),
        r matches Err(e) ==> e is DecodeFailed,
{
    match gzip_decompress_text(file_content) {
        Ok(t) => Ok(t),
        Err(_) => Err(CodecError::DecodeFailed),
    }
}

/// The codec round trip: decompressing compressed text yields the text
/// unchanged, for any text.  Compression always succeeds, and decompression
/// of a compressed stream is proved to succeed.
pub fn gzip_round_trip(text: &str) -> (r: Result<String, CodecError>)
    ensures
        r matches Ok(t) && t@ == text@,
{
    let bytes = text.as_bytes();
    match compress_json(bytes) {
        Ok(c) => {
            proof {
                encode_utf8_valid_utf8(text@);
                encode_utf8_decode_utf8(text@);
            }
            match decompress_json(c.as_slice()) {
                Ok(t) => Ok(t),
                Err(e) => {
                    proof {
                        assert(false);
                    }
                    Err(e)
                },
            }
        },
        Err(e) => {
            proof {
                assert(false);
            }
            Err(e)
        },
    }
}

} // verus!
