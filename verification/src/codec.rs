//! The codec: wraps an arbitrary byte sequence into a compressed stream and
//! back. It never inspects text or document structure; it works on raw bytes.
use crate::errors::StoreError;
use std::io::Read;
use std::io::Write;
use vstd::prelude::*;

verus! {

use vstd::string::StringSliceAdditionalSpecFns;
use vstd::utf8::decode_utf8;
use vstd::utf8::valid_utf8;

/// What the compressed-stream reader recovers from the given bytes: the
/// original data if the bytes form one well-formed stream, nothing otherwise.
/// This names the result of `brotli::Decompressor` on a byte slice; the
/// result depends on the bytes alone.
pub uninterp spec fn decompressed_of(data: Seq<u8>) -> Option<Seq<u8>>;

/// What the compressor emits for the given data. This names the result of
/// `brotli::CompressorWriter` at the fixed knobs (buffer 4096, quality 9,
/// window 22); with those fixed, the result depends on the data alone, so
/// compression is deterministic, as the format requires within one
/// implementation.
pub uninterp spec fn compressed_of(data: Seq<u8>) -> Seq<u8>;

/// Relies on `brotli::CompressorWriter` (buffer 4096, quality 9, window 22):
/// the output is a function of the input alone, and writing the input and
/// finishing the stream yields bytes that `brotli::Decompressor` reads back
/// to exactly the input.
#[verifier::external_body]
fn brotli_compress(data: &[u8]) -> (r: Vec<u8>)
    ensures
        r@ == compressed_of(data@),
        decompressed_of(r@) == Some(data@),
{
    let mut w = brotli::CompressorWriter::new(Vec::new(), 4096, 9, 22);
    match w.write_all(data) {
        Ok(()) => {}
        Err(_) => {}
    }
    w.into_inner()
}

/// Relies on `brotli::Decompressor`: reading the stream to its end returns
/// the decompressed data, and fails on a truncated or corrupt stream.
#[verifier::external_body]
fn brotli_decompress(data: &[u8]) -> (r: Option<Vec<u8>>)
    ensures
        match r {
            Some(v) => decompressed_of(data@) == Some(v@),
            None => decompressed_of(data@) is None,
        },
{
    let mut d = brotli::Decompressor::new(data, 4096);
    let mut out = Vec::new();
    match d.read_to_end(&mut out) {
        Ok(_) => Some(out),
        Err(_) => None,
    }
}

/// Relies on `String::from_utf8`: succeeds exactly on valid UTF-8 input,
/// decoding the bytes to their characters.
#[verifier::external_body]
fn bytes_to_string(v: Vec<u8>) -> (r: Option<String>)
    ensures
        match r {
            Some(s) => valid_utf8(v@) && s@ == decode_utf8(v@),
            None => !valid_utf8(v@),
        },
{
    match String::from_utf8(v) {
        Ok(s) => Some(s),
        Err(_) => None,
    }
}

/// Compresses raw bytes. The result is the compressor's one output for
/// this input — equal content gives byte-identical results — and it is
/// exactly decompressible back to the input. Nothing more is promised
/// about its shape: the format requires no byte identity across other
/// implementations or versions.
pub fn compress_to_file(content: &[u8]) -> (r: Vec<u8>)
    ensures
        r@ == compressed_of(content@),
        decompressed_of(r@) == Some(content@),
{
    brotli_compress(content)
}

/// Compresses a text: the bytes written to a project file for this text,
/// the same bytes that compressing the text's UTF-8 bytes gives.
pub fn compress_to_file_str(content: &str) -> (r: Vec<u8>)
    ensures
        r@ == compressed_of(content.spec_bytes()),
        decompressed_of(r@) == Some(content.spec_bytes()),
{
    compress_to_file(content.as_bytes())
}

/// Decompresses the raw bytes of a project file back to bytes.
/// Fails with `Codec` exactly when the bytes are not a well-formed stream.
pub fn decompress_bytes(data: &[u8]) -> (r: Result<Vec<u8>, StoreError>)
    ensures
        match r {
            Ok(v) => decompressed_of(data@) == Some(v@),
            Err(e) => decompressed_of(data@) is None && e == StoreError::Codec,
        },
{
    match brotli_decompress(data) {
        Some(v) => Ok(v),
        None => Err(StoreError::Codec),
    }
}

/// Decompresses the raw bytes of a project file back to its text.
/// Fails with `Codec` when the bytes are not a well-formed stream, and with
/// `Encoding` when the decompressed bytes are not valid UTF-8.
pub fn decompress_from_file(data: &[u8]) -> (r: Result<String, StoreError>)
    ensures
        match r {
            Ok(s) => {
                &&& decompressed_of(data@) is Some
                &&& valid_utf8(decompressed_of(data@)->0)
                &&& s@ == decode_utf8(decompressed_of(data@)->0)
            },
            Err(e) => match decompressed_of(data@) {
                None => e == StoreError::Codec,
                Some(b) => !valid_utf8(b) && e == StoreError::Encoding,
            },
        },
{
    let bytes = decompress_bytes(data)?;
    match bytes_to_string(bytes) {
        Some(s) => Ok(s),
        None => Err(StoreError::Encoding),
    }
}

} // verus!
