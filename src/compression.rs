//! The two compression strategies for stored blobs: raw deflate through
//! miniz_oxide (the default) and LZ4 frames.

use vstd::prelude::*;
use crate::error::GudError;
use crate::text::str_eq;

verus! {

/// An LZ4 or I/O failure reported by the `lz4` crate.
#[verifier::external_type_specification]
#[verifier::external_body]
pub struct ExIoError(std::io::Error);

/// An inflate failure reported by miniz_oxide.
#[verifier::external_type_specification]
#[verifier::external_body]
pub struct ExDecompressError(miniz_oxide::inflate::DecompressError);

/// What `miniz_oxide::deflate::compress_to_vec` yields at level 6.
pub uninterp spec fn deflate_stream(bytes: Seq<u8>) -> Seq<u8>;

/// What `miniz_oxide::inflate::decompress_to_vec` yields: `None` where it fails.
pub uninterp spec fn inflate_stream(bytes: Seq<u8>) -> Option<Seq<u8>>;

/// The LZ4 frame that the `lz4` encoder writes with its default settings.
pub uninterp spec fn lz4_frame(bytes: Seq<u8>) -> Seq<u8>;

/// What the `lz4` frame decoder yields: `None` where it fails.
pub uninterp spec fn lz4_unframe(bytes: Seq<u8>) -> Option<Seq<u8>>;

/// Relies on `miniz_oxide::deflate::compress_to_vec` at level 6: a raw deflate
/// stream, which inflates back to the input.
#[verifier::external_body]
pub fn zlib_compress(uncompressed: &[u8]) -> (r: Vec<u8>)
    ensures
        r@ == deflate_stream(uncompressed@),
        inflate_stream(r@) == Some(uncompressed@),
{
    miniz_oxide::deflate::compress_to_vec(uncompressed, 6)
}

/// Relies on `miniz_oxide::inflate::decompress_to_vec`: inflates a raw deflate
/// stream, or fails on one that is not valid.
#[verifier::external_body]
pub fn zlib_decompress(compressed: &[u8]) -> (r: Result<
    Vec<u8>,
    miniz_oxide::inflate::DecompressError,
>)
    ensures
        match r {
            Ok(v) => inflate_stream(compressed@) == Some(v@),
            Err(_) => inflate_stream(compressed@) is None,
        },
{
    miniz_oxide::inflate::decompress_to_vec(compressed)
}

/// Relies on `lz4::EncoderBuilder` with its defaults, fed the whole input
/// and finished: on success an LZ4 frame, which decodes back to the input.
#[verifier::external_body]
pub fn lz4_compress(uncompressed: &[u8]) -> (r: Result<Vec<u8>, std::io::Error>)
    ensures
        r matches Ok(v) ==> v@ == lz4_frame(uncompressed@) && lz4_unframe(v@) == Some(
            uncompressed@,
        ),
{
    let mut input = uncompressed;
    let mut encoder = lz4::EncoderBuilder::new().build(Vec::new())?;
    std::io::copy(&mut input, &mut encoder)?;
    let (output, result) = encoder.finish();
    result.map(|_| output)
}

/// Relies on `lz4::Decoder` read to the end and then finished: the decoded
/// frame, or a failure, also where the input ends inside a frame.
#[verifier::external_body]
pub fn lz4_decompress(compressed: &[u8]) -> (r: Result<Vec<u8>, std::io::Error>)
    ensures
        match r {
            Ok(v) => lz4_unframe(compressed@) == Some(v@),
            Err(_) => lz4_unframe(compressed@) is None,
        },
{
    let mut decoder = lz4::Decoder::new(compressed)?;
    let mut output: Vec<u8> = Vec::new();
    std::io::copy(&mut decoder, &mut output)?;
    let (_, result) = decoder.finish();
    result.map(|_| output)
}

/// The compression algorithm of a repository, chosen at `init` and recorded
/// in its manifest.
#[derive(Clone, Copy, Debug, PartialEq, Eq, Structural)]
pub enum CompressionType {
    Lz4,
    Zlib,
    /// Recorded as "default", or an unknown name: treated as deflate.
    Default,
}

/// The identifier under which a compression type is recorded.
pub open spec fn compression_name(ct: CompressionType) -> Seq<char> {
    match ct {
        CompressionType::Lz4 => seq!['l', 'z', '4'],
        CompressionType::Zlib => seq!['z', 'l', 'i', 'b'],
        CompressionType::Default => seq!['d', 'e', 'f', 'a', 'u', 'l', 't'],
    }
}

/// The compression type that a recorded identifier selects.
pub open spec fn compression_from_name(s: Seq<char>) -> CompressionType {
    if s == compression_name(CompressionType::Lz4) {
        CompressionType::Lz4
    } else if s == compression_name(CompressionType::Zlib) {
        CompressionType::Zlib
    } else {
        CompressionType::Default
    }
}

/// What compressing `bytes` stores, where the encoder succeeds.
pub open spec fn compressed_spec(ct: CompressionType, bytes: Seq<u8>) -> Seq<u8> {
    match ct {
        CompressionType::Lz4 => lz4_frame(bytes),
        _ => deflate_stream(bytes),
    }
}

/// What decompressing stored bytes gives.
pub open spec fn decompress_spec(ct: CompressionType, stored: Seq<u8>) -> Result<
    Seq<u8>,
    GudError,
> {
    let decoded = match ct {
        CompressionType::Lz4 => lz4_unframe(stored),
        _ => inflate_stream(stored),
    };
    match decoded {
        Some(v) => Ok(v),
        None => Err(GudError::CorruptObject),
    }
}

/// The identifier under which a compression type is recorded.
pub fn compression_type_to_str(compression_type: &CompressionType) -> (r: String)
    ensures
        r@ == compression_name(*compression_type),
{
    proof {
        reveal_strlit("lz4");
        reveal_strlit("zlib");
        reveal_strlit("default");
    }
    match compression_type {
        CompressionType::Lz4 => String::from_str("lz4"),
        CompressionType::Zlib => String::from_str("zlib"),
        CompressionType::Default => String::from_str("default"),
    }
}

/// The compression type that a recorded identifier selects; an unknown
/// identifier selects `Default`.
pub fn compression_type_from_str(s: &str) -> (r: CompressionType)
    ensures
        r == compression_from_name(s@),
{
    proof {
        reveal_strlit("lz4");
        reveal_strlit("zlib");
    }
    if str_eq(s, "lz4") {
        assert("lz4"@ =~= compression_name(CompressionType::Lz4));
        CompressionType::Lz4
    } else if str_eq(s, "zlib") {
        assert("zlib"@ =~= compression_name(CompressionType::Zlib));
        assert(s@ != compression_name(CompressionType::Lz4));
        CompressionType::Zlib
    } else {
        assert("lz4"@ =~= compression_name(CompressionType::Lz4));
        assert("zlib"@ =~= compression_name(CompressionType::Zlib));
        CompressionType::Default
    }
}

/// Compresses `bytes` with the chosen algorithm. Deflate always succeeds; the
/// LZ4 encoder may fail, which is reported as `IoFailure`. Whatever succeeds
/// decompresses back to `bytes`.
pub fn compress(ct: CompressionType, bytes: &[u8]) -> (r: Result<Vec<u8>, GudError>)
    ensures
        ct != CompressionType::Lz4 ==> r is Ok,
        r matches Ok(c) ==> c@ == compressed_spec(ct, bytes@),
        r matches Ok(c) ==> decompress_spec(ct, c@) == Ok::<Seq<u8>, GudError>(bytes@),
        r matches Err(e) ==> e == GudError::IoFailure,
{
    match ct {
        CompressionType::Lz4 => match lz4_compress(bytes) {
            Ok(c) => Ok(c),
            Err(_) => Err(GudError::IoFailure),
        },
        _ => Ok(zlib_compress(bytes)),
    }
}

/// Decompresses stored bytes; bytes that the algorithm cannot decode give
/// `CorruptObject`.
pub fn decompress(ct: CompressionType, stored: &[u8]) -> (r: Result<Vec<u8>, GudError>)
    ensures
        match r {
            Ok(v) => decompress_spec(ct, stored@) == Ok::<Seq<u8>, GudError>(v@),
            Err(e) => decompress_spec(ct, stored@) == Err::<Seq<u8>, GudError>(e),
        },
{
    match ct {
        CompressionType::Lz4 => match lz4_decompress(stored) {
            Ok(v) => Ok(v),
            Err(_) => Err(GudError::CorruptObject),
        },
        _ => match zlib_decompress(stored) {
            Ok(v) => Ok(v),
            Err(_) => Err(GudError::CorruptObject),
        },
    }
}

} // verus!
