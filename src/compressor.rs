//! Compression of serialized text for storage or transfer, in the LZ4
//! block format without a size prefix.

use vstd::prelude::*;
use vstd::string::StringSliceAdditionalSpecFns;

verus! {

/// Largest input, in bytes, that an LZ4 block can hold.
pub const LZ4_MAX_INPUT_SIZE: usize = 0x7E00_0000;

#[verifier::external_type_specification]
#[verifier::external_body]
pub struct ExIoError(std::io::Error);

/// The LZ4 block (default mode, no size prefix) that compresses `data`.
pub uninterp spec fn lz4_block_of(data: Seq<u8>) -> Seq<u8>;

/// The bytes that the LZ4 block `data` decodes to, read with the
/// decompressed size `size`.
pub uninterp spec fn lz4_unblock_of(data: Seq<u8>, size: int) -> Seq<u8>;

/// The text that the UTF-8 bytes `bytes` encode.
pub uninterp spec fn utf8_text_of(bytes: Seq<u8>) -> Seq<char>;

/// Relies on `lz4::block::compress(data, None, false)`: it refuses an
/// input longer than `LZ4_MAX_INPUT_SIZE`, and a block it returns depends
/// on the input alone.
#[verifier::external_body]
fn lz4_compress(data: &[u8]) -> (r: Result<Vec<u8>, std::io::Error>)
    ensures
        data@.len() > LZ4_MAX_INPUT_SIZE ==> r is Err,
        r is Ok ==> r->Ok_0@ == lz4_block_of(data@),
{
    lz4::block::compress(data, None, false)
}

/// Relies on `lz4::block::decompress(data, Some(size))`: it refuses a
/// negative size and one above `LZ4_MAX_INPUT_SIZE`, returns at most `size`
/// bytes, and what it returns depends on its arguments alone.
#[verifier::external_body]
fn lz4_decompress(data: &[u8], size: i32) -> (r: Result<Vec<u8>, std::io::Error>)
    ensures
        size < 0 ==> r is Err,
        size > LZ4_MAX_INPUT_SIZE ==> r is Err,
        r is Ok ==> r->Ok_0@ == lz4_unblock_of(data@, size as int) && r->Ok_0@.len() <= size,
{
    lz4::block::decompress(data, Some(size))
}

/// Relies on `String::from_utf8`: it accepts valid UTF-8 only, and the
/// text then depends on the bytes alone.
#[verifier::external_body]
fn text_from_utf8(bytes: Vec<u8>) -> (r: Option<String>)
    ensures
        r is Some ==> r->Some_0@ == utf8_text_of(bytes@),
{
    String::from_utf8(bytes).ok()
}

/// Why compression or decompression failed.
#[derive(Debug, Clone, Copy, PartialEq, Eq, Structural)]
pub enum CompressError {
    /// The LZ4 library refused the input.
    Codec,
    /// The decompressed bytes are not UTF-8 text.
    InvalidText,
}

/// Compresses serialized text and back.
pub struct DataCompressor;

impl DataCompressor {
    /// The LZ4 block of the UTF-8 bytes of `data`. Input beyond the LZ4
    /// limit is refused.
    pub fn compress(data: &str) -> (r: Result<Vec<u8>, CompressError>)
        ensures
            data.spec_bytes().len() > LZ4_MAX_INPUT_SIZE ==> r == Err::<Vec<u8>, CompressError>(CompressError::Codec),
            r is Ok ==> r->Ok_0@ == lz4_block_of(data.spec_bytes()),
            r is Err ==> r == Err::<Vec<u8>, CompressError>(CompressError::Codec),
    {
        match lz4_compress(data.as_bytes()) {
            Ok(block) => Ok(block),
            Err(_) => Err(CompressError::Codec),
        }
    }

    /// The text that the LZ4 block `data` decodes to, given its decoded
    /// size in bytes. A negative or oversized size is refused.
    pub fn decompress(data: &[u8], original_size: i32) -> (r: Result<String, CompressError>)
        ensures
            original_size < 0 || original_size > LZ4_MAX_INPUT_SIZE ==> r == Err::<String, CompressError>(
                CompressError::Codec,
            ),
            r is Ok ==> r->Ok_0@ == utf8_text_of(lz4_unblock_of(data@, original_size as int)),
    {
        match lz4_decompress(data, original_size) {
            Ok(bytes) => match text_from_utf8(bytes) {
                Some(text) => Ok(text),
                None => Err(CompressError::InvalidText),
            },
            Err(_) => Err(CompressError::Codec),
        }
    }
}

} // verus!
