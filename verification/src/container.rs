//! The outer container of a `.hodge` file: plain bytes, or the same bytes
//! compressed as a zstd frame.
use vstd::prelude::*;

verus! {

/// Compression level used when wrapping a stream in zstd.
pub const ZSTD_LEVEL: i32 = 3;

/// The four bytes that open a zstd frame.
pub open spec fn zstd_magic() -> Seq<u8> {
    seq![0x28u8, 0xB5u8, 0x2Fu8, 0xFDu8]
}

/// Why the bytes of a file could not be unwrapped.
#[derive(Debug, Clone, Copy, PartialEq, Eq, Structural)]
pub enum LoadError {
    /// Fewer than four bytes.
    UnexpectedEof,
    /// The zstd frame could not be decompressed.
    Decompress,
}

/// What `zstd::decode_all` makes of `compressed`: the decompressed bytes, or
/// `None` when it reports an error.
pub uninterp spec fn zstd_decompressed(compressed: Seq<u8>) -> Option<Seq<u8>>;

/// What `zstd::encode_all` makes of `data` at `level`: the compressed bytes,
/// or `None` when it reports an error.
pub uninterp spec fn zstd_compressed(data: Seq<u8>, level: i32) -> Option<Seq<u8>>;

/// Calls `zstd::decode_all` on the bytes. Trusted: the result is
/// `zstd_decompressed` of the input; nothing more is claimed of it.
#[verifier::external_body]
fn zstd_decode_all(compressed: &[u8]) -> (r: Option<Vec<u8>>)
    ensures
        match r {
            Some(v) => zstd_decompressed(compressed@) == Some(v@),
            None => zstd_decompressed(compressed@) is None,
        },
{
    zstd::decode_all(compressed).ok()
}

/// Calls `zstd::encode_all` on the bytes. Trusted: the result is
/// `zstd_compressed` of the input and level; nothing more is claimed of it.
#[verifier::external_body]
fn zstd_encode_all(data: &[u8], level: i32) -> (r: Option<Vec<u8>>)
    ensures
        match r {
            Some(v) => zstd_compressed(data@, level) == Some(v@),
            None => zstd_compressed(data@, level) is None,
        },
{
    zstd::encode_all(data, level).ok()
}

/// The `.hodge` stream held in the bytes of a file: the zstd decompression of
/// the bytes when they open with the zstd magic, else the bytes themselves.
pub open spec fn unwrap_spec(file: Seq<u8>) -> Result<Seq<u8>, LoadError> {
    if file.len() < 4 {
        Err(LoadError::UnexpectedEof)
    } else if file.subrange(0, 4) == zstd_magic() {
        match zstd_decompressed(file) {
            Some(v) => Ok(v),
            None => Err(LoadError::Decompress),
        }
    } else {
        Ok(file)
    }
}

/// Unwraps the bytes of a `.hodge` file, decompressing a zstd frame.
pub fn unwrap_hodge_bytes(file: Vec<u8>) -> (res: Result<Vec<u8>, LoadError>)
    ensures
        match unwrap_spec(file@) {
            Ok(v) => res matches Ok(w) && w@ == v,
            Err(e) => res == Err::<Vec<u8>, LoadError>(e),
        },
{
    if file.len() < 4 {
        return Err(LoadError::UnexpectedEof);
    }
    if file[0] == 0x28 && file[1] == 0xB5 && file[2] == 0x2F && file[3] == 0xFD {
        assert(file@.subrange(0, 4) =~= zstd_magic());
        match zstd_decode_all(file.as_slice()) {
            Some(v) => Ok(v),
            None => Err(LoadError::Decompress),
        }
    } else {
        assert(file@.subrange(0, 4) != zstd_magic()) by {
            if file@.subrange(0, 4) == zstd_magic() {
                assert(file@.subrange(0, 4)[0] == file@[0]);
                assert(file@.subrange(0, 4)[1] == file@[1]);
                assert(file@.subrange(0, 4)[2] == file@[2]);
                assert(file@.subrange(0, 4)[3] == file@[3]);
            }
        }
        Ok(file)
    }
}

/// Wraps a `.hodge` stream in a zstd frame at `ZSTD_LEVEL`; `None` when
/// compression fails.
pub fn compress_hodge_bytes(stream: &[u8]) -> (res: Option<Vec<u8>>)
    ensures
        match res {
            Some(v) => zstd_compressed(stream@, 3) == Some(v@),
            None => zstd_compressed(stream@, 3) is None,
        },
{
    zstd_encode_all(stream, ZSTD_LEVEL)
}

} // verus!
