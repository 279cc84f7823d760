//! `nbt::Blob`: the blob compressed with gzip, prefixed with the length of the
//! compressed bytes, which may be limited.
use vstd::prelude::*;

use nbt::Blob;

use crate::error::{ErrorContext, ReadError, ReadErrorKind, WriteError, WriteErrorKind};
use crate::impls::byte_buf::{decode_raw_prefixed, encode_raw_prefixed, read_raw_prefixed, write_raw_prefixed};
use crate::length_prefixed::{len_error_consumed, max_len_write_error};
use crate::stream::Reader;

verus! {

#[verifier::external_type_specification]
#[verifier::external_body]
pub struct ExBlob(Blob);

/// Whether `Blob::from_gzip_reader` reads a blob from the gzip-compressed `bytes`.
pub uninterp spec fn nbt_gzip_readable(bytes: Seq<u8>) -> bool;

/// The message of the error of `Blob::from_gzip_reader` for `bytes`.
pub uninterp spec fn nbt_gzip_error(bytes: Seq<u8>) -> String;

/// Whether `Blob::from_gzip_reader` returns on the gzip-compressed `bytes` rather than
/// panicking: its decoder casts each signed array or list length to `usize` and reserves
/// that capacity, which panics for a negative length.
pub uninterp spec fn nbt_gzip_returns(bytes: Seq<u8>) -> bool;

/// `Blob::from_gzip_reader`: the blob decompressed and decoded from `bytes`, or the
/// message of the error; it succeeds exactly for the readable inputs. It is called only
/// on inputs on which it returns. (The blob read is not described: the content of a blob
/// has no model here.)
#[verifier::external_body]
fn blob_from_gzip(bytes: &[u8]) -> (r: Result<Blob, String>)
    requires
        nbt_gzip_returns(bytes@),
    ensures
        r is Ok <==> (nbt_gzip_returns(bytes@) && nbt_gzip_readable(bytes@)),
        r matches Err(message) ==> message == nbt_gzip_error(bytes@),
{
    match Blob::from_gzip_reader(&mut &*bytes) {
        Ok(blob) => Ok(blob),
        Err(e) => Err(e.to_string()),
    }
}

/// `Blob::to_gzip_writer` into a new buffer: the gzip-compressed encoding of the blob, or
/// the message of the error. (Nothing is stated of the bytes: the blob's entries are
/// written in the iteration order of a hash map, which varies from process to process.)
#[verifier::external_body]
fn blob_to_gzip(blob: &Blob) -> (r: Result<Vec<u8>, String>) {
    let mut buf = Vec::new();
    match blob.to_gzip_writer(&mut buf) {
        Ok(()) => Ok(buf),
        Err(e) => Err(e.to_string()),
    }
}

/// The name of the type in errors.
pub open spec fn blob_type() -> &'static str {
    "nbt::Blob"
}

/// Whether the compressed bytes at the front of `input`, if a length prefix with the
/// maximum `max_len` and that many bytes can be read, are bytes on which the decoder
/// returns.
pub open spec fn blob_payload_returns(input: Seq<u8>, max_len: u64) -> bool {
    decode_raw_prefixed(input, max_len, blob_type()) matches Ok((bytes, n)) ==> nbt_gzip_returns(bytes)
}

/// Reads a blob whose compressed length may not exceed `max_len`: the length, then the
/// compressed bytes, which are decompressed and decoded. Bytes that do not decode are
/// reported as a `Custom` error of the blob type holding the decoder's message. Bytes on
/// which the decoder panics (a negative array or list length) are left out.
pub fn read_blob(stream: &mut Reader, max_len: u64) -> (r: Result<Blob, ReadError>)
    requires
        blob_payload_returns(old(stream)@, max_len),
    ensures
        match decode_raw_prefixed(old(stream)@, max_len, blob_type()) {
            Ok((bytes, n)) => final(stream)@ == old(stream)@.skip(n as int) && if nbt_gzip_readable(bytes) {
                r is Ok
            } else {
                r == Err::<Blob, ReadError>(
                    ReadError { context: ErrorContext::BuiltIn { for_type: blob_type() }, kind: ReadErrorKind::Custom(nbt_gzip_error(bytes)) },
                )
            },
            Err(e) => r == Err::<Blob, ReadError>(e) && final(stream)@ == old(stream)@.skip(
                len_error_consumed(old(stream)@, max_len) as int,
            ),
        },
{
    let bytes = match read_raw_prefixed(stream, max_len, "nbt::Blob") {
        Ok(bytes) => bytes,
        Err(e) => return Err(e),
    };
    match blob_from_gzip(bytes.as_slice()) {
        Ok(blob) => Ok(blob),
        Err(message) => Err(ReadError { context: ErrorContext::BuiltIn { for_type: "nbt::Blob" }, kind: ReadErrorKind::Custom(message) }),
    }
}

/// What writing compressed bytes `compressed` with a length prefix whose maximum is
/// `max_len` does: the result `r`, and the sink before and after.
pub open spec fn blob_write_outcome(
    compressed: Seq<u8>,
    max_len: u64,
    r: Result<(), WriteError>,
    before: Seq<u8>,
    after: Seq<u8>,
) -> bool {
    &&& compressed.len() > max_len ==> r == Err::<(), WriteError>(max_len_write_error(compressed.len(), max_len, blob_type()))
        && after == before
    &&& compressed.len() <= max_len ==> r is Ok && after == before + encode_raw_prefixed(compressed, max_len)
}

/// Writes a blob: it is encoded and compressed, then written with its compressed length
/// as a length prefix whose maximum is `max_len`. Fails, writing nothing, with a `Custom`
/// error when encoding fails, and with a `MaxLen` error when the compressed bytes are more
/// than the maximum.
pub fn write_blob(blob: &Blob, sink: &mut Vec<u8>, max_len: u64) -> (r: Result<(), WriteError>)
    ensures
        (r matches Err(e) && e.context == (ErrorContext::BuiltIn { for_type: blob_type() }) && e.kind is Custom
            && final(sink)@ == old(sink)@) || exists|compressed: Seq<u8>| #[trigger]
            blob_write_outcome(compressed, max_len, r, old(sink)@, final(sink)@),
{
    match blob_to_gzip(blob) {
        Ok(buf) => {
            let r = write_raw_prefixed(sink, buf.as_slice(), max_len, "nbt::Blob");
            assert(blob_write_outcome(buf@, max_len, r, old(sink)@, sink@));
            r
        },
        Err(message) => Err(WriteError { context: ErrorContext::BuiltIn { for_type: "nbt::Blob" }, kind: WriteErrorKind::Custom(message) }),
    }
}

} // verus!
