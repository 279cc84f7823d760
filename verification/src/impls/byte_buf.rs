//! `bytes::Bytes`: the raw bytes, prefixed with their number.
//!
//! Using `Bytes` is recommended for sending large amounts of data, since the
//! representation of `Vec<u8>` reads and writes each byte individually.
use vstd::prelude::*;

use crate::error::{eof_error, ErrorContext, IoErrorKind, ReadError, ReadErrorKind, WriteError};
use crate::derived::discriminant_type_name;
use crate::endian::{lemma_pow256_widths, pow256};
use crate::impls::numbers::{lemma_decode_be_ok, lemma_decode_be_of_encode};
use crate::length_prefixed::{
    decode_len, encode_len, len_width, max_len_read_error, len_error_consumed, lemma_len_ok, lemma_len_roundtrip, lemma_len_truncated, max_len_write_error,
    read_len, write_len, LengthPrefixed,
};
use crate::protocol::{is_unexpected_eof, lemma_skip_concat, lemma_skip_skip, lemma_take_concat, Canonical, Protocol};
use crate::stream::Reader;

verus! {

#[verifier::external_type_specification]
#[verifier::external_body]
pub struct ExBytes(bytes::Bytes);

/// The bytes that a `bytes::Bytes` holds.
pub uninterp spec fn bytes_contents(b: bytes::Bytes) -> Seq<u8>;

/// `bytes::Bytes::from(Vec<u8>)`: the buffer holds the bytes of the vector.
#[verifier::external_body]
fn bytes_from_vec(v: Vec<u8>) -> (b: bytes::Bytes)
    ensures
        bytes_contents(b) == v@,
{
    bytes::Bytes::from(v)
}

/// `<bytes::Bytes as AsRef<[u8]>>::as_ref`: a slice of the bytes that the buffer holds.
#[verifier::external_body]
fn bytes_as_slice(b: &bytes::Bytes) -> (s: &[u8])
    ensures
        s@ == bytes_contents(*b),
{
    b.as_ref()
}

/// Raw bytes prefixed with their number, whose maximum is `max_len`.
pub open spec fn encode_raw_prefixed(m: Seq<u8>, max_len: u64) -> Seq<u8> {
    encode_len(m.len(), max_len) + m
}

/// Reading `len`-prefixed raw bytes with the maximum length `max_len`.
pub open spec fn decode_raw_prefixed(input: Seq<u8>, max_len: u64, for_type: &'static str) -> Result<(Seq<u8>, nat), ReadError> {
    match decode_len(input, max_len, for_type) {
        Err(e) => Err(e),
        Ok((len, n)) => if input.len() - n < len {
            Err(eof_error(for_type))
        } else {
            Ok((input.skip(n as int).take(len as int), n + len))
        },
    }
}

proof fn lemma_raw_roundtrip(m: Seq<u8>, max_len: u64, rest: Seq<u8>, for_type: &'static str)
    requires
        m.len() <= max_len,
        m.len() <= usize::MAX,
    ensures
        decode_raw_prefixed(encode_len(m.len(), max_len) + m + rest, max_len, for_type) == Ok::<(Seq<u8>, nat), ReadError>(
            (m, (encode_len(m.len(), max_len) + m).len()),
        ),
{
    let p = encode_len(m.len(), max_len);
    lemma_skip_concat(p, m, rest);
    lemma_len_roundtrip(m.len(), max_len, m + rest, for_type);
    assert((m + rest).take(m.len() as int) =~= m);
}

proof fn lemma_raw_truncated(m: Seq<u8>, max_len: u64, k: nat, for_type: &'static str)
    requires
        m.len() <= max_len,
        m.len() <= usize::MAX,
        k < encode_raw_prefixed(m, max_len).len(),
    ensures
        decode_raw_prefixed(encode_raw_prefixed(m, max_len).take(k as int), max_len, for_type) matches Err(e)
            && is_unexpected_eof(e),
{
    let p = encode_len(m.len(), max_len);
    lemma_len_roundtrip(m.len(), max_len, seq![], for_type);
    lemma_take_concat(p, m, k);
    if k < p.len() {
        lemma_len_truncated(m.len(), max_len, k, for_type);
    } else {
        let t = m.take(k - p.len());
        lemma_len_roundtrip(m.len(), max_len, t, for_type);
    }
}

proof fn lemma_raw_ok(input: Seq<u8>, max_len: u64, for_type: &'static str)
    ensures
        decode_raw_prefixed(input, max_len, for_type) matches Ok((m, n)) ==> {
            &&& n <= input.len()
            &&& m.len() <= max_len
            &&& m.len() <= usize::MAX
            &&& encode_len(m.len(), max_len) + m == input.take(n as int)
        },
{
    lemma_len_ok(input, max_len, for_type);
    if let Ok((len, k)) = decode_len(input, max_len, for_type) {
        if input.len() - k >= len {
            assert(input.take((k + len) as int) =~= input.take(k as int) + input.skip(k as int).take(len as int));
        }
    }
}

/// Reads raw bytes prefixed with their number, whose maximum is `max_len`; errors are
/// reported for `for_type`.
pub fn read_raw_prefixed(stream: &mut Reader, max_len: u64, for_type: &'static str) -> (r: Result<Vec<u8>, ReadError>)
    ensures
        match decode_raw_prefixed(old(stream)@, max_len, for_type) {
            Ok((m, n)) => r matches Ok(v) && v@ == m && final(stream)@ == old(stream)@.skip(n as int),
            Err(e) => r == Err::<Vec<u8>, ReadError>(e) && final(stream)@ == old(stream)@.skip(
                len_error_consumed(old(stream)@, max_len) as int,
            ),
        },
{
    let ghost start = stream@;
    proof {
        lemma_len_ok(start, max_len, for_type);
    }
    let len = match read_len(stream, max_len, for_type) {
        Ok(len) => len,
        Err(e) => return Err(e),
    };
    let buf = match stream.read_exact(len) {
        Some(buf) => buf,
        None => {
            return Err(ReadError {
                context: ErrorContext::BuiltIn { for_type },
                kind: ReadErrorKind::Io(IoErrorKind::UnexpectedEof),
            });
        },
    };
    proof {
        let n = (start.len() - stream@.len() - len) as nat;
        lemma_skip_skip(start, n, len as nat);
    }
    Ok(vstd::slice::slice_to_vec(buf))
}

/// Writes `data` prefixed with its number of bytes, whose maximum is `max_len`, or fails
/// with a `MaxLen` error for `for_type`, writing nothing, when there are more.
pub fn write_raw_prefixed(sink: &mut Vec<u8>, data: &[u8], max_len: u64, for_type: &'static str) -> (r: Result<(), WriteError>)
    ensures
        data@.len() > max_len ==> r == Err::<(), WriteError>(max_len_write_error(data@.len(), max_len, for_type))
            && final(sink)@ == old(sink)@,
        data@.len() <= max_len ==> r is Ok && final(sink)@ == old(sink)@ + encode_raw_prefixed(data@, max_len),
{
    match write_len(sink, data.len(), max_len, for_type) {
        Ok(()) => {},
        Err(e) => return Err(e),
    }
    let ghost prefix = sink@;
    let mut i: usize = 0;
    while i < data.len()
        invariant
            i <= data@.len(),
            sink@ == prefix + data@.take(i as int),
        decreases data@.len() - i,
    {
        sink.push(data[i]);
        assert(data@.take(i + 1) =~= data@.take(i as int).push(data@[i as int]));
        i = i + 1;
    }
    assert(data@.take(data@.len() as int) =~= data@);
    Ok(())
}

/// A `Bytes` is prefixed with the length.
impl LengthPrefixed for bytes::Bytes {
    open spec fn spec_len(m: Seq<u8>) -> nat {
        m.len()
    }

    open spec fn spec_encode_prefixed(m: Seq<u8>, max_len: u64) -> Seq<u8> {
        encode_raw_prefixed(m, max_len)
    }

    open spec fn spec_decode_prefixed(input: Seq<u8>, max_len: u64) -> Result<(Seq<u8>, nat), ReadError> {
        decode_raw_prefixed(input, max_len, "bytes::Bytes")
    }

    open spec fn spec_error_consumed_prefixed(input: Seq<u8>, max_len: u64) -> nat {
        len_error_consumed(input, max_len)
    }

    open spec fn spec_max_len_error(m: Seq<u8>, max_len: u64) -> WriteError {
        max_len_write_error(m.len(), max_len, "bytes::Bytes")
    }

    proof fn lemma_encode_decode_prefixed(m: Seq<u8>, max_len: u64, rest: Seq<u8>) {
        lemma_raw_roundtrip(m, max_len, rest, "bytes::Bytes");
    }

    fn read_length_prefixed_sync(stream: &mut Reader, max_len: u64) -> (r: Result<bytes::Bytes, ReadError>) {
        match read_raw_prefixed(stream, max_len, "bytes::Bytes") {
            Ok(buf) => Ok(bytes_from_vec(buf)),
            Err(e) => Err(e),
        }
    }

    fn write_length_prefixed_sync(&self, sink: &mut Vec<u8>, max_len: u64) -> (r: Result<(), WriteError>) {
        let data = bytes_as_slice(self);
        assert(data@.len() == data.len());
        write_raw_prefixed(sink, data, max_len, "bytes::Bytes")
    }
}

/// A `Bytes` is prefixed with the length as a `u64`.
impl Protocol for bytes::Bytes {
    type Model = Seq<u8>;

    open spec fn model(&self) -> Seq<u8> {
        bytes_contents(*self)
    }

    open spec fn wf_model(m: Seq<u8>) -> bool {
        m.len() <= usize::MAX
    }

    open spec fn spec_encode(m: Seq<u8>) -> Seq<u8> {
        encode_raw_prefixed(m, u64::MAX)
    }

    open spec fn spec_decode(input: Seq<u8>) -> Result<(Seq<u8>, nat), ReadError> {
        decode_raw_prefixed(input, u64::MAX, "bytes::Bytes")
    }

    open spec fn spec_error_consumed(input: Seq<u8>) -> nat {
        len_error_consumed(input, u64::MAX)
    }

    proof fn lemma_encode_decode(m: Seq<u8>, rest: Seq<u8>) {
        lemma_raw_roundtrip(m, u64::MAX, rest, "bytes::Bytes");
    }

    proof fn lemma_truncated(m: Seq<u8>, k: nat) {
        if k < Self::spec_encode(m).len() {
            lemma_raw_truncated(m, u64::MAX, k, "bytes::Bytes");
        }
    }

    proof fn lemma_decode_wf(input: Seq<u8>) {
        lemma_raw_ok(input, u64::MAX, "bytes::Bytes");
    }

    fn read_sync(stream: &mut Reader) -> (r: Result<bytes::Bytes, ReadError>) {
        Self::read_length_prefixed_sync(stream, u64::MAX)
    }

    fn write_sync(&self, sink: &mut Vec<u8>) -> (r: Result<(), WriteError>) {
        self.write_length_prefixed_sync(sink, u64::MAX)
    }
}

impl Canonical for bytes::Bytes {
    proof fn lemma_decode_encode(input: Seq<u8>) {
        lemma_raw_ok(input, u64::MAX, "bytes::Bytes");
    }
}

/// Raw bytes within the maximum length read back from what was written: `len`-prefixed
/// bytes whose number is at most `max_len` (as `write_raw_prefixed` writes them),
/// followed by any bytes, read as those bytes and consume exactly the prefix and them.
pub proof fn law_raw_prefixed_round_trip(m: Seq<u8>, max_len: u64, rest: Seq<u8>, for_type: &'static str)
    requires
        m.len() <= max_len,
        m.len() <= usize::MAX,
    ensures
        decode_raw_prefixed(encode_raw_prefixed(m, max_len) + rest, max_len, for_type) == Ok::<(Seq<u8>, nat), ReadError>(
            (m, encode_raw_prefixed(m, max_len).len()),
        ),
{
    lemma_raw_roundtrip(m, max_len, rest, for_type);
}

/// A length prefix above the maximum is refused before any of the bytes it announces is
/// read: reading `len`-prefixed bytes whose prefix gives a length greater than `max_len`
/// fails with a `MaxLen` error and consumes the prefix alone.
pub proof fn law_raw_prefixed_over_max_len(len: nat, max_len: u64, rest: Seq<u8>, for_type: &'static str)
    requires
        max_len < len < pow256(len_width(max_len)),
    ensures
        decode_raw_prefixed(encode_len(len, max_len) + rest, max_len, for_type) == Err::<(Seq<u8>, nat), ReadError>(
            max_len_read_error(len, max_len, for_type),
        ),
        len_error_consumed(encode_len(len, max_len) + rest, max_len) == len_width(max_len),
{
    let w = len_width(max_len);
    lemma_decode_be_of_encode(len, w, rest, discriminant_type_name(w));
}

/// A `Bytes` is written as its number of bytes, as a `u64`, followed by the bytes, and
/// read back as the number of bytes that such a `u64` gives, taken from after it.
pub proof fn law_bytes_layout(b: Seq<u8>, input: Seq<u8>)
    requires
        b.len() <= u64::MAX,
    ensures
        <bytes::Bytes as Protocol>::spec_encode(b) == <u64 as Protocol>::spec_encode(b.len() as u64) + b,
        <bytes::Bytes as Protocol>::spec_decode(input) == match <u64 as Protocol>::spec_decode(input) {
            Err(e) => Err::<(Seq<u8>, nat), ReadError>(e),
            Ok((len, n)) => if len > usize::MAX {
                Err::<(Seq<u8>, nat), ReadError>(ReadError { context: ErrorContext::BuiltIn { for_type: "bytes::Bytes" }, kind: ReadErrorKind::BufSize })
            } else if input.len() - n < len {
                Err::<(Seq<u8>, nat), ReadError>(eof_error("bytes::Bytes"))
            } else {
                Ok::<(Seq<u8>, nat), ReadError>((input.skip(n as int).take(len as int), (n + len) as nat))
            },
        },
{
    lemma_pow256_widths();
    lemma_decode_be_ok(input, 8, "u64");
}

} // verus!
