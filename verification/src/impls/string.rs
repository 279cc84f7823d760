//! Strings, owned or borrowed: encoded in UTF-8 and prefixed with the length in bytes as a `u64`.
use vstd::prelude::*;
use std::borrow::Cow;

use vstd::utf8::{decode_utf8, encode_utf8, valid_utf8};

use crate::endian::{lemma_be_bytes_len, lemma_pow256_widths};
use crate::error::{eof_error, ErrorContext, IoErrorKind, ReadError, ReadErrorKind, WriteError};
use crate::impls::vec::buf_size_error;
use crate::protocol::{lemma_skip_concat, lemma_skip_prefix, lemma_skip_skip, lemma_take_concat, Canonical, Protocol};
use crate::stream::Reader;

verus! {

broadcast use {
    vstd::utf8::encode_utf8_valid_utf8,
    vstd::utf8::encode_utf8_decode_utf8,
    vstd::utf8::decode_utf8_encode_utf8,
};

/// `String::from_utf8`: succeeds exactly when `bytes` are valid UTF-8, and then
/// holds the characters they encode.
#[verifier::external_body]
fn string_from_utf8(bytes: Vec<u8>) -> (r: Option<String>)
    ensures
        r is Some <==> valid_utf8(bytes@),
        r matches Some(s) ==> s@ == decode_utf8(bytes@),
{
    String::from_utf8(bytes).ok()
}

/// The error of reading bytes that are not valid UTF-8 as a string.
pub open spec fn utf8_error() -> ReadError {
    ReadError { context: ErrorContext::BuiltIn { for_type: "String" }, kind: ReadErrorKind::Utf8 }
}

/// Appends the representation of the string `s` to `sink`: its length in bytes as a
/// `u64`, then its UTF-8 bytes.
pub(crate) fn write_str(s: &str, sink: &mut Vec<u8>)
    ensures
        <String as Protocol>::wf_model(s@),
        final(sink)@ == old(sink)@ + <String as Protocol>::spec_encode(s@),
{
    let bytes = s.as_bytes();
    let len = bytes.len() as u64;
    let _ = len.write_sync(sink);
    let ghost prefix = sink@;
    let mut i: usize = 0;
    while i < bytes.len()
        invariant
            i <= bytes@.len(),
            sink@ == prefix + bytes@.take(i as int),
        decreases bytes@.len() - i,
    {
        sink.push(bytes[i]);
        assert(bytes@.take(i + 1) =~= bytes@.take(i as int).push(bytes@[i as int]));
        i = i + 1;
    }
    assert(bytes@.take(bytes@.len() as int) =~= bytes@);
}

/// A string is encoded in UTF-8 and prefixed with the length in bytes as a `u64`.
impl Protocol for String {
    type Model = Seq<char>;

    open spec fn model(&self) -> Seq<char> {
        self@
    }

    open spec fn wf_model(m: Seq<char>) -> bool {
        encode_utf8(m).len() <= usize::MAX
    }

    open spec fn spec_encode(m: Seq<char>) -> Seq<u8> {
        <u64 as Protocol>::spec_encode(encode_utf8(m).len() as u64) + encode_utf8(m)
    }

    open spec fn spec_decode(input: Seq<u8>) -> Result<(Seq<char>, nat), ReadError> {
        match <u64 as Protocol>::spec_decode(input) {
            Err(e) => Err(e),
            Ok((len, n)) => if len > usize::MAX {
                Err(buf_size_error("String"))
            } else if input.len() - n < len {
                Err(eof_error("String"))
            } else {
                let bytes = input.skip(n as int).take(len as int);
                if valid_utf8(bytes) {
                    Ok((decode_utf8(bytes), n + len as nat))
                } else {
                    Err(utf8_error())
                }
            },
        }
    }

    open spec fn spec_error_consumed(input: Seq<u8>) -> nat {
        match <u64 as Protocol>::spec_decode(input) {
            Err(_) => 0,
            Ok((len, n)) => if len <= usize::MAX && input.len() - n >= len {
                n + len as nat
            } else {
                n
            },
        }
    }

    proof fn lemma_encode_decode(m: Seq<char>, rest: Seq<u8>) {
        lemma_pow256_widths();
        let bytes = encode_utf8(m);
        let a = <u64 as Protocol>::spec_encode(bytes.len() as u64);
        lemma_skip_concat(a, bytes, rest);
        <u64 as Protocol>::lemma_encode_decode(bytes.len() as u64, bytes + rest);
        assert((bytes + rest).take(bytes.len() as int) =~= bytes);
    }

    proof fn lemma_truncated(m: Seq<char>, k: nat) {
        if k < Self::spec_encode(m).len() {
            lemma_pow256_widths();
            let bytes = encode_utf8(m);
            let p = <u64 as Protocol>::spec_encode(bytes.len() as u64);
            lemma_be_bytes_len(bytes.len(), 8);
            lemma_take_concat(p, bytes, k);
            if k < p.len() {
                <u64 as Protocol>::lemma_truncated(bytes.len() as u64, k);
            } else {
                let t = bytes.take(k - p.len());
                <u64 as Protocol>::lemma_encode_decode(bytes.len() as u64, t);
                lemma_skip_prefix(p, t);
            }
        }
    }

    proof fn lemma_decode_wf(input: Seq<u8>) {
        <u64 as Protocol>::lemma_decode_wf(input);
    }

    fn read_sync(stream: &mut Reader) -> (r: Result<String, ReadError>) {
        let ghost start = stream@;
        let len = match u64::read_sync(stream) {
            Ok(len) => len,
            Err(e) => return Err(e),
        };
        assert(<u64 as Protocol>::spec_decode(start) == Ok::<(u64, nat), ReadError>((len, 8)));
        if len as u128 > usize::MAX as u128 {
            return Err(ReadError { context: ErrorContext::BuiltIn { for_type: "String" }, kind: ReadErrorKind::BufSize });
        }
        let bytes = match stream.read_exact(len as usize) {
            Some(bytes) => bytes,
            None => {
                return Err(ReadError {
                    context: ErrorContext::BuiltIn { for_type: "String" },
                    kind: ReadErrorKind::Io(IoErrorKind::UnexpectedEof),
                });
            },
        };
        proof {
            lemma_skip_skip(start, 8, len as nat);
        }
        match string_from_utf8(vstd::slice::slice_to_vec(bytes)) {
            Some(s) => Ok(s),
            None => Err(ReadError { context: ErrorContext::BuiltIn { for_type: "String" }, kind: ReadErrorKind::Utf8 }),
        }
    }

    fn write_sync(&self, sink: &mut Vec<u8>) -> (r: Result<(), WriteError>) {
        write_str(self.as_str(), sink);
        Ok(())
    }
}

impl Canonical for String {
    proof fn lemma_decode_encode(input: Seq<u8>) {
        <u64 as Protocol>::lemma_decode_wf(input);
        <u64 as Canonical>::lemma_decode_encode(input);
        if let Ok((len, n)) = <u64 as Protocol>::spec_decode(input) {
            if len <= usize::MAX && input.len() - n >= len {
                let bytes = input.skip(n as int).take(len as int);
                assert(input.take((n + len) as int) =~= input.take(n as int) + bytes);
            }
        }
    }
}

/// A borrowed or owned string is represented like a `String`; reading always gives
/// an owned one.
impl<'a> Protocol for Cow<'a, str> {
    type Model = Seq<char>;

    open spec fn model(&self) -> Seq<char> {
        self@
    }

    open spec fn wf_model(m: Seq<char>) -> bool {
        <String as Protocol>::wf_model(m)
    }

    open spec fn spec_encode(m: Seq<char>) -> Seq<u8> {
        <String as Protocol>::spec_encode(m)
    }

    open spec fn spec_decode(input: Seq<u8>) -> Result<(Seq<char>, nat), ReadError> {
        <String as Protocol>::spec_decode(input)
    }

    open spec fn spec_error_consumed(input: Seq<u8>) -> nat {
        <String as Protocol>::spec_error_consumed(input)
    }

    proof fn lemma_encode_decode(m: Seq<char>, rest: Seq<u8>) {
        <String as Protocol>::lemma_encode_decode(m, rest);
    }

    proof fn lemma_truncated(m: Seq<char>, k: nat) {
        if k < Self::spec_encode(m).len() {
            <String as Protocol>::lemma_truncated(m, k);
        }
    }

    proof fn lemma_decode_wf(input: Seq<u8>) {
        <String as Protocol>::lemma_decode_wf(input);
    }

    fn read_sync(stream: &mut Reader) -> (r: Result<Cow<'a, str>, ReadError>)
        ensures
            r matches Ok(v) ==> v is Owned,
    {
        match String::read_sync(stream) {
            Ok(s) => Ok(Cow::Owned(s)),
            Err(e) => Err(e),
        }
    }

    fn write_sync(&self, sink: &mut Vec<u8>) -> (r: Result<(), WriteError>) {
        match self {
            Cow::Borrowed(s) => write_str(s, sink),
            Cow::Owned(s) => write_str(s.as_str(), sink),
        }
        Ok(())
    }
}

impl<'a> Canonical for Cow<'a, str> {
    proof fn lemma_decode_encode(input: Seq<u8>) {
        <String as Canonical>::lemma_decode_encode(input);
    }
}

/// A string is written as the number of bytes of its UTF-8 encoding, as a `u64`,
/// followed by that encoding.
pub proof fn law_string_layout(s: Seq<char>)
    ensures
        <String as Protocol>::spec_encode(s) == <u64 as Protocol>::spec_encode(encode_utf8(s).len() as u64) + encode_utf8(s),
{
}

/// Reading a string reads a `u64` length, then that many bytes, which must be UTF-8: it
/// gives the text they encode and consumes the length and them.
pub proof fn law_string_read(input: Seq<u8>)
    ensures
        <String as Protocol>::spec_decode(input) == match <u64 as Protocol>::spec_decode(input) {
            Err(e) => Err::<(Seq<char>, nat), ReadError>(e),
            Ok((len, n)) => if len > usize::MAX {
                Err::<(Seq<char>, nat), ReadError>(buf_size_error("String"))
            } else if input.len() - n < len {
                Err::<(Seq<char>, nat), ReadError>(eof_error("String"))
            } else if valid_utf8(input.skip(n as int).take(len as int)) {
                Ok::<(Seq<char>, nat), ReadError>((decode_utf8(input.skip(n as int).take(len as int)), n + len as nat))
            } else {
                Err::<(Seq<char>, nat), ReadError>(ReadError { context: ErrorContext::BuiltIn { for_type: "String" }, kind: ReadErrorKind::Utf8 })
            },
        },
{
}

} // verus!
