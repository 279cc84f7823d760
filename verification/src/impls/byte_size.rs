//! `bytesize::ByteSize`: the derived representation of `struct ByteSize(u64)`.
use vstd::prelude::*;

use bytesize::ByteSize;

use crate::derived::{in_unnamed_field, unnamed_field_error};
use crate::error::{ReadError, WriteError};
use crate::protocol::{consumed, Canonical, Protocol};
use crate::stream::Reader;

verus! {

#[verifier::external_type_specification]
#[verifier::external_body]
pub struct ExByteSize(ByteSize);

/// The number of bytes of a byte size, as `ByteSize::as_u64` returns it.
pub uninterp spec fn byte_count(size: ByteSize) -> u64;

/// `ByteSize::b`: the byte size of `n` bytes.
#[verifier::external_body]
fn byte_size_of(n: u64) -> (size: ByteSize)
    ensures
        byte_count(size) == n,
{
    ByteSize::b(n)
}

/// `ByteSize::as_u64`: the number of bytes.
#[verifier::external_body]
fn byte_size_count(size: &ByteSize) -> (n: u64)
    ensures
        n == byte_count(*size),
{
    size.as_u64()
}

/// Represented like its number of bytes; errors are reported within its field.
impl Protocol for ByteSize {
    type Model = u64;

    open spec fn model(&self) -> u64 {
        byte_count(*self)
    }

    open spec fn wf_model(m: u64) -> bool {
        true
    }

    open spec fn spec_encode(m: u64) -> Seq<u8> {
        <u64 as Protocol>::spec_encode(m)
    }

    open spec fn spec_decode(input: Seq<u8>) -> Result<(u64, nat), ReadError> {
        match <u64 as Protocol>::spec_decode(input) {
            Err(e) => Err(in_unnamed_field(e, 0)),
            Ok((m, n)) => Ok((m, n)),
        }
    }

    open spec fn spec_error_consumed(input: Seq<u8>) -> nat {
        consumed::<u64>(input)
    }

    proof fn lemma_encode_decode(m: u64, rest: Seq<u8>) {
        <u64 as Protocol>::lemma_encode_decode(m, rest);
    }

    proof fn lemma_truncated(m: u64, k: nat) {
        if k < Self::spec_encode(m).len() {
            <u64 as Protocol>::lemma_truncated(m, k);
        }
    }

    proof fn lemma_decode_wf(input: Seq<u8>) {
        <u64 as Protocol>::lemma_decode_wf(input);
    }

    fn read_sync(stream: &mut Reader) -> (r: Result<ByteSize, ReadError>) {
        match u64::read_sync(stream) {
            Ok(n) => Ok(byte_size_of(n)),
            Err(e) => Err(unnamed_field_error(e, 0)),
        }
    }

    fn write_sync(&self, sink: &mut Vec<u8>) -> (r: Result<(), WriteError>) {
        byte_size_count(self).write_sync(sink)
    }
}

impl Canonical for ByteSize {
    proof fn lemma_decode_encode(input: Seq<u8>) {
        <u64 as Canonical>::lemma_decode_encode(input);
    }
}

} // verus!
