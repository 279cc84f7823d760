//! `bitvec::vec::BitVec<u8, Lsb0>`: the length in bits, as a length prefix with a
//! maximum, followed by the bytes that hold the bits.
//!
//! Reading takes the bytes that cover the number of bits read (the last one possibly
//! only in part) and keeps that many bits of them; the bits beyond the length in the
//! last byte stay as they were read and are written again as they are.
use vstd::prelude::*;

use bitvec::order::Lsb0;
use bitvec::vec::BitVec;

use crate::error::{eof_error, owned_string, string_of, ErrorContext, IoErrorKind, ReadError, ReadErrorKind, WriteError};
use crate::length_prefixed::{
    decode_len, encode_len, len_error_consumed, lemma_len_ok, lemma_len_roundtrip, max_len_write_error, read_len, write_len,
};
use crate::protocol::{lemma_skip_concat, lemma_skip_skip};
use crate::stream::Reader;

verus! {

/// A bit vector of `u8` elements with the least significant bit first. Its contents
/// are known through `bit_count` and `bit_bytes`.
#[verifier::external_body]
pub struct Bits(pub BitVec<u8, Lsb0>);

/// The number of bits of a bit vector, as `BitVec::len` returns it.
pub uninterp spec fn bit_count(v: Bits) -> nat;

/// The bytes that hold the bits of a bit vector, as `BitVec::as_raw_slice` returns them.
pub uninterp spec fn bit_bytes(v: Bits) -> Seq<u8>;

/// The most bits that a bit vector can hold.
pub open spec fn max_bits() -> nat {
    (usize::MAX / 8) as nat
}

/// The number of bytes that hold `bits` bits.
pub open spec fn bytes_for_bits(bits: nat) -> nat {
    (bits + 7) / 8
}

/// `BitVec::try_from_vec`: the bit vector of all the bits of `v`, unless they are more
/// than a bit vector can hold (then it hands `v` back, and `None` is returned).
#[verifier::external_body]
fn bit_vec_from_bytes(v: Vec<u8>) -> (r: Option<Bits>)
    requires
        v@.len() <= usize::MAX / 8,
    ensures
        r is Some <==> v@.len() * 8 <= max_bits(),
        r matches Some(b) ==> bit_count(b) == v@.len() * 8 && bit_bytes(b) == v@,
{
    BitVec::try_from_vec(v).ok().map(Bits)
}

/// `BitVec::truncate`, on a bit vector that uses all the bits of its bytes (as one made
/// from bytes does): keeps the first `len` bits when there are more, and with them the
/// bytes that hold them.
#[verifier::external_body]
fn bit_vec_truncate(v: &mut Bits, len: usize)
    requires
        bit_count(*old(v)) == bit_bytes(*old(v)).len() * 8,
    ensures
        len < bit_count(*old(v)) ==> bit_count(*final(v)) == len && bit_bytes(*final(v)) == bit_bytes(
            *old(v),
        ).take(bytes_for_bits(len as nat) as int),
        len >= bit_count(*old(v)) ==> *final(v) == *old(v),
{
    v.0.truncate(len)
}

/// `BitVec::len`: the number of bits.
#[verifier::external_body]
fn bit_vec_len(v: &Bits) -> (n: usize)
    ensures
        n == bit_count(*v),
{
    v.0.len()
}

/// `BitVec::as_raw_slice`: the bytes that hold the bits.
#[verifier::external_body]
fn bit_vec_bytes(v: &Bits) -> (bytes: &[u8])
    ensures
        bytes@ == bit_bytes(*v),
{
    v.0.as_raw_slice()
}

/// What reading a bit vector whose length may not exceed `max_len` from `input` gives.
pub enum BitVecRead {
    /// A bit vector of `bits` bits held in `bytes`, after `consumed` bytes.
    Read { bits: nat, bytes: Seq<u8>, consumed: nat },
    /// The bits, after `consumed` bytes, are more than a bit vector can hold: the error
    /// `too_long_error()`.
    TooLong { consumed: nat },
    /// This error, after the bytes of the length prefix read up to the failure
    /// (`len_error_consumed`).
    Failed(ReadError),
}

/// The name of the type in errors.
pub open spec fn bit_vec_type() -> &'static str {
    "bitvec::vec::BitVec<u8, Lsb0>"
}

/// The error of bits that are more than a bit vector can hold.
pub open spec fn too_long_error() -> ReadError {
    ReadError {
        context: ErrorContext::BuiltIn { for_type: bit_vec_type() },
        kind: ReadErrorKind::Custom(string_of("too long to view as a bit-slice"@)),
    }
}

/// Reading a bit vector whose length may not exceed `max_len` from the front of `input`.
pub open spec fn decode_bit_vec(input: Seq<u8>, max_len: u64) -> BitVecRead {
    match decode_len(input, max_len, bit_vec_type()) {
        Err(e) => BitVecRead::Failed(e),
        Ok((bits, n)) => {
            let k = bytes_for_bits(bits);
            if input.len() - n < k {
                BitVecRead::Failed(eof_error(bit_vec_type()))
            } else if k * 8 > max_bits() {
                BitVecRead::TooLong { consumed: n + k }
            } else {
                BitVecRead::Read { bits, bytes: input.skip(n as int).take(k as int), consumed: n + k }
            }
        },
    }
}

/// Reads a bit vector whose length in bits may not exceed `max_len`: the length, then
/// the bytes that hold that many bits.
pub fn read_bit_vec(stream: &mut Reader, max_len: u64) -> (r: Result<Bits, ReadError>)
    ensures
        match decode_bit_vec(old(stream)@, max_len) {
            BitVecRead::Read { bits, bytes, consumed } => r matches Ok(v) && bit_count(v) == bits && bit_bytes(v)
                == bytes && final(stream)@ == old(stream)@.skip(consumed as int),
            BitVecRead::TooLong { consumed } => r == Err::<Bits, ReadError>(too_long_error()) && final(stream)@
                == old(stream)@.skip(consumed as int),
            BitVecRead::Failed(e) => r == Err::<Bits, ReadError>(e) && final(stream)@ == old(stream)@.skip(
                len_error_consumed(old(stream)@, max_len) as int,
            ),
        },
{
    let ghost start = stream@;
    proof {
        lemma_len_ok(start, max_len, bit_vec_type());
    }
    let bits = match read_len(stream, max_len, "bitvec::vec::BitVec<u8, Lsb0>") {
        Ok(bits) => bits,
        Err(e) => return Err(e),
    };
    let byte_len: usize = bits / 8 + if bits % 8 != 0 { 1 } else { 0 };
    assert(byte_len == bytes_for_bits(bits as nat));
    let ghost n = start.len() - stream@.len();
    let bytes = match stream.read_exact(byte_len) {
        Some(bytes) => bytes,
        None => {
            return Err(ReadError {
                context: ErrorContext::BuiltIn { for_type: "bitvec::vec::BitVec<u8, Lsb0>" },
                kind: ReadErrorKind::Io(IoErrorKind::UnexpectedEof),
            });
        },
    };
    proof {
        lemma_skip_skip(start, n as nat, byte_len as nat);
    }
    if byte_len > usize::MAX / 64 {
        return Err(ReadError {
            context: ErrorContext::BuiltIn { for_type: "bitvec::vec::BitVec<u8, Lsb0>" },
            kind: ReadErrorKind::Custom(owned_string("too long to view as a bit-slice")),
        });
    }
    let mut v = match bit_vec_from_bytes(vstd::slice::slice_to_vec(bytes)) {
        Some(v) => v,
        None => {
            return Err(ReadError {
                context: ErrorContext::BuiltIn { for_type: "bitvec::vec::BitVec<u8, Lsb0>" },
                kind: ReadErrorKind::Custom(owned_string("too long to view as a bit-slice")),
            });
        },
    };
    assert(bytes_for_bits((byte_len * 8) as nat) == byte_len);
    assert(bytes@.len() == byte_len);
    bit_vec_truncate(&mut v, bits);
    proof {
        assert(bytes@.take(byte_len as int) =~= bytes@);
    }
    Ok(v)
}

/// Writes a bit vector with its length in bits as a length prefix whose maximum is
/// `max_len`, then the bytes that hold its bits; fails with a `MaxLen` error, writing
/// nothing, when it has more bits than that.
pub fn write_bit_vec(v: &Bits, sink: &mut Vec<u8>, max_len: u64) -> (r: Result<(), WriteError>)
    ensures
        bit_count(*v) > max_len ==> r == Err::<(), WriteError>(max_len_write_error(bit_count(*v), max_len, bit_vec_type()))
            && final(sink)@ == old(sink)@,
        bit_count(*v) <= max_len ==> r is Ok && final(sink)@ == old(sink)@ + encode_len(bit_count(*v), max_len)
            + bit_bytes(*v),
{
    let bits = bit_vec_len(v);
    match write_len(sink, bits, max_len, "bitvec::vec::BitVec<u8, Lsb0>") {
        Ok(()) => {},
        Err(e) => return Err(e),
    }
    let bytes = bit_vec_bytes(v);
    let ghost prefix = sink@;
    let mut i: usize = 0;
    while i < bytes.len()
        invariant
            i <= bytes@.len(),
            sink@ == prefix + bytes@.take(i as int),
        decreases bytes@.len() - i,
    {
        sink.push(bytes[i]);
        assert(bytes@.take(i + 1) =~= bytes@.take(i as int).push(bytes@[i as int]));
        i = i + 1;
    }
    assert(bytes@.take(bytes@.len() as int) =~= bytes@);
    Ok(())
}

/// Reading a written bit vector gives back its length and bytes: the representation
/// that `write_bit_vec` writes for a bit vector that uses no more bytes than its bits
/// need, within the maximum length and what a bit vector can hold, followed by any
/// bytes, reads as the same number of bits held in the same bytes.
pub proof fn law_bit_vec_round_trip(bits: nat, bytes: Seq<u8>, max_len: u64, rest: Seq<u8>)
    requires
        bits <= max_len,
        bits <= usize::MAX,
        bytes.len() == bytes_for_bits(bits),
        bytes.len() * 8 <= max_bits(),
    ensures
        decode_bit_vec(encode_len(bits, max_len) + bytes + rest, max_len) == (BitVecRead::Read {
            bits,
            bytes,
            consumed: (encode_len(bits, max_len) + bytes).len(),
        }),
{
    let p = encode_len(bits, max_len);
    lemma_skip_concat(p, bytes, rest);
    lemma_len_roundtrip(bits, max_len, bytes + rest, bit_vec_type());
    assert((bytes + rest).take(bytes.len() as int) =~= bytes);
}

} // verus!
