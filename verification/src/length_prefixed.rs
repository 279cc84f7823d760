//! Length prefixes with a maximum length.
//!
//! A length that may not exceed `max_len` is represented in as few bytes as the maximum
//! allows: as a `u8` when `max_len` is at most 255, a `u16` when it is at most 65535, a
//! `u32` when it is at most `u32::MAX`, and a `u64` otherwise. Reading a greater length,
//! or writing one, fails with a `MaxLen` error.
use vstd::prelude::*;

use crate::derived::discriminant_type_name;
use crate::endian::{be_bytes, lemma_be_bytes_len, lemma_pow256_mono, lemma_pow256_widths, read_be, write_be};
use crate::error::{ErrorContext, ReadError, ReadErrorKind, WriteError, WriteErrorKind};
use crate::impls::numbers::{decode_be, lemma_decode_be_of_encode, lemma_decode_be_ok, lemma_decode_be_truncated};
use crate::impls::vec::buf_size_error;
use crate::protocol::{is_unexpected_eof, Protocol};
use crate::stream::Reader;

verus! {

/// The number of bytes of a length prefix whose maximum is `max_len`.
pub open spec fn len_width(max_len: u64) -> nat {
    if max_len <= 0xff {
        1
    } else if max_len <= 0xffff {
        2
    } else if max_len <= 0xffff_ffff {
        4
    } else {
        8
    }
}

/// The representation of the length `len` with the maximum `max_len`.
pub open spec fn encode_len(len: nat, max_len: u64) -> Seq<u8> {
    be_bytes(len, len_width(max_len))
}

/// The error of reading a length `len` above the maximum `max_len` for `for_type`.
pub open spec fn max_len_read_error(len: nat, max_len: u64, for_type: &'static str) -> ReadError {
    ReadError {
        context: ErrorContext::BuiltIn { for_type },
        kind: ReadErrorKind::MaxLen { len: len as u64, max_len },
    }
}

/// The error of writing a length `len` above the maximum `max_len` for `for_type`.
pub open spec fn max_len_write_error(len: nat, max_len: u64, for_type: &'static str) -> WriteError {
    WriteError {
        context: ErrorContext::BuiltIn { for_type },
        kind: WriteErrorKind::MaxLen { len: len as u64, max_len },
    }
}

/// Reading a length prefix with the maximum `max_len` for `for_type`: the length and
/// the number of bytes of the prefix, or an error.
pub open spec fn decode_len(input: Seq<u8>, max_len: u64, for_type: &'static str) -> Result<(nat, nat), ReadError> {
    let w = len_width(max_len);
    match decode_be(input, w, discriminant_type_name(w)) {
        Err(e) => Err(e),
        Ok((len, n)) => if len > max_len {
            Err(max_len_read_error(len, max_len, for_type))
        } else if len > usize::MAX {
            Err(buf_size_error(for_type))
        } else {
            Ok((len, n))
        },
    }
}

/// The number of bytes that a failed read of a length prefix with the maximum `max_len`
/// consumes: none when the input ends early, the whole prefix when the length it gives
/// is too great.
pub open spec fn len_error_consumed(input: Seq<u8>, max_len: u64) -> nat {
    if input.len() < len_width(max_len) {
        0
    } else {
        len_width(max_len)
    }
}

/// A length within the maximum reads back from its representation.
pub proof fn lemma_len_roundtrip(len: nat, max_len: u64, rest: Seq<u8>, for_type: &'static str)
    requires
        len <= max_len,
        len <= usize::MAX,
    ensures
        encode_len(len, max_len).len() == len_width(max_len),
        decode_len(encode_len(len, max_len) + rest, max_len, for_type) == Ok::<(nat, nat), ReadError>(
            (len, len_width(max_len)),
        ),
{
    lemma_pow256_widths();
    let w = len_width(max_len);
    lemma_decode_be_of_encode(len, w, rest, discriminant_type_name(w));
}

/// Reading a length prefix from a proper prefix of its representation fails because the
/// input ends early.
pub proof fn lemma_len_truncated(len: nat, max_len: u64, k: nat, for_type: &'static str)
    requires
        k < encode_len(len, max_len).len(),
    ensures
        encode_len(len, max_len).len() == len_width(max_len),
        decode_len(encode_len(len, max_len).take(k as int), max_len, for_type) matches Err(e) && is_unexpected_eof(e),
{
    let w = len_width(max_len);
    lemma_be_bytes_len(len, w);
    lemma_decode_be_truncated(len, w, k, discriminant_type_name(w));
}

/// A successfully read length is within the maximum, and the bytes consumed are
/// its representation.
pub proof fn lemma_len_ok(input: Seq<u8>, max_len: u64, for_type: &'static str)
    ensures
        decode_len(input, max_len, for_type) matches Ok((len, n)) ==> {
            &&& len <= max_len
            &&& len <= usize::MAX
            &&& n == len_width(max_len)
            &&& n <= input.len()
            &&& encode_len(len, max_len) == input.take(n as int)
        },
{
    let w = len_width(max_len);
    lemma_decode_be_ok(input, w, discriminant_type_name(w));
}

/// Reads a length prefix with the maximum `max_len`; errors are reported for `for_type`.
pub fn read_len(stream: &mut Reader, max_len: u64, for_type: &'static str) -> (r: Result<usize, ReadError>)
    ensures
        match decode_len(old(stream)@, max_len, for_type) {
            Ok((len, n)) => r == Ok::<usize, ReadError>(len as usize) && final(stream)@ == old(stream)@.skip(n as int),
            Err(e) => r == Err::<usize, ReadError>(e) && final(stream)@ == old(stream)@.skip(
                len_error_consumed(old(stream)@, max_len) as int,
            ),
        },
{
    let (bytes, int_name): (usize, &'static str) = if max_len <= 0xff {
        (1, "u8")
    } else if max_len <= 0xffff {
        (2, "u16")
    } else if max_len <= 0xffff_ffff {
        (4, "u32")
    } else {
        (8, "u64")
    };
    proof {
        lemma_decode_be_ok(old(stream)@, bytes as nat, int_name);
        lemma_pow256_widths();
    }
    let len = match read_be(stream, bytes, int_name) {
        Ok(len) => len,
        Err(e) => return Err(e),
    };
    if len > max_len as u128 {
        return Err(ReadError {
            context: ErrorContext::BuiltIn { for_type },
            kind: ReadErrorKind::MaxLen { len: len as u64, max_len },
        });
    }
    if len > usize::MAX as u128 {
        return Err(ReadError { context: ErrorContext::BuiltIn { for_type }, kind: ReadErrorKind::BufSize });
    }
    Ok(len as usize)
}

/// Writes the length prefix `len` with the maximum `max_len`, or fails with a `MaxLen`
/// error for `for_type`, writing nothing, when `len` exceeds the maximum.
pub fn write_len(sink: &mut Vec<u8>, len: usize, max_len: u64, for_type: &'static str) -> (r: Result<(), WriteError>)
    ensures
        len > max_len ==> r == Err::<(), WriteError>(max_len_write_error(len as nat, max_len, for_type))
            && final(sink)@ == old(sink)@,
        len <= max_len ==> r is Ok && final(sink)@ == old(sink)@ + encode_len(len as nat, max_len),
{
    if len as u64 > max_len {
        return Err(WriteError {
            context: ErrorContext::BuiltIn { for_type },
            kind: WriteErrorKind::MaxLen { len: len as u64, max_len },
        });
    }
    let bytes: usize = if max_len <= 0xff {
        1
    } else if max_len <= 0xffff {
        2
    } else if max_len <= 0xffff_ffff {
        4
    } else {
        8
    };
    proof {
        lemma_pow256_widths();
        lemma_pow256_mono(bytes as nat, 8);
    }
    write_be(sink, len as u128, bytes);
    Ok(())
}

/// Types whose representation is prefixed with a length, which can be limited.
pub trait LengthPrefixed: Protocol {
    /// The length that prefixes the representation of `m`.
    spec fn spec_len(m: Self::Model) -> nat;

    /// The representation of `m` with a length prefix whose maximum is `max_len`.
    spec fn spec_encode_prefixed(m: Self::Model, max_len: u64) -> Seq<u8>;

    /// The outcome of reading a value whose length may not exceed `max_len`.
    spec fn spec_decode_prefixed(input: Seq<u8>, max_len: u64) -> Result<(Self::Model, nat), ReadError>;

    /// The number of bytes that a failed read of a value whose length may not exceed
    /// `max_len` consumes before it stops.
    spec fn spec_error_consumed_prefixed(input: Seq<u8>, max_len: u64) -> nat;

    /// The error of writing `m` when its length exceeds `max_len`.
    spec fn spec_max_len_error(m: Self::Model, max_len: u64) -> WriteError;

    /// A well-formed model whose length is within the maximum reads back from its
    /// representation, followed by any bytes.
    proof fn lemma_encode_decode_prefixed(m: Self::Model, max_len: u64, rest: Seq<u8>)
        requires
            Self::wf_model(m),
            Self::spec_len(m) <= max_len,
        ensures
            Self::spec_decode_prefixed(Self::spec_encode_prefixed(m, max_len) + rest, max_len) == Ok::<
                (Self::Model, nat),
                ReadError,
            >((m, Self::spec_encode_prefixed(m, max_len).len())),
    ;

    /// Reads a value of this type whose length may not exceed `max_len`.
    fn read_length_prefixed_sync(stream: &mut Reader, max_len: u64) -> (r: Result<Self, ReadError>)
        ensures
            match Self::spec_decode_prefixed(old(stream)@, max_len) {
                Ok((m, n)) => r matches Ok(v) && v.model() == m && final(stream)@ == old(stream)@.skip(
                    n as int,
                ),
                Err(e) => r == Err::<Self, ReadError>(e) && final(stream)@ == old(stream)@.skip(
                    Self::spec_error_consumed_prefixed(old(stream)@, max_len) as int,
                ),
            },
    ;

    /// Writes this value with a length prefix whose maximum is `max_len`; fails without
    /// writing anything when the length exceeds the maximum.
    fn write_length_prefixed_sync(&self, sink: &mut Vec<u8>, max_len: u64) -> (r: Result<(), WriteError>)
        ensures
            Self::wf_model(self.model()),
            Self::spec_len(self.model()) > max_len ==> r == Err::<(), WriteError>(
                Self::spec_max_len_error(self.model(), max_len),
            ) && final(sink)@ == old(sink)@,
            Self::spec_len(self.model()) <= max_len ==> r is Ok && final(sink)@ == old(sink)@
                + Self::spec_encode_prefixed(self.model(), max_len),
    ;
}

/// Reading a value with a length prefix gives back what was written: the representation
/// that `write_length_prefixed_sync` writes for a well-formed model whose length is
/// within the maximum, followed by any bytes, reads with the same maximum as that model
/// and consumes exactly the representation.
pub proof fn law_length_prefixed_round_trip<T: LengthPrefixed>(m: T::Model, max_len: u64, rest: Seq<u8>)
    requires
        T::wf_model(m),
        T::spec_len(m) <= max_len,
    ensures
        T::spec_decode_prefixed(T::spec_encode_prefixed(m, max_len) + rest, max_len) == Ok::<(T::Model, nat), ReadError>(
            (m, T::spec_encode_prefixed(m, max_len).len()),
        ),
{
    T::lemma_encode_decode_prefixed(m, max_len, rest);
}

/// A length prefix is the length written as the narrowest of `u8`, `u16`, `u32` and
/// `u64` that holds the maximum, each in that type's own representation.
pub proof fn law_len_prefix_width(len: nat, max_len: u64)
    requires
        len <= max_len,
    ensures
        max_len <= 0xff ==> encode_len(len, max_len) == <u8 as Protocol>::spec_encode(len as u8),
        0xff < max_len <= 0xffff ==> encode_len(len, max_len) == <u16 as Protocol>::spec_encode(len as u16),
        0xffff < max_len <= 0xffff_ffff ==> encode_len(len, max_len) == <u32 as Protocol>::spec_encode(len as u32),
        0xffff_ffff < max_len ==> encode_len(len, max_len) == <u64 as Protocol>::spec_encode(len as u64),
{
}

/// Reading a length prefix is reading that integer type: a length above the maximum is
/// refused with a `MaxLen` error, one above `usize::MAX` with a `BufSize` error, and any
/// other is the length read.
pub proof fn law_len_prefix_read(input: Seq<u8>, max_len: u64, for_type: &'static str)
    ensures
        max_len <= 0xff ==> match <u8 as Protocol>::spec_decode(input) {
            Err(e) => decode_len(input, max_len, for_type) == Err::<(nat, nat), ReadError>(e),
            Ok((v, n)) => decode_len(input, max_len, for_type) == if v > max_len {
                Err::<(nat, nat), ReadError>(max_len_read_error(v as nat, max_len, for_type))
            } else if v > usize::MAX {
                Err::<(nat, nat), ReadError>(buf_size_error(for_type))
            } else {
                Ok::<(nat, nat), ReadError>((v as nat, n))
            },
        },
        0xff < max_len <= 0xffff ==> match <u16 as Protocol>::spec_decode(input) {
            Err(e) => decode_len(input, max_len, for_type) == Err::<(nat, nat), ReadError>(e),
            Ok((v, n)) => decode_len(input, max_len, for_type) == if v > max_len {
                Err::<(nat, nat), ReadError>(max_len_read_error(v as nat, max_len, for_type))
            } else if v > usize::MAX {
                Err::<(nat, nat), ReadError>(buf_size_error(for_type))
            } else {
                Ok::<(nat, nat), ReadError>((v as nat, n))
            },
        },
        0xffff < max_len <= 0xffff_ffff ==> match <u32 as Protocol>::spec_decode(input) {
            Err(e) => decode_len(input, max_len, for_type) == Err::<(nat, nat), ReadError>(e),
            Ok((v, n)) => decode_len(input, max_len, for_type) == if v > max_len {
                Err::<(nat, nat), ReadError>(max_len_read_error(v as nat, max_len, for_type))
            } else if v > usize::MAX {
                Err::<(nat, nat), ReadError>(buf_size_error(for_type))
            } else {
                Ok::<(nat, nat), ReadError>((v as nat, n))
            },
        },
        0xffff_ffff < max_len ==> match <u64 as Protocol>::spec_decode(input) {
            Err(e) => decode_len(input, max_len, for_type) == Err::<(nat, nat), ReadError>(e),
            Ok((v, n)) => decode_len(input, max_len, for_type) == if v > max_len {
                Err::<(nat, nat), ReadError>(max_len_read_error(v as nat, max_len, for_type))
            } else if v > usize::MAX {
                Err::<(nat, nat), ReadError>(buf_size_error(for_type))
            } else {
                Ok::<(nat, nat), ReadError>((v as nat, n))
            },
        },
{
    lemma_pow256_widths();
    lemma_decode_be_ok(input, len_width(max_len), discriminant_type_name(len_width(max_len)));
}

} // verus!
