//! The representations of the library's types, each stated in terms of the
//! representations it is built from, so that what is written for a value can be read
//! off byte by byte.
use vstd::prelude::*;

use core::ops::{Range, RangeFull, RangeInclusive};

use chrono::{FixedOffset, NaiveDate, Utc};
use git2::Oid;
use gix_hash::ObjectId;
use semver::{BuildMetadata, Prerelease, Version};

use crate::error::{
    read_kind_io_kind, write_kind_io_kind, ErrorContext, IoErrorKind, ReadError, ReadErrorKind, WriteErrorKind,
    WsMessage,
};
use crate::derived::{in_as_string, in_bitflags, in_enum_discrim, in_via, FieldName, IndexedField, NamedField};
use crate::impls::decimal::DecimalProxy;
use crate::impls::proxies::{DurationProxy, F32Proxy, F64Proxy};
use crate::impls::vec::{encode_elems, lemma_encode_bytes};
use crate::nonempty::encode_prefixed_entries;
use crate::length_prefixed::encode_len;
use crate::protocol::Protocol;
use crate::websocket::in_websocket;

verus! {

/// The unit type, `PhantomData`, `..` and `Utc` are written as no bytes at all, and read
/// from any input without consuming any.
pub proof fn law_unit_types_are_empty<T>(input: Seq<u8>)
    ensures
        <() as Protocol>::spec_encode(()) == Seq::<u8>::empty(),
        <core::marker::PhantomData<T> as Protocol>::spec_encode(()) == Seq::<u8>::empty(),
        <RangeFull as Protocol>::spec_encode(()) == Seq::<u8>::empty(),
        <Utc as Protocol>::spec_encode(()) == Seq::<u8>::empty(),
        <() as Protocol>::spec_decode(input) == Ok::<((), nat), crate::error::ReadError>(((), 0)),
        <RangeFull as Protocol>::spec_decode(input) == Ok::<((), nat), crate::error::ReadError>(((), 0)),
        <Utc as Protocol>::spec_decode(input) == Ok::<((), nat), crate::error::ReadError>(((), 0)),
{
}

/// A box is written as its contents; a range, inclusive or not, as its start followed by
/// its end.
pub proof fn law_box_and_ranges<T: Protocol>(x: T::Model, start: T::Model, end: T::Model)
    ensures
        <Box<T> as Protocol>::spec_encode(x) == T::spec_encode(x),
        <Range<T> as Protocol>::spec_encode((start, end)) == T::spec_encode(start) + T::spec_encode(end),
        <RangeInclusive<T> as Protocol>::spec_encode((start, end)) == T::spec_encode(start) + T::spec_encode(end),
{
}

/// Byte arrays are written as their bytes as they are: a UUID, a decimal's proxy and the
/// proxies of `f32` and `f64` as their 16, 16, 4 and 8 bytes, a git object id as its 20
/// bytes, and a hash object id as the single variant's discriminant `0` followed by its
/// 20 bytes.
pub proof fn law_byte_arrays_as_they_are(b: Seq<u8>)
    ensures
        b.len() == 16 ==> <uuid::Uuid as Protocol>::spec_encode(b) == b,
        b.len() == 16 ==> <DecimalProxy as Protocol>::spec_encode(b) == b,
        b.len() == 4 ==> <F32Proxy as Protocol>::spec_encode(b) == b,
        b.len() == 8 ==> <F64Proxy as Protocol>::spec_encode(b) == b,
        b.len() == 20 ==> <Oid as Protocol>::spec_encode(b) == b,
        b.len() == 20 ==> <ObjectId as Protocol>::spec_encode(b) == seq![0u8] + b,
{
    lemma_encode_bytes(b);
    crate::impls::numbers::law_u8_big_endian(0u8, seq![]);
    crate::derived::law_discriminant_is_declaration_index(1, 0);
    assert(<u8 as Protocol>::spec_encode(0u8) =~= seq![0u8]);
}

/// Types represented through a number are written as that number: a byte size as its
/// count of bytes (`u64`), a date as its day number and a fixed offset as its seconds east
/// of UTC (`i32`), and a duration as its whole seconds (`u64`) followed by the nanoseconds
/// beyond them (`u32`).
pub proof fn law_numeric_proxies(count: u64, days: i32, secs: u64, nanos: u32)
    ensures
        <bytesize::ByteSize as Protocol>::spec_encode(count) == <u64 as Protocol>::spec_encode(count),
        <NaiveDate as Protocol>::spec_encode(days) == <i32 as Protocol>::spec_encode(days),
        <FixedOffset as Protocol>::spec_encode(days) == <i32 as Protocol>::spec_encode(days),
        <DurationProxy as Protocol>::spec_encode((secs, nanos)) == <u64 as Protocol>::spec_encode(secs)
            + <u32 as Protocol>::spec_encode(nanos),
{
}

/// Semantic versions are written as their fields in order: the major, minor and patch
/// numbers as `u64`s, then the pre-release and build identifiers as strings; a borrowed
/// or owned string is written like a `String`.
pub proof fn law_text_types(major: u64, minor: u64, patch: u64, pre: Seq<char>, build: Seq<char>)
    ensures
        <Version as Protocol>::spec_encode((major, minor, patch, pre, build)) == <u64 as Protocol>::spec_encode(major)
            + <u64 as Protocol>::spec_encode(minor) + <u64 as Protocol>::spec_encode(patch)
            + <String as Protocol>::spec_encode(pre) + <String as Protocol>::spec_encode(build),
        <Prerelease as Protocol>::spec_encode(pre) == <String as Protocol>::spec_encode(pre),
        <BuildMetadata as Protocol>::spec_encode(build) == <String as Protocol>::spec_encode(build),
        <std::borrow::Cow<'static, str> as Protocol>::spec_encode(pre) == <String as Protocol>::spec_encode(pre),
{
    assert(<Version as Protocol>::spec_encode((major, minor, patch, pre, build)) =~= <u64 as Protocol>::spec_encode(major)
        + <u64 as Protocol>::spec_encode(minor) + <u64 as Protocol>::spec_encode(patch)
        + <String as Protocol>::spec_encode(pre) + <String as Protocol>::spec_encode(build));
}

/// A non-empty collection is written as its length prefix, whose width the maximum
/// sets, followed by its elements in order.
pub proof fn law_nonempty_layout<T: Protocol>(ms: Seq<T::Model>, max_len: u64)
    ensures
        encode_prefixed_entries::<T>(ms, max_len) == encode_len(ms.len(), max_len) + encode_elems::<T>(ms),
{
}

/// Converting an error into an I/O error keeps the stream's own error kind and maps every
/// other kind of failure by what went wrong: received data that is malformed or too large
/// is invalid data, the stream ending early is an unexpected end of file, reading an
/// empty type is invalid input, a failed allocation is out of memory, and a custom error
/// is `Other`.
pub proof fn law_io_error_kinds(
    k: IoErrorKind,
    s: String,
    m: WsMessage,
    n8: u8,
    n16: u16,
    n32: u32,
    n64: u64,
    n128: u128,
    len: u64,
    max_len: u64,
)
    ensures
        read_kind_io_kind(ReadErrorKind::Io(k)) == k,
        read_kind_io_kind(ReadErrorKind::BufSize) == IoErrorKind::InvalidData,
        read_kind_io_kind(ReadErrorKind::Utf8) == IoErrorKind::InvalidData,
        read_kind_io_kind(ReadErrorKind::FloatNotFinite) == IoErrorKind::InvalidData,
        read_kind_io_kind(ReadErrorKind::MaxLen { len, max_len }) == IoErrorKind::InvalidData,
        read_kind_io_kind(ReadErrorKind::UnknownVariant8(n8)) == IoErrorKind::InvalidData,
        read_kind_io_kind(ReadErrorKind::UnknownVariant16(n16)) == IoErrorKind::InvalidData,
        read_kind_io_kind(ReadErrorKind::UnknownVariant32(n32)) == IoErrorKind::InvalidData,
        read_kind_io_kind(ReadErrorKind::UnknownVariant64(n64)) == IoErrorKind::InvalidData,
        read_kind_io_kind(ReadErrorKind::UnknownVariant128(n128)) == IoErrorKind::InvalidData,
        read_kind_io_kind(ReadErrorKind::MessageKind(m)) == IoErrorKind::InvalidData,
        read_kind_io_kind(ReadErrorKind::EndOfStream) == IoErrorKind::UnexpectedEof,
        read_kind_io_kind(ReadErrorKind::ReadNever) == IoErrorKind::InvalidInput,
        read_kind_io_kind(ReadErrorKind::TryReserve) == IoErrorKind::OutOfMemory,
        read_kind_io_kind(ReadErrorKind::Custom(s)) == IoErrorKind::Other,
        write_kind_io_kind(WriteErrorKind::Io(k)) == k,
        write_kind_io_kind(WriteErrorKind::BufSize) == IoErrorKind::InvalidData,
        write_kind_io_kind(WriteErrorKind::MaxLen { len, max_len }) == IoErrorKind::InvalidData,
        write_kind_io_kind(WriteErrorKind::Custom(s)) == IoErrorKind::Other,
{
}

/// Errors from a part of a value are reported with that part added to their context and
/// their kind unchanged: a field with its name or position, a proxy, a string a type is
/// represented as, the bits of a set of flags, the discriminant of an enum, and the value
/// held by a WebSocket message. A field reads as its value does.
pub proof fn law_error_contexts<T: Protocol, N: FieldName, const I: usize>(e: ReadError, input: Seq<u8>)
    ensures
        <NamedField<T, N> as Protocol>::spec_decode(input) == match T::spec_decode(input) {
            Ok((m, n)) => Ok::<(T::Model, nat), ReadError>((m, n)),
            Err(e) => Err::<(T::Model, nat), ReadError>(
                ReadError { context: ErrorContext::NamedField { name: N::spec_name(), source: Box::new(e.context) }, kind: e.kind },
            ),
        },
        <IndexedField<T, I> as Protocol>::spec_decode(input) == match T::spec_decode(input) {
            Ok((m, n)) => Ok::<(T::Model, nat), ReadError>((m, n)),
            Err(e) => Err::<(T::Model, nat), ReadError>(
                ReadError { context: ErrorContext::UnnamedField { idx: I, source: Box::new(e.context) }, kind: e.kind },
            ),
        },
        in_via(e) == (ReadError { context: ErrorContext::Via { source: Box::new(e.context) }, kind: e.kind }),
        in_as_string(e) == (ReadError { context: ErrorContext::AsString { source: Box::new(e.context) }, kind: e.kind }),
        in_bitflags(e) == (ReadError { context: ErrorContext::Bitflags { source: Box::new(e.context) }, kind: e.kind }),
        in_enum_discrim(e) == (ReadError { context: ErrorContext::EnumDiscrim { source: Box::new(e.context) }, kind: e.kind }),
        in_websocket(e) == (ReadError { context: ErrorContext::WebSocket { source: Box::new(e.context) }, kind: e.kind }),
{
}

} // verus!
