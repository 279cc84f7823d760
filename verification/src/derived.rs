//! The derived representation of enums and structs.
//!
//! * Attempting to read an enum with no variants errors immediately, without consuming input.
//! * For non-empty enums, the representation starts with the discriminant (the position of
//!   the variant, starting at `0` for the first variant declared), as a `u8` for enums with up
//!   to 256 variants, a `u16` for 257 to 65536 variants, a `u32` for up to 2^32 variants and a
//!   `u64` beyond that.
//! * Then follow the representations of the fields of the struct or variant, in declaration order.
//!
//! Errors from a field are reported with the field's position or name added to their context.
//!
//! A type can also be represented through another: through a proxy type it converts to and
//! from, through the string it prints and parses as, or (for a set of flags) through its bits.
//! Errors in reading the representation are reported within a `Via`, `AsString` or `Bitflags`
//! context, and errors in turning it into the type within a `TryInto` or `FromStr` context.
use vstd::prelude::*;

use crate::endian::{be_bytes, lemma_be_bytes_len, lemma_pow256_widths, pow256, read_be, write_be};
use crate::error::{ErrorContext, IoErrorKind, ReadError, ReadErrorKind, WriteError, WriteErrorKind};
use crate::impls::numbers::{decode_be, lemma_decode_be_of_encode, lemma_decode_be_ok, lemma_decode_be_truncated};
use crate::protocol::{lemma_skip_concat, Canonical, Protocol};
use crate::stream::Reader;

verus! {

/// The integer type that holds the discriminant of an enum.
#[derive(Clone, Copy, Debug, PartialEq, Eq, Structural)]
pub enum DiscriminantWidth {
    U8,
    U16,
    U32,
    U64,
}

/// The number of bytes of the discriminant of an enum with `count` variants.
pub open spec fn discriminant_bytes(count: nat) -> nat {
    if count <= 0x100 {
        1
    } else if count <= 0x1_0000 {
        2
    } else if count <= 0x1_0000_0000 {
        4
    } else {
        8
    }
}

/// The number of bytes of a discriminant of the given width.
pub open spec fn width_bytes(w: DiscriminantWidth) -> nat {
    match w {
        DiscriminantWidth::U8 => 1,
        DiscriminantWidth::U16 => 2,
        DiscriminantWidth::U32 => 4,
        DiscriminantWidth::U64 => 8,
    }
}

/// The name of the integer type of a discriminant with `bytes` bytes.
pub open spec fn discriminant_type_name(bytes: nat) -> &'static str {
    if bytes == 1 {
        "u8"
    } else if bytes == 2 {
        "u16"
    } else if bytes == 4 {
        "u32"
    } else {
        "u64"
    }
}

/// The unknown-variant error kind for a discriminant `d` of `bytes` bytes.
pub open spec fn unknown_variant_kind(d: nat, bytes: nat) -> ReadErrorKind {
    if bytes == 1 {
        ReadErrorKind::UnknownVariant8(d as u8)
    } else if bytes == 2 {
        ReadErrorKind::UnknownVariant16(d as u16)
    } else if bytes == 4 {
        ReadErrorKind::UnknownVariant32(d as u32)
    } else {
        ReadErrorKind::UnknownVariant64(d as u64)
    }
}

/// `e`, reported as an error in reading the discriminant of an enum.
pub open spec fn in_enum_discrim(e: ReadError) -> ReadError {
    ReadError { context: ErrorContext::EnumDiscrim { source: Box::new(e.context) }, kind: e.kind }
}

/// `e`, reported as an error in reading the field at position `idx`.
pub open spec fn in_unnamed_field(e: ReadError, idx: usize) -> ReadError {
    ReadError { context: ErrorContext::UnnamedField { idx, source: Box::new(e.context) }, kind: e.kind }
}

/// `e`, reported as an error in reading the field called `name`.
pub open spec fn in_named_field(e: ReadError, name: &'static str) -> ReadError {
    ReadError { context: ErrorContext::NamedField { name, source: Box::new(e.context) }, kind: e.kind }
}

/// `e`, reported as an error in reading the proxy that represents a type.
pub open spec fn in_via(e: ReadError) -> ReadError {
    ReadError { context: ErrorContext::Via { source: Box::new(e.context) }, kind: e.kind }
}

/// The error of reading an enum without variants.
pub open spec fn read_never_error(for_type: &'static str) -> ReadError {
    ReadError { context: ErrorContext::Derived { for_type }, kind: ReadErrorKind::ReadNever }
}

/// The representation of the discriminant `idx` of an enum with `count` variants.
pub open spec fn encode_discriminant(count: nat, idx: nat) -> Seq<u8> {
    be_bytes(idx, discriminant_bytes(count))
}

/// Reading the discriminant of the enum `for_type` with `count` variants.
pub open spec fn decode_discriminant(input: Seq<u8>, count: nat, for_type: &'static str) -> Result<(nat, nat), ReadError> {
    let w = discriminant_bytes(count);
    match decode_be(input, w, discriminant_type_name(w)) {
        Err(e) => Err(in_enum_discrim(e)),
        Ok((d, n)) => if d < count {
            Ok((d, n))
        } else {
            Err(ReadError { context: ErrorContext::Derived { for_type }, kind: unknown_variant_kind(d, w) })
        },
    }
}

/// The number of bytes that a failed read of the discriminant of an enum with `count`
/// variants consumes: none when the input ends early, the whole discriminant when it
/// names no variant.
pub open spec fn discriminant_error_consumed(input: Seq<u8>, count: nat) -> nat {
    if input.len() < discriminant_bytes(count) {
        0
    } else {
        discriminant_bytes(count)
    }
}

proof fn lemma_discriminant_fits(count: nat, idx: nat)
    requires
        idx < count <= u64::MAX + 1,
    ensures
        idx < pow256(discriminant_bytes(count)),
        discriminant_bytes(count) <= 8,
{
    lemma_pow256_widths();
}

/// A discriminant reads back from its representation.
pub proof fn lemma_discriminant_roundtrip(count: nat, idx: nat, rest: Seq<u8>, for_type: &'static str)
    requires
        idx < count <= u64::MAX + 1,
    ensures
        encode_discriminant(count, idx).len() == discriminant_bytes(count),
        decode_discriminant(encode_discriminant(count, idx) + rest, count, for_type) == Ok::<
            (nat, nat),
            ReadError,
        >((idx, discriminant_bytes(count))),
{
    let w = discriminant_bytes(count);
    lemma_discriminant_fits(count, idx);
    lemma_decode_be_of_encode(idx, w, rest, discriminant_type_name(w));
}

/// Reading a discriminant from a proper prefix of its representation fails because the
/// input ends early.
pub proof fn lemma_discriminant_truncated(count: nat, idx: nat, k: nat, for_type: &'static str)
    requires
        idx < count <= u64::MAX + 1,
        k < encode_discriminant(count, idx).len(),
    ensures
        encode_discriminant(count, idx).len() == discriminant_bytes(count),
        decode_discriminant(encode_discriminant(count, idx).take(k as int), count, for_type) matches Err(e)
            && e.kind == ReadErrorKind::Io(IoErrorKind::UnexpectedEof),
{
    let w = discriminant_bytes(count);
    lemma_discriminant_fits(count, idx);
    lemma_be_bytes_len(idx, w);
    lemma_decode_be_truncated(idx, w, k, discriminant_type_name(w));
}

/// A successfully read discriminant is below the variant count, and the bytes consumed
/// are its representation.
pub proof fn lemma_discriminant_ok(input: Seq<u8>, count: nat, for_type: &'static str)
    ensures
        decode_discriminant(input, count, for_type) matches Ok((d, n)) ==> {
            &&& d < count
            &&& n == discriminant_bytes(count)
            &&& n <= input.len()
            &&& encode_discriminant(count, d) == input.take(n as int)
        },
{
    let w = discriminant_bytes(count);
    lemma_decode_be_ok(input, w, discriminant_type_name(w));
}

/// A variant of an enum with the derived representation reads back from what was written
/// for it: after the discriminant of the variant at position `idx`, written as
/// `write_discriminant` writes it, and the representation of its fields (any type whose
/// model is well formed, such as a tuple of named or indexed fields), reading the
/// discriminant gives `idx`, and reading the fields from the bytes after it gives their
/// model back and consumes exactly their representation.
pub proof fn law_enum_variant_round_trip<T: Protocol>(
    count: nat,
    idx: nat,
    fields: T::Model,
    rest: Seq<u8>,
    for_type: &'static str,
)
    requires
        idx < count <= u64::MAX + 1,
        T::wf_model(fields),
    ensures
        ({
            let input = encode_discriminant(count, idx) + T::spec_encode(fields) + rest;
            &&& decode_discriminant(input, count, for_type) == Ok::<(nat, nat), ReadError>(
                (idx, discriminant_bytes(count)),
            )
            &&& T::spec_decode(input.skip(discriminant_bytes(count) as int)) == Ok::<(T::Model, nat), ReadError>(
                (fields, T::spec_encode(fields).len()),
            )
        }),
{
    let d = encode_discriminant(count, idx);
    let e = T::spec_encode(fields);
    lemma_skip_concat(d, e, rest);
    lemma_discriminant_roundtrip(count, idx, e + rest, for_type);
    T::lemma_encode_decode(fields, rest);
}

/// The discriminant of a variant is its 0-based position in declaration order, written
/// as the integer type the number of variants calls for: as a `u8` for up to 256 variants,
/// a `u16` for up to 65536, a `u32` for up to 2^32 and a `u64` beyond, each in that
/// type's own representation.
pub proof fn law_discriminant_is_declaration_index(count: nat, idx: nat)
    requires
        idx < count <= u64::MAX + 1,
    ensures
        count <= 0x100 ==> encode_discriminant(count, idx) == <u8 as Protocol>::spec_encode(idx as u8),
        0x100 < count <= 0x1_0000 ==> encode_discriminant(count, idx) == <u16 as Protocol>::spec_encode(idx as u16),
        0x1_0000 < count <= 0x1_0000_0000 ==> encode_discriminant(count, idx) == <u32 as Protocol>::spec_encode(
            idx as u32,
        ),
        0x1_0000_0000 < count ==> encode_discriminant(count, idx) == <u64 as Protocol>::spec_encode(idx as u64),
{
}

/// Reading a discriminant is reading the integer type the number of variants calls for:
/// a successful read gives the integer read, which names a variant, and consumes its
/// bytes; and an integer read below the number of variants is the discriminant read.
pub proof fn law_discriminant_read_is_integer_read(input: Seq<u8>, count: nat, for_type: &'static str)
    requires
        0 < count <= u64::MAX + 1,
    ensures
        count <= 0x100 ==> match <u8 as Protocol>::spec_decode(input) {
            Ok((v, n)) => decode_discriminant(input, count, for_type) == if v < count {
                Ok::<(nat, nat), ReadError>((v as nat, n))
            } else {
                Err::<(nat, nat), ReadError>(
                    ReadError { context: ErrorContext::Derived { for_type }, kind: ReadErrorKind::UnknownVariant8(v) },
                )
            },
            Err(e) => decode_discriminant(input, count, for_type) == Err::<(nat, nat), ReadError>(in_enum_discrim(e)),
        },
        0x100 < count <= 0x1_0000 ==> match <u16 as Protocol>::spec_decode(input) {
            Ok((v, n)) => decode_discriminant(input, count, for_type) == if v < count {
                Ok::<(nat, nat), ReadError>((v as nat, n))
            } else {
                Err::<(nat, nat), ReadError>(
                    ReadError { context: ErrorContext::Derived { for_type }, kind: ReadErrorKind::UnknownVariant16(v) },
                )
            },
            Err(e) => decode_discriminant(input, count, for_type) == Err::<(nat, nat), ReadError>(in_enum_discrim(e)),
        },
        0x1_0000 < count <= 0x1_0000_0000 ==> match <u32 as Protocol>::spec_decode(input) {
            Ok((v, n)) => decode_discriminant(input, count, for_type) == if v < count {
                Ok::<(nat, nat), ReadError>((v as nat, n))
            } else {
                Err::<(nat, nat), ReadError>(
                    ReadError { context: ErrorContext::Derived { for_type }, kind: ReadErrorKind::UnknownVariant32(v) },
                )
            },
            Err(e) => decode_discriminant(input, count, for_type) == Err::<(nat, nat), ReadError>(in_enum_discrim(e)),
        },
        0x1_0000_0000 < count ==> match <u64 as Protocol>::spec_decode(input) {
            Ok((v, n)) => decode_discriminant(input, count, for_type) == if v < count {
                Ok::<(nat, nat), ReadError>((v as nat, n))
            } else {
                Err::<(nat, nat), ReadError>(
                    ReadError { context: ErrorContext::Derived { for_type }, kind: ReadErrorKind::UnknownVariant64(v) },
                )
            },
            Err(e) => decode_discriminant(input, count, for_type) == Err::<(nat, nat), ReadError>(in_enum_discrim(e)),
        },
{
    lemma_pow256_widths();
    let w = discriminant_bytes(count);
    lemma_decode_be_ok(input, w, discriminant_type_name(w));
}

/// The width of the discriminant of an enum with `variant_count` variants.
pub fn discriminant_width(variant_count: u64) -> (w: DiscriminantWidth)
    ensures
        width_bytes(w) == discriminant_bytes(variant_count as nat),
{
    if variant_count <= 0x100 {
        DiscriminantWidth::U8
    } else if variant_count <= 0x1_0000 {
        DiscriminantWidth::U16
    } else if variant_count <= 0x1_0000_0000 {
        DiscriminantWidth::U32
    } else {
        DiscriminantWidth::U64
    }
}

/// Reads the discriminant of the enum `for_type`, which has `variant_count` variants.
pub fn read_discriminant(stream: &mut Reader, variant_count: u64, for_type: &'static str) -> (r: Result<u64, ReadError>)
    requires
        variant_count > 0,
    ensures
        match decode_discriminant(old(stream)@, variant_count as nat, for_type) {
            Ok((d, n)) => r == Ok::<u64, ReadError>(d as u64) && final(stream)@ == old(stream)@.skip(n as int),
            Err(e) => r == Err::<u64, ReadError>(e) && final(stream)@ == old(stream)@.skip(
                discriminant_error_consumed(old(stream)@, variant_count as nat) as int,
            ),
        },
{
    let w = discriminant_width(variant_count);
    proof {
        lemma_decode_be_ok(old(stream)@, width_bytes(w), discriminant_type_name(width_bytes(w)));
        lemma_pow256_widths();
    }
    let (bytes, int_name): (usize, &'static str) = match w {
        DiscriminantWidth::U8 => (1, "u8"),
        DiscriminantWidth::U16 => (2, "u16"),
        DiscriminantWidth::U32 => (4, "u32"),
        DiscriminantWidth::U64 => (8, "u64"),
    };
    let d = match read_be(stream, bytes, int_name) {
        Ok(d) => d,
        Err(ReadError { context, kind }) => {
            return Err(ReadError { context: ErrorContext::EnumDiscrim { source: Box::new(context) }, kind });
        },
    };
    if d < variant_count as u128 {
        Ok(d as u64)
    } else {
        let kind = match w {
            DiscriminantWidth::U8 => ReadErrorKind::UnknownVariant8(d as u8),
            DiscriminantWidth::U16 => ReadErrorKind::UnknownVariant16(d as u16),
            DiscriminantWidth::U32 => ReadErrorKind::UnknownVariant32(d as u32),
            DiscriminantWidth::U64 => ReadErrorKind::UnknownVariant64(d as u64),
        };
        Err(ReadError { context: ErrorContext::Derived { for_type }, kind })
    }
}

/// Writes the discriminant `idx` of an enum with `variant_count` variants.
pub fn write_discriminant(sink: &mut Vec<u8>, variant_count: u64, idx: u64)
    requires
        idx < variant_count,
    ensures
        final(sink)@ == old(sink)@ + encode_discriminant(variant_count as nat, idx as nat),
{
    let w = discriminant_width(variant_count);
    proof {
        lemma_discriminant_fits(variant_count as nat, idx as nat);
    }
    let bytes: usize = match w {
        DiscriminantWidth::U8 => 1,
        DiscriminantWidth::U16 => 2,
        DiscriminantWidth::U32 => 4,
        DiscriminantWidth::U64 => 8,
    };
    write_be(sink, idx as u128, bytes);
}

/// Reports `e` as an error in reading the field at position `idx`.
pub fn unnamed_field_error(e: ReadError, idx: usize) -> (r: ReadError)
    ensures
        r == in_unnamed_field(e, idx),
{
    let ReadError { context, kind } = e;
    ReadError { context: ErrorContext::UnnamedField { idx, source: Box::new(context) }, kind }
}

/// Reports `e` as an error in reading the field called `name`.
pub fn named_field_error(e: ReadError, name: &'static str) -> (r: ReadError)
    ensures
        r == in_named_field(e, name),
{
    let ReadError { context, kind } = e;
    ReadError { context: ErrorContext::NamedField { name, source: Box::new(context) }, kind }
}

/// Reports `e` as an error in reading the proxy that represents a type.
pub fn via_error(e: ReadError) -> (r: ReadError)
    ensures
        r == in_via(e),
{
    let ReadError { context, kind } = e;
    ReadError { context: ErrorContext::Via { source: Box::new(context) }, kind }
}

/// Reading an enum without variants: fails at once, without consuming input.
pub fn read_never(for_type: &'static str) -> (r: ReadError)
    ensures
        r == read_never_error(for_type),
{
    ReadError { context: ErrorContext::Derived { for_type }, kind: ReadErrorKind::ReadNever }
}

/// `e`, reported as an error in reading the string that represents a type.
pub open spec fn in_as_string(e: ReadError) -> ReadError {
    ReadError { context: ErrorContext::AsString { source: Box::new(e.context) }, kind: e.kind }
}

/// `e`, reported as an error in reading the bits of a set of flags.
pub open spec fn in_bitflags(e: ReadError) -> ReadError {
    ReadError { context: ErrorContext::Bitflags { source: Box::new(e.context) }, kind: e.kind }
}

/// Reads the proxy of a type represented through it, reporting errors within the proxy.
/// Converting the proxy into the type is left to the caller (see `conversion_error`).
pub fn read_via<P: Protocol>(stream: &mut Reader) -> (r: Result<P, ReadError>)
    ensures
        match P::spec_decode(old(stream)@) {
            Ok((m, n)) => r matches Ok(v) && v.model() == m && final(stream)@ == old(stream)@.skip(n as int),
            Err(e) => r == Err::<P, ReadError>(in_via(e)) && final(stream)@ == old(stream)@.skip(
                P::spec_error_consumed(old(stream)@) as int,
            ),
        },
{
    match P::read_sync(stream) {
        Ok(v) => Ok(v),
        Err(e) => Err(via_error(e)),
    }
}

/// Writes a type represented through the proxy `P`, given the outcome of converting the
/// value into its proxy: the proxy when the conversion succeeded, and otherwise the
/// conversion's error, reported in a `TryInto` context without writing anything.
pub fn write_via<P: Protocol>(converted: Result<P, WriteErrorKind>, sink: &mut Vec<u8>) -> (r: Result<(), WriteError>)
    ensures
        match converted {
            Ok(p) => r is Ok && P::wf_model(p.model()) && final(sink)@ == old(sink)@ + P::spec_encode(p.model()),
            Err(kind) => r == Err::<(), WriteError>(WriteError { context: ErrorContext::TryInto, kind })
                && final(sink)@ == old(sink)@,
        },
{
    match converted {
        Ok(p) => p.write_sync(sink),
        Err(kind) => Err(WriteError { context: ErrorContext::TryInto, kind }),
    }
}

/// The error of converting a read proxy into the type it represents.
pub fn conversion_error(kind: ReadErrorKind) -> (r: ReadError)
    ensures
        r == (ReadError { context: ErrorContext::TryInto, kind }),
{
    ReadError { context: ErrorContext::TryInto, kind }
}

/// Reads the string that represents a type, reporting errors within it. Parsing the
/// string is left to the caller (see `parse_error`).
pub fn read_as_string(stream: &mut Reader) -> (r: Result<String, ReadError>)
    ensures
        match <String as Protocol>::spec_decode(old(stream)@) {
            Ok((m, n)) => r matches Ok(s) && s@ == m && final(stream)@ == old(stream)@.skip(n as int),
            Err(e) => r == Err::<String, ReadError>(in_as_string(e)) && final(stream)@ == old(stream)@.skip(
                <String as Protocol>::spec_error_consumed(old(stream)@) as int,
            ),
        },
{
    match String::read_sync(stream) {
        Ok(s) => Ok(s),
        Err(ReadError { context, kind }) => Err(ReadError { context: ErrorContext::AsString { source: Box::new(context) }, kind }),
    }
}

/// The error of parsing the string that represents a type.
pub fn parse_error(kind: ReadErrorKind) -> (r: ReadError)
    ensures
        r == (ReadError { context: ErrorContext::FromStr, kind }),
{
    ReadError { context: ErrorContext::FromStr, kind }
}

/// Reads the bits of a set of flags, reporting errors within them. Turning the bits into
/// flags (dropping unknown bits) is left to the caller.
pub fn read_bitflags_bits<B: Protocol>(stream: &mut Reader) -> (r: Result<B, ReadError>)
    ensures
        match B::spec_decode(old(stream)@) {
            Ok((m, n)) => r matches Ok(v) && v.model() == m && final(stream)@ == old(stream)@.skip(n as int),
            Err(e) => r == Err::<B, ReadError>(in_bitflags(e)) && final(stream)@ == old(stream)@.skip(
                B::spec_error_consumed(old(stream)@) as int,
            ),
        },
{
    match B::read_sync(stream) {
        Ok(v) => Ok(v),
        Err(ReadError { context, kind }) => Err(ReadError { context: ErrorContext::Bitflags { source: Box::new(context) }, kind }),
    }
}

/// The name of a field of a struct with the derived representation.
pub trait FieldName {
    /// The field's name.
    spec fn spec_name() -> &'static str;

    /// The field's name.
    fn name() -> (s: &'static str)
        ensures
            s == Self::spec_name(),
    ;
}

/// A value held in the field named by `N` of a struct with the derived representation:
/// represented like the value, with errors in reading it reported within the field. A
/// struct is represented like the tuple of its fields, each held this way.
pub struct NamedField<T, N>(pub T, pub core::marker::PhantomData<N>);

impl<T: Protocol, N: FieldName> Protocol for NamedField<T, N> {
    type Model = T::Model;

    open spec fn model(&self) -> T::Model {
        self.0.model()
    }

    open spec fn wf_model(m: T::Model) -> bool {
        T::wf_model(m)
    }

    open spec fn spec_encode(m: T::Model) -> Seq<u8> {
        T::spec_encode(m)
    }

    open spec fn spec_decode(input: Seq<u8>) -> Result<(T::Model, nat), ReadError> {
        match T::spec_decode(input) {
            Ok((m, n)) => Ok((m, n)),
            Err(e) => Err(in_named_field(e, N::spec_name())),
        }
    }

    open spec fn spec_error_consumed(input: Seq<u8>) -> nat {
        T::spec_error_consumed(input)
    }

    proof fn lemma_encode_decode(m: T::Model, rest: Seq<u8>) {
        T::lemma_encode_decode(m, rest);
    }

    proof fn lemma_truncated(m: T::Model, k: nat) {
        T::lemma_truncated(m, k);
    }

    proof fn lemma_decode_wf(input: Seq<u8>) {
        T::lemma_decode_wf(input);
    }

    fn read_sync(stream: &mut Reader) -> (r: Result<NamedField<T, N>, ReadError>) {
        match T::read_sync(stream) {
            Ok(v) => Ok(NamedField(v, core::marker::PhantomData)),
            Err(e) => Err(named_field_error(e, N::name())),
        }
    }

    fn write_sync(&self, sink: &mut Vec<u8>) -> (r: Result<(), WriteError>) {
        self.0.write_sync(sink)
    }
}

impl<T: Canonical, N: FieldName> Canonical for NamedField<T, N> {
    proof fn lemma_decode_encode(input: Seq<u8>) {
        T::lemma_decode_encode(input);
    }
}

/// A value held in the field at position `I` of a tuple struct (or tuple variant) with
/// the derived representation: represented like the value, with errors in reading it
/// reported within the field. A tuple struct is represented like the tuple of its
/// fields, each held this way.
pub struct IndexedField<T, const I: usize>(pub T);

impl<T: Protocol, const I: usize> Protocol for IndexedField<T, I> {
    type Model = T::Model;

    open spec fn model(&self) -> T::Model {
        self.0.model()
    }

    open spec fn wf_model(m: T::Model) -> bool {
        T::wf_model(m)
    }

    open spec fn spec_encode(m: T::Model) -> Seq<u8> {
        T::spec_encode(m)
    }

    open spec fn spec_decode(input: Seq<u8>) -> Result<(T::Model, nat), ReadError> {
        match T::spec_decode(input) {
            Ok((m, n)) => Ok((m, n)),
            Err(e) => Err(in_unnamed_field(e, I)),
        }
    }

    open spec fn spec_error_consumed(input: Seq<u8>) -> nat {
        T::spec_error_consumed(input)
    }

    proof fn lemma_encode_decode(m: T::Model, rest: Seq<u8>) {
        T::lemma_encode_decode(m, rest);
    }

    proof fn lemma_truncated(m: T::Model, k: nat) {
        T::lemma_truncated(m, k);
    }

    proof fn lemma_decode_wf(input: Seq<u8>) {
        T::lemma_decode_wf(input);
    }

    fn read_sync(stream: &mut Reader) -> (r: Result<IndexedField<T, I>, ReadError>) {
        match T::read_sync(stream) {
            Ok(v) => Ok(IndexedField(v)),
            Err(e) => Err(unnamed_field_error(e, I)),
        }
    }

    fn write_sync(&self, sink: &mut Vec<u8>) -> (r: Result<(), WriteError>) {
        self.0.write_sync(sink)
    }
}

impl<T: Canonical, const I: usize> Canonical for IndexedField<T, I> {
    proof fn lemma_decode_encode(input: Seq<u8>) {
        T::lemma_decode_encode(input);
    }
}

} // verus!
