//! Nonzero integers: represented like their values, through the integer as a proxy.
//! Reading zero fails with an unknown-variant error of the integer's width, in the context
//! of the conversion from the proxy.
use vstd::prelude::*;

use crate::derived::{in_via, via_error};
use crate::error::{ErrorContext, ReadError, ReadErrorKind};
use crate::protocol::Protocol;
use crate::stream::Reader;

verus! {

/// Integer types whose nonzero values make up a nonzero integer type.
pub trait NonzeroRepr: Protocol {
    /// Whether `m` is zero.
    spec fn spec_is_zero(m: Self::Model) -> bool;

    /// The error kind of reading zero.
    spec fn spec_zero_kind() -> ReadErrorKind;

    /// Whether this value is zero.
    fn is_zero(&self) -> (b: bool)
        ensures
            b == Self::spec_is_zero(self.model()),
    ;

    /// The error kind of reading zero.
    fn zero_kind() -> (k: ReadErrorKind)
        ensures
            k == Self::spec_zero_kind(),
    ;
}

impl NonzeroRepr for u8 {
    open spec fn spec_is_zero(m: u8) -> bool {
        m == 0
    }

    open spec fn spec_zero_kind() -> ReadErrorKind {
        ReadErrorKind::UnknownVariant8(0)
    }

    fn is_zero(&self) -> (b: bool) {
        *self == 0
    }

    fn zero_kind() -> (k: ReadErrorKind) {
        ReadErrorKind::UnknownVariant8(0)
    }
}

impl NonzeroRepr for i8 {
    open spec fn spec_is_zero(m: i8) -> bool {
        m == 0
    }

    open spec fn spec_zero_kind() -> ReadErrorKind {
        ReadErrorKind::UnknownVariant8(0)
    }

    fn is_zero(&self) -> (b: bool) {
        *self == 0
    }

    fn zero_kind() -> (k: ReadErrorKind) {
        ReadErrorKind::UnknownVariant8(0)
    }
}

impl NonzeroRepr for u16 {
    open spec fn spec_is_zero(m: u16) -> bool {
        m == 0
    }

    open spec fn spec_zero_kind() -> ReadErrorKind {
        ReadErrorKind::UnknownVariant16(0)
    }

    fn is_zero(&self) -> (b: bool) {
        *self == 0
    }

    fn zero_kind() -> (k: ReadErrorKind) {
        ReadErrorKind::UnknownVariant16(0)
    }
}

impl NonzeroRepr for i16 {
    open spec fn spec_is_zero(m: i16) -> bool {
        m == 0
    }

    open spec fn spec_zero_kind() -> ReadErrorKind {
        ReadErrorKind::UnknownVariant16(0)
    }

    fn is_zero(&self) -> (b: bool) {
        *self == 0
    }

    fn zero_kind() -> (k: ReadErrorKind) {
        ReadErrorKind::UnknownVariant16(0)
    }
}

impl NonzeroRepr for u32 {
    open spec fn spec_is_zero(m: u32) -> bool {
        m == 0
    }

    open spec fn spec_zero_kind() -> ReadErrorKind {
        ReadErrorKind::UnknownVariant32(0)
    }

    fn is_zero(&self) -> (b: bool) {
        *self == 0
    }

    fn zero_kind() -> (k: ReadErrorKind) {
        ReadErrorKind::UnknownVariant32(0)
    }
}

impl NonzeroRepr for i32 {
    open spec fn spec_is_zero(m: i32) -> bool {
        m == 0
    }

    open spec fn spec_zero_kind() -> ReadErrorKind {
        ReadErrorKind::UnknownVariant32(0)
    }

    fn is_zero(&self) -> (b: bool) {
        *self == 0
    }

    fn zero_kind() -> (k: ReadErrorKind) {
        ReadErrorKind::UnknownVariant32(0)
    }
}

impl NonzeroRepr for u64 {
    open spec fn spec_is_zero(m: u64) -> bool {
        m == 0
    }

    open spec fn spec_zero_kind() -> ReadErrorKind {
        ReadErrorKind::UnknownVariant64(0)
    }

    fn is_zero(&self) -> (b: bool) {
        *self == 0
    }

    fn zero_kind() -> (k: ReadErrorKind) {
        ReadErrorKind::UnknownVariant64(0)
    }
}

impl NonzeroRepr for i64 {
    open spec fn spec_is_zero(m: i64) -> bool {
        m == 0
    }

    open spec fn spec_zero_kind() -> ReadErrorKind {
        ReadErrorKind::UnknownVariant64(0)
    }

    fn is_zero(&self) -> (b: bool) {
        *self == 0
    }

    fn zero_kind() -> (k: ReadErrorKind) {
        ReadErrorKind::UnknownVariant64(0)
    }
}

impl NonzeroRepr for u128 {
    open spec fn spec_is_zero(m: u128) -> bool {
        m == 0
    }

    open spec fn spec_zero_kind() -> ReadErrorKind {
        ReadErrorKind::UnknownVariant128(0)
    }

    fn is_zero(&self) -> (b: bool) {
        *self == 0
    }

    fn zero_kind() -> (k: ReadErrorKind) {
        ReadErrorKind::UnknownVariant128(0)
    }
}

impl NonzeroRepr for i128 {
    open spec fn spec_is_zero(m: i128) -> bool {
        m == 0
    }

    open spec fn spec_zero_kind() -> ReadErrorKind {
        ReadErrorKind::UnknownVariant128(0)
    }

    fn is_zero(&self) -> (b: bool) {
        *self == 0
    }

    fn zero_kind() -> (k: ReadErrorKind) {
        ReadErrorKind::UnknownVariant128(0)
    }
}

/// Reads a nonzero integer through its integer proxy `T`: errors in reading the integer
/// are reported within the proxy, and zero is refused with `T`'s unknown-variant error
/// of zero in the context of the conversion, after the integer was read.
pub fn read_nonzero<T: NonzeroRepr>(stream: &mut Reader) -> (r: Result<T, ReadError>)
    ensures
        match T::spec_decode(old(stream)@) {
            Ok((m, n)) => final(stream)@ == old(stream)@.skip(n as int) && if T::spec_is_zero(m) {
                r == Err::<T, ReadError>(ReadError { context: ErrorContext::TryInto, kind: T::spec_zero_kind() })
            } else {
                r matches Ok(v) && v.model() == m
            },
            Err(e) => r == Err::<T, ReadError>(in_via(e)) && final(stream)@ == old(stream)@.skip(
                T::spec_error_consumed(old(stream)@) as int,
            ),
        },
{
    match T::read_sync(stream) {
        Ok(v) => if v.is_zero() {
            Err(ReadError { context: ErrorContext::TryInto, kind: T::zero_kind() })
        } else {
            Ok(v)
        },
        Err(e) => Err(via_error(e)),
    }
}

/// Reading a nonzero `u8` refuses exactly zero: every other `u8` is read as the
/// nonzero integer it is, and zero is refused with the unknown-variant error of a
/// 1-byte discriminant `0`.
pub proof fn law_nonzero_u8_refuses_exactly_zero(m: u8)
    ensures
        <u8 as NonzeroRepr>::spec_is_zero(m) <==> m == 0,
        <u8 as NonzeroRepr>::spec_zero_kind() == ReadErrorKind::UnknownVariant8(0),
{
}

/// Reading a nonzero `i8` refuses exactly zero: every other `i8`, negative or positive, is read as the
/// nonzero integer it is, and zero is refused with the unknown-variant error of a
/// 1-byte discriminant `0`.
pub proof fn law_nonzero_i8_refuses_exactly_zero(m: i8)
    ensures
        <i8 as NonzeroRepr>::spec_is_zero(m) <==> m == 0,
        <i8 as NonzeroRepr>::spec_zero_kind() == ReadErrorKind::UnknownVariant8(0),
{
}

/// Reading a nonzero `u16` refuses exactly zero: every other `u16` is read as the
/// nonzero integer it is, and zero is refused with the unknown-variant error of a
/// 2-byte discriminant `0`.
pub proof fn law_nonzero_u16_refuses_exactly_zero(m: u16)
    ensures
        <u16 as NonzeroRepr>::spec_is_zero(m) <==> m == 0,
        <u16 as NonzeroRepr>::spec_zero_kind() == ReadErrorKind::UnknownVariant16(0),
{
}

/// Reading a nonzero `i16` refuses exactly zero: every other `i16`, negative or positive, is read as the
/// nonzero integer it is, and zero is refused with the unknown-variant error of a
/// 2-byte discriminant `0`.
pub proof fn law_nonzero_i16_refuses_exactly_zero(m: i16)
    ensures
        <i16 as NonzeroRepr>::spec_is_zero(m) <==> m == 0,
        <i16 as NonzeroRepr>::spec_zero_kind() == ReadErrorKind::UnknownVariant16(0),
{
}

/// Reading a nonzero `u32` refuses exactly zero: every other `u32` is read as the
/// nonzero integer it is, and zero is refused with the unknown-variant error of a
/// 4-byte discriminant `0`.
pub proof fn law_nonzero_u32_refuses_exactly_zero(m: u32)
    ensures
        <u32 as NonzeroRepr>::spec_is_zero(m) <==> m == 0,
        <u32 as NonzeroRepr>::spec_zero_kind() == ReadErrorKind::UnknownVariant32(0),
{
}

/// Reading a nonzero `i32` refuses exactly zero: every other `i32`, negative or positive, is read as the
/// nonzero integer it is, and zero is refused with the unknown-variant error of a
/// 4-byte discriminant `0`.
pub proof fn law_nonzero_i32_refuses_exactly_zero(m: i32)
    ensures
        <i32 as NonzeroRepr>::spec_is_zero(m) <==> m == 0,
        <i32 as NonzeroRepr>::spec_zero_kind() == ReadErrorKind::UnknownVariant32(0),
{
}

/// Reading a nonzero `u64` refuses exactly zero: every other `u64` is read as the
/// nonzero integer it is, and zero is refused with the unknown-variant error of a
/// 8-byte discriminant `0`.
pub proof fn law_nonzero_u64_refuses_exactly_zero(m: u64)
    ensures
        <u64 as NonzeroRepr>::spec_is_zero(m) <==> m == 0,
        <u64 as NonzeroRepr>::spec_zero_kind() == ReadErrorKind::UnknownVariant64(0),
{
}

/// Reading a nonzero `i64` refuses exactly zero: every other `i64`, negative or positive, is read as the
/// nonzero integer it is, and zero is refused with the unknown-variant error of a
/// 8-byte discriminant `0`.
pub proof fn law_nonzero_i64_refuses_exactly_zero(m: i64)
    ensures
        <i64 as NonzeroRepr>::spec_is_zero(m) <==> m == 0,
        <i64 as NonzeroRepr>::spec_zero_kind() == ReadErrorKind::UnknownVariant64(0),
{
}

/// Reading a nonzero `u128` refuses exactly zero: every other `u128` is read as the
/// nonzero integer it is, and zero is refused with the unknown-variant error of a
/// 16-byte discriminant `0`.
pub proof fn law_nonzero_u128_refuses_exactly_zero(m: u128)
    ensures
        <u128 as NonzeroRepr>::spec_is_zero(m) <==> m == 0,
        <u128 as NonzeroRepr>::spec_zero_kind() == ReadErrorKind::UnknownVariant128(0),
{
}

/// Reading a nonzero `i128` refuses exactly zero: every other `i128`, negative or positive, is read as the
/// nonzero integer it is, and zero is refused with the unknown-variant error of a
/// 16-byte discriminant `0`.
pub proof fn law_nonzero_i128_refuses_exactly_zero(m: i128)
    ensures
        <i128 as NonzeroRepr>::spec_is_zero(m) <==> m == 0,
        <i128 as NonzeroRepr>::spec_zero_kind() == ReadErrorKind::UnknownVariant128(0),
{
}

} // verus!
