//! `rust_decimal::Decimal`: represented through a proxy holding its 16 serialized
//! bytes (flags, then the low, middle and high parts of the mantissa, each
//! little-endian), as an array of bytes.
use vstd::prelude::*;

use rust_decimal::Decimal;

use crate::derived::{in_unnamed_field, in_via, unnamed_field_error, via_error};
use crate::error::{ReadError, WriteError};
use crate::protocol::{consumed, Canonical, Protocol};
use crate::stream::Reader;

verus! {

#[verifier::external_type_specification]
#[verifier::external_body]
pub struct ExDecimal(Decimal);

/// The 16 bytes of a decimal, as `Decimal::serialize` returns them.
pub uninterp spec fn decimal_bytes(d: Decimal) -> Seq<u8>;

/// The number whose little-endian bytes are `s`.
pub open spec fn le_value(s: Seq<u8>) -> nat
    decreases s.len(),
{
    if s.len() == 0 {
        0
    } else {
        s[0] as nat + 256 * le_value(s.skip(1))
    }
}

/// The `n` least significant bytes of `x`, least significant first.
pub open spec fn le_bytes(x: nat, n: nat) -> Seq<u8>
    decreases n,
{
    if n == 0 {
        seq![]
    } else {
        seq![(x % 256) as u8] + le_bytes(x / 256, (n - 1) as nat)
    }
}

/// `10` raised to the power `n`.
pub open spec fn pow10(n: nat) -> nat
    decreases n,
{
    if n == 0 {
        1
    } else {
        10 * pow10((n - 1) as nat)
    }
}

/// The mantissa that `Decimal::deserialize` keeps when the scale in `bytes` exceeds 28:
/// the 96-bit mantissa divided by ten to the power of the excess, plus one when the
/// remainder of that division is `5` or more.
pub open spec fn decimal_rounded_mantissa(bytes: Seq<u8>) -> nat {
    let m = le_value(bytes.subrange(4, 16));
    let p = pow10((decimal_scale(bytes) - 28) as nat);
    if m % p >= 5 {
        m / p + 1
    } else {
        m / p
    }
}

/// The scale that `Decimal::deserialize` reads from `bytes`.
pub open spec fn decimal_scale(bytes: Seq<u8>) -> u8 {
    bytes[2] & 0x1f
}

/// The bytes of the decimal that `Decimal::deserialize` makes of `bytes`: the unused
/// bits of the flags cleared and the sign and scale kept, and, when the scale exceeds
/// 28, the mantissa rounded to a scale of 28.
pub open spec fn decimal_normalized(bytes: Seq<u8>) -> Seq<u8> {
    if decimal_scale(bytes) <= 28 {
        seq![0u8, 0u8, decimal_scale(bytes), bytes[3] & 0x80] + bytes.subrange(4, 16)
    } else {
        seq![0u8, 0u8, 28u8, bytes[3] & 0x80] + le_bytes(decimal_rounded_mantissa(bytes), 12)
    }
}

/// `Decimal::deserialize`: the decimal with the flags, low, middle and high parts in
/// `bytes`; its serialized bytes are `bytes` normalized.
#[verifier::external_body]
fn decimal_deserialize(bytes: [u8; 16]) -> (d: Decimal)
    ensures
        decimal_bytes(d) == decimal_normalized(bytes@),
{
    Decimal::deserialize(bytes)
}

/// `Decimal::serialize`: the 16 bytes of the decimal, in the form the type documents for
/// its flags: the unused bits clear and a scale of at most 28.
#[verifier::external_body]
fn decimal_serialize(d: &Decimal) -> (bytes: [u8; 16])
    ensures
        bytes@ == decimal_bytes(*d),
        decimal_bytes_in_form(bytes@),
{
    d.serialize()
}

/// The proxy of a decimal: its serialized bytes.
pub struct DecimalProxy(pub [u8; 16]);

/// Represented like its byte array; errors are reported within its field.
impl Protocol for DecimalProxy {
    type Model = Seq<u8>;

    open spec fn model(&self) -> Seq<u8> {
        self.0@
    }

    open spec fn wf_model(m: Seq<u8>) -> bool {
        m.len() == 16
    }

    open spec fn spec_encode(m: Seq<u8>) -> Seq<u8> {
        <[u8; 16] as Protocol>::spec_encode(m)
    }

    open spec fn spec_decode(input: Seq<u8>) -> Result<(Seq<u8>, nat), ReadError> {
        match <[u8; 16] as Protocol>::spec_decode(input) {
            Err(e) => Err(in_unnamed_field(e, 0)),
            Ok((m, n)) => Ok((m, n)),
        }
    }

    open spec fn spec_error_consumed(input: Seq<u8>) -> nat {
        consumed::<[u8; 16]>(input)
    }

    proof fn lemma_encode_decode(m: Seq<u8>, rest: Seq<u8>) {
        assert forall|i: int| 0 <= i < m.len() implies #[trigger] <u8 as Protocol>::wf_model(m[i]) by {
        }
        <[u8; 16] as Protocol>::lemma_encode_decode(m, rest);
    }

    proof fn lemma_truncated(m: Seq<u8>, k: nat) {
        if k < Self::spec_encode(m).len() {
            assert forall|i: int| 0 <= i < m.len() implies #[trigger] <u8 as Protocol>::wf_model(m[i]) by {
            }
            <[u8; 16] as Protocol>::lemma_truncated(m, k);
        }
    }

    proof fn lemma_decode_wf(input: Seq<u8>) {
        <[u8; 16] as Protocol>::lemma_decode_wf(input);
    }

    fn read_sync(stream: &mut Reader) -> (r: Result<DecimalProxy, ReadError>) {
        match <[u8; 16]>::read_sync(stream) {
            Ok(bytes) => {
                assert(bytes@ =~= <[u8; 16] as Protocol>::model(&bytes));
                Ok(DecimalProxy(bytes))
            },
            Err(e) => Err(unnamed_field_error(e, 0)),
        }
    }

    fn write_sync(&self, sink: &mut Vec<u8>) -> (r: Result<(), WriteError>) {
        let r = self.0.write_sync(sink);
        assert(self.0@ =~= <[u8; 16] as Protocol>::model(&self.0));
        r
    }
}

impl Canonical for DecimalProxy {
    proof fn lemma_decode_encode(input: Seq<u8>) {
        <[u8; 16] as Canonical>::lemma_decode_encode(input);
    }
}

/// Reads a decimal through its proxy; errors are reported within the proxy.
pub fn read_decimal(stream: &mut Reader) -> (r: Result<Decimal, ReadError>)
    ensures
        match DecimalProxy::spec_decode(old(stream)@) {
            Ok((bytes, n)) => r matches Ok(d) && decimal_bytes(d) == decimal_normalized(bytes)
                && final(stream)@ == old(stream)@.skip(n as int),
            Err(e) => r == Err::<Decimal, ReadError>(in_via(e)) && final(stream)@ == old(stream)@.skip(
                DecimalProxy::spec_error_consumed(old(stream)@) as int,
            ),
        },
{
    match DecimalProxy::read_sync(stream) {
        Ok(DecimalProxy(bytes)) => Ok(decimal_deserialize(bytes)),
        Err(e) => Err(via_error(e)),
    }
}

/// Writes a decimal through its proxy: its 16 serialized bytes.
pub fn write_decimal(d: &Decimal, sink: &mut Vec<u8>) -> (r: Result<(), WriteError>)
    ensures
        r is Ok,
        decimal_bytes_in_form(decimal_bytes(*d)),
        final(sink)@ == old(sink)@ + DecimalProxy::spec_encode(decimal_bytes(*d)),
{
    DecimalProxy(decimal_serialize(d)).write_sync(sink)
}

/// Whether `bytes` are the serialized bytes of a decimal in the documented form: the
/// unused bits of the flags clear and a scale of at most 28.
pub open spec fn decimal_bytes_in_form(bytes: Seq<u8>) -> bool {
    &&& bytes.len() == 16
    &&& bytes[0] == 0
    &&& bytes[1] == 0
    &&& bytes[2] <= 28
    &&& bytes[3] & 0x7f == 0
}

/// Reading a written decimal gives back a decimal with the same bytes: the
/// representation of serialized bytes in the documented form, followed by any bytes,
/// reads as those bytes, and the decimal made of them serializes to them again.
pub proof fn law_decimal_round_trip(bytes: Seq<u8>, rest: Seq<u8>)
    requires
        decimal_bytes_in_form(bytes),
    ensures
        DecimalProxy::spec_decode(DecimalProxy::spec_encode(bytes) + rest) == Ok::<(Seq<u8>, nat), ReadError>(
            (bytes, DecimalProxy::spec_encode(bytes).len()),
        ),
        decimal_normalized(bytes) == bytes,
{
    DecimalProxy::lemma_encode_decode(bytes, rest);
    let b2 = bytes[2];
    let b3 = bytes[3];
    assert(b2 <= 28 ==> b2 & 0x1f == b2) by (bit_vector);
    assert(b3 & 0x7f == 0 ==> b3 & 0x80 == b3) by (bit_vector);
    assert(decimal_normalized(bytes) =~= bytes);
}

proof fn lemma_le_bytes_len(x: nat, n: nat)
    ensures
        le_bytes(x, n).len() == n,
    decreases n,
{
    if n > 0 {
        lemma_le_bytes_len(x / 256, (n - 1) as nat);
    }
}

/// The bytes of the decimal that `Decimal::deserialize` makes of any 16 bytes are in the
/// documented form.
proof fn lemma_normalized_in_form(bytes: Seq<u8>)
    requires
        bytes.len() == 16,
    ensures
        decimal_bytes_in_form(decimal_normalized(bytes)),
{
    let b2 = bytes[2];
    let b3 = bytes[3];
    assert(b2 & 0x1f <= 31) by (bit_vector);
    assert((b3 & 0x80) & 0x7f == 0) by (bit_vector);
    if decimal_scale(bytes) > 28 {
        lemma_le_bytes_len(decimal_rounded_mantissa(bytes), 12);
    }
}

/// A decimal is represented through its proxy: its 16 serialized bytes. Reading gives
/// the decimal that `Decimal::deserialize` makes of the bytes read.
impl Protocol for Decimal {
    type Model = Seq<u8>;

    open spec fn model(&self) -> Seq<u8> {
        decimal_bytes(*self)
    }

    open spec fn wf_model(m: Seq<u8>) -> bool {
        decimal_bytes_in_form(m)
    }

    open spec fn spec_encode(m: Seq<u8>) -> Seq<u8> {
        DecimalProxy::spec_encode(m)
    }

    open spec fn spec_decode(input: Seq<u8>) -> Result<(Seq<u8>, nat), ReadError> {
        match DecimalProxy::spec_decode(input) {
            Err(e) => Err(in_via(e)),
            Ok((bytes, n)) => Ok((decimal_normalized(bytes), n)),
        }
    }

    open spec fn spec_error_consumed(input: Seq<u8>) -> nat {
        DecimalProxy::spec_error_consumed(input)
    }

    proof fn lemma_encode_decode(m: Seq<u8>, rest: Seq<u8>) {
        law_decimal_round_trip(m, rest);
    }

    proof fn lemma_truncated(m: Seq<u8>, k: nat) {
        if k < Self::spec_encode(m).len() {
            DecimalProxy::lemma_truncated(m, k);
        }
    }

    proof fn lemma_decode_wf(input: Seq<u8>) {
        DecimalProxy::lemma_decode_wf(input);
        if let Ok((bytes, n)) = DecimalProxy::spec_decode(input) {
            lemma_normalized_in_form(bytes);
        }
    }

    fn read_sync(stream: &mut Reader) -> (r: Result<Decimal, ReadError>) {
        read_decimal(stream)
    }

    fn write_sync(&self, sink: &mut Vec<u8>) -> (r: Result<(), WriteError>) {
        write_decimal(self, sink)
    }
}

} // verus!
