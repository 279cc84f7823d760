//! `bool`, the unit type, `PhantomData`, `Box`, `Option` and `Result`.
use vstd::prelude::*;

use crate::derived::{
    law_discriminant_is_declaration_index, law_discriminant_read_is_integer_read, decode_discriminant, discriminant_error_consumed, encode_discriminant, in_unnamed_field, lemma_discriminant_ok,
    lemma_discriminant_roundtrip, lemma_discriminant_truncated, read_discriminant, unnamed_field_error, write_discriminant,
};
use crate::error::{ErrorContext, IoErrorKind, ReadError, ReadErrorKind, WriteError};
use crate::protocol::{lemma_skip_concat, lemma_skip_prefix, lemma_skip_skip, lemma_take_concat, Canonical, Protocol};
use crate::impls::numbers::law_u8_big_endian;
use crate::stream::Reader;

verus! {

/// The error of reading a byte other than `0` or `1` as a `bool`.
pub open spec fn invalid_bool_error(b: u8) -> ReadError {
    ReadError { context: ErrorContext::BuiltIn { for_type: "bool" }, kind: ReadErrorKind::UnknownVariant8(b) }
}

/// Represented as one byte, with `0` for `false` and `1` for `true`.
impl Protocol for bool {
    type Model = bool;

    open spec fn model(&self) -> bool {
        *self
    }

    open spec fn wf_model(m: bool) -> bool {
        true
    }

    open spec fn spec_encode(m: bool) -> Seq<u8> {
        <u8 as Protocol>::spec_encode(if m { 1u8 } else { 0u8 })
    }

    open spec fn spec_decode(input: Seq<u8>) -> Result<(bool, nat), ReadError> {
        match <u8 as Protocol>::spec_decode(input) {
            Err(e) => Err(e),
            Ok((b, n)) => if b == 0 {
                Ok((false, n))
            } else if b == 1 {
                Ok((true, n))
            } else {
                Err(invalid_bool_error(b))
            },
        }
    }

    open spec fn spec_error_consumed(input: Seq<u8>) -> nat {
        if input.len() == 0 {
            0
        } else {
            1
        }
    }

    proof fn lemma_encode_decode(m: bool, rest: Seq<u8>) {
        <u8 as Protocol>::lemma_encode_decode(if m { 1u8 } else { 0u8 }, rest);
    }

    proof fn lemma_truncated(m: bool, k: nat) {
        if k < Self::spec_encode(m).len() {
            <u8 as Protocol>::lemma_truncated(if m { 1u8 } else { 0u8 }, k);
        }
    }

    proof fn lemma_decode_wf(input: Seq<u8>) {
        <u8 as Protocol>::lemma_decode_wf(input);
    }

    fn read_sync(stream: &mut Reader) -> (r: Result<bool, ReadError>) {
        match u8::read_sync(stream) {
            Ok(0) => Ok(false),
            Ok(1) => Ok(true),
            Ok(n) => Err(ReadError { context: ErrorContext::BuiltIn { for_type: "bool" }, kind: ReadErrorKind::UnknownVariant8(n) }),
            Err(e) => Err(e),
        }
    }

    fn write_sync(&self, sink: &mut Vec<u8>) -> (r: Result<(), WriteError>) {
        if *self { 1u8 } else { 0u8 }.write_sync(sink)
    }
}

impl Canonical for bool {
    proof fn lemma_decode_encode(input: Seq<u8>) {
        <u8 as Canonical>::lemma_decode_encode(input);
    }
}

/// The error of reading a `bool` with its own error type: a byte other than `0` or
/// `1`, or an I/O error.
#[derive(Clone, Copy, Debug, PartialEq, Eq, Structural)]
pub enum BoolReadError {
    /// The byte read was neither `0` nor `1`.
    InvalidValue(u8),
    /// Reading the byte failed.
    Io(IoErrorKind),
}

/// Reads a `bool` as one byte, `0` for `false` and `1` for `true`, reporting an early
/// end of the input as an `UnexpectedEof` I/O error and any other byte as invalid.
pub fn read_bool(stream: &mut Reader) -> (r: Result<bool, BoolReadError>)
    ensures
        old(stream)@.len() == 0 ==> r == Err::<bool, BoolReadError>(BoolReadError::Io(IoErrorKind::UnexpectedEof))
            && final(stream)@ == old(stream)@,
        old(stream)@.len() > 0 ==> final(stream)@ == old(stream)@.skip(1) && r == (if old(stream)@[0] == 0 {
            Ok::<bool, BoolReadError>(false)
        } else if old(stream)@[0] == 1 {
            Ok::<bool, BoolReadError>(true)
        } else {
            Err::<bool, BoolReadError>(BoolReadError::InvalidValue(old(stream)@[0]))
        }),
{
    match stream.read_byte() {
        None => Err(BoolReadError::Io(IoErrorKind::UnexpectedEof)),
        Some(0) => Ok(false),
        Some(1) => Ok(true),
        Some(n) => Err(BoolReadError::InvalidValue(n)),
    }
}

/// The unit type is represented by no bytes at all.
impl Protocol for () {
    type Model = ();

    open spec fn model(&self) -> () {
        ()
    }

    open spec fn wf_model(m: ()) -> bool {
        true
    }

    open spec fn spec_encode(m: ()) -> Seq<u8> {
        seq![]
    }

    open spec fn spec_decode(input: Seq<u8>) -> Result<((), nat), ReadError> {
        Ok(((), 0))
    }

    open spec fn spec_error_consumed(input: Seq<u8>) -> nat {
        0
    }

    proof fn lemma_encode_decode(m: (), rest: Seq<u8>) {
    }

    proof fn lemma_truncated(m: (), k: nat) {
    }

    proof fn lemma_decode_wf(input: Seq<u8>) {
    }

    fn read_sync(stream: &mut Reader) -> (r: Result<(), ReadError>) {
        assert(stream@ =~= stream@.skip(0));
        Ok(())
    }

    fn write_sync(&self, sink: &mut Vec<u8>) -> (r: Result<(), WriteError>) {
        assert(sink@ =~= sink@ + seq![]);
        Ok(())
    }
}

impl Canonical for () {
    proof fn lemma_decode_encode(input: Seq<u8>) {
        assert(input.take(0) =~= seq![]);
    }
}

/// A phantom type marker is represented by no bytes at all.
impl<T> Protocol for core::marker::PhantomData<T> {
    type Model = ();

    open spec fn model(&self) -> () {
        ()
    }

    open spec fn wf_model(m: ()) -> bool {
        true
    }

    open spec fn spec_encode(m: ()) -> Seq<u8> {
        seq![]
    }

    open spec fn spec_decode(input: Seq<u8>) -> Result<((), nat), ReadError> {
        Ok(((), 0))
    }

    open spec fn spec_error_consumed(input: Seq<u8>) -> nat {
        0
    }

    proof fn lemma_encode_decode(m: (), rest: Seq<u8>) {
    }

    proof fn lemma_truncated(m: (), k: nat) {
    }

    proof fn lemma_decode_wf(input: Seq<u8>) {
    }

    fn read_sync(stream: &mut Reader) -> (r: Result<core::marker::PhantomData<T>, ReadError>) {
        assert(stream@ =~= stream@.skip(0));
        Ok(core::marker::PhantomData)
    }

    fn write_sync(&self, sink: &mut Vec<u8>) -> (r: Result<(), WriteError>) {
        assert(sink@ =~= sink@ + seq![]);
        Ok(())
    }
}

impl<T> Canonical for core::marker::PhantomData<T> {
    proof fn lemma_decode_encode(input: Seq<u8>) {
        assert(input.take(0) =~= seq![]);
    }
}

/// A box is represented like its contents.
impl<T: Protocol> Protocol for Box<T> {
    type Model = T::Model;

    open spec fn model(&self) -> T::Model {
        (**self).model()
    }

    open spec fn wf_model(m: T::Model) -> bool {
        T::wf_model(m)
    }

    open spec fn spec_encode(m: T::Model) -> Seq<u8> {
        T::spec_encode(m)
    }

    open spec fn spec_decode(input: Seq<u8>) -> Result<(T::Model, nat), ReadError> {
        T::spec_decode(input)
    }

    open spec fn spec_error_consumed(input: Seq<u8>) -> nat {
        T::spec_error_consumed(input)
    }

    proof fn lemma_encode_decode(m: T::Model, rest: Seq<u8>) {
        T::lemma_encode_decode(m, rest);
    }

    proof fn lemma_truncated(m: T::Model, k: nat) {
        if k < Self::spec_encode(m).len() {
            T::lemma_truncated(m, k);
        }
    }

    proof fn lemma_decode_wf(input: Seq<u8>) {
        T::lemma_decode_wf(input);
    }

    fn read_sync(stream: &mut Reader) -> (r: Result<Box<T>, ReadError>) {
        match T::read_sync(stream) {
            Ok(v) => Ok(Box::new(v)),
            Err(e) => Err(e),
        }
    }

    fn write_sync(&self, sink: &mut Vec<u8>) -> (r: Result<(), WriteError>) {
        (**self).write_sync(sink)
    }
}

impl<T: Canonical> Canonical for Box<T> {
    proof fn lemma_decode_encode(input: Seq<u8>) {
        T::lemma_decode_encode(input);
    }
}

/// The model of an optional value.
pub open spec fn option_model<T: Protocol>(o: Option<T>) -> Option<T::Model> {
    match o {
        Some(v) => Some(v.model()),
        None => None,
    }
}

/// An option has the derived representation of `enum Option<T> { None, Some(T) }`:
/// a `u8` discriminant, `0` for `None` and `1` for `Some`, followed by the value if any.
impl<T: Protocol> Protocol for Option<T> {
    type Model = Option<T::Model>;

    open spec fn model(&self) -> Option<T::Model> {
        option_model(*self)
    }

    open spec fn wf_model(m: Option<T::Model>) -> bool {
        match m {
            Some(x) => T::wf_model(x),
            None => true,
        }
    }

    open spec fn spec_encode(m: Option<T::Model>) -> Seq<u8> {
        match m {
            None => encode_discriminant(2, 0),
            Some(x) => encode_discriminant(2, 1) + T::spec_encode(x),
        }
    }

    open spec fn spec_decode(input: Seq<u8>) -> Result<(Option<T::Model>, nat), ReadError> {
        match decode_discriminant(input, 2, "Option") {
            Err(e) => Err(e),
            Ok((d, n)) => if d == 0 {
                Ok((None, n))
            } else {
                match T::spec_decode(input.skip(n as int)) {
                    Ok((x, k)) => Ok((Some(x), n + k)),
                    Err(e) => Err(in_unnamed_field(e, 0)),
                }
            },
        }
    }

    open spec fn spec_error_consumed(input: Seq<u8>) -> nat {
        match decode_discriminant(input, 2, "Option") {
            Err(_) => discriminant_error_consumed(input, 2),
            Ok((d, n)) => n + T::spec_error_consumed(input.skip(n as int)),
        }
    }

    proof fn lemma_encode_decode(m: Option<T::Model>, rest: Seq<u8>) {
        match m {
            None => {
                lemma_discriminant_roundtrip(2, 0, rest, "Option");
            },
            Some(x) => {
                let d = encode_discriminant(2, 1);
                let e = T::spec_encode(x);
                lemma_skip_concat(d, e, rest);
                lemma_discriminant_roundtrip(2, 1, e + rest, "Option");
                T::lemma_encode_decode(x, rest);
            },
        }
    }

    proof fn lemma_truncated(m: Option<T::Model>, k: nat) {
        if k < Self::spec_encode(m).len() {
            match m {
                None => {
                    lemma_discriminant_truncated(2, 0, k, "Option");
                },
                Some(x) => {
                    let d = encode_discriminant(2, 1);
                    let e = T::spec_encode(x);
                    lemma_discriminant_roundtrip(2, 1, seq![], "Option");
                    lemma_take_concat(d, e, k);
                    if k < d.len() {
                        lemma_discriminant_truncated(2, 1, k, "Option");
                    } else {
                        let t = e.take(k - d.len());
                        lemma_discriminant_roundtrip(2, 1, t, "Option");
                        lemma_skip_prefix(d, t);
                        T::lemma_truncated(x, (k - d.len()) as nat);
                    }
                },
            }
        }
    }

    proof fn lemma_decode_wf(input: Seq<u8>) {
        lemma_discriminant_ok(input, 2, "Option");
        if let Ok((d, n)) = decode_discriminant(input, 2, "Option") {
            T::lemma_decode_wf(input.skip(n as int));
        }
    }

    fn read_sync(stream: &mut Reader) -> (r: Result<Option<T>, ReadError>) {
        let ghost start = stream@;
        proof {
            lemma_discriminant_ok(start, 2, "Option");
        }
        let d = match read_discriminant(stream, 2, "Option") {
            Ok(d) => d,
            Err(e) => return Err(e),
        };
        if d == 0 {
            Ok(None)
        } else {
            proof {
                T::lemma_decode_wf(stream@);
            }
            match T::read_sync(stream) {
                Ok(v) => {
                    proof {
                        if let Ok((x, k)) = T::spec_decode(start.skip(1)) {
                            lemma_skip_skip(start, 1, k);
                        }
                    }
                    Ok(Some(v))
                },
                Err(e) => {
                    proof {
                        lemma_skip_skip(start, 1, T::spec_error_consumed(start.skip(1)));
                    }
                    Err(unnamed_field_error(e, 0))
                },
            }
        }
    }

    fn write_sync(&self, sink: &mut Vec<u8>) -> (r: Result<(), WriteError>) {
        match self {
            None => {
                write_discriminant(sink, 2, 0);
            },
            Some(v) => {
                write_discriminant(sink, 2, 1);
                let _ = v.write_sync(sink);
                assert(final(sink)@ =~= old(sink)@ + Self::spec_encode(self.model()));
            },
        }
        Ok(())
    }
}

impl<T: Canonical> Canonical for Option<T> {
    proof fn lemma_decode_encode(input: Seq<u8>) {
        lemma_discriminant_ok(input, 2, "Option");
        if let Ok((d, n)) = decode_discriminant(input, 2, "Option") {
            if d != 0 {
                let tail = input.skip(n as int);
                T::lemma_decode_encode(tail);
                T::lemma_decode_wf(tail);
                if let Ok((x, k)) = T::spec_decode(tail) {
                    assert(input.take((n + k) as int) =~= input.take(n as int) + tail.take(k as int));
                }
            }
        }
    }
}

/// The model of a result.
pub open spec fn result_model<T: Protocol, E: Protocol>(r: Result<T, E>) -> Result<T::Model, E::Model> {
    match r {
        Ok(v) => Ok(v.model()),
        Err(e) => Err(e.model()),
    }
}

/// Reading a value of an enum `for_type` with the two variants `T` and `E`, each with one
/// field: a `u8` discriminant, `0` for the first and `1` for the second, then the field,
/// with errors in reading it reported within the field. The result is `Ok` for the first
/// variant and `Err` for the second.
pub open spec fn decode_two_variants<T: Protocol, E: Protocol>(input: Seq<u8>, for_type: &'static str) -> Result<(Result<T::Model, E::Model>, nat), ReadError> {
    match decode_discriminant(input, 2, for_type) {
        Err(e) => Err(e),
        Ok((d, n)) => if d == 0 {
            match T::spec_decode(input.skip(n as int)) {
                Ok((x, k)) => Ok((Ok(x), n + k)),
                Err(e) => Err(in_unnamed_field(e, 0)),
            }
        } else {
            match E::spec_decode(input.skip(n as int)) {
                Ok((x, k)) => Ok((Err(x), n + k)),
                Err(e) => Err(in_unnamed_field(e, 0)),
            }
        },
    }
}

/// The number of bytes that a failed read of a value of the enum `for_type` with the two
/// variants `T` and `E` consumes: those of the discriminant read, and those of the field
/// read up to its failure.
pub open spec fn two_variants_error_consumed<T: Protocol, E: Protocol>(input: Seq<u8>, for_type: &'static str) -> nat {
    match decode_discriminant(input, 2, for_type) {
        Err(_) => discriminant_error_consumed(input, 2),
        Ok((d, n)) => if d == 0 {
            n + T::spec_error_consumed(input.skip(n as int))
        } else {
            n + E::spec_error_consumed(input.skip(n as int))
        },
    }
}

/// Reads a value of the enum `for_type` with the two variants `T` and `E`, each with one
/// field; the result is `Ok` for the first variant and `Err` for the second.
pub fn read_two_variants<T: Protocol, E: Protocol>(stream: &mut Reader, for_type: &'static str) -> (r: Result<Result<T, E>, ReadError>)
    ensures
        match decode_two_variants::<T, E>(old(stream)@, for_type) {
            Ok((m, n)) => r matches Ok(v) && result_model(v) == m && final(stream)@ == old(stream)@.skip(n as int),
            Err(e) => r == Err::<Result<T, E>, ReadError>(e) && final(stream)@ == old(stream)@.skip(
                two_variants_error_consumed::<T, E>(old(stream)@, for_type) as int,
            ),
        },
{
    let ghost start = stream@;
    proof {
        lemma_discriminant_ok(start, 2, for_type);
    }
    let d = match read_discriminant(stream, 2, for_type) {
        Ok(d) => d,
        Err(e) => return Err(e),
    };
    proof {
        T::lemma_decode_wf(stream@);
        E::lemma_decode_wf(stream@);
    }
    if d == 0 {
        match T::read_sync(stream) {
            Ok(v) => {
                proof {
                    if let Ok((x, k)) = T::spec_decode(start.skip(1)) {
                        lemma_skip_skip(start, 1, k);
                    }
                }
                Ok(Ok(v))
            },
            Err(e) => {
                proof {
                    lemma_skip_skip(start, 1, T::spec_error_consumed(start.skip(1)));
                }
                Err(unnamed_field_error(e, 0))
            },
        }
    } else {
        match E::read_sync(stream) {
            Ok(v) => {
                proof {
                    if let Ok((x, k)) = E::spec_decode(start.skip(1)) {
                        lemma_skip_skip(start, 1, k);
                    }
                }
                Ok(Err(v))
            },
            Err(e) => {
                proof {
                    lemma_skip_skip(start, 1, E::spec_error_consumed(start.skip(1)));
                }
                Err(unnamed_field_error(e, 0))
            },
        }
    }
}

/// Writes the variant at position `idx` of an enum with two variants, holding `v`: the
/// `u8` discriminant, then the field.
pub fn write_variant_of_two<T: Protocol>(sink: &mut Vec<u8>, idx: u64, v: &T)
    requires
        idx < 2,
    ensures
        T::wf_model(v.model()),
        final(sink)@ == old(sink)@ + encode_discriminant(2, idx as nat) + T::spec_encode(v.model()),
{
    write_discriminant(sink, 2, idx);
    let _ = v.write_sync(sink);
}

/// A result has the derived representation of `enum Result<T, E> { Ok(T), Err(E) }`:
/// a `u8` discriminant, `0` for `Ok` and `1` for `Err`, followed by the contained value.
impl<T: Protocol, E: Protocol> Protocol for Result<T, E> {
    type Model = Result<T::Model, E::Model>;

    open spec fn model(&self) -> Result<T::Model, E::Model> {
        result_model(*self)
    }

    open spec fn wf_model(m: Result<T::Model, E::Model>) -> bool {
        match m {
            Ok(x) => T::wf_model(x),
            Err(x) => E::wf_model(x),
        }
    }

    open spec fn spec_encode(m: Result<T::Model, E::Model>) -> Seq<u8> {
        match m {
            Ok(x) => encode_discriminant(2, 0) + T::spec_encode(x),
            Err(x) => encode_discriminant(2, 1) + E::spec_encode(x),
        }
    }

    open spec fn spec_decode(input: Seq<u8>) -> Result<(Result<T::Model, E::Model>, nat), ReadError> {
        decode_two_variants::<T, E>(input, "Result")
    }

    open spec fn spec_error_consumed(input: Seq<u8>) -> nat {
        two_variants_error_consumed::<T, E>(input, "Result")
    }

    proof fn lemma_encode_decode(m: Result<T::Model, E::Model>, rest: Seq<u8>) {
        match m {
            Ok(x) => {
                let d = encode_discriminant(2, 0);
                let e = T::spec_encode(x);
                lemma_skip_concat(d, e, rest);
                lemma_discriminant_roundtrip(2, 0, e + rest, "Result");
                T::lemma_encode_decode(x, rest);
            },
            Err(x) => {
                let d = encode_discriminant(2, 1);
                let e = E::spec_encode(x);
                lemma_skip_concat(d, e, rest);
                lemma_discriminant_roundtrip(2, 1, e + rest, "Result");
                E::lemma_encode_decode(x, rest);
            },
        }
    }

    proof fn lemma_truncated(m: Result<T::Model, E::Model>, k: nat) {
        if k < Self::spec_encode(m).len() {
            match m {
                Ok(x) => {
                    let d = encode_discriminant(2, 0);
                    let e = T::spec_encode(x);
                    lemma_discriminant_roundtrip(2, 0, seq![], "Result");
                    lemma_take_concat(d, e, k);
                    if k < d.len() {
                        lemma_discriminant_truncated(2, 0, k, "Result");
                    } else {
                        let t = e.take(k - d.len());
                        lemma_discriminant_roundtrip(2, 0, t, "Result");
                        lemma_skip_prefix(d, t);
                        T::lemma_truncated(x, (k - d.len()) as nat);
                    }
                },
                Err(x) => {
                    let d = encode_discriminant(2, 1);
                    let e = E::spec_encode(x);
                    lemma_discriminant_roundtrip(2, 1, seq![], "Result");
                    lemma_take_concat(d, e, k);
                    if k < d.len() {
                        lemma_discriminant_truncated(2, 1, k, "Result");
                    } else {
                        let t = e.take(k - d.len());
                        lemma_discriminant_roundtrip(2, 1, t, "Result");
                        lemma_skip_prefix(d, t);
                        E::lemma_truncated(x, (k - d.len()) as nat);
                    }
                },
            }
        }
    }

    proof fn lemma_decode_wf(input: Seq<u8>) {
        lemma_discriminant_ok(input, 2, "Result");
        if let Ok((d, n)) = decode_discriminant(input, 2, "Result") {
            T::lemma_decode_wf(input.skip(n as int));
            E::lemma_decode_wf(input.skip(n as int));
        }
    }

    fn read_sync(stream: &mut Reader) -> (r: Result<Result<T, E>, ReadError>) {
        read_two_variants::<T, E>(stream, "Result")
    }

    fn write_sync(&self, sink: &mut Vec<u8>) -> (r: Result<(), WriteError>) {
        match self {
            Ok(v) => {
                write_discriminant(sink, 2, 0);
                let _ = v.write_sync(sink);
            },
            Err(v) => {
                write_discriminant(sink, 2, 1);
                let _ = v.write_sync(sink);
            },
        }
        assert(final(sink)@ =~= old(sink)@ + Self::spec_encode(self.model()));
        Ok(())
    }
}

impl<T: Canonical, E: Canonical> Canonical for Result<T, E> {
    proof fn lemma_decode_encode(input: Seq<u8>) {
        lemma_discriminant_ok(input, 2, "Result");
        if let Ok((d, n)) = decode_discriminant(input, 2, "Result") {
            let tail = input.skip(n as int);
            T::lemma_decode_encode(tail);
            T::lemma_decode_wf(tail);
            E::lemma_decode_encode(tail);
            E::lemma_decode_wf(tail);
            if d == 0 {
                if let Ok((x, k)) = T::spec_decode(tail) {
                    assert(input.take((n + k) as int) =~= input.take(n as int) + tail.take(k as int));
                }
            } else {
                if let Ok((x, k)) = E::spec_decode(tail) {
                    assert(input.take((n + k) as int) =~= input.take(n as int) + tail.take(k as int));
                }
            }
        }
    }
}

/// `false` is written as the byte `0` and `true` as the byte `1`; reading takes one byte,
/// `0` as `false`, `1` as `true`, and refuses any other byte as an unknown variant.
pub proof fn law_bool_byte(b: bool, x: u8, rest: Seq<u8>)
    ensures
        <bool as Protocol>::spec_encode(b) == seq![if b { 1u8 } else { 0u8 }],
        <bool as Protocol>::spec_decode(seq![x] + rest) == if x == 0 {
            Ok::<(bool, nat), ReadError>((false, 1))
        } else if x == 1 {
            Ok::<(bool, nat), ReadError>((true, 1))
        } else {
            Err::<(bool, nat), ReadError>(invalid_bool_error(x))
        },
{
    law_u8_big_endian(if b { 1u8 } else { 0u8 }, seq![x] + rest);
    assert((seq![x] + rest).take(1) =~= seq![x]);
    assert(<u8 as Protocol>::spec_encode(if b { 1u8 } else { 0u8 }) =~= seq![if b { 1u8 } else { 0u8 }]);
}

/// `None` is written as the byte `0`, and `Some(x)` as the byte `1` followed by `x`.
/// Reading takes the byte: `0` gives `None`, `1` gives `Some` of the value read after it
/// (its errors reported within field `0`), and any other byte is an unknown variant.
pub proof fn law_option_layout<T: Protocol>(x: T::Model, d: u8, rest: Seq<u8>)
    ensures
        <Option<T> as Protocol>::spec_encode(None) == seq![0u8],
        <Option<T> as Protocol>::spec_encode(Some(x)) == seq![1u8] + T::spec_encode(x),
        <Option<T> as Protocol>::spec_decode(seq![d] + rest) == if d == 0 {
            Ok::<(Option<T::Model>, nat), ReadError>((None, 1))
        } else if d == 1 {
            match T::spec_decode(rest) {
                Ok((v, k)) => Ok::<(Option<T::Model>, nat), ReadError>((Some(v), 1 + k)),
                Err(e) => Err::<(Option<T::Model>, nat), ReadError>(in_unnamed_field(e, 0)),
            }
        } else {
            Err::<(Option<T::Model>, nat), ReadError>(
                ReadError { context: ErrorContext::Derived { for_type: "Option" }, kind: ReadErrorKind::UnknownVariant8(d) },
            )
        },
{
    law_discriminant_is_declaration_index(2, 0);
    law_discriminant_is_declaration_index(2, 1);
    law_u8_big_endian(0u8, seq![d] + rest);
    law_u8_big_endian(1u8, seq![d] + rest);
    assert((seq![d] + rest).take(1) =~= seq![d]);
    assert((seq![d] + rest).skip(1) =~= rest);
    law_discriminant_read_is_integer_read(seq![d] + rest, 2, "Option");
    assert(<u8 as Protocol>::spec_encode(0u8) =~= seq![0u8]);
    assert(<u8 as Protocol>::spec_encode(1u8) =~= seq![1u8]);
}

/// `Ok(x)` is written as the byte `0` followed by `x`, and `Err(y)` as the byte `1`
/// followed by `y`. Reading takes the byte: `0` gives `Ok` and `1` gives `Err` of the
/// value read after it (its errors reported within field `0`), and any other byte is an
/// unknown variant.
pub proof fn law_result_layout<T: Protocol, E: Protocol>(x: T::Model, y: E::Model, d: u8, rest: Seq<u8>)
    ensures
        <Result<T, E> as Protocol>::spec_encode(Ok(x)) == seq![0u8] + T::spec_encode(x),
        <Result<T, E> as Protocol>::spec_encode(Err(y)) == seq![1u8] + E::spec_encode(y),
        <Result<T, E> as Protocol>::spec_decode(seq![d] + rest) == if d == 0 {
            match T::spec_decode(rest) {
                Ok((v, k)) => Ok::<(Result<T::Model, E::Model>, nat), ReadError>((Ok(v), 1 + k)),
                Err(e) => Err::<(Result<T::Model, E::Model>, nat), ReadError>(in_unnamed_field(e, 0)),
            }
        } else if d == 1 {
            match E::spec_decode(rest) {
                Ok((v, k)) => Ok::<(Result<T::Model, E::Model>, nat), ReadError>((Err(v), 1 + k)),
                Err(e) => Err::<(Result<T::Model, E::Model>, nat), ReadError>(in_unnamed_field(e, 0)),
            }
        } else {
            Err::<(Result<T::Model, E::Model>, nat), ReadError>(
                ReadError { context: ErrorContext::Derived { for_type: "Result" }, kind: ReadErrorKind::UnknownVariant8(d) },
            )
        },
{
    law_discriminant_is_declaration_index(2, 0);
    law_discriminant_is_declaration_index(2, 1);
    law_u8_big_endian(0u8, seq![d] + rest);
    law_u8_big_endian(1u8, seq![d] + rest);
    assert((seq![d] + rest).take(1) =~= seq![d]);
    assert((seq![d] + rest).skip(1) =~= rest);
    law_discriminant_read_is_integer_read(seq![d] + rest, 2, "Result");
    assert(<u8 as Protocol>::spec_encode(0u8) =~= seq![0u8]);
    assert(<u8 as Protocol>::spec_encode(1u8) =~= seq![1u8]);
}


} // verus!
