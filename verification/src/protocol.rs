//! The `Protocol` trait: a value's binary representation, and reading and writing it.
use vstd::prelude::*;

use crate::error::{IoErrorKind, ReadError, ReadErrorKind, WriteError};
use crate::stream::Reader;

verus! {

/// Whether `e` reports that the input ended before a whole value was read.
pub open spec fn is_unexpected_eof(e: ReadError) -> bool {
    e.kind == ReadErrorKind::Io(IoErrorKind::UnexpectedEof)
}

/// This trait allows reading a value of an implementing type from a byte stream,
/// as well as writing one to a byte sink.
///
/// The representation of a value is given by `spec_encode` on its model, and reading
/// is given by `spec_decode`: the outcome of reading from a given sequence of bytes,
/// either a model together with the number of bytes it occupies, or an error.
pub trait Protocol: Sized {
    /// The mathematical value that a value of this type stands for.
    type Model;

    /// The model of this value.
    spec fn model(&self) -> Self::Model;

    /// Whether `m` is a model that values of this type can have.
    spec fn wf_model(m: Self::Model) -> bool;

    /// The bytes that represent `m`.
    spec fn spec_encode(m: Self::Model) -> Seq<u8>;

    /// The outcome of reading a value from the front of `input`.
    spec fn spec_decode(input: Seq<u8>) -> Result<(Self::Model, nat), ReadError>;

    /// The number of bytes that a read from the front of `input` consumes before it
    /// stops with an error: everything up to the failing part, and nothing after it.
    spec fn spec_error_consumed(input: Seq<u8>) -> nat;

    /// Reading the representation of a well-formed model, followed by any bytes,
    /// gives back that model and consumes exactly its representation.
    proof fn lemma_encode_decode(m: Self::Model, rest: Seq<u8>)
        requires
            Self::wf_model(m),
        ensures
            Self::spec_decode(Self::spec_encode(m) + rest) == Ok::<(Self::Model, nat), ReadError>(
                (m, Self::spec_encode(m).len()),
            ),
    ;

    /// Reading a proper prefix of the representation of a well-formed model fails
    /// because the input ends early.
    proof fn lemma_truncated(m: Self::Model, k: nat)
        requires
            Self::wf_model(m),
        ensures
            k < Self::spec_encode(m).len() ==> (Self::spec_decode(Self::spec_encode(m).take(k as int)) matches Err(e)
                && is_unexpected_eof(e)),
    ;

    /// A successful read consumes no more than the input and gives a well-formed model;
    /// a failed one consumes no more than the input either.
    proof fn lemma_decode_wf(input: Seq<u8>)
        ensures
            Self::spec_decode(input) matches Ok((m, n)) ==> n <= input.len() && Self::wf_model(m),
            Self::spec_decode(input) is Err ==> Self::spec_error_consumed(input) <= input.len(),
    ;

    /// Reads a value of this type from a byte stream.
    fn read_sync(stream: &mut Reader) -> (r: Result<Self, ReadError>)
        ensures
            match Self::spec_decode(old(stream)@) {
                Ok((m, n)) => r matches Ok(v) && v.model() == m && final(stream)@ == old(stream)@.skip(
                    n as int,
                ),
                Err(e) => r == Err::<Self, ReadError>(e) && final(stream)@ == old(stream)@.skip(
                    Self::spec_error_consumed(old(stream)@) as int,
                ),
            },
    ;

    /// Writes a value of this type to a byte sink.
    fn write_sync(&self, sink: &mut Vec<u8>) -> (r: Result<(), WriteError>)
        ensures
            r is Ok,
            Self::wf_model(self.model()),
            final(sink)@ == old(sink)@ + Self::spec_encode(self.model()),
    ;
}

/// The number of bytes that reading a `T` from the front of `input` consumes, whether the
/// read succeeds or fails.
pub open spec fn consumed<T: Protocol>(input: Seq<u8>) -> nat {
    match T::spec_decode(input) {
        Ok((m, n)) => n,
        Err(e) => T::spec_error_consumed(input),
    }
}

/// Types whose representations are canonical: every byte sequence that reads
/// successfully is the representation of the model it reads as.
pub trait Canonical: Protocol {
    /// The bytes consumed by a successful read are the representation of the result.
    proof fn lemma_decode_encode(input: Seq<u8>)
        ensures
            Self::spec_decode(input) matches Ok((m, n)) ==> Self::spec_encode(m) == input.take(
                n as int,
            ),
    ;
}

/// Taking `k` bytes of a concatenation: within the first part, or the whole first part
/// and the rest from the second.
pub proof fn lemma_take_concat(a: Seq<u8>, b: Seq<u8>, k: nat)
    requires
        k <= a.len() + b.len(),
    ensures
        k <= a.len() ==> (a + b).take(k as int) == a.take(k as int),
        k >= a.len() ==> (a + b).take(k as int) == a + b.take(k - a.len()),
{
    if k <= a.len() {
        assert((a + b).take(k as int) =~= a.take(k as int));
    } else {
        assert((a + b).take(k as int) =~= a + b.take(k - a.len()));
    }
}

/// Reading the first of several values from the first `k` bytes of their
/// representations: it fails because the input ends early when `k` falls within its
/// representation, and otherwise reads it whole and leaves the first `k` bytes of the rest.
pub proof fn lemma_truncated_step<T: Protocol>(m: T::Model, tail: Seq<u8>, k: nat)
    requires
        T::wf_model(m),
        k < T::spec_encode(m).len() + tail.len(),
    ensures
        k < T::spec_encode(m).len() ==> (T::spec_decode((T::spec_encode(m) + tail).take(k as int)) matches Err(e)
            && is_unexpected_eof(e)),
        k >= T::spec_encode(m).len() ==> {
            &&& T::spec_decode((T::spec_encode(m) + tail).take(k as int)) == Ok::<(T::Model, nat), ReadError>(
                (m, T::spec_encode(m).len()),
            )
            &&& (T::spec_encode(m) + tail).take(k as int).skip(T::spec_encode(m).len() as int) == tail.take(
                k - T::spec_encode(m).len(),
            )
        },
{
    let a = T::spec_encode(m);
    lemma_take_concat(a, tail, k);
    if k < a.len() {
        T::lemma_truncated(m, k);
    } else {
        let t = tail.take(k - a.len());
        T::lemma_encode_decode(m, t);
        lemma_skip_prefix(a, t);
    }
}

/// Skipping `a` bytes and then `b` more is skipping `a + b` bytes.
pub proof fn lemma_skip_skip(s: Seq<u8>, a: nat, b: nat)
    requires
        a + b <= s.len(),
    ensures
        s.skip(a as int).skip(b as int) == s.skip((a + b) as int),
{
    assert(s.skip(a as int).skip(b as int) =~= s.skip((a + b) as int));
}

/// Skipping the first part of a concatenation leaves the rest.
pub proof fn lemma_skip_concat(a: Seq<u8>, b: Seq<u8>, rest: Seq<u8>)
    ensures
        (a + b + rest).skip(a.len() as int) == b + rest,
        a + b + rest == a + (b + rest),
{
    assert((a + b + rest).skip(a.len() as int) =~= b + rest);
    assert(a + b + rest =~= a + (b + rest));
}

/// Taking `n + m` bytes is taking `n` bytes and then `m` bytes of the rest.
pub proof fn lemma_take_split(s: Seq<u8>, n: nat, m: nat)
    requires
        n + m <= s.len(),
    ensures
        s.take((n + m) as int) == s.take(n as int) + s.skip(n as int).take(m as int),
{
    assert(s.take((n + m) as int) =~= s.take(n as int) + s.skip(n as int).take(m as int));
}

/// Skipping a prefix of a concatenation leaves the rest.
pub proof fn lemma_skip_prefix(a: Seq<u8>, b: Seq<u8>)
    ensures
        (a + b).skip(a.len() as int) == b,
{
    assert((a + b).skip(a.len() as int) =~= b);
}

/// Reading what was written gives back the written value: the representation of any
/// well-formed model (and `write_sync` shows the model of what it writes to be well
/// formed), followed by any bytes, reads as that model and consumes exactly the
/// representation.
pub proof fn law_write_then_read<T: Protocol>(m: T::Model, rest: Seq<u8>)
    requires
        T::wf_model(m),
    ensures
        T::spec_decode(T::spec_encode(m) + rest) == Ok::<(T::Model, nat), ReadError>(
            (m, T::spec_encode(m).len()),
        ),
{
    T::lemma_encode_decode(m, rest);
}

/// For canonical representations, writing what was read reproduces the bytes that
/// were consumed.
pub proof fn law_read_then_write<T: Canonical>(input: Seq<u8>)
    ensures
        T::spec_decode(input) matches Ok((m, n)) ==> {
            &&& n <= input.len()
            &&& T::spec_encode(m) == input.take(n as int)
        },
{
    T::lemma_decode_wf(input);
    T::lemma_decode_encode(input);
}

/// Representations are unambiguous: two well-formed models with the same
/// representation are equal.
pub proof fn law_encoding_injective<T: Protocol>(m1: T::Model, m2: T::Model)
    requires
        T::wf_model(m1),
        T::wf_model(m2),
        T::spec_encode(m1) == T::spec_encode(m2),
    ensures
        m1 == m2,
{
    T::lemma_encode_decode(m1, seq![]);
    T::lemma_encode_decode(m2, seq![]);
}

/// Representations are self-delimiting: no representation of a well-formed model
/// is followed by a different reading when more bytes come after it.
pub proof fn law_prefix_free<T: Protocol>(m1: T::Model, m2: T::Model, rest: Seq<u8>)
    requires
        T::wf_model(m1),
        T::wf_model(m2),
        T::spec_encode(m1) + rest == T::spec_encode(m2),
    ensures
        m1 == m2,
        rest.len() == 0,
{
    T::lemma_encode_decode(m1, rest);
    T::lemma_encode_decode(m2, seq![]);
    assert(T::spec_encode(m2) + seq![] =~= T::spec_encode(m2));
}

/// A value whose representation has only partly arrived reads as an early end of the
/// input, never as another error or another value: reading any proper prefix of the
/// representation of a well-formed model fails with an `UnexpectedEof` error (so that
/// reading from a buffer waits for more bytes rather than failing).
pub proof fn law_truncated_read_reports_eof<T: Protocol>(m: T::Model, k: nat)
    requires
        T::wf_model(m),
        k < T::spec_encode(m).len(),
    ensures
        T::spec_decode(T::spec_encode(m).take(k as int)) matches Err(e) && is_unexpected_eof(e),
{
    T::lemma_truncated(m, k);
}

/// Reading does not look past the value read: when reading from `input` succeeds, it
/// succeeds in the same way with any bytes appended to `input`.
pub proof fn law_read_ignores_following_bytes<T: Canonical>(input: Seq<u8>, more: Seq<u8>)
    ensures
        T::spec_decode(input) matches Ok((m, n)) ==> T::spec_decode(input + more) == Ok::<(T::Model, nat), ReadError>(
            (m, n),
        ),
{
    T::lemma_decode_wf(input);
    T::lemma_decode_encode(input);
    if let Ok((m, n)) = T::spec_decode(input) {
        let rest = input.skip(n as int) + more;
        assert(input + more =~= input.take(n as int) + rest);
        T::lemma_encode_decode(m, rest);
    }
}

} // verus!
