//! Non-empty collections: a length prefix with a maximum, which may not be zero, then
//! the elements (or each key followed by its value).
//!
//! Reading a length of zero fails with an `UnknownVariant64(0)` error for the
//! collection type, since no non-empty collection has that length.
use vstd::prelude::*;

use crate::error::{ErrorContext, ReadError, ReadErrorKind, WriteError};
use crate::impls::vec::{
    all_wf, decode_elems, elems_error_consumed, encode_elems, lemma_decode_elems_wf, lemma_encode_decode_elems, pairs_model,
    read_elems, refs_model, seq_model, write_elems, write_pair_elems,
};
use crate::length_prefixed::{
    decode_len, encode_len, len_error_consumed, len_width, lemma_len_ok, lemma_len_roundtrip, max_len_write_error, read_len, write_len,
};
use crate::protocol::{lemma_skip_concat, lemma_skip_skip, Protocol};
use crate::stream::Reader;

verus! {

/// The error of reading a length of zero for the non-empty collection `for_type`.
pub open spec fn empty_collection_error(for_type: &'static str) -> ReadError {
    ReadError { context: ErrorContext::BuiltIn { for_type }, kind: ReadErrorKind::UnknownVariant64(0) }
}

/// Reading a non-empty collection of values of type `T` whose length may not exceed
/// `max_len`: the models of its elements and the number of bytes consumed, or an error.
pub open spec fn decode_nonempty_entries<T: Protocol>(input: Seq<u8>, max_len: u64, for_type: &'static str) -> Result<(Seq<T::Model>, nat), ReadError> {
    match decode_len(input, max_len, for_type) {
        Err(e) => Err(e),
        Ok((len, n)) => if len == 0 {
            Err(empty_collection_error(for_type))
        } else {
            match decode_elems::<T>(input.skip(n as int), len) {
                Err(e) => Err(e),
                Ok((ms, k)) => Ok((ms, n + k)),
            }
        },
    }
}

/// The number of bytes that a failed read of a non-empty collection of values of type
/// `T` consumes: the length prefix read up to its failure, the prefix alone when it
/// gives zero, and otherwise the prefix and the values read up to the failure.
pub open spec fn nonempty_error_consumed<T: Protocol>(input: Seq<u8>, max_len: u64, for_type: &'static str) -> nat {
    match decode_len(input, max_len, for_type) {
        Err(e) => len_error_consumed(input, max_len),
        Ok((len, n)) => if len == 0 {
            n
        } else {
            n + elems_error_consumed::<T>(input.skip(n as int), len)
        },
    }
}

/// The representation of a collection whose elements have the models `ms`, with a
/// length prefix whose maximum is `max_len`.
pub open spec fn encode_prefixed_entries<T: Protocol>(ms: Seq<T::Model>, max_len: u64) -> Seq<u8> {
    encode_len(ms.len(), max_len) + encode_elems::<T>(ms)
}

/// Reads a non-empty collection of values of type `T` whose length may not exceed
/// `max_len`: the length prefix, refused when zero, and then that many values.
pub fn read_nonempty_entries<T: Protocol>(stream: &mut Reader, max_len: u64, for_type: &'static str) -> (r: Result<Vec<T>, ReadError>)
    ensures
        match decode_nonempty_entries::<T>(old(stream)@, max_len, for_type) {
            Ok((m, n)) => r matches Ok(v) && seq_model(v@) == m && v@.len() > 0 && final(stream)@ == old(stream)@.skip(n as int),
            Err(e) => r == Err::<Vec<T>, ReadError>(e) && final(stream)@ == old(stream)@.skip(
                nonempty_error_consumed::<T>(old(stream)@, max_len, for_type) as int,
            ),
        },
{
    let ghost start = stream@;
    proof {
        lemma_len_ok(start, max_len, for_type);
    }
    let len = match read_len(stream, max_len, for_type) {
        Ok(len) => len,
        Err(e) => return Err(e),
    };
    if len == 0 {
        return Err(ReadError { context: ErrorContext::BuiltIn { for_type }, kind: ReadErrorKind::UnknownVariant64(0) });
    }
    let ghost n = len_width(max_len);
    assert(stream@ == start.skip(n as int));
    let r = read_elems::<T>(stream, len as u64);
    proof {
        lemma_decode_elems_wf::<T>(start.skip(n as int), len as nat);
        if let Ok((ms, k)) = decode_elems::<T>(start.skip(n as int), len as nat) {
            lemma_skip_skip(start, n, k);
        } else {
            lemma_skip_skip(start, n, elems_error_consumed::<T>(start.skip(n as int), len as nat));
        }
    }
    r
}

/// Writes a length prefix whose maximum is `max_len` and then each of `items`, or
/// fails with a `MaxLen` error for `for_type`, writing nothing, when there are more
/// items than the maximum.
pub fn write_prefixed_entries<T: Protocol>(items: &[&T], sink: &mut Vec<u8>, max_len: u64, for_type: &'static str) -> (r: Result<(), WriteError>)
    ensures
        items@.len() > max_len ==> r == Err::<(), WriteError>(max_len_write_error(items@.len(), max_len, for_type))
            && final(sink)@ == old(sink)@,
        items@.len() <= max_len ==> r is Ok && all_wf::<T>(refs_model(items@)) && final(sink)@ == old(sink)@
            + encode_prefixed_entries::<T>(refs_model(items@), max_len),
{
    match write_len(sink, items.len(), max_len, for_type) {
        Ok(()) => {},
        Err(e) => return Err(e),
    }
    write_elems(items, sink);
    Ok(())
}

/// Writes a length prefix whose maximum is `max_len` and then each key of `items`
/// followed by its value, or fails with a `MaxLen` error for `for_type`, writing
/// nothing, when there are more items than the maximum.
pub fn write_prefixed_pair_entries<K: Protocol, V: Protocol>(
    items: &[(&K, &V)],
    sink: &mut Vec<u8>,
    max_len: u64,
    for_type: &'static str,
) -> (r: Result<(), WriteError>)
    ensures
        items@.len() > max_len ==> r == Err::<(), WriteError>(max_len_write_error(items@.len(), max_len, for_type))
            && final(sink)@ == old(sink)@,
        items@.len() <= max_len ==> r is Ok && all_wf::<(K, V)>(pairs_model(items@)) && final(sink)@ == old(sink)@
            + encode_prefixed_entries::<(K, V)>(pairs_model(items@), max_len),
{
    match write_len(sink, items.len(), max_len, for_type) {
        Ok(()) => {},
        Err(e) => return Err(e),
    }
    write_pair_elems(items, sink);
    Ok(())
}

/// Reading a non-empty collection back gives what was written: the representation of
/// one or more well-formed models, no more than the maximum length, followed by any
/// bytes, reads as those models and consumes exactly the representation.
pub proof fn law_nonempty_entries_round_trip<T: Protocol>(
    ms: Seq<T::Model>,
    max_len: u64,
    rest: Seq<u8>,
    for_type: &'static str,
)
    requires
        0 < ms.len() <= max_len,
        ms.len() <= usize::MAX,
        all_wf::<T>(ms),
    ensures
        decode_nonempty_entries::<T>(encode_prefixed_entries::<T>(ms, max_len) + rest, max_len, for_type) == Ok::<
            (Seq<T::Model>, nat),
            ReadError,
        >((ms, encode_prefixed_entries::<T>(ms, max_len).len())),
{
    let a = encode_len(ms.len(), max_len);
    let b = encode_elems::<T>(ms);
    lemma_skip_concat(a, b, rest);
    lemma_len_roundtrip(ms.len(), max_len, b + rest, for_type);
    lemma_encode_decode_elems::<T>(ms, rest);
}

/// A vector with at least one element: the values of a non-empty collection.
#[derive(Debug, PartialEq, Eq)]
pub struct NonEmptyVec<T> {
    items: Vec<T>,
}

impl<T> NonEmptyVec<T> {
    #[verifier::type_invariant]
    spec fn inv(self) -> bool {
        self.items@.len() > 0
    }

    /// The vector of the elements of `v`, exactly when `v` is not empty.
    pub fn from_vec(v: Vec<T>) -> (r: Option<Self>)
        ensures
            r is Some <==> v@.len() > 0,
            r matches Some(n) ==> n@ == v@,
    {
        if v.len() > 0 {
            Some(NonEmptyVec { items: v })
        } else {
            None
        }
    }

    /// The elements, in order; there is at least one.
    pub fn as_slice(&self) -> (s: &[T])
        ensures
            s@ == self@,
            s@.len() > 0,
    {
        proof {
            use_type_invariant(self);
        }
        self.items.as_slice()
    }

    /// The elements, in order, as a vector.
    pub fn into_vec(self) -> (v: Vec<T>)
        ensures
            v@ == self@,
    {
        self.items
    }
}

impl<T> View for NonEmptyVec<T> {
    type V = Seq<T>;

    closed spec fn view(&self) -> Seq<T> {
        self.items@
    }
}

/// Reads a non-empty vector whose length may not exceed `max_len`: the length prefix,
/// refused when zero, then the elements.
pub fn read_nevec<T: Protocol>(stream: &mut Reader, max_len: u64) -> (r: Result<NonEmptyVec<T>, ReadError>)
    ensures
        match decode_nonempty_entries::<T>(old(stream)@, max_len, "NEVec") {
            Ok((m, n)) => r matches Ok(v) && seq_model(v@) == m && final(stream)@ == old(stream)@.skip(n as int),
            Err(e) => r == Err::<NonEmptyVec<T>, ReadError>(e) && final(stream)@ == old(stream)@.skip(
                nonempty_error_consumed::<T>(old(stream)@, max_len, "NEVec") as int,
            ),
        },
{
    match read_nonempty_entries::<T>(stream, max_len, "NEVec") {
        Ok(v) => match NonEmptyVec::from_vec(v) {
            Some(v) => Ok(v),
            None => Err(ReadError { context: ErrorContext::BuiltIn { for_type: "NEVec" }, kind: ReadErrorKind::UnknownVariant64(0) }),
        },
        Err(e) => Err(e),
    }
}

/// Writes a non-empty vector with a length prefix whose maximum is `max_len`, then its
/// elements; fails with a `MaxLen` error, writing nothing, when it is longer than that.
pub fn write_nevec<T: Protocol>(v: &NonEmptyVec<T>, sink: &mut Vec<u8>, max_len: u64) -> (r: Result<(), WriteError>)
    ensures
        v@.len() > max_len ==> r == Err::<(), WriteError>(max_len_write_error(v@.len(), max_len, "NEVec"))
            && final(sink)@ == old(sink)@,
        v@.len() <= max_len ==> r is Ok && all_wf::<T>(seq_model(v@)) && final(sink)@ == old(sink)@
            + encode_prefixed_entries::<T>(seq_model(v@), max_len),
{
    let items = v.as_slice();
    match write_len(sink, items.len(), max_len, "NEVec") {
        Ok(()) => {},
        Err(e) => return Err(e),
    }
    let ghost prefix = sink@;
    let mut i: usize = 0;
    assert(items@.take(0) =~= seq![]);
    assert(seq_model(items@.take(0)) =~= seq![]);
    assert(prefix =~= prefix + encode_elems::<T>(seq![]));
    while i < items.len()
        invariant
            i <= items@.len(),
            all_wf::<T>(seq_model(items@.take(i as int))),
            sink@ == prefix + encode_elems::<T>(seq_model(items@.take(i as int))),
        decreases items@.len() - i,
    {
        let _ = items[i].write_sync(sink);
        proof {
            let ms = seq_model(items@.take(i as int));
            let ms2 = seq_model(items@.take(i + 1));
            assert(ms2 =~= ms.push(items@[i as int].model()));
            assert(ms2.drop_last() =~= ms);
            assert forall|j: int| 0 <= j < ms2.len() implies #[trigger] T::wf_model(ms2[j]) by {
                if j < ms.len() {
                    assert(ms2[j] == ms[j]);
                }
            }
        }
        i = i + 1;
    }
    assert(items@.take(items@.len() as int) =~= items@);
    Ok(())
}

} // verus!
