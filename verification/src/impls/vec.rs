//! Vectors, prefixed with a `u64` element count, and arrays, whose elements follow
//! one another without a prefix.
use vstd::prelude::*;

use crate::endian::{be_bytes, lemma_be_bytes_len, lemma_pow256_widths};
use crate::error::{ErrorContext, ReadError, ReadErrorKind, WriteError};
use crate::protocol::{
    is_unexpected_eof, lemma_skip_concat, lemma_skip_prefix, lemma_skip_skip, lemma_take_concat, Canonical, Protocol,
};
use crate::stream::Reader;

verus! {

/// The models of a sequence of values.
pub open spec fn seq_model<T: Protocol>(s: Seq<T>) -> Seq<T::Model> {
    s.map_values(|x: T| x.model())
}

/// Whether every model in `ms` is well formed.
pub open spec fn all_wf<T: Protocol>(ms: Seq<T::Model>) -> bool {
    forall|i: int| 0 <= i < ms.len() ==> #[trigger] T::wf_model(ms[i])
}

/// The representations of the models in `ms`, one after the other.
pub open spec fn encode_elems<T: Protocol>(ms: Seq<T::Model>) -> Seq<u8>
    decreases ms.len(),
{
    if ms.len() == 0 {
        seq![]
    } else {
        encode_elems::<T>(ms.drop_last()) + T::spec_encode(ms.last())
    }
}

/// Reading `count` values one after the other from the front of `input`: their
/// models and the number of bytes they occupy, or the first error.
pub open spec fn decode_elems<T: Protocol>(input: Seq<u8>, count: nat) -> Result<(Seq<T::Model>, nat), ReadError>
    decreases count,
{
    if count == 0 {
        Ok((seq![], 0))
    } else {
        match decode_elems::<T>(input, (count - 1) as nat) {
            Err(e) => Err(e),
            Ok((ms, n)) => match T::spec_decode(input.skip(n as int)) {
                Err(e) => Err(e),
                Ok((m, k)) => Ok((ms.push(m), n + k)),
            },
        }
    }
}

/// The number of bytes that a failed read of `count` values from the front of `input`
/// consumes: the values read before the first that fails, and that one up to its failure.
pub open spec fn elems_error_consumed<T: Protocol>(input: Seq<u8>, count: nat) -> nat
    decreases count,
{
    if count == 0 {
        0
    } else {
        match decode_elems::<T>(input, (count - 1) as nat) {
            Err(e) => elems_error_consumed::<T>(input, (count - 1) as nat),
            Ok((ms, n)) => n + T::spec_error_consumed(input.skip(n as int)),
        }
    }
}

/// A successful read of `count` values gives `count` well-formed models and
/// consumes no more than the input.
pub proof fn lemma_decode_elems_wf<T: Protocol>(input: Seq<u8>, count: nat)
    ensures
        decode_elems::<T>(input, count) matches Ok((ms, n)) ==> {
            &&& n <= input.len()
            &&& ms.len() == count
            &&& all_wf::<T>(ms)
        },
        decode_elems::<T>(input, count) is Err ==> elems_error_consumed::<T>(input, count) <= input.len(),
    decreases count,
{
    if count > 0 {
        lemma_decode_elems_wf::<T>(input, (count - 1) as nat);
        if let Ok((ms, n)) = decode_elems::<T>(input, (count - 1) as nat) {
            T::lemma_decode_wf(input.skip(n as int));
            if let Ok((m, k)) = T::spec_decode(input.skip(n as int)) {
                assert forall|i: int| 0 <= i < ms.push(m).len() implies #[trigger] T::wf_model(ms.push(m)[i]) by {
                    if i < ms.len() {
                        assert(ms.push(m)[i] == ms[i]);
                    }
                }
            }
        }
    }
}

/// Once reading fails, reading more values fails with the same error, after
/// consuming the same bytes.
pub proof fn lemma_decode_elems_err<T: Protocol>(input: Seq<u8>, i: nat, j: nat)
    requires
        i <= j,
        decode_elems::<T>(input, i) is Err,
    ensures
        decode_elems::<T>(input, j) == decode_elems::<T>(input, i),
        elems_error_consumed::<T>(input, j) == elems_error_consumed::<T>(input, i),
    decreases j,
{
    if i < j {
        lemma_decode_elems_err::<T>(input, i, (j - 1) as nat);
    }
}

/// The representations of well-formed models, followed by any bytes, read back as
/// those models.
pub proof fn lemma_encode_decode_elems<T: Protocol>(ms: Seq<T::Model>, rest: Seq<u8>)
    requires
        all_wf::<T>(ms),
    ensures
        decode_elems::<T>(encode_elems::<T>(ms) + rest, ms.len()) == Ok::<(Seq<T::Model>, nat), ReadError>(
            (ms, encode_elems::<T>(ms).len()),
        ),
    decreases ms.len(),
{
    if ms.len() > 0 {
        let init = ms.drop_last();
        let last = ms.last();
        let a = encode_elems::<T>(init);
        let b = T::spec_encode(last);
        assert(T::wf_model(ms[ms.len() - 1]));
        assert forall|i: int| 0 <= i < init.len() implies #[trigger] T::wf_model(init[i]) by {
            assert(init[i] == ms[i]);
        }
        lemma_skip_concat(a, b, rest);
        assert(encode_elems::<T>(ms) == a + b);
        lemma_encode_decode_elems::<T>(init, b + rest);
        T::lemma_encode_decode(last, rest);
        assert(init.push(last) =~= ms);
        assert(init.len() == (ms.len() - 1) as nat);
        assert((encode_elems::<T>(ms) + rest).skip(a.len() as int) == b + rest);
    } else {
        assert(ms =~= seq![]);
        assert(encode_elems::<T>(ms) + rest =~= rest);
    }
}

/// Reading values from a proper prefix of the representations of well-formed models
/// fails because the input ends early.
pub proof fn lemma_decode_elems_truncated<T: Protocol>(ms: Seq<T::Model>, k: nat)
    requires
        all_wf::<T>(ms),
        k < encode_elems::<T>(ms).len(),
    ensures
        decode_elems::<T>(encode_elems::<T>(ms).take(k as int), ms.len()) matches Err(e) && is_unexpected_eof(e),
    decreases ms.len(),
{
    if ms.len() > 0 {
        let init = ms.drop_last();
        let last = ms.last();
        let a = encode_elems::<T>(init);
        let b = T::spec_encode(last);
        assert(T::wf_model(ms[ms.len() - 1]));
        assert forall|i: int| 0 <= i < init.len() implies #[trigger] T::wf_model(init[i]) by {
            assert(init[i] == ms[i]);
        }
        assert(encode_elems::<T>(ms) == a + b);
        assert(init.len() == (ms.len() - 1) as nat);
        lemma_take_concat(a, b, k);
        if k < a.len() {
            lemma_decode_elems_truncated::<T>(init, k);
        } else {
            let t = b.take(k - a.len());
            lemma_encode_decode_elems::<T>(init, t);
            lemma_skip_prefix(a, t);
            T::lemma_truncated(last, (k - a.len()) as nat);
        }
    }
}

/// For canonical element types, the bytes consumed by reading values are their
/// representations.
pub proof fn lemma_decode_elems_canonical<T: Canonical>(input: Seq<u8>, count: nat)
    ensures
        decode_elems::<T>(input, count) matches Ok((ms, n)) ==> encode_elems::<T>(ms) == input.take(
            n as int,
        ),
    decreases count,
{
    if count > 0 {
        lemma_decode_elems_canonical::<T>(input, (count - 1) as nat);
        lemma_decode_elems_wf::<T>(input, (count - 1) as nat);
        if let Ok((ms, n)) = decode_elems::<T>(input, (count - 1) as nat) {
            let tail = input.skip(n as int);
            T::lemma_decode_encode(tail);
            T::lemma_decode_wf(tail);
            if let Ok((m, k)) = T::spec_decode(tail) {
                assert(ms.push(m).drop_last() =~= ms);
                assert(input.take((n + k) as int) =~= input.take(n as int) + tail.take(k as int));
            }
        }
    }
}

/// The error of reading a count of elements that exceeds `usize::MAX`.
pub open spec fn buf_size_error(for_type: &'static str) -> ReadError {
    ReadError { context: ErrorContext::BuiltIn { for_type }, kind: ReadErrorKind::BufSize }
}

/// Reading a `u64` count and then that many values, as the collections of values
/// are represented; a count above `usize::MAX` is refused with an error in the
/// context of `for_type`.
pub open spec fn decode_entries<T: Protocol>(input: Seq<u8>, for_type: &'static str) -> Result<(Seq<T::Model>, nat), ReadError> {
    match <u64 as Protocol>::spec_decode(input) {
        Err(e) => Err(e),
        Ok((len, n)) => if len > usize::MAX {
            Err(buf_size_error(for_type))
        } else {
            match decode_elems::<T>(input.skip(n as int), len as nat) {
                Err(e) => Err(e),
                Ok((ms, k)) => Ok((ms, n + k)),
            }
        },
    }
}

/// The number of bytes that a failed read of a `u64` count and then that many values
/// consumes: none when the count cannot be read, the count alone when it is too great,
/// and otherwise the count and the values read up to the failure.
pub open spec fn entries_error_consumed<T: Protocol>(input: Seq<u8>) -> nat {
    match <u64 as Protocol>::spec_decode(input) {
        Err(e) => <u64 as Protocol>::spec_error_consumed(input),
        Ok((len, n)) => if len > usize::MAX {
            n
        } else {
            n + elems_error_consumed::<T>(input.skip(n as int), len as nat)
        },
    }
}

/// Reads `count` values of type `T`, one after the other.
pub fn read_elems<T: Protocol>(stream: &mut Reader, count: u64) -> (r: Result<Vec<T>, ReadError>)
    requires
        count <= usize::MAX,
    ensures
        match decode_elems::<T>(old(stream)@, count as nat) {
            Ok((ms, n)) => r matches Ok(v) && seq_model(v@) == ms && final(stream)@ == old(stream)@.skip(n as int),
            Err(e) => r == Err::<Vec<T>, ReadError>(e) && final(stream)@ == old(stream)@.skip(
                elems_error_consumed::<T>(old(stream)@, count as nat) as int,
            ),
        },
{
    let ghost body = stream@;
    let ghost mut consumed: nat = 0;
    let mut buf: Vec<T> = Vec::new();
    let mut i: u64 = 0;
    assert(seq_model(buf@) =~= seq![]);
    assert(body.skip(0) =~= body);
    while i < count
        invariant
            i <= count <= usize::MAX,
            body == old(stream)@,
            buf@.len() == i,
            decode_elems::<T>(body, i as nat) == Ok::<(Seq<T::Model>, nat), ReadError>((seq_model(buf@), consumed)),
            consumed <= body.len(),
            stream@ == body.skip(consumed as int),
        decreases count - i,
    {
        proof {
            T::lemma_decode_wf(stream@);
        }
        match T::read_sync(stream) {
            Ok(x) => {
                proof {
                    if let Ok((m, k)) = T::spec_decode(body.skip(consumed as int)) {
                        lemma_skip_skip(body, consumed, k);
                        consumed = consumed + k;
                    }
                }
                let ghost old_buf = buf@;
                buf.push(x);
                assert(seq_model(buf@) =~= seq_model(old_buf).push(x.model()));
                i = i + 1;
            },
            Err(e) => {
                proof {
                    assert(T::spec_decode(body.skip(consumed as int)) == Err::<(T::Model, nat), ReadError>(e));
                    assert(decode_elems::<T>(body, (i + 1) as nat) == Err::<(Seq<T::Model>, nat), ReadError>(e));
                    let c = T::spec_error_consumed(body.skip(consumed as int));
                    lemma_skip_skip(body, consumed, c);
                    assert(elems_error_consumed::<T>(body, (i + 1) as nat) == consumed + c);
                    lemma_decode_elems_err::<T>(body, (i + 1) as nat, count as nat);
                }
                return Err(e);
            },
        }
    }
    Ok(buf)
}

/// Reads a `u64` count and then that many values of type `T`, in order; a count above
/// `usize::MAX` is refused with an error in the context of `for_type`.
pub fn read_entries<T: Protocol>(stream: &mut Reader, for_type: &'static str) -> (r: Result<Vec<T>, ReadError>)
    ensures
        match decode_entries::<T>(old(stream)@, for_type) {
            Ok((m, n)) => r matches Ok(v) && seq_model(v@) == m && final(stream)@ == old(stream)@.skip(n as int),
            Err(e) => r == Err::<Vec<T>, ReadError>(e) && final(stream)@ == old(stream)@.skip(
                entries_error_consumed::<T>(old(stream)@) as int,
            ),
        },
{
    let ghost start = stream@;
    proof {
        <u64 as Protocol>::lemma_decode_wf(start);
    }
    let len = match u64::read_sync(stream) {
        Ok(len) => len,
        Err(e) => return Err(e),
    };
    assert(<u64 as Protocol>::spec_decode(start) == Ok::<(u64, nat), ReadError>((len, 8)));
    if len as u128 > usize::MAX as u128 {
        return Err(ReadError { context: ErrorContext::BuiltIn { for_type }, kind: ReadErrorKind::BufSize });
    }
    let r = read_elems::<T>(stream, len);
    proof {
        lemma_decode_elems_wf::<T>(start.skip(8), len as nat);
        if let Ok((ms, k)) = decode_elems::<T>(start.skip(8), len as nat) {
            lemma_skip_skip(start, 8, k);
        } else {
            lemma_skip_skip(start, 8, elems_error_consumed::<T>(start.skip(8), len as nat));
        }
    }
    r
}

/// The models of a sequence of borrowed values.
pub open spec fn refs_model<T: Protocol>(s: Seq<&T>) -> Seq<T::Model> {
    s.map_values(|x: &T| x.model())
}

/// The models of a sequence of borrowed key-value pairs.
pub open spec fn pairs_model<K: Protocol, V: Protocol>(s: Seq<(&K, &V)>) -> Seq<(K::Model, V::Model)> {
    s.map_values(|p: (&K, &V)| (p.0.model(), p.1.model()))
}

/// Writes each of `items`, in order.
pub fn write_elems<T: Protocol>(items: &[&T], sink: &mut Vec<u8>)
    ensures
        all_wf::<T>(refs_model(items@)),
        final(sink)@ == old(sink)@ + encode_elems::<T>(refs_model(items@)),
{
    let ghost prefix = sink@;
    let mut i: usize = 0;
    assert(refs_model(items@.take(0)) =~= seq![]);
    assert(prefix =~= prefix + encode_elems::<T>(seq![]));
    while i < items.len()
        invariant
            i <= items@.len(),
            prefix == old(sink)@,
            all_wf::<T>(refs_model(items@.take(i as int))),
            sink@ == prefix + encode_elems::<T>(refs_model(items@.take(i as int))),
        decreases items@.len() - i,
    {
        let _ = items[i].write_sync(sink);
        proof {
            let ms = refs_model(items@.take(i as int));
            let ms2 = refs_model(items@.take(i + 1));
            assert(ms2 =~= ms.push(items@[i as int].model()));
            assert(ms2.drop_last() =~= ms);
            assert forall|j: int| 0 <= j < ms2.len() implies #[trigger] T::wf_model(ms2[j]) by {
                if j < ms.len() {
                    assert(ms2[j] == ms[j]);
                }
            }
        }
        i = i + 1;
    }
    assert(items@.take(items@.len() as int) =~= items@);
}

/// Writes each key of `items` followed by its value, in order.
pub fn write_pair_elems<K: Protocol, V: Protocol>(items: &[(&K, &V)], sink: &mut Vec<u8>)
    ensures
        all_wf::<(K, V)>(pairs_model(items@)),
        final(sink)@ == old(sink)@ + encode_elems::<(K, V)>(pairs_model(items@)),
{
    let ghost prefix = sink@;
    let mut i: usize = 0;
    assert(pairs_model(items@.take(0)) =~= seq![]);
    assert(prefix =~= prefix + encode_elems::<(K, V)>(seq![]));
    while i < items.len()
        invariant
            i <= items@.len(),
            prefix == old(sink)@,
            all_wf::<(K, V)>(pairs_model(items@.take(i as int))),
            sink@ == prefix + encode_elems::<(K, V)>(pairs_model(items@.take(i as int))),
        decreases items@.len() - i,
    {
        let ghost before = sink@;
        let (k, v) = items[i];
        let _ = k.write_sync(sink);
        let _ = v.write_sync(sink);
        proof {
            let ms = pairs_model(items@.take(i as int));
            let ms2 = pairs_model(items@.take(i + 1));
            assert(ms2 =~= ms.push((k.model(), v.model())));
            assert(ms2.drop_last() =~= ms);
            assert(sink@ =~= before + <(K, V) as Protocol>::spec_encode((k.model(), v.model())));
            assert forall|j: int| 0 <= j < ms2.len() implies #[trigger] <(K, V) as Protocol>::wf_model(ms2[j]) by {
                if j < ms.len() {
                    assert(ms2[j] == ms[j]);
                }
            }
        }
        i = i + 1;
    }
    assert(items@.take(items@.len() as int) =~= items@);
}

/// Writes the number of `items` as a `u64` and then each item, in order: the
/// representation of a collection of values.
pub fn write_entries<T: Protocol>(items: &[&T], sink: &mut Vec<u8>)
    ensures
        <Vec<T> as Protocol>::wf_model(refs_model(items@)),
        final(sink)@ == old(sink)@ + <Vec<T> as Protocol>::spec_encode(refs_model(items@)),
{
    let len = items.len() as u64;
    let _ = len.write_sync(sink);
    write_elems(items, sink);
}

/// Writes the number of `items` as a `u64` and then each key followed by its value,
/// in order: the representation of a map.
pub fn write_pair_entries<K: Protocol, V: Protocol>(items: &[(&K, &V)], sink: &mut Vec<u8>)
    ensures
        <Vec<(K, V)> as Protocol>::wf_model(pairs_model(items@)),
        final(sink)@ == old(sink)@ + <Vec<(K, V)> as Protocol>::spec_encode(pairs_model(items@)),
{
    let len = items.len() as u64;
    let _ = len.write_sync(sink);
    write_pair_elems(items, sink);
}

/// Reading a collection back gives what was written: the representation that
/// `write_entries` or `write_pair_entries` produces for well-formed models, followed by
/// any bytes, reads (whatever type the error context names) as those models and
/// consumes exactly the representation.
pub proof fn law_entries_round_trip<T: Protocol>(m: Seq<T::Model>, rest: Seq<u8>, for_type: &'static str)
    requires
        <Vec<T> as Protocol>::wf_model(m),
    ensures
        decode_entries::<T>(<Vec<T> as Protocol>::spec_encode(m) + rest, for_type) == Ok::<(Seq<T::Model>, nat), ReadError>(
            (m, <Vec<T> as Protocol>::spec_encode(m).len()),
        ),
{
    <Vec<T> as Protocol>::lemma_encode_decode(m, rest);
    lemma_pow256_widths();
    let input = <Vec<T> as Protocol>::spec_encode(m) + rest;
    <u64 as Protocol>::lemma_decode_wf(input);
}

/// The representations of bytes, one after the other, are the bytes themselves.
pub proof fn lemma_encode_bytes(m: Seq<u8>)
    ensures
        encode_elems::<u8>(m) == m,
    decreases m.len(),
{
    if m.len() > 0 {
        lemma_encode_bytes(m.drop_last());
        let x = m.last();
        assert(be_bytes(x as nat / 256, 0) =~= seq![]);
        assert(<u8 as Protocol>::spec_encode(x) =~= seq![x]);
        assert(m.drop_last().push(m.last()) =~= m);
    } else {
        assert(m =~= seq![]);
    }
}

/// A vector is prefixed with the length as a `u64`, followed by its elements.
impl<T: Protocol> Protocol for Vec<T> {
    type Model = Seq<T::Model>;

    open spec fn model(&self) -> Seq<T::Model> {
        seq_model(self@)
    }

    open spec fn wf_model(m: Seq<T::Model>) -> bool {
        m.len() <= usize::MAX && all_wf::<T>(m)
    }

    open spec fn spec_encode(m: Seq<T::Model>) -> Seq<u8> {
        <u64 as Protocol>::spec_encode(m.len() as u64) + encode_elems::<T>(m)
    }

    open spec fn spec_decode(input: Seq<u8>) -> Result<(Seq<T::Model>, nat), ReadError> {
        decode_entries::<T>(input, "Vec")
    }

    open spec fn spec_error_consumed(input: Seq<u8>) -> nat {
        entries_error_consumed::<T>(input)
    }

    proof fn lemma_encode_decode(m: Seq<T::Model>, rest: Seq<u8>) {
        lemma_pow256_widths();
        let a = <u64 as Protocol>::spec_encode(m.len() as u64);
        let b = encode_elems::<T>(m);
        lemma_skip_concat(a, b, rest);
        <u64 as Protocol>::lemma_encode_decode(m.len() as u64, b + rest);
        lemma_encode_decode_elems::<T>(m, rest);
    }

    proof fn lemma_truncated(m: Seq<T::Model>, k: nat) {
        if k < Self::spec_encode(m).len() {
            lemma_pow256_widths();
            let p = <u64 as Protocol>::spec_encode(m.len() as u64);
            let e = encode_elems::<T>(m);
            lemma_be_bytes_len(m.len(), 8);
            lemma_take_concat(p, e, k);
            if k < p.len() {
                <u64 as Protocol>::lemma_truncated(m.len() as u64, k);
            } else {
                let t = e.take(k - p.len());
                <u64 as Protocol>::lemma_encode_decode(m.len() as u64, t);
                lemma_skip_prefix(p, t);
                lemma_decode_elems_truncated::<T>(m, (k - p.len()) as nat);
            }
        }
    }

    proof fn lemma_decode_wf(input: Seq<u8>) {
        <u64 as Protocol>::lemma_decode_wf(input);
        lemma_pow256_widths();
        if let Ok((len, n)) = <u64 as Protocol>::spec_decode(input) {
            lemma_decode_elems_wf::<T>(input.skip(n as int), len as nat);
        }
    }

    fn read_sync(stream: &mut Reader) -> (r: Result<Vec<T>, ReadError>) {
        read_entries::<T>(stream, "Vec")
    }

    fn write_sync(&self, sink: &mut Vec<u8>) -> (r: Result<(), WriteError>) {
        let len = self.len() as u64;
        let _ = len.write_sync(sink);
        let ghost prefix = sink@;
        let mut i: usize = 0;
        assert(self@.take(0) =~= seq![]);
        assert(seq_model(self@.take(0)) =~= seq![]);
        assert(prefix =~= prefix + encode_elems::<T>(seq![]));
        while i < self.len()
            invariant
                i <= self@.len(),
                all_wf::<T>(seq_model(self@.take(i as int))),
                sink@ == prefix + encode_elems::<T>(seq_model(self@.take(i as int))),
            decreases self@.len() - i,
        {
            let ghost before = sink@;
            let _ = self[i].write_sync(sink);
            proof {
                let ms = seq_model(self@.take(i as int));
                let ms2 = seq_model(self@.take(i + 1));
                assert(ms2 =~= ms.push(self@[i as int].model()));
                assert(ms2.drop_last() =~= ms);
                assert forall|j: int| 0 <= j < ms2.len() implies #[trigger] T::wf_model(ms2[j]) by {
                    if j < ms.len() {
                        assert(ms2[j] == ms[j]);
                    }
                }
            }
            i = i + 1;
        }
        assert(self@.take(self@.len() as int) =~= self@);
        Ok(())
    }
}

impl<T: Canonical> Canonical for Vec<T> {
    proof fn lemma_decode_encode(input: Seq<u8>) {
        <u64 as Protocol>::lemma_decode_wf(input);
        <u64 as Canonical>::lemma_decode_encode(input);
        if let Ok((len, n)) = <u64 as Protocol>::spec_decode(input) {
            let tail = input.skip(n as int);
            lemma_decode_elems_canonical::<T>(tail, len as nat);
            lemma_decode_elems_wf::<T>(tail, len as nat);
            if let Ok((ms, k)) = decode_elems::<T>(tail, len as nat) {
                assert(input.take((n + k) as int) =~= input.take(n as int) + tail.take(k as int));
            }
        }
    }
}

/// `<[T; N] as TryFrom<Vec<T>>>::try_from`: the array of the elements of the vector,
/// exactly when the vector has `N` elements.
#[verifier::external_body]
fn vec_into_array<T, const N: usize>(v: Vec<T>) -> (r: Option<[T; N]>)
    ensures
        r is Some <==> v@.len() == N,
        r matches Some(a) ==> a@ == v@,
{
    <[T; N]>::try_from(v).ok()
}

/// An array is represented by its elements, one after the other, without a length prefix.
impl<T: Protocol, const N: usize> Protocol for [T; N] {
    type Model = Seq<T::Model>;

    open spec fn model(&self) -> Seq<T::Model> {
        seq_model(self@)
    }

    open spec fn wf_model(m: Seq<T::Model>) -> bool {
        m.len() == N && all_wf::<T>(m)
    }

    open spec fn spec_encode(m: Seq<T::Model>) -> Seq<u8> {
        encode_elems::<T>(m)
    }

    open spec fn spec_decode(input: Seq<u8>) -> Result<(Seq<T::Model>, nat), ReadError> {
        decode_elems::<T>(input, N as nat)
    }

    open spec fn spec_error_consumed(input: Seq<u8>) -> nat {
        elems_error_consumed::<T>(input, N as nat)
    }

    proof fn lemma_encode_decode(m: Seq<T::Model>, rest: Seq<u8>) {
        lemma_encode_decode_elems::<T>(m, rest);
    }

    proof fn lemma_truncated(m: Seq<T::Model>, k: nat) {
        if k < Self::spec_encode(m).len() {
            lemma_decode_elems_truncated::<T>(m, k);
        }
    }

    proof fn lemma_decode_wf(input: Seq<u8>) {
        lemma_decode_elems_wf::<T>(input, N as nat);
    }

    fn read_sync(stream: &mut Reader) -> (r: Result<[T; N], ReadError>) {
        let ghost start = stream@;
        let ghost mut consumed: nat = 0;
        let mut buf: Vec<T> = Vec::new();
        let mut i: usize = 0;
        assert(seq_model(buf@) =~= seq![]);
        assert(start.skip(0) =~= start);
        while i < N
            invariant
                i <= N,
                start == old(stream)@,
                buf@.len() == i,
                decode_elems::<T>(start, i as nat) == Ok::<(Seq<T::Model>, nat), ReadError>((seq_model(buf@), consumed)),
                consumed <= start.len(),
                stream@ == start.skip(consumed as int),
            decreases N - i,
        {
            proof {
                T::lemma_decode_wf(stream@);
            }
            match T::read_sync(stream) {
                Ok(x) => {
                    proof {
                        if let Ok((m, k)) = T::spec_decode(start.skip(consumed as int)) {
                            lemma_skip_skip(start, consumed, k);
                            consumed = consumed + k;
                        }
                    }
                    let ghost old_buf = buf@;
                    buf.push(x);
                    assert(seq_model(buf@) =~= seq_model(old_buf).push(x.model()));
                    i = i + 1;
                },
                Err(e) => {
                    proof {
                        assert(decode_elems::<T>(start, (i + 1) as nat) == Err::<(Seq<T::Model>, nat), ReadError>(e));
                        let c = T::spec_error_consumed(start.skip(consumed as int));
                        lemma_skip_skip(start, consumed, c);
                        assert(elems_error_consumed::<T>(start, (i + 1) as nat) == consumed + c);
                        lemma_decode_elems_err::<T>(start, (i + 1) as nat, N as nat);
                    }
                    return Err(e);
                },
            }
        }
        let ghost elems = buf@;
        match vec_into_array::<T, N>(buf) {
            Some(array) => {
                assert(seq_model(array@) =~= seq_model(elems));
                Ok(array)
            },
            None => {
                assert(false);
                Err(ReadError { context: ErrorContext::BuiltIn { for_type: "[T; N]" }, kind: ReadErrorKind::BufSize })
            },
        }
    }

    fn write_sync(&self, sink: &mut Vec<u8>) -> (r: Result<(), WriteError>) {
        let ghost prefix = sink@;
        let mut i: usize = 0;
        assert(self@.take(0) =~= seq![]);
        assert(seq_model(self@.take(0)) =~= seq![]);
        assert(prefix =~= prefix + encode_elems::<T>(seq![]));
        proof {
            vstd::array::array_len_matches_n(self);
        }
        while i < N
            invariant
                i <= N,
                self@.len() == N,
                all_wf::<T>(seq_model(self@.take(i as int))),
                sink@ == prefix + encode_elems::<T>(seq_model(self@.take(i as int))),
            decreases N - i,
        {
            let _ = vstd::array::array_index_get(self, i).write_sync(sink);
            proof {
                let ms = seq_model(self@.take(i as int));
                let ms2 = seq_model(self@.take(i + 1));
                assert(ms2 =~= ms.push(self@[i as int].model()));
                assert(ms2.drop_last() =~= ms);
                assert forall|j: int| 0 <= j < ms2.len() implies #[trigger] T::wf_model(ms2[j]) by {
                    if j < ms.len() {
                        assert(ms2[j] == ms[j]);
                    }
                }
            }
            i = i + 1;
        }
        assert(self@.take(N as int) =~= self@);
        Ok(())
    }
}

impl<T: Canonical, const N: usize> Canonical for [T; N] {
    proof fn lemma_decode_encode(input: Seq<u8>) {
        lemma_decode_elems_canonical::<T>(input, N as nat);
    }
}

/// A vector is written as its number of elements, as a `u64`, followed by its elements
/// in order, and an array as its elements in order alone: no elements are nothing, and
/// one more element adds its representation at the end.
pub proof fn law_vec_layout<T: Protocol, const N: usize>(ms: Seq<T::Model>, m: T::Model)
    ensures
        <Vec<T> as Protocol>::spec_encode(ms) == <u64 as Protocol>::spec_encode(ms.len() as u64) + encode_elems::<T>(ms),
        <[T; N] as Protocol>::spec_encode(ms) == encode_elems::<T>(ms),
        encode_elems::<T>(seq![]) == Seq::<u8>::empty(),
        encode_elems::<T>(ms.push(m)) == encode_elems::<T>(ms) + T::spec_encode(m),
{
    assert(ms.push(m).drop_last() =~= ms);
}

/// Reading a vector reads a `u64` count and then that many elements one after the other,
/// each from the bytes after the ones before it; reading no elements consumes nothing.
pub proof fn law_vec_read_order<T: Protocol>(input: Seq<u8>, count: nat)
    ensures
        <Vec<T> as Protocol>::spec_decode(input) == match <u64 as Protocol>::spec_decode(input) {
            Err(e) => Err::<(Seq<T::Model>, nat), ReadError>(e),
            Ok((len, n)) => if len > usize::MAX {
                Err::<(Seq<T::Model>, nat), ReadError>(buf_size_error("Vec"))
            } else {
                match decode_elems::<T>(input.skip(n as int), len as nat) {
                    Err(e) => Err::<(Seq<T::Model>, nat), ReadError>(e),
                    Ok((ms, k)) => Ok::<(Seq<T::Model>, nat), ReadError>((ms, n + k)),
                }
            },
        },
        decode_elems::<T>(input, 0) == Ok::<(Seq<T::Model>, nat), ReadError>((seq![], 0)),
        decode_elems::<T>(input, count + 1) == match decode_elems::<T>(input, count) {
            Err(e) => Err::<(Seq<T::Model>, nat), ReadError>(e),
            Ok((ms, n)) => match T::spec_decode(input.skip(n as int)) {
                Err(e) => Err::<(Seq<T::Model>, nat), ReadError>(e),
                Ok((m, k)) => Ok::<(Seq<T::Model>, nat), ReadError>((ms.push(m), n + k)),
            },
        },
{
}

} // verus!
