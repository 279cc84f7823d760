//! Ordered sets and maps: represented like a vector of their elements (or of key-value
//! pairs), written in ascending order. Reading inserts the values in the order read, so
//! that of equal elements or keys the last one read counts.
//!
//! What the collections hold follows the `Ord` impl of the elements or keys; the
//! contracts speak of it where that impl is a total order consistent with equality.
use vstd::prelude::*;

use std::collections::{BTreeMap, BTreeSet};
use vstd::std_specs::iter::IteratorSpec;

use crate::error::{ErrorContext, ReadError, ReadErrorKind, WriteError};
use crate::impls::vec::{decode_elems, decode_entries, elems_error_consumed, entries_error_consumed, lemma_decode_elems_err, lemma_decode_elems_wf, pairs_model, refs_model, seq_model, write_entries, write_pair_entries};
use crate::protocol::{lemma_skip_skip, Protocol};
use crate::stream::Reader;

verus! {

broadcast use vstd::std_specs::btree::group_btree_axioms;

/// Whether the `Ord` impl of `T` is a total order that agrees with equality.
pub open spec fn total_order<T: Ord>() -> bool {
    vstd::laws_cmp::obeys_cmp::<T>()
}

/// Reads a `u64` count and then that many values of type `T`, inserting each into an
/// ordered set; a count above `usize::MAX` is refused.
pub fn read_btree_set<T: Protocol + Ord>(stream: &mut Reader) -> (r: Result<BTreeSet<T>, ReadError>)
    ensures
        match decode_entries::<T>(old(stream)@, "BTreeSet") {
            Ok((ms, n)) => final(stream)@ == old(stream)@.skip(n as int) && (r matches Ok(set) && (total_order::<T>()
                ==> exists|vs: Seq<T>| seq_model(vs) == ms && #[trigger] vs.to_set() == set@)),
            Err(e) => r == Err::<BTreeSet<T>, ReadError>(e) && final(stream)@ == old(stream)@.skip(
                entries_error_consumed::<T>(old(stream)@) as int,
            ),
        },
{
    let ghost start = stream@;
    proof {
        <u64 as Protocol>::lemma_decode_wf(start);
    }
    let count = match u64::read_sync(stream) {
        Ok(count) => count,
        Err(e) => return Err(e),
    };
    assert(<u64 as Protocol>::spec_decode(start) == Ok::<(u64, nat), ReadError>((count, 8)));
    if count as u128 > usize::MAX as u128 {
        return Err(ReadError { context: ErrorContext::BuiltIn { for_type: "BTreeSet" }, kind: ReadErrorKind::BufSize });
    }
    let ghost body = stream@;
    let ghost mut consumed: nat = 0;
    let ghost mut vs: Seq<T> = seq![];
    let mut set: BTreeSet<T> = BTreeSet::new();
    let mut i: u64 = 0;
    assert(body.skip(0) =~= body);
    assert(vs.to_set() =~= set@);
    assert(seq_model(vs) =~= seq![]);
    while i < count
        invariant
            i <= count <= usize::MAX,
            body == start.skip(8),
            8 <= start.len(),
            start == old(stream)@,
            <u64 as Protocol>::spec_decode(start) == Ok::<(u64, nat), ReadError>((count, 8)),
            vs.len() == i,
            decode_elems::<T>(body, i as nat) == Ok::<(Seq<T::Model>, nat), ReadError>((seq_model(vs), consumed)),
            consumed <= body.len(),
            stream@ == body.skip(consumed as int),
            total_order::<T>() ==> vs.to_set() == set@,
        decreases count - i,
    {
        proof {
            T::lemma_decode_wf(stream@);
        }
        match T::read_sync(stream) {
            Ok(x) => {
                proof {
                    if let Ok((m, k)) = T::spec_decode(body.skip(consumed as int)) {
                        lemma_skip_skip(body, consumed, k);
                        consumed = consumed + k;
                    }
                    assert(seq_model(vs.push(x)) =~= seq_model(vs).push(x.model()));
                    vs.lemma_push_to_set_commute(x);
                    vs = vs.push(x);
                }
                set.insert(x);
                i = i + 1;
            },
            Err(e) => {
                proof {
                    assert(T::spec_decode(body.skip(consumed as int)) == Err::<(T::Model, nat), ReadError>(e));
                    assert(decode_elems::<T>(body, (i + 1) as nat) == Err::<(Seq<T::Model>, nat), ReadError>(e));
                    let c = T::spec_error_consumed(body.skip(consumed as int));
                    lemma_skip_skip(body, consumed, c);
                    assert(elems_error_consumed::<T>(body, (i + 1) as nat) == consumed + c);
                    lemma_decode_elems_err::<T>(body, (i + 1) as nat, count as nat);
                    lemma_decode_elems_wf::<T>(body, count as nat);
                    lemma_skip_skip(start, 8, consumed + c);
                    assert(decode_entries::<T>(start, "BTreeSet") == Err::<(Seq<T::Model>, nat), ReadError>(e));
                }
                return Err(e);
            },
        }
    }
    proof {
        lemma_skip_skip(start, 8, consumed);
        assert(decode_entries::<T>(start, "BTreeSet") == Ok::<(Seq<T::Model>, nat), ReadError>(
            (seq_model(vs), 8 + consumed),
        ));
        if total_order::<T>() {
            assert(vs.to_set() == set@);
        }
    }
    Ok(set)
}

/// The map made by inserting the pairs of `ps` one after the other, so that of pairs
/// with equal keys the last one counts.
pub open spec fn pairs_map<K, V>(ps: Seq<(K, V)>) -> Map<K, V>
    decreases ps.len(),
{
    if ps.len() == 0 {
        Map::empty()
    } else {
        pairs_map(ps.drop_last()).insert(ps.last().0, ps.last().1)
    }
}

/// Reads a `u64` count and then that many keys, each followed by its value, inserting
/// each pair into an ordered map; a count above `usize::MAX` is refused.
pub fn read_btree_map<K: Protocol + Ord, V: Protocol>(stream: &mut Reader) -> (r: Result<BTreeMap<K, V>, ReadError>)
    ensures
        match decode_entries::<(K, V)>(old(stream)@, "BTreeMap") {
            Ok((ms, n)) => final(stream)@ == old(stream)@.skip(n as int) && (r matches Ok(map) && (total_order::<K>()
                ==> exists|ps: Seq<(K, V)>| seq_model(ps) == ms && #[trigger] pairs_map(ps) == map@)),
            Err(e) => r == Err::<BTreeMap<K, V>, ReadError>(e) && final(stream)@ == old(stream)@.skip(
                entries_error_consumed::<(K, V)>(old(stream)@) as int,
            ),
        },
{
    let ghost start = stream@;
    proof {
        <u64 as Protocol>::lemma_decode_wf(start);
    }
    let count = match u64::read_sync(stream) {
        Ok(count) => count,
        Err(e) => return Err(e),
    };
    assert(<u64 as Protocol>::spec_decode(start) == Ok::<(u64, nat), ReadError>((count, 8)));
    if count as u128 > usize::MAX as u128 {
        return Err(ReadError { context: ErrorContext::BuiltIn { for_type: "BTreeMap" }, kind: ReadErrorKind::BufSize });
    }
    let ghost body = stream@;
    let ghost mut consumed: nat = 0;
    let ghost mut vs: Seq<(K, V)> = seq![];
    let mut map: BTreeMap<K, V> = BTreeMap::new();
    let mut i: u64 = 0;
    assert(body.skip(0) =~= body);
    assert(pairs_map(vs) =~= map@);
    assert(seq_model(vs) =~= seq![]);
    while i < count
        invariant
            i <= count <= usize::MAX,
            body == start.skip(8),
            8 <= start.len(),
            start == old(stream)@,
            <u64 as Protocol>::spec_decode(start) == Ok::<(u64, nat), ReadError>((count, 8)),
            vs.len() == i,
            decode_elems::<(K, V)>(body, i as nat) == Ok::<(Seq<(K::Model, V::Model)>, nat), ReadError>((seq_model(vs), consumed)),
            consumed <= body.len(),
            stream@ == body.skip(consumed as int),
            total_order::<K>() ==> pairs_map(vs) == map@,
        decreases count - i,
    {
        proof {
            <(K, V) as Protocol>::lemma_decode_wf(stream@);
        }
        match <(K, V)>::read_sync(stream) {
            Ok(x) => {
                proof {
                    if let Ok((m, k)) = <(K, V) as Protocol>::spec_decode(body.skip(consumed as int)) {
                        lemma_skip_skip(body, consumed, k);
                        consumed = consumed + k;
                    }
                    assert(seq_model(vs.push(x)) =~= seq_model(vs).push(x.model()));
                    assert(vs.push(x).drop_last() =~= vs);
                    vs = vs.push(x);
                }
                let (k, v) = x;
                map.insert(k, v);
                i = i + 1;
            },
            Err(e) => {
                proof {
                    assert(<(K, V) as Protocol>::spec_decode(body.skip(consumed as int)) == Err::<((K::Model, V::Model), nat), ReadError>(e));
                    assert(decode_elems::<(K, V)>(body, (i + 1) as nat) == Err::<(Seq<(K::Model, V::Model)>, nat), ReadError>(e));
                    let c = <(K, V) as Protocol>::spec_error_consumed(body.skip(consumed as int));
                    lemma_skip_skip(body, consumed, c);
                    assert(elems_error_consumed::<(K, V)>(body, (i + 1) as nat) == consumed + c);
                    lemma_decode_elems_err::<(K, V)>(body, (i + 1) as nat, count as nat);
                    lemma_decode_elems_wf::<(K, V)>(body, count as nat);
                    lemma_skip_skip(start, 8, consumed + c);
                    assert(decode_entries::<(K, V)>(start, "BTreeMap") == Err::<(Seq<(K::Model, V::Model)>, nat), ReadError>(e));
                }
                return Err(e);
            },
        }
    }
    proof {
        lemma_skip_skip(start, 8, consumed);
        assert(decode_entries::<(K, V)>(start, "BTreeMap") == Ok::<(Seq<(K::Model, V::Model)>, nat), ReadError>(
            (seq_model(vs), 8 + consumed),
        ));
        if total_order::<K>() {
            assert(pairs_map(vs) == map@);
        }
    }
    Ok(map)
}

/// Writes an ordered set: its number of elements as a `u64`, then the elements in
/// ascending order.
pub fn write_btree_set<T: Protocol + Ord>(set: &BTreeSet<T>, sink: &mut Vec<u8>)
    requires
        total_order::<T>(),
    ensures
        <Vec<T> as Protocol>::wf_model(seq_model(vstd::std_specs::btree::spec_btree_keys_iter(set).remaining().unref())),
        final(sink)@ == old(sink)@ + <Vec<T> as Protocol>::spec_encode(seq_model(vstd::std_specs::btree::spec_btree_keys_iter(set).remaining().unref())),
{
    let ghost all = vstd::std_specs::btree::spec_btree_keys_iter(set).remaining();
    let mut items: Vec<&T> = Vec::new();
    for x in it: set.iter()
        invariant
            it.seq() == all,
            items@ == it.seq().take(it.index() as int),
    {
        items.push(x);
    }
    assert(items@ =~= all);
    write_entries(items.as_slice(), sink);
    assert(refs_model(items@) =~= seq_model(vstd::std_specs::btree::spec_btree_keys_iter(set).remaining().unref()));
}

/// Writes an ordered map: its number of entries as a `u64`, then each key followed by its
/// value, in ascending key order.
pub fn write_btree_map<K: Protocol + Ord, V: Protocol>(map: &BTreeMap<K, V>, sink: &mut Vec<u8>)
    requires
        total_order::<K>(),
    ensures
        <Vec<(K, V)> as Protocol>::wf_model(pairs_model(vstd::std_specs::btree::spec_btree_map_iter(map).remaining())),
        final(sink)@ == old(sink)@ + <Vec<(K, V)> as Protocol>::spec_encode(
            pairs_model(vstd::std_specs::btree::spec_btree_map_iter(map).remaining()),
        ),
{
    let ghost all = vstd::std_specs::btree::spec_btree_map_iter(map).remaining();
    let mut items: Vec<(&K, &V)> = Vec::new();
    for kv in it: map.iter()
        invariant
            it.seq() == all,
            items@ == it.seq().take(it.index() as int),
    {
        items.push(kv);
    }
    assert(items@ =~= all);
    write_pair_entries(items.as_slice(), sink);
}

} // verus!
