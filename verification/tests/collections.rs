use std::borrow::Cow;

use async_proto::{
    read_btree_map, read_btree_set, read_entries, read_nevec, write_btree_map, write_btree_set, read_nonempty_entries, write_entries, write_nevec, write_pair_entries, NonEmptyVec,
    write_prefixed_entries, write_prefixed_pair_entries, ErrorContext, IoErrorKind, Protocol, ReadError,
    ReadErrorKind, Reader, WriteError, WriteErrorKind,
};
use nonempty_collections::NEVec;

#[test]
fn entries_are_a_count_then_the_items() {
    let (a, b) = (3u16, 258u16);
    let mut sink = Vec::new();
    write_entries(&[&a, &b], &mut sink);
    assert_eq!(sink, vec![0, 0, 0, 0, 0, 0, 0, 2, 0, 3, 1, 2]);
    let mut reader = Reader::new(&sink);
    assert_eq!(read_entries::<u16>(&mut reader, "BTreeSet"), Ok(vec![3, 258]));
    assert_eq!(reader.remaining_len(), 0);
}

#[test]
fn pair_entries_are_keys_followed_by_values() {
    let (k, v) = (1u8, String::from("a"));
    let mut sink = Vec::new();
    write_pair_entries(&[(&k, &v)], &mut sink);
    assert_eq!(sink, vec![0, 0, 0, 0, 0, 0, 0, 1, 1, 0, 0, 0, 0, 0, 0, 0, 1, b'a']);
    let mut reader = Reader::new(&sink);
    assert_eq!(read_entries::<(u8, String)>(&mut reader, "HashMap"), Ok(vec![(1u8, String::from("a"))]));
}

#[test]
fn entries_errors_name_the_collection() {
    let bytes = [0u8, 0, 0, 0, 0, 0, 0, 2, 7];
    let mut reader = Reader::new(&bytes);
    assert_eq!(
        read_entries::<u8>(&mut reader, "BTreeSet"),
        Err(ReadError {
            context: ErrorContext::BuiltIn { for_type: "u8" },
            kind: ReadErrorKind::Io(IoErrorKind::UnexpectedEof),
        })
    );
    if usize::MAX as u64 != u64::MAX {
        let bytes = [0xffu8; 8];
        let mut reader = Reader::new(&bytes);
        assert_eq!(
            read_entries::<u8>(&mut reader, "HashSet"),
            Err(ReadError { context: ErrorContext::BuiltIn { for_type: "HashSet" }, kind: ReadErrorKind::BufSize })
        );
    }
}

#[test]
fn cow_strings_are_represented_like_strings() {
    let borrowed: Cow<str> = Cow::Borrowed("hi");
    let owned: Cow<str> = Cow::Owned(String::from("hi"));
    let mut a = Vec::new();
    borrowed.write_sync(&mut a).unwrap();
    let mut b = Vec::new();
    owned.write_sync(&mut b).unwrap();
    let mut c = Vec::new();
    String::from("hi").write_sync(&mut c).unwrap();
    assert_eq!(a, c);
    assert_eq!(b, c);
    let mut reader = Reader::new(&a);
    match <Cow<str>>::read_sync(&mut reader) {
        Ok(Cow::Owned(s)) => assert_eq!(s, "hi"),
        other => panic!("unexpected {:?}", other),
    }
}

#[test]
fn nonempty_entries_refuse_a_zero_length() {
    let bytes = [0u8];
    let mut reader = Reader::new(&bytes);
    assert_eq!(
        read_nonempty_entries::<u8>(&mut reader, 10, "NESet"),
        Err(ReadError { context: ErrorContext::BuiltIn { for_type: "NESet" }, kind: ReadErrorKind::UnknownVariant64(0) })
    );
}

#[test]
fn nonempty_entries_respect_the_maximum() {
    let bytes = [3u8, 1, 2, 3];
    let mut reader = Reader::new(&bytes);
    assert_eq!(
        read_nonempty_entries::<u8>(&mut reader, 2, "NEMap"),
        Err(ReadError {
            context: ErrorContext::BuiltIn { for_type: "NEMap" },
            kind: ReadErrorKind::MaxLen { len: 3, max_len: 2 },
        })
    );
    let (a, b, c) = (1u8, 2u8, 3u8);
    let mut sink = vec![9u8];
    assert_eq!(
        write_prefixed_entries(&[&a, &b, &c], &mut sink, 2, "NESet"),
        Err(WriteError {
            context: ErrorContext::BuiltIn { for_type: "NESet" },
            kind: WriteErrorKind::MaxLen { len: 3, max_len: 2 },
        })
    );
    assert_eq!(sink, vec![9u8]);
}

#[test]
fn nevec_round_trips_with_a_short_prefix() {
    let v = NEVec::try_from_vec(vec![7u16, 8]).unwrap();
    let items = NonEmptyVec::from_vec(v.iter().copied().collect()).unwrap();
    let mut sink = Vec::new();
    assert_eq!(write_nevec(&items, &mut sink, 255), Ok(()));
    assert_eq!(sink, vec![2, 0, 7, 0, 8]);
    assert_eq!(write_nevec(&items, &mut sink, 1).is_err(), true);
    assert_eq!(sink, vec![2, 0, 7, 0, 8]);
    let mut reader = Reader::new(&sink);
    let read = read_nevec::<u16>(&mut reader, 255).unwrap();
    assert_eq!(read.as_slice(), &[7, 8]);
    assert_eq!(NEVec::try_from_vec(read.into_vec()), Some(v));
    assert_eq!(reader.remaining_len(), 0);
    let mut sink = Vec::new();
    let (k, val) = (1u8, true);
    assert_eq!(write_prefixed_pair_entries(&[(&k, &val)], &mut sink, 1000, "NEMap"), Ok(()));
    assert_eq!(sink, vec![0, 1, 1, 1]);
}

#[test]
fn ordered_collections_are_written_in_ascending_order() {
    let set: std::collections::BTreeSet<u8> = [9u8, 2, 5].into_iter().collect();
    let mut sink = Vec::new();
    write_btree_set(&set, &mut sink);
    assert_eq!(sink, vec![0, 0, 0, 0, 0, 0, 0, 3, 2, 5, 9]);
    let mut reader = Reader::new(&sink);
    assert_eq!(read_btree_set::<u8>(&mut reader), Ok(set));
    let data = [0u8, 0, 0, 0, 0, 0, 0, 3, 4, 1, 2, 4, 4, 3];
    let mut reader = Reader::new(&data);
    let map = read_btree_map::<u8, u8>(&mut reader).unwrap();
    assert_eq!(map.into_iter().collect::<Vec<_>>(), vec![(2, 4), (4, 3)]);
    let map: std::collections::BTreeMap<u8, bool> = [(7u8, true), (1, false)].into_iter().collect();
    let mut sink = Vec::new();
    write_btree_map(&map, &mut sink);
    assert_eq!(sink, vec![0, 0, 0, 0, 0, 0, 0, 2, 1, 0, 7, 1]);
}
