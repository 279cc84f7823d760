use std::borrow::Cow;

use async_proto::{
    read_date_time_fields, read_discriminant, read_nevec, read_nonzero, write_date_time_fields, write_via,
    ErrorContext, IoErrorKind, LengthPrefixed, Protocol, ReadError, ReadErrorKind, Reader, WriteError,
    WriteErrorKind,
};
use bytes::Bytes;

fn rest(reader: &mut Reader) -> Vec<u8> {
    let mut out = Vec::new();
    while let Some(b) = reader.read_byte() {
        out.push(b);
    }
    out
}

#[test]
fn invalid_bool_consumes_its_byte() {
    let data = [2u8, 1];
    let mut reader = Reader::new(&data);
    assert_eq!(
        bool::read_sync(&mut reader),
        Err(ReadError { context: ErrorContext::BuiltIn { for_type: "bool" }, kind: ReadErrorKind::UnknownVariant8(2) })
    );
    assert_eq!(rest(&mut reader), vec![1]);
}

#[test]
fn truncated_number_consumes_nothing() {
    let data = [1u8, 2, 3];
    let mut reader = Reader::new(&data);
    assert!(u32::read_sync(&mut reader).is_err());
    assert_eq!(rest(&mut reader), vec![1, 2, 3]);
}

#[test]
fn unknown_discriminant_consumes_only_its_byte() {
    let data = [3u8, 0, 0];
    let mut reader = Reader::new(&data);
    assert_eq!(
        read_discriminant(&mut reader, 3, "E"),
        Err(ReadError { context: ErrorContext::Derived { for_type: "E" }, kind: ReadErrorKind::UnknownVariant8(3) })
    );
    assert_eq!(rest(&mut reader), vec![0, 0]);
}

#[test]
fn tuple_stops_at_the_failing_field() {
    let data = [2u8, 1, 0];
    let mut reader = Reader::new(&data);
    assert!(<(bool, bool)>::read_sync(&mut reader).is_err());
    assert_eq!(rest(&mut reader), vec![1, 0]);
    let data = [1u8, 5, 0];
    let mut reader = Reader::new(&data);
    assert!(<(bool, bool, bool)>::read_sync(&mut reader).is_err());
    assert_eq!(rest(&mut reader), vec![0]);
}

#[test]
fn vec_stops_at_the_failing_element() {
    let data = [0u8, 0, 0, 0, 0, 0, 0, 3, 1, 9, 0];
    let mut reader = Reader::new(&data);
    assert_eq!(
        Vec::<bool>::read_sync(&mut reader),
        Err(ReadError { context: ErrorContext::BuiltIn { for_type: "bool" }, kind: ReadErrorKind::UnknownVariant8(9) })
    );
    assert_eq!(rest(&mut reader), vec![0]);
}

#[test]
fn string_with_invalid_utf8_consumes_its_payload() {
    let data = [0u8, 0, 0, 0, 0, 0, 0, 2, 0xC3, 0x28, 4];
    let mut reader = Reader::new(&data);
    assert_eq!(
        String::read_sync(&mut reader),
        Err(ReadError { context: ErrorContext::BuiltIn { for_type: "String" }, kind: ReadErrorKind::Utf8 })
    );
    assert_eq!(rest(&mut reader), vec![4]);
}

#[test]
fn bytes_over_the_maximum_read_no_payload() {
    let data = [5u8, 1, 2, 3, 4, 5];
    let mut reader = Reader::new(&data);
    assert_eq!(
        Bytes::read_length_prefixed_sync(&mut reader, 4),
        Err(ReadError {
            context: ErrorContext::BuiltIn { for_type: "bytes::Bytes" },
            kind: ReadErrorKind::MaxLen { len: 5, max_len: 4 },
        })
    );
    assert_eq!(rest(&mut reader), vec![1, 2, 3, 4, 5]);
}

#[test]
fn empty_nevec_reads_no_element() {
    let data = [0u8, 0, 0, 0, 0, 0, 0, 0, 7];
    let mut reader = Reader::new(&data);
    assert_eq!(
        read_nevec::<u8>(&mut reader, u64::MAX).err(),
        Some(ReadError { context: ErrorContext::BuiltIn { for_type: "NEVec" }, kind: ReadErrorKind::UnknownVariant64(0) })
    );
    assert_eq!(rest(&mut reader), vec![7]);
}

#[test]
fn custom_error_kinds_from_strings() {
    let s: &str = "bad";
    assert_eq!(ReadErrorKind::from(s), ReadErrorKind::Custom(String::from("bad")));
    assert_eq!(ReadErrorKind::from(String::from(s)), ReadErrorKind::Custom(String::from("bad")));
    assert_eq!(ReadErrorKind::from(Cow::Borrowed(s)), ReadErrorKind::Custom(String::from("bad")));
    assert_eq!(ReadErrorKind::from(Cow::<str>::Owned(String::from(s))), ReadErrorKind::Custom(String::from("bad")));
    assert_eq!(WriteErrorKind::from(s), WriteErrorKind::Custom(String::from("bad")));
    assert_eq!(WriteErrorKind::from(Cow::Borrowed(s)), WriteErrorKind::Custom(String::from("bad")));
}

#[test]
fn write_via_writes_the_proxy_or_reports_the_conversion() {
    let mut sink = vec![9u8];
    assert_eq!(write_via::<u16>(Ok(258), &mut sink), Ok(()));
    assert_eq!(sink, vec![9, 1, 2]);
    assert_eq!(
        write_via::<u16>(Err(WriteErrorKind::Custom(String::from("no"))), &mut sink),
        Err(WriteError { context: ErrorContext::TryInto, kind: WriteErrorKind::Custom(String::from("no")) })
    );
    assert_eq!(sink, vec![9, 1, 2]);
}

#[test]
fn date_time_fields_are_read_in_order() {
    let data = [0u8, 0, 0, 0, 0, 0, 0, 5, 0, 0, 0, 7, 9];
    let mut reader = Reader::new(&data);
    let (_, secs, nanos) = read_date_time_fields::<chrono::Utc>(&mut reader).unwrap();
    assert_eq!((secs, nanos), (5, 7));
    assert_eq!(rest(&mut reader), vec![9]);
    let mut sink = Vec::new();
    write_date_time_fields(&chrono::Utc, 5, 7, &mut sink);
    assert_eq!(sink, data[..12].to_vec());
    let data = [0u8, 0, 0, 0, 0, 0, 0, 5, 0, 0];
    let mut reader = Reader::new(&data);
    assert_eq!(
        read_date_time_fields::<chrono::Utc>(&mut reader).err(),
        Some(ReadError {
            context: ErrorContext::Via {
                source: Box::new(ErrorContext::NamedField {
                    name: "timestamp_subsec_nanos",
                    source: Box::new(ErrorContext::BuiltIn { for_type: "u32" }),
                }),
            },
            kind: ReadErrorKind::Io(IoErrorKind::UnexpectedEof),
        })
    );
    assert_eq!(rest(&mut reader), vec![0, 0]);
}

#[test]
fn nonzero_refuses_zero_after_reading_it() {
    let data = [0u8, 0, 4];
    let mut reader = Reader::new(&data);
    assert_eq!(
        read_nonzero::<u16>(&mut reader),
        Err(ReadError { context: ErrorContext::TryInto, kind: ReadErrorKind::UnknownVariant16(0) })
    );
    assert_eq!(rest(&mut reader), vec![4]);
    let data = [0u8, 0, 0, 0, 0, 0, 0, 1];
    let mut reader = Reader::new(&data);
    assert_eq!(read_nonzero::<i64>(&mut reader), Ok(1));
    let data = [0u8];
    let mut reader = Reader::new(&data);
    assert_eq!(
        read_nonzero::<u32>(&mut reader),
        Err(ReadError {
            context: ErrorContext::Via { source: Box::new(ErrorContext::BuiltIn { for_type: "u32" }) },
            kind: ReadErrorKind::Io(IoErrorKind::UnexpectedEof),
        })
    );
    assert_eq!(rest(&mut reader), vec![0]);
}

#[test]
fn inclusive_range_reads_unexhausted() {
    let data = [3u8, 4];
    let mut reader = Reader::new(&data);
    let mut range = std::ops::RangeInclusive::<u8>::read_sync(&mut reader).unwrap();
    assert_eq!(range.next(), Some(3));
    assert_eq!(range.next(), Some(4));
    assert_eq!(range.next(), None);
}

#[test]
fn cow_strings_read_owned() {
    let data = [0u8, 0, 0, 0, 0, 0, 0, 2, b'h', b'i'];
    let mut reader = Reader::new(&data);
    match Cow::<str>::read_sync(&mut reader) {
        Ok(Cow::Owned(s)) => assert_eq!(s, "hi"),
        other => panic!("{:?}", other),
    }
}

#[test]
fn length_prefixed_bytes_round_trip() {
    let b = Bytes::from(vec![1u8, 2, 3]);
    let mut sink = Vec::new();
    b.write_length_prefixed_sync(&mut sink, 300).unwrap();
    assert_eq!(sink, vec![0, 3, 1, 2, 3]);
    sink.push(9);
    let mut reader = Reader::new(&sink);
    assert_eq!(Bytes::read_length_prefixed_sync(&mut reader, 300), Ok(b));
    assert_eq!(rest(&mut reader), vec![9]);
}
