use async_proto::{
    read_len, write_len, ErrorContext, IoErrorKind, LengthPrefixed, Protocol, ReadError, ReadErrorKind, Reader,
    WriteError, WriteErrorKind,
};
use bytes::Bytes;

#[test]
fn length_width_follows_the_maximum() {
    for (max_len, width) in [(0u64, 1usize), (255, 1), (256, 2), (65535, 2), (65536, 4), (u32::MAX as u64, 4), (u32::MAX as u64 + 1, 8), (u64::MAX, 8)] {
        let mut buf = Vec::new();
        write_len(&mut buf, 0, max_len, "t").unwrap();
        assert_eq!(buf.len(), width, "max_len {}", max_len);
    }
}

#[test]
fn length_round_trips() {
    let mut buf = Vec::new();
    write_len(&mut buf, 300, 1000, "t").unwrap();
    assert_eq!(buf, vec![0x01, 0x2c]);
    let mut reader = Reader::new(&buf);
    assert_eq!(read_len(&mut reader, 1000, "t"), Ok(300));
}

#[test]
fn writing_a_length_above_the_maximum_fails() {
    let mut buf = vec![9];
    assert_eq!(
        write_len(&mut buf, 5, 4, "t"),
        Err(WriteError { context: ErrorContext::BuiltIn { for_type: "t" }, kind: WriteErrorKind::MaxLen { len: 5, max_len: 4 } })
    );
    assert_eq!(buf, vec![9]);
}

#[test]
fn reading_a_length_above_the_maximum_fails() {
    let mut reader = Reader::new(&[5]);
    assert_eq!(
        read_len(&mut reader, 4, "t"),
        Err(ReadError { context: ErrorContext::BuiltIn { for_type: "t" }, kind: ReadErrorKind::MaxLen { len: 5, max_len: 4 } })
    );
    let mut reader = Reader::new(&[0]);
    assert_eq!(
        read_len(&mut reader, 300, "t"),
        Err(ReadError { context: ErrorContext::BuiltIn { for_type: "u16" }, kind: ReadErrorKind::Io(IoErrorKind::UnexpectedEof) })
    );
}

#[test]
fn bytes_are_prefixed_with_u64_length() {
    let b = Bytes::from(vec![1u8, 2, 3]);
    let mut buf = Vec::new();
    b.write_sync(&mut buf).unwrap();
    assert_eq!(buf, vec![0, 0, 0, 0, 0, 0, 0, 3, 1, 2, 3]);
    let mut reader = Reader::new(&buf);
    assert_eq!(Bytes::read_sync(&mut reader), Ok(b));
    assert_eq!(reader.remaining_len(), 0);
}

#[test]
fn bytes_with_a_maximum_length() {
    let b = Bytes::from(vec![1u8, 2, 3]);
    let mut buf = Vec::new();
    b.write_length_prefixed_sync(&mut buf, 10).unwrap();
    assert_eq!(buf, vec![3, 1, 2, 3]);
    let mut reader = Reader::new(&buf);
    assert_eq!(Bytes::read_length_prefixed_sync(&mut reader, 10), Ok(b.clone()));
    let mut reader = Reader::new(&buf);
    assert_eq!(
        Bytes::read_length_prefixed_sync(&mut reader, 2),
        Err(ReadError { context: ErrorContext::BuiltIn { for_type: "bytes::Bytes" }, kind: ReadErrorKind::MaxLen { len: 3, max_len: 2 } })
    );
    let mut out = Vec::new();
    assert_eq!(
        b.write_length_prefixed_sync(&mut out, 2),
        Err(WriteError { context: ErrorContext::BuiltIn { for_type: "bytes::Bytes" }, kind: WriteErrorKind::MaxLen { len: 3, max_len: 2 } })
    );
    assert!(out.is_empty());
    let mut reader = Reader::new(&[3, 1]);
    assert_eq!(
        Bytes::read_length_prefixed_sync(&mut reader, 10),
        Err(ReadError { context: ErrorContext::BuiltIn { for_type: "bytes::Bytes" }, kind: ReadErrorKind::Io(IoErrorKind::UnexpectedEof) })
    );
}
