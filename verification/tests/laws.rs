use async_proto::{
    read_bool, read_discriminant, write_discriminant, BoolReadError, ErrorContext, IoErrorKind, Protocol, ReadError, ReadErrorKind, Reader,
    WriteErrorKind,
};

fn encode<T: Protocol>(value: &T) -> Vec<u8> {
    let mut sink = Vec::new();
    value.write_sync(&mut sink).unwrap();
    sink
}

fn decode<T: Protocol>(bytes: &[u8]) -> (Result<T, ReadError>, usize) {
    let mut reader = Reader::new(bytes);
    let r = T::read_sync(&mut reader);
    (r, reader.remaining_len())
}

#[test]
fn write_then_read_gives_the_value_back() {
    let value: (u16, Option<String>, Vec<i32>) = (513, Some(String::from("hé")), vec![-1, 7]);
    let mut bytes = encode(&value);
    let written = bytes.len();
    bytes.extend_from_slice(&[9, 9, 9]);
    let (r, left) = decode::<(u16, Option<String>, Vec<i32>)>(&bytes);
    assert_eq!(r.unwrap(), value);
    assert_eq!(left, 3);
    assert_eq!(bytes.len() - left, written);
}

#[test]
fn read_then_write_reproduces_the_consumed_bytes() {
    let bytes = [0u8, 0, 0, 0, 0, 0, 0, 2, 1, 0, 0xff];
    let (r, left) = decode::<Vec<bool>>(&bytes);
    let value = r.unwrap();
    assert_eq!(value, vec![true, false]);
    assert_eq!(encode(&value), bytes[..bytes.len() - left].to_vec());
}

#[test]
fn different_values_have_different_representations() {
    assert_ne!(encode(&Some(0u8)), encode(&None::<u8>));
    assert_ne!(encode(&String::from("a")), encode(&String::from("b")));
    assert_ne!(encode(&vec![1u8]), encode(&vec![1u8, 0]));
}

#[test]
fn representations_are_self_delimiting() {
    let short = encode(&vec![1u8]);
    let long = encode(&vec![1u8, 2]);
    assert!(!long.starts_with(&short));
    let (r, left) = decode::<Vec<u8>>(&long);
    assert_eq!(r.unwrap(), vec![1u8, 2]);
    assert_eq!(left, 0);
}

#[test]
fn read_bool_reads_zero_and_one() {
    let bytes = [1u8, 0, 2];
    let mut reader = Reader::new(&bytes);
    assert_eq!(read_bool(&mut reader), Ok(true));
    assert_eq!(read_bool(&mut reader), Ok(false));
    assert_eq!(read_bool(&mut reader), Err(BoolReadError::InvalidValue(2)));
    assert_eq!(reader.remaining_len(), 0);
    assert_eq!(read_bool(&mut reader), Err(BoolReadError::Io(IoErrorKind::UnexpectedEof)));
}

#[test]
fn custom_errors_from_strings() {
    assert_eq!(ReadErrorKind::from(String::from("oops")), ReadErrorKind::Custom(String::from("oops")));
    assert_eq!(WriteErrorKind::from(String::from("oops")), WriteErrorKind::Custom(String::from("oops")));
    let e = ReadError { context: ErrorContext::DefaultImpl, kind: ReadErrorKind::from(String::from("x")) };
    assert_eq!(e.io_kind(), IoErrorKind::Other);
}

#[test]
fn every_proper_prefix_reads_as_an_early_end() {
    let value: (Option<u16>, String, Vec<bool>) = (Some(7), String::from("ab"), vec![true]);
    let bytes = encode(&value);
    for k in 0..bytes.len() {
        let (r, _) = decode::<(Option<u16>, String, Vec<bool>)>(&bytes[..k]);
        match r {
            Err(e) => assert_eq!(e.kind, ReadErrorKind::Io(IoErrorKind::UnexpectedEof), "prefix of {} bytes", k),
            Ok(_) => panic!("a prefix of {} bytes read as a value", k),
        }
    }
}

#[test]
fn appended_bytes_do_not_change_a_read() {
    let bytes = [0u8, 0, 0, 0, 0, 0, 0, 1, 0x41];
    let (r1, left1) = decode::<String>(&bytes);
    let mut longer = bytes.to_vec();
    longer.extend_from_slice(&[1, 2, 3]);
    let (r2, left2) = decode::<String>(&longer);
    assert_eq!(r1, Ok(String::from("A")));
    assert_eq!(r2, Ok(String::from("A")));
    assert_eq!(longer.len() - left2, bytes.len() - left1);
}

#[test]
fn enum_variant_reads_back_after_its_discriminant() {
    let mut sink = Vec::new();
    write_discriminant(&mut sink, 300, 258);
    (7u8, 9u16).write_sync(&mut sink).unwrap();
    sink.push(1);
    assert_eq!(sink, vec![1, 2, 7, 0, 9, 1]);
    let mut reader = Reader::new(&sink);
    assert_eq!(read_discriminant(&mut reader, 300, "E"), Ok(258));
    assert_eq!(<(u8, u16)>::read_sync(&mut reader), Ok((7, 9)));
    assert_eq!(reader.remaining_len(), 1);
}
