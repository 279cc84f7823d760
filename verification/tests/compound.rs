use async_proto::{ErrorContext, IoErrorKind, Protocol, ReadError, ReadErrorKind, Reader};

fn encode<T: Protocol>(value: &T) -> Vec<u8> {
    let mut buf = Vec::new();
    value.write_sync(&mut buf).unwrap();
    buf
}

fn decode<T: Protocol>(bytes: &[u8]) -> (Result<T, ReadError>, usize) {
    let mut reader = Reader::new(bytes);
    let r = T::read_sync(&mut reader);
    (r, reader.remaining_len())
}

fn eof(for_type: &'static str) -> ReadError {
    ReadError {
        context: ErrorContext::BuiltIn { for_type },
        kind: ReadErrorKind::Io(IoErrorKind::UnexpectedEof),
    }
}

#[test]
fn option_has_a_discriminant_byte() {
    assert_eq!(encode(&None::<u8>), vec![0]);
    assert_eq!(encode(&Some(7u8)), vec![1, 7]);
    assert_eq!(decode::<Option<u8>>(&[1, 9]).0, Ok(Some(9)));
    assert_eq!(decode::<Option<u8>>(&[0, 9]), (Ok(None), 1));
}

#[test]
fn option_with_unknown_discriminant() {
    assert_eq!(
        decode::<Option<u8>>(&[2]).0,
        Err(ReadError {
            context: ErrorContext::Derived { for_type: "Option" },
            kind: ReadErrorKind::UnknownVariant8(2),
        })
    );
}

#[test]
fn option_errors_carry_the_field_context() {
    assert_eq!(
        decode::<Option<u16>>(&[1, 0]).0,
        Err(ReadError {
            context: ErrorContext::UnnamedField { idx: 0, source: Box::new(ErrorContext::BuiltIn { for_type: "u16" }) },
            kind: ReadErrorKind::Io(IoErrorKind::UnexpectedEof),
        })
    );
    assert_eq!(
        decode::<Option<u16>>(&[]).0,
        Err(ReadError {
            context: ErrorContext::EnumDiscrim { source: Box::new(ErrorContext::BuiltIn { for_type: "u8" }) },
            kind: ReadErrorKind::Io(IoErrorKind::UnexpectedEof),
        })
    );
}

#[test]
fn result_variants() {
    assert_eq!(encode(&Ok::<u8, bool>(3)), vec![0, 3]);
    assert_eq!(encode(&Err::<u8, bool>(true)), vec![1, 1]);
    assert_eq!(decode::<Result<u8, bool>>(&[1, 0]).0, Ok(Err(false)));
    assert_eq!(
        decode::<Result<u8, bool>>(&[7]).0,
        Err(ReadError {
            context: ErrorContext::Derived { for_type: "Result" },
            kind: ReadErrorKind::UnknownVariant8(7),
        })
    );
}

#[test]
fn vec_is_prefixed_with_u64_length() {
    assert_eq!(encode(&vec![1u16, 2]), vec![0, 0, 0, 0, 0, 0, 0, 2, 0, 1, 0, 2]);
    assert_eq!(encode(&Vec::<u8>::new()), vec![0; 8]);
    let bytes = [0, 0, 0, 0, 0, 0, 0, 3, 9, 8, 7, 6];
    assert_eq!(decode::<Vec<u8>>(&bytes), (Ok(vec![9, 8, 7]), 1));
}

#[test]
fn vec_errors() {
    assert_eq!(decode::<Vec<u8>>(&[0, 0, 0]).0, Err(eof("u64")));
    assert_eq!(decode::<Vec<u8>>(&[0, 0, 0, 0, 0, 0, 0, 2, 1]).0, Err(eof("u8")));
    assert_eq!(
        decode::<Vec<bool>>(&[0, 0, 0, 0, 0, 0, 0, 2, 1, 5]).0,
        Err(ReadError { context: ErrorContext::BuiltIn { for_type: "bool" }, kind: ReadErrorKind::UnknownVariant8(5) })
    );
}

#[test]
fn vec_of_zero_sized_values() {
    let bytes = encode(&vec![(), (), ()]);
    assert_eq!(bytes, vec![0, 0, 0, 0, 0, 0, 0, 3]);
    assert_eq!(decode::<Vec<()>>(&bytes).0, Ok(vec![(), (), ()]));
}

#[test]
fn string_is_utf8_prefixed_with_byte_length() {
    let s = String::from("hé");
    assert_eq!(encode(&s), vec![0, 0, 0, 0, 0, 0, 0, 3, b'h', 0xc3, 0xa9]);
    assert_eq!(decode::<String>(&encode(&s)).0, Ok(s));
}

#[test]
fn string_errors() {
    assert_eq!(
        decode::<String>(&[0, 0, 0, 0, 0, 0, 0, 2, 0xc3, 0x28]).0,
        Err(ReadError { context: ErrorContext::BuiltIn { for_type: "String" }, kind: ReadErrorKind::Utf8 })
    );
    assert_eq!(decode::<String>(&[0, 0, 0, 0, 0, 0, 0, 4, b'a']).0, Err(eof("String")));
}

#[test]
fn tuples_are_their_components_in_order() {
    assert_eq!(encode(&(1u8, true, 0x0203u16)), vec![1, 1, 2, 3]);
    assert_eq!(decode::<(u8, bool, u16)>(&[1, 0, 2, 3]).0, Ok((1, false, 0x0203)));
    assert_eq!(decode::<(u8,)>(&[4]).0, Ok((4,)));
    let twelve = (1u8, 2u8, 3u8, 4u8, 5u8, 6u8, 7u8, 8u8, 9u8, 10u8, 11u8, 12u8);
    assert_eq!(encode(&twelve), (1..=12).collect::<Vec<u8>>());
    assert_eq!(decode::<(u8, u8, u8, u8, u8, u8, u8, u8, u8, u8, u8, u8)>(&encode(&twelve)).0, Ok(twelve));
}

#[test]
fn tuple_errors_pass_through_unchanged() {
    assert_eq!(decode::<(u8, u16)>(&[1, 2]).0, Err(eof("u16")));
}

#[test]
fn arrays_have_no_length_prefix() {
    assert_eq!(encode(&[1u16, 2, 3]), vec![0, 1, 0, 2, 0, 3]);
    assert_eq!(decode::<[u8; 3]>(&[7, 8, 9, 10]), (Ok([7, 8, 9]), 1));
    assert_eq!(decode::<[u8; 3]>(&[7, 8]).0, Err(eof("u8")));
    assert_eq!(decode::<[u8; 0]>(&[]).0, Ok([]));
}

#[test]
fn ranges_are_start_then_end() {
    assert_eq!(encode(&(3u8..9)), vec![3, 9]);
    assert_eq!(decode::<std::ops::Range<u8>>(&[1, 2]).0, Ok(1..2));
    assert_eq!(
        decode::<std::ops::Range<u16>>(&[0, 1, 2]).0,
        Err(ReadError {
            context: ErrorContext::NamedField { name: "end", source: Box::new(ErrorContext::BuiltIn { for_type: "u16" }) },
            kind: ReadErrorKind::Io(IoErrorKind::UnexpectedEof),
        })
    );
    assert_eq!(encode(&(3u8..=9)), vec![3, 9]);
    assert_eq!(decode::<std::ops::RangeInclusive<u8>>(&[4, 5]).0, Ok(4..=5));
    assert_eq!(decode::<std::ops::RangeInclusive<u16>>(&[0]).0, Err(eof("u16")));
}

#[test]
fn uuid_is_its_sixteen_bytes() {
    let id = uuid::Uuid::from_bytes([7; 16]);
    assert_eq!(encode(&id), vec![7; 16]);
    assert_eq!(decode::<uuid::Uuid>(&[7; 16]).0, Ok(id));
    assert_eq!(
        decode::<uuid::Uuid>(&[1, 2]).0,
        Err(ReadError {
            context: ErrorContext::Via {
                source: Box::new(ErrorContext::UnnamedField { idx: 0, source: Box::new(ErrorContext::BuiltIn { for_type: "u8" }) }),
            },
            kind: ReadErrorKind::Io(IoErrorKind::UnexpectedEof),
        })
    );
}

#[test]
fn the_unbounded_range_takes_no_bytes() {
    assert_eq!(encode(&(..)), Vec::<u8>::new());
    let (r, left) = decode::<std::ops::RangeFull>(&[5]);
    assert_eq!(r, Ok(..));
    assert_eq!(left, 1);
}

#[test]
fn two_variant_enums_name_their_type() {
    let bytes = [1u8, 0, 9];
    let mut reader = Reader::new(&bytes);
    assert_eq!(async_proto::read_two_variants::<u8, u16>(&mut reader, "either :: Either"), Ok(Err(9)));
    let bytes = [2u8];
    let mut reader = Reader::new(&bytes);
    assert_eq!(
        async_proto::read_two_variants::<u8, u16>(&mut reader, "either :: Either"),
        Err(ReadError { context: ErrorContext::Derived { for_type: "either :: Either" }, kind: ReadErrorKind::UnknownVariant8(2) })
    );
    let mut sink = Vec::new();
    async_proto::write_variant_of_two(&mut sink, 0, &5u8);
    assert_eq!(sink, vec![0, 5]);
}
