use async_proto::{
    read_bit_vec, read_decimal, write_bit_vec, write_decimal, Bits, ErrorContext, IoErrorKind, Protocol, ReadError,
    ReadErrorKind, Reader,
};
use bytesize::ByteSize;
use rust_decimal::Decimal;

#[test]
fn byte_size_is_its_byte_count() {
    let mut sink = Vec::new();
    ByteSize::b(258).write_sync(&mut sink).unwrap();
    assert_eq!(sink, vec![0, 0, 0, 0, 0, 0, 1, 2]);
    let mut reader = Reader::new(&sink);
    assert_eq!(ByteSize::read_sync(&mut reader), Ok(ByteSize::b(258)));
    let mut reader = Reader::new(&sink[..3]);
    assert_eq!(
        ByteSize::read_sync(&mut reader),
        Err(ReadError {
            context: ErrorContext::UnnamedField { idx: 0, source: Box::new(ErrorContext::BuiltIn { for_type: "u64" }) },
            kind: ReadErrorKind::Io(IoErrorKind::UnexpectedEof),
        })
    );
}

#[test]
fn decimal_is_its_serialized_bytes() {
    let d = Decimal::new(-12345, 2);
    let mut sink = Vec::new();
    assert_eq!(write_decimal(&d, &mut sink), Ok(()));
    assert_eq!(sink, d.serialize().to_vec());
    let mut reader = Reader::new(&sink);
    assert_eq!(read_decimal(&mut reader), Ok(d));
    assert_eq!(reader.remaining_len(), 0);
}

#[test]
fn decimal_reading_normalizes_the_flags() {
    let mut bytes = Decimal::new(7, 1).serialize();
    bytes[0] = 0xff;
    let mut reader = Reader::new(&bytes);
    let d = read_decimal(&mut reader).unwrap();
    assert_eq!(d, Decimal::new(7, 1));
    assert_eq!(d.serialize()[0], 0);
}

#[test]
fn decimal_errors_are_reported_within_the_proxy() {
    let bytes = [0u8; 5];
    let mut reader = Reader::new(&bytes);
    assert_eq!(
        read_decimal(&mut reader),
        Err(ReadError {
            context: ErrorContext::Via {
                source: Box::new(ErrorContext::UnnamedField {
                    idx: 0,
                    source: Box::new(ErrorContext::BuiltIn { for_type: "u8" }),
                }),
            },
            kind: ReadErrorKind::Io(IoErrorKind::UnexpectedEof),
        })
    );
}

#[test]
fn object_id_is_a_discriminant_then_the_digest() {
    let id = gix_hash::ObjectId::from([7u8; 20]);
    let mut sink = Vec::new();
    id.write_sync(&mut sink).unwrap();
    let mut expected = vec![0u8];
    expected.extend_from_slice(&[7u8; 20]);
    assert_eq!(sink, expected);
    let mut reader = Reader::new(&sink);
    assert_eq!(gix_hash::ObjectId::read_sync(&mut reader), Ok(id));
    let mut wrong = sink.clone();
    wrong[0] = 1;
    let mut reader = Reader::new(&wrong);
    assert_eq!(
        gix_hash::ObjectId::read_sync(&mut reader),
        Err(ReadError {
            context: ErrorContext::Derived { for_type: "gix_hash :: ObjectId" },
            kind: ReadErrorKind::UnknownVariant8(1),
        })
    );
    let mut reader = Reader::new(&sink[..5]);
    assert_eq!(
        gix_hash::ObjectId::read_sync(&mut reader),
        Err(ReadError {
            context: ErrorContext::UnnamedField { idx: 0, source: Box::new(ErrorContext::BuiltIn { for_type: "u8" }) },
            kind: ReadErrorKind::Io(IoErrorKind::UnexpectedEof),
        })
    );
}

#[test]
fn git_oid_is_its_twenty_bytes() {
    let id = git2::Oid::from_bytes(&[9u8; 20]).unwrap();
    let mut sink = Vec::new();
    id.write_sync(&mut sink).unwrap();
    assert_eq!(sink, vec![9u8; 20]);
    let mut reader = Reader::new(&sink);
    assert_eq!(git2::Oid::read_sync(&mut reader), Ok(id));
    let mut reader = Reader::new(&sink[..19]);
    assert_eq!(
        git2::Oid::read_sync(&mut reader),
        Err(ReadError {
            context: ErrorContext::BuiltIn { for_type: "git2::Oid" },
            kind: ReadErrorKind::Io(IoErrorKind::UnexpectedEof),
        })
    );
    assert_eq!(reader.remaining_len(), 19);
}

#[test]
fn bit_vectors_are_a_bit_count_then_bytes() {
    let mut bits = bitvec::vec::BitVec::<u8, bitvec::order::Lsb0>::from_vec(vec![0b1111_0101, 0b11]);
    bits.truncate(10);
    let mut sink = Vec::new();
    assert_eq!(write_bit_vec(&Bits(bits.clone()), &mut sink, 255), Ok(()));
    assert_eq!(sink, vec![10, 0b1111_0101, 0b11]);
    let mut reader = Reader::new(&sink);
    let read = read_bit_vec(&mut reader, 255).unwrap();
    assert_eq!(read.0, bits);
    assert_eq!(reader.remaining_len(), 0);
    let mut reader = Reader::new(&sink[..2]);
    assert_eq!(
        read_bit_vec(&mut reader, 255).err(),
        Some(ReadError {
            context: ErrorContext::BuiltIn { for_type: "bitvec::vec::BitVec<u8, Lsb0>" },
            kind: ReadErrorKind::Io(IoErrorKind::UnexpectedEof),
        })
    );
    let mut sink = Vec::new();
    assert_eq!(
        write_bit_vec(&Bits(bits), &mut sink, 9),
        Err(async_proto::WriteError {
            context: ErrorContext::BuiltIn { for_type: "bitvec::vec::BitVec<u8, Lsb0>" },
            kind: async_proto::WriteErrorKind::MaxLen { len: 10, max_len: 9 },
        })
    );
    assert!(sink.is_empty());
}

#[test]
fn nbt_blob_is_compressed_and_length_prefixed() {
    let mut blob = nbt::Blob::new();
    blob.insert("health", 100i8).unwrap();
    let mut sink = Vec::new();
    assert_eq!(async_proto::write_blob(&blob, &mut sink, u64::MAX), Ok(()));
    let len = u64::from_be_bytes(sink[..8].try_into().unwrap()) as usize;
    assert_eq!(sink.len(), 8 + len);
    let mut reader = Reader::new(&sink);
    assert_eq!(async_proto::read_blob(&mut reader, u64::MAX), Ok(blob.clone()));
    assert_eq!(reader.remaining_len(), 0);
    let garbage = [0u8, 0, 0, 0, 0, 0, 0, 2, 1, 2];
    let mut reader = Reader::new(&garbage);
    match async_proto::read_blob(&mut reader, u64::MAX) {
        Err(ReadError { context: ErrorContext::BuiltIn { for_type: "nbt::Blob" }, kind: ReadErrorKind::Custom(_) }) => {}
        other => panic!("unexpected {:?}", other),
    }
    let mut sink = Vec::new();
    match async_proto::write_blob(&blob, &mut sink, 3) {
        Err(async_proto::WriteError { kind: async_proto::WriteErrorKind::MaxLen { max_len: 3, .. }, .. }) => {}
        other => panic!("unexpected {:?}", other),
    }
    assert!(sink.is_empty());
}

#[test]
fn dates_are_day_numbers_and_offsets_seconds() {
    let date = chrono::NaiveDate::from_ymd_opt(1, 1, 2).unwrap();
    let mut sink = Vec::new();
    date.write_sync(&mut sink).unwrap();
    assert_eq!(sink, vec![0, 0, 0, 2]);
    let mut reader = Reader::new(&sink);
    assert_eq!(chrono::NaiveDate::read_sync(&mut reader), Ok(date));
    let far = i32::MAX.to_be_bytes();
    let mut reader = Reader::new(&far);
    assert_eq!(
        chrono::NaiveDate::read_sync(&mut reader),
        Err(ReadError { context: ErrorContext::TryInto, kind: ReadErrorKind::Custom(String::from("out-of-range date")) })
    );
    let offset = chrono::FixedOffset::east_opt(-3600).unwrap();
    let mut sink = Vec::new();
    offset.write_sync(&mut sink).unwrap();
    assert_eq!(sink, (-3600i32).to_be_bytes().to_vec());
    let mut reader = Reader::new(&sink);
    assert_eq!(chrono::FixedOffset::read_sync(&mut reader), Ok(offset));
    let day = 86_400i32.to_be_bytes();
    let mut reader = Reader::new(&day);
    assert_eq!(
        chrono::FixedOffset::read_sync(&mut reader),
        Err(ReadError {
            context: ErrorContext::TryInto,
            kind: ReadErrorKind::Custom(String::from("FixedOffset::east out of bounds")),
        })
    );
    let mut reader = Reader::new(&day[..2]);
    assert_eq!(
        chrono::FixedOffset::read_sync(&mut reader),
        Err(ReadError {
            context: ErrorContext::Via {
                source: Box::new(ErrorContext::NamedField {
                    name: "east",
                    source: Box::new(ErrorContext::BuiltIn { for_type: "i32" }),
                }),
            },
            kind: ReadErrorKind::Io(IoErrorKind::UnexpectedEof),
        })
    );
    let mut sink = Vec::new();
    chrono::Utc.write_sync(&mut sink).unwrap();
    assert!(sink.is_empty());
}

#[test]
fn versions_are_their_fields_in_order() {
    let version = semver::Version::parse("1.2.3-alpha.1+build5").unwrap();
    let mut sink = Vec::new();
    version.write_sync(&mut sink).unwrap();
    let mut expected = Vec::new();
    for n in [1u64, 2, 3] {
        expected.extend_from_slice(&n.to_be_bytes());
    }
    expected.extend_from_slice(&7u64.to_be_bytes());
    expected.extend_from_slice(b"alpha.1");
    expected.extend_from_slice(&6u64.to_be_bytes());
    expected.extend_from_slice(b"build5");
    assert_eq!(sink, expected);
    let mut reader = Reader::new(&sink);
    assert_eq!(semver::Version::read_sync(&mut reader), Ok(version));
}

#[test]
fn bad_identifiers_are_refused_with_the_parser_message() {
    let mut bytes = Vec::new();
    for n in [1u64, 2, 3] {
        bytes.extend_from_slice(&n.to_be_bytes());
    }
    bytes.extend_from_slice(&2u64.to_be_bytes());
    bytes.extend_from_slice(b"01");
    let mut reader = Reader::new(&bytes);
    let message = semver::Prerelease::new("01").unwrap_err().to_string();
    assert_eq!(
        semver::Version::read_sync(&mut reader),
        Err(ReadError {
            context: ErrorContext::NamedField { name: "pre", source: Box::new(ErrorContext::TryInto) },
            kind: ReadErrorKind::Custom(message),
        })
    );
    let mut reader = Reader::new(&bytes[..30]);
    assert_eq!(
        semver::Version::read_sync(&mut reader),
        Err(ReadError {
            context: ErrorContext::NamedField {
                name: "pre",
                source: Box::new(ErrorContext::Via {
                    source: Box::new(ErrorContext::UnnamedField {
                        idx: 0,
                        source: Box::new(ErrorContext::BuiltIn { for_type: "u64" }),
                    }),
                }),
            },
            kind: ReadErrorKind::Io(IoErrorKind::UnexpectedEof),
        })
    );
}

#[test]
fn decimal_reading_rounds_a_scale_above_28() {
    let mut bytes = [0u8; 16];
    bytes[2] = 29;
    bytes[4] = 15;
    let mut sink = Vec::new();
    for b in bytes {
        sink.push(b);
    }
    let mut reader = Reader::new(&sink);
    let d = read_decimal(&mut reader).unwrap();
    let mut expected = [0u8; 16];
    expected[2] = 28;
    expected[4] = 2;
    assert_eq!(d.serialize(), expected);
    bytes[2] = 30;
    bytes[4] = 107;
    let mut reader = Reader::new(&bytes);
    let d = read_decimal(&mut reader).unwrap();
    expected[4] = 2;
    assert_eq!(d.serialize(), expected);
}

#[test]
fn decimals_are_values_of_compound_types() {
    let v = vec![Decimal::new(-12345, 2), Decimal::new(7, 0)];
    let mut sink = Vec::new();
    v.write_sync(&mut sink).unwrap();
    assert_eq!(sink.len(), 8 + 32);
    let mut reader = Reader::new(&sink);
    assert_eq!(Vec::<Decimal>::read_sync(&mut reader), Ok(v));
    let mut sink = Vec::new();
    Some(Decimal::new(5, 1)).write_sync(&mut sink).unwrap();
    let mut reader = Reader::new(&sink);
    assert_eq!(Option::<Decimal>::read_sync(&mut reader), Ok(Some(Decimal::new(5, 1))));
}

#[test]
fn dates_range_from_min_to_max() {
    for (days, ok) in [(-95_746_129i32, true), (-95_746_130, false), (95_745_399, true), (95_745_400, false)] {
        let bytes = days.to_be_bytes();
        let mut reader = Reader::new(&bytes);
        assert_eq!(chrono::NaiveDate::read_sync(&mut reader).is_ok(), ok, "{}", days);
    }
    let mut sink = Vec::new();
    chrono::NaiveDate::MIN.write_sync(&mut sink).unwrap();
    chrono::NaiveDate::MAX.write_sync(&mut sink).unwrap();
    assert_eq!(sink, [(-95_746_129i32).to_be_bytes(), 95_745_399i32.to_be_bytes()].concat());
}
