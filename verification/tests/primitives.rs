use async_proto::{
    read_duration, write_duration, ErrorContext, F32Proxy, F64Proxy, IoErrorKind, Protocol, ReadError,
    ReadErrorKind, Reader,
};

fn encode<T: Protocol>(value: &T) -> Vec<u8> {
    let mut buf = Vec::new();
    value.write_sync(&mut buf).unwrap();
    buf
}

fn decode<T: Protocol>(bytes: &[u8]) -> (Result<T, ReadError>, usize) {
    let mut reader = Reader::new(bytes);
    let r = T::read_sync(&mut reader);
    (r, reader.remaining_len())
}

fn eof(for_type: &'static str) -> ReadError {
    ReadError {
        context: ErrorContext::BuiltIn { for_type },
        kind: ReadErrorKind::Io(IoErrorKind::UnexpectedEof),
    }
}

#[test]
fn unsigned_integers_are_big_endian() {
    assert_eq!(encode(&0xabu8), vec![0xab]);
    assert_eq!(encode(&0x1234u16), vec![0x12, 0x34]);
    assert_eq!(encode(&0x0102_0304u32), vec![1, 2, 3, 4]);
    assert_eq!(encode(&0x0102_0304_0506_0708u64), vec![1, 2, 3, 4, 5, 6, 7, 8]);
    assert_eq!(
        encode(&0x0102_0304_0506_0708_090a_0b0c_0d0e_0f10u128),
        (1..=16).collect::<Vec<u8>>()
    );
}

#[test]
fn signed_integers_use_twos_complement() {
    assert_eq!(encode(&-1i8), vec![0xff]);
    assert_eq!(encode(&-2i16), vec![0xff, 0xfe]);
    assert_eq!(encode(&-1i32), vec![0xff; 4]);
    assert_eq!(encode(&i64::MIN), vec![0x80, 0, 0, 0, 0, 0, 0, 0]);
    assert_eq!(encode(&-1i128), vec![0xff; 16]);
    assert_eq!(decode::<i16>(&[0x80, 0x00]).0, Ok(i16::MIN));
    assert_eq!(decode::<i32>(&[0xff, 0xff, 0xff, 0xfe]).0, Ok(-2));
}

#[test]
fn integers_round_trip() {
    for v in [0u64, 1, 255, 256, u64::MAX] {
        let bytes = encode(&v);
        assert_eq!(decode::<u64>(&bytes), (Ok(v), 0));
    }
    for v in [i128::MIN, -1, 0, 1, i128::MAX] {
        let bytes = encode(&v);
        assert_eq!(decode::<i128>(&bytes), (Ok(v), 0));
    }
}

#[test]
fn reading_leaves_the_rest_of_the_stream() {
    let (r, left) = decode::<u16>(&[0, 7, 1, 2, 3]);
    assert_eq!(r, Ok(7));
    assert_eq!(left, 3);
}

#[test]
fn short_input_is_unexpected_eof_of_the_type() {
    assert_eq!(decode::<u32>(&[1, 2, 3]).0, Err(eof("u32")));
    assert_eq!(decode::<i64>(&[]).0, Err(eof("i64")));
    assert_eq!(decode::<u8>(&[]).0, Err(eof("u8")));
}

#[test]
fn bool_is_one_byte_zero_or_one() {
    assert_eq!(encode(&false), vec![0]);
    assert_eq!(encode(&true), vec![1]);
    assert_eq!(decode::<bool>(&[1]).0, Ok(true));
    assert_eq!(decode::<bool>(&[0]).0, Ok(false));
    assert_eq!(
        decode::<bool>(&[2]).0,
        Err(ReadError {
            context: ErrorContext::BuiltIn { for_type: "bool" },
            kind: ReadErrorKind::UnknownVariant8(2),
        })
    );
    assert_eq!(decode::<bool>(&[]).0, Err(eof("u8")));
}

#[test]
fn unit_and_phantom_data_take_no_bytes() {
    assert_eq!(encode(&()), Vec::<u8>::new());
    assert_eq!(decode::<()>(&[5]), (Ok(()), 1));
    assert_eq!(encode(&std::marker::PhantomData::<u32>), Vec::<u8>::new());
    assert_eq!(decode::<std::marker::PhantomData<u32>>(&[]).0, Ok(std::marker::PhantomData));
}

#[test]
fn box_is_represented_like_its_contents() {
    assert_eq!(encode(&Box::new(0x0102u16)), vec![1, 2]);
    assert_eq!(decode::<Box<u16>>(&[1, 2]).0, Ok(Box::new(0x0102)));
}

#[test]
fn durations_are_seconds_then_nanoseconds() {
    let d = std::time::Duration::new(5, 7);
    let mut sink = Vec::new();
    assert_eq!(write_duration(&d, &mut sink), Ok(()));
    assert_eq!(sink, vec![0, 0, 0, 0, 0, 0, 0, 5, 0, 0, 0, 7]);
    let mut reader = Reader::new(&sink);
    assert_eq!(read_duration(&mut reader), Ok(d));
    let carried = [0u8, 0, 0, 0, 0, 0, 0, 1, 0x3b, 0x9a, 0xca, 0x01];
    let mut reader = Reader::new(&carried);
    assert_eq!(read_duration(&mut reader), Ok(std::time::Duration::new(2, 1)));
}

#[test]
fn duration_errors_are_reported_within_the_proxy_field() {
    let bytes = [0u8, 0, 0, 0, 0, 0, 0, 5, 0];
    let mut reader = Reader::new(&bytes);
    assert_eq!(
        read_duration(&mut reader),
        Err(ReadError {
            context: ErrorContext::Via {
                source: Box::new(ErrorContext::NamedField {
                    name: "subsec_nanos",
                    source: Box::new(ErrorContext::BuiltIn { for_type: "u32" }),
                }),
            },
            kind: ReadErrorKind::Io(IoErrorKind::UnexpectedEof),
        })
    );
}

#[test]
fn float_proxies_hold_big_endian_bytes() {
    let p = F32Proxy(1.5f32.to_be_bytes());
    assert_eq!(encode(&p), vec![0x3f, 0xc0, 0, 0]);
    let (r, left) = decode::<F64Proxy>(&2.0f64.to_be_bytes());
    assert_eq!(f64::from_be_bytes(r.unwrap().0), 2.0);
    assert_eq!(left, 0);
    let (r, _) = decode::<F32Proxy>(&[1, 2]);
    match r {
        Err(ReadError { context: ErrorContext::UnnamedField { idx: 0, .. }, kind }) => {
            assert_eq!(kind, ReadErrorKind::Io(IoErrorKind::UnexpectedEof))
        }
        _ => panic!("expected an error in the proxy's field"),
    }
}
