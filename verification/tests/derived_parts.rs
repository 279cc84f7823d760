use async_proto::derived::{
    conversion_error, named_field_error, parse_error, read_as_string, read_bitflags_bits, read_never, read_via,
    unnamed_field_error, via_error,
};
use async_proto::{ErrorContext, IoErrorKind, ReadError, ReadErrorKind, Reader};

fn eof(for_type: &'static str) -> ReadError {
    ReadError { context: ErrorContext::BuiltIn { for_type }, kind: ReadErrorKind::Io(IoErrorKind::UnexpectedEof) }
}

#[test]
fn field_errors_name_the_field() {
    assert_eq!(
        unnamed_field_error(eof("u8"), 2),
        ReadError {
            context: ErrorContext::UnnamedField { idx: 2, source: Box::new(ErrorContext::BuiltIn { for_type: "u8" }) },
            kind: ReadErrorKind::Io(IoErrorKind::UnexpectedEof),
        }
    );
    assert_eq!(
        named_field_error(eof("u8"), "x"),
        ReadError {
            context: ErrorContext::NamedField { name: "x", source: Box::new(ErrorContext::BuiltIn { for_type: "u8" }) },
            kind: ReadErrorKind::Io(IoErrorKind::UnexpectedEof),
        }
    );
    assert_eq!(
        via_error(eof("u8")).context,
        ErrorContext::Via { source: Box::new(ErrorContext::BuiltIn { for_type: "u8" }) }
    );
    assert_eq!(
        read_never("Never"),
        ReadError { context: ErrorContext::Derived { for_type: "Never" }, kind: ReadErrorKind::ReadNever }
    );
}

#[test]
fn proxies_strings_and_bits() {
    let bytes = [0u8, 7];
    let mut reader = Reader::new(&bytes);
    assert_eq!(read_via::<u16>(&mut reader), Ok(7));
    let mut reader = Reader::new(&bytes[..1]);
    assert_eq!(
        read_via::<u16>(&mut reader),
        Err(ReadError {
            context: ErrorContext::Via { source: Box::new(ErrorContext::BuiltIn { for_type: "u16" }) },
            kind: ReadErrorKind::Io(IoErrorKind::UnexpectedEof),
        })
    );
    let mut reader = Reader::new(&bytes[..1]);
    assert_eq!(
        read_bitflags_bits::<u16>(&mut reader),
        Err(ReadError {
            context: ErrorContext::Bitflags { source: Box::new(ErrorContext::BuiltIn { for_type: "u16" }) },
            kind: ReadErrorKind::Io(IoErrorKind::UnexpectedEof),
        })
    );
    let text = [0u8, 0, 0, 0, 0, 0, 0, 2, b'o', b'k'];
    let mut reader = Reader::new(&text);
    assert_eq!(read_as_string(&mut reader), Ok(String::from("ok")));
    let mut reader = Reader::new(&text[..9]);
    assert_eq!(
        read_as_string(&mut reader),
        Err(ReadError {
            context: ErrorContext::AsString { source: Box::new(ErrorContext::BuiltIn { for_type: "String" }) },
            kind: ReadErrorKind::Io(IoErrorKind::UnexpectedEof),
        })
    );
    assert_eq!(
        conversion_error(ReadErrorKind::UnknownVariant8(0)),
        ReadError { context: ErrorContext::TryInto, kind: ReadErrorKind::UnknownVariant8(0) }
    );
    assert_eq!(
        parse_error(ReadErrorKind::Custom(String::from("bad"))),
        ReadError { context: ErrorContext::FromStr, kind: ReadErrorKind::Custom(String::from("bad")) }
    );
}
