use async_proto::{
    discriminant_width, handle_stream_event, read_discriminant, read_warp_message, read_ws_message, try_read_buffered,
    write_discriminant, write_ws_message, DiscriminantWidth, ErrorContext, IoErrorKind, ReadError, ReadErrorKind, Reader,
    StreamEvent, StreamStep, WarpStep, WriteErrorKind, WsEvent, WsMessage, read_ws_event, read_warp_event,
};

#[test]
fn try_read_removes_a_complete_value() {
    let mut buf = vec![0, 5, 9];
    assert_eq!(try_read_buffered::<u16>(&mut buf), Ok(Some(5)));
    assert_eq!(buf, vec![9]);
}

#[test]
fn try_read_keeps_an_incomplete_value() {
    let mut buf = vec![0, 0, 0, 0, 0, 0, 0, 2, 1];
    assert_eq!(try_read_buffered::<Vec<u8>>(&mut buf), Ok(None));
    assert_eq!(buf.len(), 9);
    buf.push(2);
    assert_eq!(try_read_buffered::<Vec<u8>>(&mut buf), Ok(Some(vec![1, 2])));
    assert!(buf.is_empty());
}

#[test]
fn try_read_reports_other_errors() {
    let mut buf = vec![3];
    assert_eq!(
        try_read_buffered::<bool>(&mut buf),
        Err(ReadError { context: ErrorContext::BuiltIn { for_type: "bool" }, kind: ReadErrorKind::UnknownVariant8(3) })
    );
    assert_eq!(buf, vec![3]);
}

#[test]
fn stream_events() {
    let mut buf = vec![1];
    assert!(matches!(handle_stream_event(&mut buf, StreamEvent::Data(vec![2, 3])), StreamStep::Retry));
    assert_eq!(buf, vec![1, 2, 3]);
    assert!(matches!(handle_stream_event(&mut buf, StreamEvent::Failed(IoErrorKind::WouldBlock)), StreamStep::Pending));
    assert_eq!(buf, vec![1, 2, 3]);
    match handle_stream_event(&mut buf, StreamEvent::Closed) {
        StreamStep::Fail(e) => assert_eq!(e, ReadError { context: ErrorContext::DefaultImpl, kind: ReadErrorKind::EndOfStream }),
        _ => panic!("expected an error"),
    }
    match handle_stream_event(&mut buf, StreamEvent::Failed(IoErrorKind::ConnectionReset)) {
        StreamStep::Fail(e) => assert_eq!(e, ReadError { context: ErrorContext::DefaultImpl, kind: ReadErrorKind::Io(IoErrorKind::ConnectionReset) }),
        _ => panic!("expected an error"),
    }
}

#[test]
fn discriminant_widths() {
    assert_eq!(discriminant_width(1), DiscriminantWidth::U8);
    assert_eq!(discriminant_width(256), DiscriminantWidth::U8);
    assert_eq!(discriminant_width(257), DiscriminantWidth::U16);
    assert_eq!(discriminant_width(65_536), DiscriminantWidth::U16);
    assert_eq!(discriminant_width(65_537), DiscriminantWidth::U32);
    assert_eq!(discriminant_width(4_294_967_296), DiscriminantWidth::U32);
    assert_eq!(discriminant_width(4_294_967_297), DiscriminantWidth::U64);
}

#[test]
fn discriminants_round_trip() {
    let mut buf = Vec::new();
    write_discriminant(&mut buf, 300, 299);
    assert_eq!(buf, vec![0x01, 0x2b]);
    let mut reader = Reader::new(&buf);
    assert_eq!(read_discriminant(&mut reader, 300, "E"), Ok(299));
    let mut reader = Reader::new(&[0x01, 0x2c]);
    assert_eq!(
        read_discriminant(&mut reader, 300, "E"),
        Err(ReadError { context: ErrorContext::Derived { for_type: "E" }, kind: ReadErrorKind::UnknownVariant16(300) })
    );
}

#[test]
fn websocket_messages() {
    let msg = write_ws_message(&0x0102u16).unwrap();
    assert_eq!(msg, WsMessage::Binary(vec![1, 2]));
    assert_eq!(read_ws_message::<u16>(msg, false), Ok(0x0102));
    assert_eq!(
        read_ws_message::<u16>(WsMessage::Text(String::from("hi")), false),
        Err(ReadError { context: ErrorContext::DefaultImpl, kind: ReadErrorKind::MessageKind(WsMessage::Text(String::from("hi"))) })
    );
    assert_eq!(
        read_ws_message::<u16>(WsMessage::Ping(vec![]), true),
        Err(ReadError { context: ErrorContext::WebSocketStream, kind: ReadErrorKind::MessageKind(WsMessage::Ping(vec![])) })
    );
    assert_eq!(
        read_ws_message::<u16>(WsMessage::Binary(vec![1]), false),
        Err(ReadError {
            context: ErrorContext::WebSocket { source: Box::new(ErrorContext::BuiltIn { for_type: "u16" }) },
            kind: ReadErrorKind::Io(IoErrorKind::UnexpectedEof),
        })
    );
}

#[test]
fn io_error_kinds() {
    assert_eq!(ReadErrorKind::EndOfStream.io_kind(), IoErrorKind::UnexpectedEof);
    assert_eq!(ReadErrorKind::BufSize.io_kind(), IoErrorKind::InvalidData);
    assert_eq!(ReadErrorKind::UnknownVariant8(3).io_kind(), IoErrorKind::InvalidData);
    assert_eq!(ReadErrorKind::ReadNever.io_kind(), IoErrorKind::InvalidInput);
    assert_eq!(ReadErrorKind::TryReserve.io_kind(), IoErrorKind::OutOfMemory);
    assert_eq!(ReadErrorKind::Custom(String::from("x")).io_kind(), IoErrorKind::Other);
    assert_eq!(ReadErrorKind::Io(IoErrorKind::TimedOut).io_kind(), IoErrorKind::TimedOut);
    assert_eq!(WriteErrorKind::MaxLen { len: 2, max_len: 1 }.io_kind(), IoErrorKind::InvalidData);
    assert_eq!(WriteErrorKind::Custom(String::from("x")).io_kind(), IoErrorKind::Other);
    assert_eq!(WriteErrorKind::Io(IoErrorKind::BrokenPipe).io_kind(), IoErrorKind::BrokenPipe);
}

#[test]
fn warp_messages_skip_pings_and_end_at_close() {
    assert!(matches!(read_warp_message::<u8>(WsMessage::Ping(vec![1])), WarpStep::Skip));
    assert!(matches!(read_warp_message::<u8>(WsMessage::Pong(vec![])), WarpStep::Skip));
    match read_warp_message::<u8>(WsMessage::Close(None)) {
        WarpStep::Done(r) => assert_eq!(
            r,
            Err(ReadError { context: ErrorContext::DefaultImpl, kind: ReadErrorKind::EndOfStream })
        ),
        WarpStep::Skip => panic!("a close message was skipped"),
    }
    match read_warp_message::<u16>(WsMessage::Binary(vec![1, 2, 3])) {
        WarpStep::Done(r) => assert_eq!(r, Ok(258)),
        WarpStep::Skip => panic!("a binary message was skipped"),
    }
    match read_warp_message::<u8>(WsMessage::Text(String::from("A"))) {
        WarpStep::Done(r) => assert_eq!(r, Ok(65)),
        WarpStep::Skip => panic!("a text message was skipped"),
    }
    match read_warp_message::<u16>(WsMessage::Binary(vec![1])) {
        WarpStep::Done(r) => assert_eq!(
            r,
            Err(ReadError {
                context: ErrorContext::BuiltIn { for_type: "u16" },
                kind: ReadErrorKind::Io(IoErrorKind::UnexpectedEof),
            })
        ),
        WarpStep::Skip => panic!("a binary message was skipped"),
    }
}

#[test]
fn ws_events_decide_the_read() {
    assert_eq!(
        read_ws_event::<u8>(WsEvent::Ended),
        Err(ReadError { context: ErrorContext::DefaultImpl, kind: ReadErrorKind::EndOfStream })
    );
    assert_eq!(
        read_ws_event::<u8>(WsEvent::Failed(ReadErrorKind::Custom(String::from("reset")))),
        Err(ReadError { context: ErrorContext::DefaultImpl, kind: ReadErrorKind::Custom(String::from("reset")) })
    );
    assert_eq!(read_ws_event::<u8>(WsEvent::Message(WsMessage::Binary(vec![5]))), Ok(5));
    assert!(matches!(read_warp_event::<u8>(WsEvent::Message(WsMessage::Ping(vec![]))), WarpStep::Skip));
    match read_warp_event::<u8>(WsEvent::Ended) {
        WarpStep::Done(r) => {
            assert_eq!(r, Err(ReadError { context: ErrorContext::DefaultImpl, kind: ReadErrorKind::EndOfStream }))
        },
        WarpStep::Skip => panic!("skipped the end of the stream"),
    }
    match read_warp_event::<u8>(WsEvent::Failed(ReadErrorKind::Io(IoErrorKind::ConnectionReset))) {
        WarpStep::Done(r) => assert_eq!(
            r,
            Err(ReadError { context: ErrorContext::DefaultImpl, kind: ReadErrorKind::Io(IoErrorKind::ConnectionReset) })
        ),
        WarpStep::Skip => panic!("skipped an error"),
    }
}
