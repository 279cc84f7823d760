//! Values carried in WebSocket messages: each value travels in one binary message
//! holding its representation.
use vstd::prelude::*;
use vstd::utf8::encode_utf8;

use crate::error::{ErrorContext, ReadError, ReadErrorKind, WriteError, WsMessage};
use crate::protocol::Protocol;
use crate::stream::Reader;

verus! {

/// `e`, reported as an error in reading the value held by a WebSocket message.
pub open spec fn in_websocket(e: ReadError) -> ReadError {
    ReadError { context: ErrorContext::WebSocket { source: Box::new(e.context) }, kind: e.kind }
}

/// The context of the error for a message that is not binary: that of a typed
/// WebSocket stream, or that of the default implementation.
pub open spec fn message_kind_context(for_stream: bool) -> ErrorContext {
    if for_stream {
        ErrorContext::WebSocketStream
    } else {
        ErrorContext::DefaultImpl
    }
}

/// What reading a value from the received WebSocket message `packet` gives: for a
/// binary message, the value read from the front of its payload, with errors reported
/// within a `WebSocket` context; for any other message, a `MessageKind` error holding it.
pub open spec fn ws_read_outcome<T: Protocol>(packet: WsMessage, for_stream: bool, r: Result<T, ReadError>) -> bool {
    match packet {
        WsMessage::Binary(data) => match T::spec_decode(data@) {
            Ok((m, n)) => r matches Ok(v) && v.model() == m,
            Err(e) => r == Err::<T, ReadError>(in_websocket(e)),
        },
        _ => r == Err::<T, ReadError>(
            ReadError { context: message_kind_context(for_stream), kind: ReadErrorKind::MessageKind(packet) },
        ),
    }
}

/// What a stream of WebSocket messages gave when asked for the next one.
pub enum WsEvent {
    /// The stream ended.
    Ended,
    /// The stream reported an error of this kind.
    Failed(ReadErrorKind),
    /// The stream gave this message.
    Message(WsMessage),
}

/// The error of a WebSocket stream that ended before a value was read.
pub open spec fn ws_end_error() -> ReadError {
    ReadError { context: ErrorContext::DefaultImpl, kind: ReadErrorKind::EndOfStream }
}

/// Reads a value from what a WebSocket stream gave when asked for one message: an
/// `EndOfStream` error when it ended, its error when it failed (both in the context of
/// the default implementation), and otherwise the value read from the message.
pub fn read_ws_event<T: Protocol>(event: WsEvent) -> (r: Result<T, ReadError>)
    ensures
        match event {
            WsEvent::Ended => r == Err::<T, ReadError>(ws_end_error()),
            WsEvent::Failed(kind) => r == Err::<T, ReadError>(ReadError { context: ErrorContext::DefaultImpl, kind }),
            WsEvent::Message(packet) => ws_read_outcome::<T>(packet, false, r),
        },
{
    match event {
        WsEvent::Ended => Err(ReadError { context: ErrorContext::DefaultImpl, kind: ReadErrorKind::EndOfStream }),
        WsEvent::Failed(kind) => Err(ReadError { context: ErrorContext::DefaultImpl, kind }),
        WsEvent::Message(packet) => read_ws_message::<T>(packet, false),
    }
}

/// Reads a value from a received WebSocket message.
///
/// A message that is not binary is refused with a `MessageKind` error holding it. The
/// value is read from the front of the payload of a binary message (bytes after it are
/// ignored); errors in reading it are reported within a `WebSocket` context.
pub fn read_ws_message<T: Protocol>(packet: WsMessage, for_stream: bool) -> (r: Result<T, ReadError>)
    ensures
        ws_read_outcome::<T>(packet, for_stream, r),
{
    match packet {
        WsMessage::Binary(data) => {
            let mut reader = Reader::new(data.as_slice());
            match T::read_sync(&mut reader) {
                Ok(v) => Ok(v),
                Err(ReadError { context, kind }) => Err(
                    ReadError { context: ErrorContext::WebSocket { source: Box::new(context) }, kind },
                ),
            }
        },
        packet => {
            let context = if for_stream {
                ErrorContext::WebSocketStream
            } else {
                ErrorContext::DefaultImpl
            };
            Err(ReadError { context, kind: ReadErrorKind::MessageKind(packet) })
        },
    }
}

/// The binary WebSocket message that carries `value`: its representation is the payload.
pub fn write_ws_message<T: Protocol>(value: &T) -> (r: Result<WsMessage, WriteError>)
    ensures
        r matches Ok(WsMessage::Binary(data)) && data@ == T::spec_encode(value.model()),
        T::wf_model(value.model()),
{
    let mut buf: Vec<u8> = Vec::new();
    let _ = value.write_sync(&mut buf);
    assert(buf@ =~= T::spec_encode(value.model()));
    Ok(WsMessage::Binary(buf))
}

/// A value sent in a WebSocket message reads back from it: the payload of the binary
/// message that `write_ws_message` makes of a value (whose model is well formed) reads,
/// by `read_ws_message`, as that model, using the whole payload.
pub proof fn law_message_round_trip<T: Protocol>(m: T::Model)
    requires
        T::wf_model(m),
    ensures
        T::spec_decode(T::spec_encode(m)) == Ok::<(T::Model, nat), ReadError>((m, T::spec_encode(m).len())),
{
    T::lemma_encode_decode(m, seq![]);
    assert(T::spec_encode(m) + seq![] =~= T::spec_encode(m));
}

/// What to do with a message received from a `warp` WebSocket while waiting for a value.
pub enum WarpStep<T> {
    /// The message is a ping or a pong: skip it and wait for the next one.
    Skip,
    /// The outcome of reading a value from the message.
    Done(Result<T, ReadError>),
}

/// What to do with the message `packet` received from a `warp` WebSocket: skip a ping or
/// a pong, end on a close message, and otherwise read a value from the front of its
/// payload (the text's UTF-8 bytes for a text message), with errors reported as they are.
pub open spec fn warp_outcome<T: Protocol>(packet: WsMessage, r: WarpStep<T>) -> bool {
    match packet {
        WsMessage::Ping(_) | WsMessage::Pong(_) => r is Skip,
        WsMessage::Close(_) => r == WarpStep::<T>::Done(
            Err(ReadError { context: ErrorContext::DefaultImpl, kind: ReadErrorKind::EndOfStream }),
        ),
        WsMessage::Text(text) => match T::spec_decode(encode_utf8(text@)) {
            Ok((m, n)) => r matches WarpStep::Done(Ok(v)) && v.model() == m,
            Err(e) => r == WarpStep::<T>::Done(Err(e)),
        },
        WsMessage::Binary(data) | WsMessage::Frame(data) => match T::spec_decode(data@) {
            Ok((m, n)) => r matches WarpStep::Done(Ok(v)) && v.model() == m,
            Err(e) => r == WarpStep::<T>::Done(Err(e)),
        },
    }
}

/// Decides on a message received from a `warp` WebSocket: pings and pongs are skipped, a
/// close message ends the stream, and from any other message a value is read from the
/// front of its payload (the text's UTF-8 bytes for a text message), with errors in
/// reading it reported as they are.
pub fn read_warp_message<T: Protocol>(packet: WsMessage) -> (r: WarpStep<T>)
    ensures
        warp_outcome::<T>(packet, r),
{
    match packet {
        WsMessage::Ping(_) | WsMessage::Pong(_) => WarpStep::Skip,
        WsMessage::Close(_) => WarpStep::Done(
            Err(ReadError { context: ErrorContext::DefaultImpl, kind: ReadErrorKind::EndOfStream }),
        ),
        WsMessage::Text(text) => {
            let mut reader = Reader::new(text.as_str().as_bytes());
            WarpStep::Done(T::read_sync(&mut reader))
        },
        WsMessage::Binary(data) | WsMessage::Frame(data) => {
            let mut reader = Reader::new(data.as_slice());
            WarpStep::Done(T::read_sync(&mut reader))
        },
    }
}

/// Decides on what a `warp` WebSocket stream gave when asked for the next message: an
/// `EndOfStream` error when it ended, its error when it failed (both in the context of
/// the default implementation), and otherwise what `read_warp_message` decides.
pub fn read_warp_event<T: Protocol>(event: WsEvent) -> (r: WarpStep<T>)
    ensures
        match event {
            WsEvent::Ended => r == WarpStep::<T>::Done(Err(ws_end_error())),
            WsEvent::Failed(kind) => r == WarpStep::<T>::Done(Err(ReadError { context: ErrorContext::DefaultImpl, kind })),
            WsEvent::Message(packet) => warp_outcome::<T>(packet, r),
        },
{
    match event {
        WsEvent::Ended => WarpStep::Done(Err(ReadError { context: ErrorContext::DefaultImpl, kind: ReadErrorKind::EndOfStream })),
        WsEvent::Failed(kind) => WarpStep::Done(Err(ReadError { context: ErrorContext::DefaultImpl, kind })),
        WsEvent::Message(packet) => read_warp_message::<T>(packet),
    }
}

} // verus!
