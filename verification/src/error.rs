//! Error types for reading and writing values, and how they map onto I/O error kinds.
use vstd::prelude::*;

verus! {

/// The kind of an I/O error, as reported by a byte stream or sink.
///
/// The variants mirror the kinds of `std::io::ErrorKind` that a stream can report.
#[derive(Clone, Copy, Debug, PartialEq, Eq, Structural)]
pub enum IoErrorKind {
    NotFound,
    PermissionDenied,
    ConnectionRefused,
    ConnectionReset,
    ConnectionAborted,
    NotConnected,
    AddrInUse,
    AddrNotAvailable,
    BrokenPipe,
    AlreadyExists,
    WouldBlock,
    InvalidInput,
    InvalidData,
    TimedOut,
    WriteZero,
    Interrupted,
    Unsupported,
    UnexpectedEof,
    OutOfMemory,
    Other,
}

/// The close frame of a WebSocket `Close` message.
#[derive(Debug, PartialEq, Eq)]
pub struct WsCloseFrame {
    /// The status code.
    pub code: u16,
    /// The reason given for closing.
    pub reason: String,
}

/// A WebSocket message, as received from or sent to a WebSocket connection.
#[derive(Debug, PartialEq, Eq)]
pub enum WsMessage {
    /// A text message.
    Text(String),
    /// A binary message.
    Binary(Vec<u8>),
    /// A ping with its payload.
    Ping(Vec<u8>),
    /// A pong with its payload.
    Pong(Vec<u8>),
    /// A close message, with its close frame if any.
    Close(Option<WsCloseFrame>),
    /// A raw frame with its payload.
    Frame(Vec<u8>),
}

/// Provides additional information about the origin of an error.
#[derive(Debug, PartialEq, Eq)]
pub enum ErrorContext {
    /// An error context you can use when manually implementing `Protocol`.
    Custom(String),
    /// The error was produced by a `Protocol` implementation defined in this crate.
    BuiltIn {
        /// The name of the type whose `Protocol` implementation produced the error.
        for_type: &'static str,
    },
    /// The error occurred while reading/writing a WebSocket message.
    WebSocket {
        /// The context of the error returned from the message's `Protocol` implementation.
        source: Box<ErrorContext>,
    },
    /// The error was produced by a sink returned from a typed WebSocket connection.
    WebSocketSink,
    /// The error was produced by a stream returned from a typed WebSocket connection.
    WebSocketStream,
    /// The error was produced by the default implementation of a `Protocol` trait method.
    DefaultImpl,
    /// The error was produced by a `Protocol` implementation with the derived representation.
    Derived {
        /// The name of the type whose `Protocol` implementation produced the error.
        for_type: &'static str,
    },
    /// The error occurred while reading/writing the discriminant of an enum.
    EnumDiscrim {
        /// The context of the error returned from the discriminant type's `Protocol` implementation.
        source: Box<ErrorContext>,
    },
    /// The error occurred while reading/writing a field of a tuple, tuple struct, or tuple enum variant.
    UnnamedField {
        /// The position of the field, starting at 0.
        idx: usize,
        /// The context of the error returned from the field's `Protocol` implementation.
        source: Box<ErrorContext>,
    },
    /// The error occurred while reading/writing a field of a struct or struct enum variant.
    NamedField {
        /// The name of the field.
        name: &'static str,
        /// The context of the error returned from the field's `Protocol` implementation.
        source: Box<ErrorContext>,
    },
    /// The error occurred in the `FromStr` implementation of a type represented as a string.
    FromStr,
    /// The error occurred while reading/writing the string representing a type represented as a string.
    AsString {
        /// The context of the error returned from `String`'s `Protocol` implementation.
        source: Box<ErrorContext>,
    },
    /// The error occurred while converting from a proxy type.
    TryInto,
    /// The error occurred while reading/writing a proxy type representing another type.
    Via {
        /// The context of the error returned from the proxy type's `Protocol` implementation.
        source: Box<ErrorContext>,
    },
    /// The error occurred while reading/writing the bits of a flags type.
    Bitflags {
        /// The context of the error returned from the bits type's `Protocol` implementation.
        source: Box<ErrorContext>,
    },
}

/// Specifies what went wrong while reading (receiving) a value.
#[derive(Debug, PartialEq, Eq)]
pub enum ReadErrorKind {
    /// Received a buffer with more than `usize::MAX` elements.
    BufSize,
    /// An error variant you can use when manually implementing `Protocol`.
    Custom(String),
    /// The end of the stream was encountered before a complete value was read.
    ///
    /// Note that this error condition may also be represented as a [`ReadErrorKind::Io`]
    /// with kind [`IoErrorKind::UnexpectedEof`].
    EndOfStream,
    /// Received an infinite or NaN number.
    FloatNotFinite,
    /// A received length exceeds the specified maximum length.
    MaxLen { len: u64, max_len: u64 },
    /// Attempted to read an empty type.
    ReadNever,
    /// Allocating memory for a received value failed.
    TryReserve,
    /// An unknown enum variant with a one-byte discriminant.
    UnknownVariant8(u8),
    /// An unknown enum variant with a two-byte discriminant.
    UnknownVariant16(u16),
    /// An unknown enum variant with a four-byte discriminant.
    UnknownVariant32(u32),
    /// An unknown enum variant with an eight-byte discriminant.
    UnknownVariant64(u64),
    /// An unknown enum variant with a sixteen-byte discriminant.
    UnknownVariant128(u128),
    /// The underlying stream reported an error.
    Io(IoErrorKind),
    /// A received string was not valid UTF-8.
    Utf8,
    /// Received a non-`Binary` WebSocket message (e.g. `Text` or `Ping`).
    MessageKind(WsMessage),
}

/// The error returned from reading a value.
#[derive(Debug, PartialEq, Eq)]
pub struct ReadError {
    /// Where it went wrong.
    pub context: ErrorContext,
    /// What went wrong.
    pub kind: ReadErrorKind,
}

/// Specifies what went wrong while writing (sending) a value.
#[derive(Debug, PartialEq, Eq)]
pub enum WriteErrorKind {
    /// Tried to send a buffer with more than `u64::MAX` elements.
    BufSize,
    /// An error variant you can use when manually implementing `Protocol`.
    Custom(String),
    /// The underlying sink reported an error.
    Io(IoErrorKind),
    /// Attempted to write a length exceeding the specified maximum length.
    MaxLen { len: u64, max_len: u64 },
}

/// The error returned from writing a value.
#[derive(Debug, PartialEq, Eq)]
pub struct WriteError {
    /// Where it went wrong.
    pub context: ErrorContext,
    /// What went wrong.
    pub kind: WriteErrorKind,
}

/// The error a built-in implementation reports when its input ends early.
pub open spec fn eof_error(for_type: &'static str) -> ReadError {
    ReadError {
        context: ErrorContext::BuiltIn { for_type },
        kind: ReadErrorKind::Io(IoErrorKind::UnexpectedEof),
    }
}

/// The I/O error kind that a read error kind converts into.
pub open spec fn read_kind_io_kind(kind: ReadErrorKind) -> IoErrorKind {
    match kind {
        ReadErrorKind::BufSize => IoErrorKind::InvalidData,
        ReadErrorKind::Io(k) => k,
        ReadErrorKind::Utf8 => IoErrorKind::InvalidData,
        ReadErrorKind::EndOfStream => IoErrorKind::UnexpectedEof,
        ReadErrorKind::FloatNotFinite => IoErrorKind::InvalidData,
        ReadErrorKind::MaxLen { .. } => IoErrorKind::InvalidData,
        ReadErrorKind::UnknownVariant8(_) => IoErrorKind::InvalidData,
        ReadErrorKind::UnknownVariant16(_) => IoErrorKind::InvalidData,
        ReadErrorKind::UnknownVariant32(_) => IoErrorKind::InvalidData,
        ReadErrorKind::UnknownVariant64(_) => IoErrorKind::InvalidData,
        ReadErrorKind::UnknownVariant128(_) => IoErrorKind::InvalidData,
        ReadErrorKind::ReadNever => IoErrorKind::InvalidInput,
        ReadErrorKind::TryReserve => IoErrorKind::OutOfMemory,
        ReadErrorKind::Custom(_) => IoErrorKind::Other,
        ReadErrorKind::MessageKind(_) => IoErrorKind::InvalidData,
    }
}

/// The I/O error kind that a write error kind converts into.
pub open spec fn write_kind_io_kind(kind: WriteErrorKind) -> IoErrorKind {
    match kind {
        WriteErrorKind::BufSize => IoErrorKind::InvalidData,
        WriteErrorKind::Io(k) => k,
        WriteErrorKind::MaxLen { .. } => IoErrorKind::InvalidData,
        WriteErrorKind::Custom(_) => IoErrorKind::Other,
    }
}

impl ReadErrorKind {
    /// The kind of the I/O error that this error converts into.
    pub fn io_kind(&self) -> (k: IoErrorKind)
        ensures
            k == read_kind_io_kind(*self),
    {
        match self {
            ReadErrorKind::BufSize => IoErrorKind::InvalidData,
            ReadErrorKind::Io(k) => *k,
            ReadErrorKind::Utf8 => IoErrorKind::InvalidData,
            ReadErrorKind::EndOfStream => IoErrorKind::UnexpectedEof,
            ReadErrorKind::FloatNotFinite
            | ReadErrorKind::MaxLen { .. }
            | ReadErrorKind::UnknownVariant8(_)
            | ReadErrorKind::UnknownVariant16(_)
            | ReadErrorKind::UnknownVariant32(_)
            | ReadErrorKind::UnknownVariant64(_)
            | ReadErrorKind::UnknownVariant128(_) => IoErrorKind::InvalidData,
            ReadErrorKind::ReadNever => IoErrorKind::InvalidInput,
            ReadErrorKind::TryReserve => IoErrorKind::OutOfMemory,
            ReadErrorKind::Custom(_) => IoErrorKind::Other,
            ReadErrorKind::MessageKind(_) => IoErrorKind::InvalidData,
        }
    }
}

impl ReadError {
    /// The kind of the I/O error that this error converts into; the context is dropped.
    pub fn io_kind(&self) -> (k: IoErrorKind)
        ensures
            k == read_kind_io_kind(self.kind),
    {
        self.kind.io_kind()
    }
}

impl WriteErrorKind {
    /// The kind of the I/O error that this error converts into.
    pub fn io_kind(&self) -> (k: IoErrorKind)
        ensures
            k == write_kind_io_kind(*self),
    {
        match self {
            WriteErrorKind::BufSize => IoErrorKind::InvalidData,
            WriteErrorKind::Io(k) => *k,
            WriteErrorKind::MaxLen { .. } => IoErrorKind::InvalidData,
            WriteErrorKind::Custom(_) => IoErrorKind::Other,
        }
    }
}

impl WriteError {
    /// The kind of the I/O error that this error converts into; the context is dropped.
    pub fn io_kind(&self) -> (k: IoErrorKind)
        ensures
            k == write_kind_io_kind(self.kind),
    {
        self.kind.io_kind()
    }
}

impl From<String> for ReadErrorKind {
    fn from(s: String) -> (r: Self) {
        ReadErrorKind::Custom(s)
    }
}

impl vstd::std_specs::convert::FromSpecImpl<String> for ReadErrorKind {
    open spec fn obeys_from_spec() -> bool {
        true
    }

    open spec fn from_spec(s: String) -> Self {
        ReadErrorKind::Custom(s)
    }
}

impl From<String> for WriteErrorKind {
    fn from(s: String) -> (r: Self) {
        WriteErrorKind::Custom(s)
    }
}

impl vstd::std_specs::convert::FromSpecImpl<String> for WriteErrorKind {
    open spec fn obeys_from_spec() -> bool {
        true
    }

    open spec fn from_spec(s: String) -> Self {
        WriteErrorKind::Custom(s)
    }
}

impl<'a> From<&'a str> for ReadErrorKind {
    fn from(s: &'a str) -> (r: Self)
        ensures
            r matches ReadErrorKind::Custom(c) && c@ == s@,
    {
        ReadErrorKind::Custom(owned_string(s))
    }
}

impl<'a> vstd::std_specs::convert::FromSpecImpl<&'a str> for ReadErrorKind {
    open spec fn obeys_from_spec() -> bool {
        true
    }

    open spec fn from_spec(s: &'a str) -> Self {
        ReadErrorKind::Custom(string_of(s@))
    }
}

impl<'a> From<std::borrow::Cow<'a, str>> for ReadErrorKind {
    fn from(s: std::borrow::Cow<'a, str>) -> (r: Self)
        ensures
            r matches ReadErrorKind::Custom(c) && c@ == s@,
    {
        match s {
            std::borrow::Cow::Borrowed(b) => ReadErrorKind::Custom(owned_string(b)),
            std::borrow::Cow::Owned(o) => ReadErrorKind::Custom(o),
        }
    }
}

impl<'a> vstd::std_specs::convert::FromSpecImpl<std::borrow::Cow<'a, str>> for ReadErrorKind {
    open spec fn obeys_from_spec() -> bool {
        true
    }

    open spec fn from_spec(s: std::borrow::Cow<'a, str>) -> Self {
        match s {
            std::borrow::Cow::Borrowed(b) => ReadErrorKind::Custom(string_of(b@)),
            std::borrow::Cow::Owned(o) => ReadErrorKind::Custom(o),
        }
    }
}

impl<'a> From<&'a str> for WriteErrorKind {
    fn from(s: &'a str) -> (r: Self)
        ensures
            r matches WriteErrorKind::Custom(c) && c@ == s@,
    {
        WriteErrorKind::Custom(owned_string(s))
    }
}

impl<'a> vstd::std_specs::convert::FromSpecImpl<&'a str> for WriteErrorKind {
    open spec fn obeys_from_spec() -> bool {
        true
    }

    open spec fn from_spec(s: &'a str) -> Self {
        WriteErrorKind::Custom(string_of(s@))
    }
}

impl<'a> From<std::borrow::Cow<'a, str>> for WriteErrorKind {
    fn from(s: std::borrow::Cow<'a, str>) -> (r: Self)
        ensures
            r matches WriteErrorKind::Custom(c) && c@ == s@,
    {
        match s {
            std::borrow::Cow::Borrowed(b) => WriteErrorKind::Custom(owned_string(b)),
            std::borrow::Cow::Owned(o) => WriteErrorKind::Custom(o),
        }
    }
}

impl<'a> vstd::std_specs::convert::FromSpecImpl<std::borrow::Cow<'a, str>> for WriteErrorKind {
    open spec fn obeys_from_spec() -> bool {
        true
    }

    open spec fn from_spec(s: std::borrow::Cow<'a, str>) -> Self {
        match s {
            std::borrow::Cow::Borrowed(b) => WriteErrorKind::Custom(string_of(b@)),
            std::borrow::Cow::Owned(o) => WriteErrorKind::Custom(o),
        }
    }
}

/// The string that `str::to_owned` makes of `text`.
pub uninterp spec fn string_of(text: Seq<char>) -> String;

/// `str::to_owned`: an owned string holding `text`; equal texts give equal strings.
#[verifier::external_body]
pub(crate) fn owned_string(text: &str) -> (s: String)
    ensures
        s == string_of(text@),
        s@ == text@,
{
    text.to_owned()
}

} // verus!