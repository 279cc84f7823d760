//! Reading a value from a prefix in a buffer and a suffix still to come from a
//! (possibly non-blocking) stream.
//!
//! The buffer holds the bytes received so far. A read attempt either finds a whole
//! value at its front, which it removes from the buffer, or finds that the value is
//! incomplete, in which case more bytes are read from the stream and appended, or
//! fails. When the stream would block, the attempt ends without a value and the bytes
//! received so far stay in the buffer for the next attempt.
use vstd::prelude::*;

use crate::error::{ErrorContext, IoErrorKind, ReadError, ReadErrorKind};
use crate::protocol::{is_unexpected_eof, lemma_take_concat, Protocol};
use crate::stream::Reader;

verus! {

/// The outcome of one read call on the stream.
pub enum StreamEvent {
    /// The call returned these bytes (at least one).
    Data(Vec<u8>),
    /// The call returned no bytes: the stream has ended.
    Closed,
    /// The call failed with an error of this kind (`WouldBlock` for a non-blocking
    /// stream that has no data yet).
    Failed(IoErrorKind),
}

/// What to do after a read call on the stream.
pub enum StreamStep {
    /// Bytes were appended to the buffer: attempt to read a value again.
    Retry,
    /// The stream would block: end the attempt without a value.
    Pending,
    /// End the attempt with this error.
    Fail(ReadError),
}

/// Attempts to read a value from the front of `buf`.
///
/// Returns the value and removes its representation from `buf` when a whole value is
/// there; returns `Ok(None)`, leaving `buf` unchanged, when the bytes in `buf` end before
/// a whole value (more must be read); and returns any other error, leaving `buf` unchanged.
pub fn try_read_buffered<T: Protocol>(buf: &mut Vec<u8>) -> (r: Result<Option<T>, ReadError>)
    ensures
        match T::spec_decode(old(buf)@) {
            Ok((m, n)) => r matches Ok(Some(v)) && v.model() == m && final(buf)@ == old(buf)@.skip(n as int),
            Err(e) => final(buf)@ == old(buf)@ && if is_unexpected_eof(e) {
                r matches Ok(None)
            } else {
                r == Err::<Option<T>, ReadError>(e)
            },
        },
{
    let result = {
        let mut reader = Reader::new(buf.as_slice());
        let result = T::read_sync(&mut reader);
        let left = reader.remaining_len();
        match result {
            Ok(value) => Ok((value, left)),
            Err(e) => Err(e),
        }
    };
    match result {
        Ok((value, left)) => {
            proof {
                T::lemma_decode_wf(buf@);
            }
            let consumed = buf.len() - left;
            let rest = buf.split_off(consumed);
            *buf = rest;
            Ok(Some(value))
        },
        Err(ReadError { context, kind }) => match kind {
            ReadErrorKind::Io(IoErrorKind::UnexpectedEof) => Ok(None),
            kind => Err(ReadError { context, kind }),
        },
    }
}

/// Handles the outcome of a read call on the stream: appends received bytes to `buf`,
/// ends the attempt without a value when the stream would block, and reports the end
/// of the stream or any other error, in the context of the default implementation.
pub fn handle_stream_event(buf: &mut Vec<u8>, event: StreamEvent) -> (r: StreamStep)
    ensures
        match event {
            StreamEvent::Data(bytes) => r is Retry && final(buf)@ == old(buf)@ + bytes@,
            StreamEvent::Closed => final(buf)@ == old(buf)@ && r == StreamStep::Fail(
                ReadError { context: ErrorContext::DefaultImpl, kind: ReadErrorKind::EndOfStream },
            ),
            StreamEvent::Failed(k) => final(buf)@ == old(buf)@ && if k == IoErrorKind::WouldBlock {
                r is Pending
            } else {
                r == StreamStep::Fail(ReadError { context: ErrorContext::DefaultImpl, kind: ReadErrorKind::Io(k) })
            },
        },
{
    match event {
        StreamEvent::Data(bytes) => {
            let mut bytes = bytes;
            buf.append(&mut bytes);
            StreamStep::Retry
        },
        StreamEvent::Closed => StreamStep::Fail(
            ReadError { context: ErrorContext::DefaultImpl, kind: ReadErrorKind::EndOfStream },
        ),
        StreamEvent::Failed(IoErrorKind::WouldBlock) => StreamStep::Pending,
        StreamEvent::Failed(k) => StreamStep::Fail(
            ReadError { context: ErrorContext::DefaultImpl, kind: ReadErrorKind::Io(k) },
        ),
    }
}

/// A value arriving in pieces is read once it is whole, and not before: when the buffer
/// holds the first `k` bytes of the representation of a value followed by any bytes, an
/// attempt finds the input ending early (so `try_read_buffered` keeps the buffer and
/// returns `Ok(None)`) while `k` is short of the representation, and reads the value,
/// consuming exactly its representation, once `k` reaches it.
pub proof fn law_buffered_read_waits_for_whole_value<T: Protocol>(m: T::Model, rest: Seq<u8>, k: nat)
    requires
        T::wf_model(m),
        k <= T::spec_encode(m).len() + rest.len(),
    ensures
        k < T::spec_encode(m).len() ==> (T::spec_decode((T::spec_encode(m) + rest).take(k as int)) matches Err(e)
            && is_unexpected_eof(e)),
        k >= T::spec_encode(m).len() ==> T::spec_decode((T::spec_encode(m) + rest).take(k as int)) == Ok::<
            (T::Model, nat),
            ReadError,
        >((m, T::spec_encode(m).len())),
{
    let a = T::spec_encode(m);
    lemma_take_concat(a, rest, k);
    if k < a.len() {
        T::lemma_truncated(m, k);
    } else {
        T::lemma_encode_decode(m, rest.take(k - a.len()));
    }
}

} // verus!
