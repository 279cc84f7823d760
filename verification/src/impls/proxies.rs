//! The proxies through which floating-point numbers and durations are represented:
//! the big-endian bytes of a float, and the whole seconds and nanoseconds of a
//! duration, each with the derived representation of its struct; and durations
//! themselves, read and written through their proxy.
use vstd::prelude::*;

use std::time::Duration;

use crate::derived::{in_named_field, in_unnamed_field, in_via, named_field_error, unnamed_field_error, via_error};
use crate::error::{ReadError, WriteError};
use crate::protocol::{lemma_skip_prefix, lemma_skip_skip, lemma_take_split, lemma_truncated_step, consumed, Canonical, Protocol};
use crate::stream::Reader;

verus! {

/// The big-endian bytes of an `f32`.
pub struct F32Proxy(pub [u8; 4]);

/// The big-endian bytes of an `f64`.
pub struct F64Proxy(pub [u8; 8]);

/// The parts of a duration: whole seconds, and the nanoseconds beyond them.
pub struct DurationProxy {
    pub secs: u64,
    pub subsec_nanos: u32,
}

/// Represented like its byte array; errors are reported within its field.
impl Protocol for F32Proxy {
    type Model = Seq<u8>;

    open spec fn model(&self) -> Seq<u8> {
        self.0@
    }

    open spec fn wf_model(m: Seq<u8>) -> bool {
        m.len() == 4
    }

    open spec fn spec_encode(m: Seq<u8>) -> Seq<u8> {
        <[u8; 4] as Protocol>::spec_encode(m)
    }

    open spec fn spec_decode(input: Seq<u8>) -> Result<(Seq<u8>, nat), ReadError> {
        match <[u8; 4] as Protocol>::spec_decode(input) {
            Err(e) => Err(in_unnamed_field(e, 0)),
            Ok((m, n)) => Ok((m, n)),
        }
    }

    open spec fn spec_error_consumed(input: Seq<u8>) -> nat {
        consumed::<[u8; 4]>(input)
    }

    proof fn lemma_encode_decode(m: Seq<u8>, rest: Seq<u8>) {
        assert forall|i: int| 0 <= i < m.len() implies #[trigger] <u8 as Protocol>::wf_model(m[i]) by {
        }
        <[u8; 4] as Protocol>::lemma_encode_decode(m, rest);
    }

    proof fn lemma_truncated(m: Seq<u8>, k: nat) {
        if k < Self::spec_encode(m).len() {
            assert forall|i: int| 0 <= i < m.len() implies #[trigger] <u8 as Protocol>::wf_model(m[i]) by {
            }
            <[u8; 4] as Protocol>::lemma_truncated(m, k);
        }
    }

    proof fn lemma_decode_wf(input: Seq<u8>) {
        <[u8; 4] as Protocol>::lemma_decode_wf(input);
    }

    fn read_sync(stream: &mut Reader) -> (r: Result<F32Proxy, ReadError>) {
        match <[u8; 4]>::read_sync(stream) {
            Ok(bytes) => {
                assert(bytes@ =~= <[u8; 4] as Protocol>::model(&bytes));
                Ok(F32Proxy(bytes))
            },
            Err(e) => Err(unnamed_field_error(e, 0)),
        }
    }

    fn write_sync(&self, sink: &mut Vec<u8>) -> (r: Result<(), WriteError>) {
        let r = self.0.write_sync(sink);
        assert(self.0@ =~= <[u8; 4] as Protocol>::model(&self.0));
        r
    }
}

impl Canonical for F32Proxy {
    proof fn lemma_decode_encode(input: Seq<u8>) {
        <[u8; 4] as Canonical>::lemma_decode_encode(input);
    }
}

/// Represented like its byte array; errors are reported within its field.
impl Protocol for F64Proxy {
    type Model = Seq<u8>;

    open spec fn model(&self) -> Seq<u8> {
        self.0@
    }

    open spec fn wf_model(m: Seq<u8>) -> bool {
        m.len() == 8
    }

    open spec fn spec_encode(m: Seq<u8>) -> Seq<u8> {
        <[u8; 8] as Protocol>::spec_encode(m)
    }

    open spec fn spec_decode(input: Seq<u8>) -> Result<(Seq<u8>, nat), ReadError> {
        match <[u8; 8] as Protocol>::spec_decode(input) {
            Err(e) => Err(in_unnamed_field(e, 0)),
            Ok((m, n)) => Ok((m, n)),
        }
    }

    open spec fn spec_error_consumed(input: Seq<u8>) -> nat {
        consumed::<[u8; 8]>(input)
    }

    proof fn lemma_encode_decode(m: Seq<u8>, rest: Seq<u8>) {
        assert forall|i: int| 0 <= i < m.len() implies #[trigger] <u8 as Protocol>::wf_model(m[i]) by {
        }
        <[u8; 8] as Protocol>::lemma_encode_decode(m, rest);
    }

    proof fn lemma_truncated(m: Seq<u8>, k: nat) {
        if k < Self::spec_encode(m).len() {
            assert forall|i: int| 0 <= i < m.len() implies #[trigger] <u8 as Protocol>::wf_model(m[i]) by {
            }
            <[u8; 8] as Protocol>::lemma_truncated(m, k);
        }
    }

    proof fn lemma_decode_wf(input: Seq<u8>) {
        <[u8; 8] as Protocol>::lemma_decode_wf(input);
    }

    fn read_sync(stream: &mut Reader) -> (r: Result<F64Proxy, ReadError>) {
        match <[u8; 8]>::read_sync(stream) {
            Ok(bytes) => {
                assert(bytes@ =~= <[u8; 8] as Protocol>::model(&bytes));
                Ok(F64Proxy(bytes))
            },
            Err(e) => Err(unnamed_field_error(e, 0)),
        }
    }

    fn write_sync(&self, sink: &mut Vec<u8>) -> (r: Result<(), WriteError>) {
        let r = self.0.write_sync(sink);
        assert(self.0@ =~= <[u8; 8] as Protocol>::model(&self.0));
        r
    }
}

impl Canonical for F64Proxy {
    proof fn lemma_decode_encode(input: Seq<u8>) {
        <[u8; 8] as Canonical>::lemma_decode_encode(input);
    }
}

/// Represented by the seconds as a `u64` followed by the nanoseconds as a `u32`;
/// errors are reported within the field being read.
impl Protocol for DurationProxy {
    type Model = (u64, u32);

    open spec fn model(&self) -> (u64, u32) {
        (self.secs, self.subsec_nanos)
    }

    open spec fn wf_model(m: (u64, u32)) -> bool {
        true
    }

    open spec fn spec_encode(m: (u64, u32)) -> Seq<u8> {
        <u64 as Protocol>::spec_encode(m.0) + <u32 as Protocol>::spec_encode(m.1)
    }

    open spec fn spec_decode(input: Seq<u8>) -> Result<((u64, u32), nat), ReadError> {
        match <u64 as Protocol>::spec_decode(input) {
            Err(e) => Err(in_named_field(e, "secs")),
            Ok((secs, n0)) => match <u32 as Protocol>::spec_decode(input.skip(n0 as int)) {
                Err(e) => Err(in_named_field(e, "subsec_nanos")),
                Ok((nanos, n1)) => Ok(((secs, nanos), n0 + n1)),
            },
        }
    }

    open spec fn spec_error_consumed(input: Seq<u8>) -> nat {
        match <u64 as Protocol>::spec_decode(input) {
            Err(_) => <u64 as Protocol>::spec_error_consumed(input),
            Ok((secs, n0)) => n0 + <u32 as Protocol>::spec_error_consumed(input.skip(n0 as int)),
        }
    }

    proof fn lemma_encode_decode(m: (u64, u32), rest: Seq<u8>) {
        let a = <u64 as Protocol>::spec_encode(m.0);
        let b = <u32 as Protocol>::spec_encode(m.1);
        assert(Self::spec_encode(m) + rest =~= a + (b + rest));
        <u64 as Protocol>::lemma_encode_decode(m.0, b + rest);
        lemma_skip_prefix(a, b + rest);
        <u32 as Protocol>::lemma_encode_decode(m.1, rest);
    }

    proof fn lemma_truncated(m: (u64, u32), k: nat) {
        if k < Self::spec_encode(m).len() {
            let a = <u64 as Protocol>::spec_encode(m.0);
            let b = <u32 as Protocol>::spec_encode(m.1);
            lemma_truncated_step::<u64>(m.0, b, k);
            if k >= a.len() {
                <u32 as Protocol>::lemma_truncated(m.1, (k - a.len()) as nat);
            }
        }
    }

    proof fn lemma_decode_wf(input: Seq<u8>) {
        <u64 as Protocol>::lemma_decode_wf(input);
        if let Ok((secs, n0)) = <u64 as Protocol>::spec_decode(input) {
            <u32 as Protocol>::lemma_decode_wf(input.skip(n0 as int));
        }
    }

    fn read_sync(stream: &mut Reader) -> (r: Result<DurationProxy, ReadError>) {
        let ghost s0 = stream@;
        proof {
            <u64 as Protocol>::lemma_decode_wf(s0);
        }
        let secs = match u64::read_sync(stream) {
            Ok(v) => v,
            Err(e) => return Err(named_field_error(e, "secs")),
        };
        let ghost s1 = stream@;
        proof {
            <u32 as Protocol>::lemma_decode_wf(s1);
        }
        let subsec_nanos = match u32::read_sync(stream) {
            Ok(v) => v,
            Err(e) => return Err(named_field_error(e, "subsec_nanos")),
        };
        proof {
            lemma_skip_skip(s0, (s0.len() - s1.len()) as nat, (s1.len() - stream@.len()) as nat);
        }
        Ok(DurationProxy { secs, subsec_nanos })
    }

    fn write_sync(&self, sink: &mut Vec<u8>) -> (r: Result<(), WriteError>) {
        let _ = self.secs.write_sync(sink);
        let _ = self.subsec_nanos.write_sync(sink);
        assert(final(sink)@ =~= old(sink)@ + Self::spec_encode(self.model()));
        Ok(())
    }
}

impl Canonical for DurationProxy {
    proof fn lemma_decode_encode(input: Seq<u8>) {
        <u64 as Protocol>::lemma_decode_wf(input);
        <u64 as Canonical>::lemma_decode_encode(input);
        if let Ok((secs, n0)) = <u64 as Protocol>::spec_decode(input) {
            let tail = input.skip(n0 as int);
            <u32 as Protocol>::lemma_decode_wf(tail);
            <u32 as Canonical>::lemma_decode_encode(tail);
            if let Ok((nanos, n1)) = <u32 as Protocol>::spec_decode(tail) {
                lemma_take_split(input, n0, n1);
            }
        }
    }
}

/// The whole seconds of a duration, as `Duration::as_secs` returns them.
pub uninterp spec fn duration_secs(d: Duration) -> u64;

/// The nanoseconds of a duration beyond its whole seconds, as
/// `Duration::subsec_nanos` returns them.
pub uninterp spec fn duration_subsec_nanos(d: Duration) -> u32;

/// `Duration::new`: the duration of `secs` seconds and `nanos` nanoseconds, where
/// nanoseconds beyond a billion carry over into the seconds. It panics when that carry
/// overflows the seconds, which `requires` leaves out.
#[verifier::external_body]
fn duration_new(secs: u64, nanos: u32) -> (d: Duration)
    requires
        secs + nanos / 1_000_000_000 <= u64::MAX,
    ensures
        duration_secs(d) == secs + nanos / 1_000_000_000,
        duration_subsec_nanos(d) == nanos % 1_000_000_000,
{
    Duration::new(secs, nanos)
}

/// `Duration::as_secs`: the whole seconds of the duration.
#[verifier::external_body]
fn duration_as_secs(d: &Duration) -> (secs: u64)
    ensures
        secs == duration_secs(*d),
{
    d.as_secs()
}

/// `Duration::subsec_nanos`: the nanoseconds beyond the whole seconds, always less
/// than a billion.
#[verifier::external_body]
fn duration_nanos(d: &Duration) -> (nanos: u32)
    ensures
        nanos == duration_subsec_nanos(*d),
        nanos < 1_000_000_000,
{
    d.subsec_nanos()
}

/// Whether the duration read from the front of `input` can be made without the
/// nanoseconds' carry overflowing the seconds (the carry makes `Duration::new` panic).
pub open spec fn duration_fits(input: Seq<u8>) -> bool {
    DurationProxy::spec_decode(input) matches Ok(((secs, nanos), n)) ==> secs + nanos / 1_000_000_000 <= u64::MAX
}

/// Reads a duration through its proxy: whole seconds as a `u64`, then nanoseconds as a
/// `u32`, which carry over into the seconds when a billion or more. Errors are reported
/// within the proxy.
pub fn read_duration(stream: &mut Reader) -> (r: Result<Duration, ReadError>)
    requires
        duration_fits(old(stream)@),
    ensures
        match DurationProxy::spec_decode(old(stream)@) {
            Ok(((secs, nanos), n)) => r matches Ok(d) && duration_secs(d) == secs + nanos / 1_000_000_000
                && duration_subsec_nanos(d) == nanos % 1_000_000_000 && final(stream)@ == old(stream)@.skip(n as int),
            Err(e) => r == Err::<Duration, ReadError>(in_via(e)) && final(stream)@ == old(stream)@.skip(
                DurationProxy::spec_error_consumed(old(stream)@) as int,
            ),
        },
{
    match DurationProxy::read_sync(stream) {
        Ok(DurationProxy { secs, subsec_nanos }) => Ok(duration_new(secs, subsec_nanos)),
        Err(e) => Err(via_error(e)),
    }
}

/// Writes a duration through its proxy: whole seconds as a `u64`, then the nanoseconds
/// beyond them as a `u32`.
pub fn write_duration(d: &Duration, sink: &mut Vec<u8>) -> (r: Result<(), WriteError>)
    ensures
        r is Ok,
        duration_subsec_nanos(*d) < 1_000_000_000,
        final(sink)@ == old(sink)@ + DurationProxy::spec_encode((duration_secs(*d), duration_subsec_nanos(*d))),
{
    let proxy = DurationProxy { secs: duration_as_secs(d), subsec_nanos: duration_nanos(d) };
    proxy.write_sync(sink)
}

/// Reading a written duration gives back its seconds and nanoseconds: the
/// representation of any seconds and nanoseconds below a billion (as `write_duration`
/// writes them), followed by any bytes, reads without carry as those same parts.
pub proof fn law_duration_round_trip(secs: u64, nanos: u32, rest: Seq<u8>)
    requires
        nanos < 1_000_000_000,
    ensures
        duration_fits(DurationProxy::spec_encode((secs, nanos)) + rest),
        DurationProxy::spec_decode(DurationProxy::spec_encode((secs, nanos)) + rest) == Ok::<((u64, u32), nat), ReadError>(
            ((secs, nanos), DurationProxy::spec_encode((secs, nanos)).len()),
        ),
        secs + nanos / 1_000_000_000 == secs,
        nanos % 1_000_000_000 == nanos,
{
    DurationProxy::lemma_encode_decode((secs, nanos), rest);
}

} // verus!
