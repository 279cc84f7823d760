//! Ranges: the start bound followed by the end bound; the unbounded range takes no bytes.
use vstd::prelude::*;

use core::ops::{Range, RangeFull, RangeInclusive};

use crate::derived::{in_named_field, named_field_error};
use crate::error::{ReadError, WriteError};
use crate::protocol::{
    is_unexpected_eof, lemma_skip_prefix, lemma_skip_skip, lemma_take_split, lemma_truncated_step, Canonical, Protocol,
};
use crate::stream::Reader;

verus! {

/// Reading two bounds one after the other; errors in reading the start or the end are
/// reported through `start_err` and `end_err`.
pub open spec fn decode_bounds<Idx: Protocol>(
    input: Seq<u8>,
    start_err: spec_fn(ReadError) -> ReadError,
    end_err: spec_fn(ReadError) -> ReadError,
) -> Result<((Idx::Model, Idx::Model), nat), ReadError> {
    match Idx::spec_decode(input) {
        Err(e) => Err(start_err(e)),
        Ok((a, n0)) => match Idx::spec_decode(input.skip(n0 as int)) {
            Err(e) => Err(end_err(e)),
            Ok((b, n1)) => Ok(((a, b), n0 + n1)),
        },
    }
}

/// The number of bytes that a failed read of two bounds consumes: those of the start
/// bound read up to its failure, or all of the start bound and those of the end bound
/// read up to its failure.
pub open spec fn bounds_error_consumed<Idx: Protocol>(input: Seq<u8>) -> nat {
    match Idx::spec_decode(input) {
        Err(_) => Idx::spec_error_consumed(input),
        Ok((a, n0)) => n0 + Idx::spec_error_consumed(input.skip(n0 as int)),
    }
}

/// The representation of two bounds: the start followed by the end.
pub open spec fn encode_bounds<Idx: Protocol>(m: (Idx::Model, Idx::Model)) -> Seq<u8> {
    Idx::spec_encode(m.0) + Idx::spec_encode(m.1)
}

proof fn lemma_bounds_roundtrip<Idx: Protocol>(
    m: (Idx::Model, Idx::Model),
    rest: Seq<u8>,
    start_err: spec_fn(ReadError) -> ReadError,
    end_err: spec_fn(ReadError) -> ReadError,
)
    requires
        Idx::wf_model(m.0),
        Idx::wf_model(m.1),
    ensures
        decode_bounds::<Idx>(encode_bounds::<Idx>(m) + rest, start_err, end_err) == Ok::<
            ((Idx::Model, Idx::Model), nat),
            ReadError,
        >((m, encode_bounds::<Idx>(m).len())),
{
    let a = Idx::spec_encode(m.0);
    let b = Idx::spec_encode(m.1);
    assert(encode_bounds::<Idx>(m) + rest =~= a + (b + rest));
    Idx::lemma_encode_decode(m.0, b + rest);
    lemma_skip_prefix(a, b + rest);
    Idx::lemma_encode_decode(m.1, rest);
}

proof fn lemma_bounds_truncated<Idx: Protocol>(
    m: (Idx::Model, Idx::Model),
    k: nat,
    start_err: spec_fn(ReadError) -> ReadError,
    end_err: spec_fn(ReadError) -> ReadError,
)
    requires
        Idx::wf_model(m.0),
        Idx::wf_model(m.1),
        k < encode_bounds::<Idx>(m).len(),
        forall|e: ReadError| #[trigger] start_err(e).kind == e.kind,
        forall|e: ReadError| #[trigger] end_err(e).kind == e.kind,
    ensures
        decode_bounds::<Idx>(encode_bounds::<Idx>(m).take(k as int), start_err, end_err) matches Err(e)
            && is_unexpected_eof(e),
{
    let a = Idx::spec_encode(m.0);
    let b = Idx::spec_encode(m.1);
    lemma_truncated_step::<Idx>(m.0, b, k);
    if k >= a.len() {
        Idx::lemma_truncated(m.1, (k - a.len()) as nat);
    }
}

proof fn lemma_bounds_wf<Idx: Protocol>(
    input: Seq<u8>,
    start_err: spec_fn(ReadError) -> ReadError,
    end_err: spec_fn(ReadError) -> ReadError,
)
    ensures
        decode_bounds::<Idx>(input, start_err, end_err) matches Ok((m, n)) ==> {
            &&& n <= input.len()
            &&& Idx::wf_model(m.0)
            &&& Idx::wf_model(m.1)
        },
        decode_bounds::<Idx>(input, start_err, end_err) is Err ==> bounds_error_consumed::<Idx>(input)
            <= input.len(),
{
    Idx::lemma_decode_wf(input);
    if let Ok((a, n0)) = Idx::spec_decode(input) {
        Idx::lemma_decode_wf(input.skip(n0 as int));
    }
}

proof fn lemma_bounds_canonical<Idx: Canonical>(
    input: Seq<u8>,
    start_err: spec_fn(ReadError) -> ReadError,
    end_err: spec_fn(ReadError) -> ReadError,
)
    ensures
        decode_bounds::<Idx>(input, start_err, end_err) matches Ok((m, n)) ==> encode_bounds::<Idx>(m)
            == input.take(n as int),
{
    Idx::lemma_decode_wf(input);
    Idx::lemma_decode_encode(input);
    if let Ok((a, n0)) = Idx::spec_decode(input) {
        let tail = input.skip(n0 as int);
        Idx::lemma_decode_wf(tail);
        Idx::lemma_decode_encode(tail);
        if let Ok((b, n1)) = Idx::spec_decode(tail) {
            lemma_take_split(input, n0, n1);
        }
    }
}

/// Errors are passed on unchanged.
pub open spec fn unchanged_error() -> spec_fn(ReadError) -> ReadError {
    |e: ReadError| e
}

/// Errors are reported within the named field `name`.
pub open spec fn named_field(name: &'static str) -> spec_fn(ReadError) -> ReadError {
    |e: ReadError| in_named_field(e, name)
}

/// A range has the derived representation of `struct Range<Idx> { start: Idx, end: Idx }`.
impl<Idx: Protocol> Protocol for Range<Idx> {
    type Model = (Idx::Model, Idx::Model);

    open spec fn model(&self) -> (Idx::Model, Idx::Model) {
        (self.start.model(), self.end.model())
    }

    open spec fn wf_model(m: (Idx::Model, Idx::Model)) -> bool {
        Idx::wf_model(m.0) && Idx::wf_model(m.1)
    }

    open spec fn spec_encode(m: (Idx::Model, Idx::Model)) -> Seq<u8> {
        encode_bounds::<Idx>(m)
    }

    open spec fn spec_decode(input: Seq<u8>) -> Result<((Idx::Model, Idx::Model), nat), ReadError> {
        decode_bounds::<Idx>(input, named_field("start"), named_field("end"))
    }

    open spec fn spec_error_consumed(input: Seq<u8>) -> nat {
        bounds_error_consumed::<Idx>(input)
    }

    proof fn lemma_encode_decode(m: (Idx::Model, Idx::Model), rest: Seq<u8>) {
        lemma_bounds_roundtrip::<Idx>(m, rest, named_field("start"), named_field("end"));
    }

    proof fn lemma_truncated(m: (Idx::Model, Idx::Model), k: nat) {
        if k < Self::spec_encode(m).len() {
            lemma_bounds_truncated::<Idx>(m, k, named_field("start"), named_field("end"));
        }
    }

    proof fn lemma_decode_wf(input: Seq<u8>) {
        lemma_bounds_wf::<Idx>(input, named_field("start"), named_field("end"));
    }

    fn read_sync(stream: &mut Reader) -> (r: Result<Range<Idx>, ReadError>) {
        let ghost s0 = stream@;
        proof {
            Idx::lemma_decode_wf(s0);
        }
        let start = match Idx::read_sync(stream) {
            Ok(v) => v,
            Err(e) => return Err(named_field_error(e, "start")),
        };
        let ghost s1 = stream@;
        proof {
            Idx::lemma_decode_wf(s1);
        }
        let end = match Idx::read_sync(stream) {
            Ok(v) => v,
            Err(e) => {
                proof {
                    lemma_skip_skip(s0, (s0.len() - s1.len()) as nat, Idx::spec_error_consumed(s1));
                }
                return Err(named_field_error(e, "end"));
            },
        };
        proof {
            lemma_skip_skip(s0, (s0.len() - s1.len()) as nat, (s1.len() - stream@.len()) as nat);
        }
        Ok(Range { start, end })
    }

    fn write_sync(&self, sink: &mut Vec<u8>) -> (r: Result<(), WriteError>) {
        let _ = self.start.write_sync(sink);
        let _ = self.end.write_sync(sink);
        assert(final(sink)@ =~= old(sink)@ + Self::spec_encode(self.model()));
        Ok(())
    }
}

impl<Idx: Canonical> Canonical for Range<Idx> {
    proof fn lemma_decode_encode(input: Seq<u8>) {
        lemma_bounds_canonical::<Idx>(input, named_field("start"), named_field("end"));
    }
}

/// `RangeInclusive::start`: the lower bound of the range.
#[verifier::external_body]
fn range_inclusive_start<Idx>(r: &RangeInclusive<Idx>) -> (start: &Idx)
    ensures
        *start == r@.start,
{
    r.start()
}

/// `RangeInclusive::end`: the upper bound of the range.
#[verifier::external_body]
fn range_inclusive_end<Idx>(r: &RangeInclusive<Idx>) -> (end: &Idx)
    ensures
        *end == r@.end,
{
    r.end()
}

/// An inclusive range is represented by its start bound followed by its end bound.
impl<Idx: Protocol> Protocol for RangeInclusive<Idx> {
    type Model = (Idx::Model, Idx::Model);

    open spec fn model(&self) -> (Idx::Model, Idx::Model) {
        (self@.start.model(), self@.end.model())
    }

    open spec fn wf_model(m: (Idx::Model, Idx::Model)) -> bool {
        Idx::wf_model(m.0) && Idx::wf_model(m.1)
    }

    open spec fn spec_encode(m: (Idx::Model, Idx::Model)) -> Seq<u8> {
        encode_bounds::<Idx>(m)
    }

    open spec fn spec_decode(input: Seq<u8>) -> Result<((Idx::Model, Idx::Model), nat), ReadError> {
        decode_bounds::<Idx>(input, unchanged_error(), unchanged_error())
    }

    open spec fn spec_error_consumed(input: Seq<u8>) -> nat {
        bounds_error_consumed::<Idx>(input)
    }

    proof fn lemma_encode_decode(m: (Idx::Model, Idx::Model), rest: Seq<u8>) {
        lemma_bounds_roundtrip::<Idx>(m, rest, unchanged_error(), unchanged_error());
    }

    proof fn lemma_truncated(m: (Idx::Model, Idx::Model), k: nat) {
        if k < Self::spec_encode(m).len() {
            lemma_bounds_truncated::<Idx>(m, k, unchanged_error(), unchanged_error());
        }
    }

    proof fn lemma_decode_wf(input: Seq<u8>) {
        lemma_bounds_wf::<Idx>(input, unchanged_error(), unchanged_error());
    }

    fn read_sync(stream: &mut Reader) -> (r: Result<RangeInclusive<Idx>, ReadError>)
        ensures
            r matches Ok(v) ==> !v@.exhausted,
    {
        let ghost s0 = stream@;
        proof {
            Idx::lemma_decode_wf(s0);
        }
        let start = match Idx::read_sync(stream) {
            Ok(v) => v,
            Err(e) => return Err(e),
        };
        let ghost s1 = stream@;
        proof {
            Idx::lemma_decode_wf(s1);
        }
        let end = match Idx::read_sync(stream) {
            Ok(v) => v,
            Err(e) => {
                proof {
                    lemma_skip_skip(s0, (s0.len() - s1.len()) as nat, Idx::spec_error_consumed(s1));
                }
                return Err(e);
            },
        };
        proof {
            lemma_skip_skip(s0, (s0.len() - s1.len()) as nat, (s1.len() - stream@.len()) as nat);
        }
        Ok(RangeInclusive::new(start, end))
    }

    fn write_sync(&self, sink: &mut Vec<u8>) -> (r: Result<(), WriteError>) {
        let _ = range_inclusive_start(self).write_sync(sink);
        let _ = range_inclusive_end(self).write_sync(sink);
        assert(final(sink)@ =~= old(sink)@ + Self::spec_encode(self.model()));
        Ok(())
    }
}

impl<Idx: Canonical> Canonical for RangeInclusive<Idx> {
    proof fn lemma_decode_encode(input: Seq<u8>) {
        lemma_bounds_canonical::<Idx>(input, unchanged_error(), unchanged_error());
    }
}

#[verifier::external_type_specification]
#[verifier::external_body]
pub struct ExRangeFull(RangeFull);

/// The unbounded range `..`.
#[verifier::external_body]
fn range_full() -> (r: RangeFull) {
    ..
}

/// The unbounded range is represented by no bytes at all.
impl Protocol for RangeFull {
    type Model = ();

    open spec fn model(&self) -> () {
        ()
    }

    open spec fn wf_model(m: ()) -> bool {
        true
    }

    open spec fn spec_encode(m: ()) -> Seq<u8> {
        seq![]
    }

    open spec fn spec_decode(input: Seq<u8>) -> Result<((), nat), ReadError> {
        Ok(((), 0))
    }

    open spec fn spec_error_consumed(input: Seq<u8>) -> nat {
        0
    }

    proof fn lemma_encode_decode(m: (), rest: Seq<u8>) {
    }

    proof fn lemma_truncated(m: (), k: nat) {
    }

    proof fn lemma_decode_wf(input: Seq<u8>) {
    }

    fn read_sync(stream: &mut Reader) -> (r: Result<RangeFull, ReadError>) {
        assert(stream@ =~= stream@.skip(0));
        Ok(range_full())
    }

    fn write_sync(&self, sink: &mut Vec<u8>) -> (r: Result<(), WriteError>) {
        assert(sink@ =~= sink@ + seq![]);
        Ok(())
    }
}

impl Canonical for RangeFull {
    proof fn lemma_decode_encode(input: Seq<u8>) {
        assert(input.take(0) =~= seq![]);
    }
}

} // verus!
