//! `chrono::NaiveDate`, `chrono::FixedOffset` and `chrono::Utc`.
//!
//! A date is represented through a proxy struct holding its day number counted from
//! January 1 of year 1 (day 1), as an `i32`; a fixed offset through a proxy struct holding
//! its seconds east of UTC, as an `i32`; `Utc` has the derived representation of a unit
//! struct, no bytes at all. A day number with no date, or an offset of a day or more, is
//! refused with a `Custom` error in the context of the conversion from the proxy.
//!
//! A date and time in a time zone is represented through a proxy struct holding the time
//! zone, the UNIX timestamp in seconds as an `i64` and the nanoseconds beyond it as a
//! `u32`; reading that proxy is here, and finding the instant it names in the time zone
//! is left to the caller.
use vstd::prelude::*;

use chrono::{Datelike, FixedOffset, NaiveDate, Utc};

use crate::derived::{in_named_field, in_via, named_field_error, via_error, FieldName, NamedField};
use crate::error::{owned_string, string_of, ErrorContext, ReadError, ReadErrorKind, WriteError};
use crate::protocol::{consumed, Canonical, Protocol};
use crate::stream::Reader;

verus! {

#[verifier::external_type_specification]
#[verifier::external_body]
pub struct ExNaiveDate(NaiveDate);

#[verifier::external_type_specification]
#[verifier::external_body]
pub struct ExFixedOffset(FixedOffset);

#[verifier::external_type_specification]
#[verifier::external_body]
pub struct ExUtc(Utc);

/// The day number of a date, January 1 of year 1 being day 1, as
/// `Datelike::num_days_from_ce` returns it.
pub uninterp spec fn date_day_number(date: NaiveDate) -> i32;

/// Whether `NaiveDate::from_num_days_from_ce_opt` finds a date with the day number `days`:
/// it does for the day numbers of the dates from `NaiveDate::MIN` (January 1, 262144 BCE)
/// to `NaiveDate::MAX` (December 31, 262142 CE), and for no other.
pub open spec fn day_number_has_date(days: i32) -> bool {
    -95_746_129 <= days <= 95_745_399
}

/// The seconds east of UTC of a fixed offset, as `FixedOffset::local_minus_utc` returns them.
pub uninterp spec fn offset_seconds(offset: FixedOffset) -> i32;

/// `NaiveDate::from_num_days_from_ce_opt`: the date with the day number `days`, if there
/// is one; the two functions are inverse.
#[verifier::external_body]
fn date_from_day_number(days: i32) -> (date: Option<NaiveDate>)
    ensures
        date is Some <==> day_number_has_date(days),
        date matches Some(d) ==> date_day_number(d) == days,
{
    NaiveDate::from_num_days_from_ce_opt(days)
}

/// `Datelike::num_days_from_ce`: the day number of the date, which has a date.
#[verifier::external_body]
fn date_to_day_number(date: &NaiveDate) -> (days: i32)
    ensures
        days == date_day_number(*date),
        day_number_has_date(days),
{
    date.num_days_from_ce()
}

/// `FixedOffset::east_opt`: the offset of `secs` seconds east of UTC, when that is less
/// than a day either way.
#[verifier::external_body]
fn offset_east(secs: i32) -> (offset: Option<FixedOffset>)
    ensures
        offset is Some <==> -86_400 < secs < 86_400,
        offset matches Some(o) ==> offset_seconds(o) == secs,
{
    FixedOffset::east_opt(secs)
}

/// `FixedOffset::local_minus_utc`: the seconds east of UTC, less than a day either way
/// (as `east_opt` and `west_opt`, which make all offsets, ensure).
#[verifier::external_body]
fn offset_to_seconds(offset: &FixedOffset) -> (secs: i32)
    ensures
        secs == offset_seconds(*offset),
        -86_400 < secs < 86_400,
{
    offset.local_minus_utc()
}

/// The UTC time zone, a unit struct.
#[verifier::external_body]
fn utc() -> (zone: Utc) {
    Utc
}

/// The error of a day number with no date.
pub open spec fn no_such_date_error() -> ReadError {
    ReadError { context: ErrorContext::TryInto, kind: ReadErrorKind::Custom(string_of("out-of-range date"@)) }
}

/// The error of an offset of a day or more.
pub open spec fn offset_out_of_bounds_error() -> ReadError {
    ReadError {
        context: ErrorContext::TryInto,
        kind: ReadErrorKind::Custom(string_of("FixedOffset::east out of bounds"@)),
    }
}

/// Represented by its day number, through a proxy struct with the field `num_days_from_ce`.
impl Protocol for NaiveDate {
    type Model = i32;

    open spec fn model(&self) -> i32 {
        date_day_number(*self)
    }

    open spec fn wf_model(m: i32) -> bool {
        day_number_has_date(m)
    }

    open spec fn spec_encode(m: i32) -> Seq<u8> {
        <i32 as Protocol>::spec_encode(m)
    }

    open spec fn spec_decode(input: Seq<u8>) -> Result<(i32, nat), ReadError> {
        match <i32 as Protocol>::spec_decode(input) {
            Err(e) => Err(in_via(in_named_field(e, "num_days_from_ce"))),
            Ok((days, n)) => if day_number_has_date(days) {
                Ok((days, n))
            } else {
                Err(no_such_date_error())
            },
        }
    }

    open spec fn spec_error_consumed(input: Seq<u8>) -> nat {
        consumed::<i32>(input)
    }

    proof fn lemma_encode_decode(m: i32, rest: Seq<u8>) {
        <i32 as Protocol>::lemma_encode_decode(m, rest);
    }

    proof fn lemma_truncated(m: i32, k: nat) {
        <i32 as Protocol>::lemma_truncated(m, k);
    }

    proof fn lemma_decode_wf(input: Seq<u8>) {
        <i32 as Protocol>::lemma_decode_wf(input);
    }

    fn read_sync(stream: &mut Reader) -> (r: Result<NaiveDate, ReadError>) {
        let days = match i32::read_sync(stream) {
            Ok(days) => days,
            Err(e) => return Err(via_error(named_field_error(e, "num_days_from_ce"))),
        };
        match date_from_day_number(days) {
            Some(date) => Ok(date),
            None => Err(ReadError { context: ErrorContext::TryInto, kind: ReadErrorKind::Custom(owned_string("out-of-range date")) }),
        }
    }

    fn write_sync(&self, sink: &mut Vec<u8>) -> (r: Result<(), WriteError>) {
        date_to_day_number(self).write_sync(sink)
    }
}

impl Canonical for NaiveDate {
    proof fn lemma_decode_encode(input: Seq<u8>) {
        <i32 as Canonical>::lemma_decode_encode(input);
    }
}

/// Represented by its seconds east of UTC, through a proxy struct with the field `east`.
impl Protocol for FixedOffset {
    type Model = i32;

    open spec fn model(&self) -> i32 {
        offset_seconds(*self)
    }

    open spec fn wf_model(m: i32) -> bool {
        -86_400 < m < 86_400
    }

    open spec fn spec_encode(m: i32) -> Seq<u8> {
        <i32 as Protocol>::spec_encode(m)
    }

    open spec fn spec_decode(input: Seq<u8>) -> Result<(i32, nat), ReadError> {
        match <i32 as Protocol>::spec_decode(input) {
            Err(e) => Err(in_via(in_named_field(e, "east"))),
            Ok((secs, n)) => if -86_400 < secs < 86_400 {
                Ok((secs, n))
            } else {
                Err(offset_out_of_bounds_error())
            },
        }
    }

    open spec fn spec_error_consumed(input: Seq<u8>) -> nat {
        consumed::<i32>(input)
    }

    proof fn lemma_encode_decode(m: i32, rest: Seq<u8>) {
        <i32 as Protocol>::lemma_encode_decode(m, rest);
    }

    proof fn lemma_truncated(m: i32, k: nat) {
        <i32 as Protocol>::lemma_truncated(m, k);
    }

    proof fn lemma_decode_wf(input: Seq<u8>) {
        <i32 as Protocol>::lemma_decode_wf(input);
    }

    fn read_sync(stream: &mut Reader) -> (r: Result<FixedOffset, ReadError>) {
        let secs = match i32::read_sync(stream) {
            Ok(secs) => secs,
            Err(e) => return Err(via_error(named_field_error(e, "east"))),
        };
        match offset_east(secs) {
            Some(offset) => Ok(offset),
            None => Err(ReadError {
                context: ErrorContext::TryInto,
                kind: ReadErrorKind::Custom(owned_string("FixedOffset::east out of bounds")),
            }),
        }
    }

    fn write_sync(&self, sink: &mut Vec<u8>) -> (r: Result<(), WriteError>) {
        offset_to_seconds(self).write_sync(sink)
    }
}

impl Canonical for FixedOffset {
    proof fn lemma_decode_encode(input: Seq<u8>) {
        <i32 as Canonical>::lemma_decode_encode(input);
    }
}

/// The UTC time zone has the derived representation of a unit struct: no bytes at all.
impl Protocol for Utc {
    type Model = ();

    open spec fn model(&self) -> () {
        ()
    }

    open spec fn wf_model(m: ()) -> bool {
        true
    }

    open spec fn spec_encode(m: ()) -> Seq<u8> {
        seq![]
    }

    open spec fn spec_decode(input: Seq<u8>) -> Result<((), nat), ReadError> {
        Ok(((), 0))
    }

    open spec fn spec_error_consumed(input: Seq<u8>) -> nat {
        0
    }

    proof fn lemma_encode_decode(m: (), rest: Seq<u8>) {
    }

    proof fn lemma_truncated(m: (), k: nat) {
    }

    proof fn lemma_decode_wf(input: Seq<u8>) {
    }

    fn read_sync(stream: &mut Reader) -> (r: Result<Utc, ReadError>) {
        assert(stream@ =~= stream@.skip(0));
        Ok(utc())
    }

    fn write_sync(&self, sink: &mut Vec<u8>) -> (r: Result<(), WriteError>) {
        assert(sink@ =~= sink@ + seq![]);
        Ok(())
    }
}

impl Canonical for Utc {
    proof fn lemma_decode_encode(input: Seq<u8>) {
        assert(input.take(0) =~= seq![]);
    }
}

/// The field `timezone`.
pub struct TimezoneField;

/// The field `timestamp`.
pub struct TimestampField;

/// The field `timestamp_subsec_nanos`.
pub struct SubsecNanosField;

impl FieldName for TimezoneField {
    open spec fn spec_name() -> &'static str {
        "timezone"
    }

    fn name() -> (s: &'static str) {
        "timezone"
    }
}

impl FieldName for TimestampField {
    open spec fn spec_name() -> &'static str {
        "timestamp"
    }

    fn name() -> (s: &'static str) {
        "timestamp"
    }
}

impl FieldName for SubsecNanosField {
    open spec fn spec_name() -> &'static str {
        "timestamp_subsec_nanos"
    }

    fn name() -> (s: &'static str) {
        "timestamp_subsec_nanos"
    }
}

/// The proxy of a date and time in the time zone `Tz`: the struct of its fields, each named.
pub type DateTimeFields<Tz> = (NamedField<Tz, TimezoneField>, NamedField<i64, TimestampField>, NamedField<u32, SubsecNanosField>);

/// Reads the proxy of a date and time in the time zone `Tz`: the time zone, the UNIX
/// timestamp in seconds and the nanoseconds beyond it. Errors are reported within the
/// field that failed, within the proxy; no field after it is read.
pub fn read_date_time_fields<Tz: Protocol>(stream: &mut Reader) -> (r: Result<(Tz, i64, u32), ReadError>)
    ensures
        match <DateTimeFields<Tz> as Protocol>::spec_decode(old(stream)@) {
            Ok((m, n)) => r matches Ok((tz, secs, nanos)) && (tz.model(), secs, nanos) == m && final(stream)@
                == old(stream)@.skip(n as int),
            Err(e) => r == Err::<(Tz, i64, u32), ReadError>(in_via(e)) && final(stream)@ == old(stream)@.skip(
                <DateTimeFields<Tz> as Protocol>::spec_error_consumed(old(stream)@) as int,
            ),
        },
{
    match <DateTimeFields<Tz> as Protocol>::read_sync(stream) {
        Ok((tz, secs, nanos)) => Ok((tz.0, secs.0, nanos.0)),
        Err(e) => Err(via_error(e)),
    }
}

/// Writes the proxy of a date and time in the time zone `Tz`: the time zone, the UNIX
/// timestamp in seconds and the nanoseconds beyond it.
pub fn write_date_time_fields<Tz: Protocol>(tz: &Tz, secs: i64, nanos: u32, sink: &mut Vec<u8>)
    ensures
        Tz::wf_model(tz.model()),
        final(sink)@ == old(sink)@ + <DateTimeFields<Tz> as Protocol>::spec_encode((tz.model(), secs, nanos)),
{
    let _ = tz.write_sync(sink);
    let _ = secs.write_sync(sink);
    let _ = nanos.write_sync(sink);
    assert(final(sink)@ =~= old(sink)@ + <DateTimeFields<Tz> as Protocol>::spec_encode((tz.model(), secs, nanos)));
}

} // verus!
