//! Primitive integers: represented in big-endian byte order (network byte order),
//! taking exactly as many bytes as the type is wide.
use vstd::prelude::*;

use crate::endian::{
    be_bytes, be_value, lemma_be_bytes_len, lemma_be_canonical, lemma_be_roundtrip,
    lemma_be_value_bound, lemma_pow256_widths, pow256, read_be, write_be,
};
use crate::error::{eof_error, ReadError, WriteError};
use crate::protocol::{Canonical, Protocol};
use crate::stream::Reader;

verus! {

/// Reading a `width`-byte big-endian number: its value and width, or the
/// end-of-input error of `for_type` when fewer than `width` bytes remain.
pub open spec fn decode_be(input: Seq<u8>, width: nat, for_type: &'static str) -> Result<(nat, nat), ReadError> {
    if input.len() < width {
        Err(eof_error(for_type))
    } else {
        Ok((be_value(input.take(width as int)), width))
    }
}

/// A number that fits in `width` bytes reads back from its representation.
pub proof fn lemma_decode_be_of_encode(x: nat, width: nat, rest: Seq<u8>, for_type: &'static str)
    requires
        x < pow256(width),
    ensures
        be_bytes(x, width).len() == width,
        decode_be(be_bytes(x, width) + rest, width, for_type) == Ok::<(nat, nat), ReadError>((x, width)),
{
    lemma_be_bytes_len(x, width);
    assert((be_bytes(x, width) + rest).take(width as int) =~= be_bytes(x, width));
    lemma_be_roundtrip(x, width);
}

/// A successful big-endian read consumes `width` bytes, whose value fits in `width`
/// bytes and whose representation they are.
pub proof fn lemma_decode_be_ok(input: Seq<u8>, width: nat, for_type: &'static str)
    ensures
        decode_be(input, width, for_type) matches Ok((v, n)) ==> {
            &&& n == width
            &&& n <= input.len()
            &&& v < pow256(width)
            &&& be_bytes(v, width) == input.take(n as int)
        },
{
    if input.len() >= width {
        lemma_be_value_bound(input.take(width as int));
        lemma_be_canonical(input.take(width as int));
    }
}

/// Reading a `width`-byte number from fewer than `width` bytes of a representation fails
/// because the input ends early.
pub proof fn lemma_decode_be_truncated(x: nat, width: nat, k: nat, for_type: &'static str)
    requires
        k < be_bytes(x, width).len(),
    ensures
        decode_be(be_bytes(x, width).take(k as int), width, for_type) == Err::<(nat, nat), ReadError>(eof_error(for_type)),
{
    lemma_be_bytes_len(x, width);
}

/// A `u8` is represented by its 1 big-endian byte.
impl Protocol for u8 {
    type Model = u8;

    open spec fn model(&self) -> u8 {
        *self
    }

    open spec fn wf_model(m: u8) -> bool {
        true
    }

    open spec fn spec_encode(m: u8) -> Seq<u8> {
        be_bytes(m as nat, 1)
    }

    open spec fn spec_decode(input: Seq<u8>) -> Result<(u8, nat), ReadError> {
        match decode_be(input, 1, "u8") {
            Ok((v, n)) => Ok((v as u8, n)),
            Err(e) => Err(e),
        }
    }

    open spec fn spec_error_consumed(input: Seq<u8>) -> nat {
        0
    }

    proof fn lemma_encode_decode(m: u8, rest: Seq<u8>) {
        lemma_pow256_widths();
        lemma_decode_be_of_encode(m as nat, 1, rest, "u8");
    }

    proof fn lemma_truncated(m: u8, k: nat) {
        if k < Self::spec_encode(m).len() {
            lemma_decode_be_truncated(m as nat, 1, k, "u8");
        }
    }

    proof fn lemma_decode_wf(input: Seq<u8>) {
        lemma_decode_be_ok(input, 1, "u8");
    }

    fn read_sync(stream: &mut Reader) -> (r: Result<u8, ReadError>) {
        match read_be(stream, 1, "u8") {
            Ok(v) => {
                proof {
                    lemma_decode_be_ok(old(stream)@, 1, "u8");
                    lemma_pow256_widths();
                }
                Ok(v as u8)
            },
            Err(e) => Err(e),
        }
    }

    fn write_sync(&self, sink: &mut Vec<u8>) -> (r: Result<(), WriteError>) {
        proof {
            lemma_pow256_widths();
        }
        write_be(sink, *self as u128, 1);
        Ok(())
    }
}

impl Canonical for u8 {
    proof fn lemma_decode_encode(input: Seq<u8>) {
        lemma_decode_be_ok(input, 1, "u8");
        lemma_pow256_widths();
    }
}

/// A `u16` is represented by its 2 big-endian bytes.
impl Protocol for u16 {
    type Model = u16;

    open spec fn model(&self) -> u16 {
        *self
    }

    open spec fn wf_model(m: u16) -> bool {
        true
    }

    open spec fn spec_encode(m: u16) -> Seq<u8> {
        be_bytes(m as nat, 2)
    }

    open spec fn spec_decode(input: Seq<u8>) -> Result<(u16, nat), ReadError> {
        match decode_be(input, 2, "u16") {
            Ok((v, n)) => Ok((v as u16, n)),
            Err(e) => Err(e),
        }
    }

    open spec fn spec_error_consumed(input: Seq<u8>) -> nat {
        0
    }

    proof fn lemma_encode_decode(m: u16, rest: Seq<u8>) {
        lemma_pow256_widths();
        lemma_decode_be_of_encode(m as nat, 2, rest, "u16");
    }

    proof fn lemma_truncated(m: u16, k: nat) {
        if k < Self::spec_encode(m).len() {
            lemma_decode_be_truncated(m as nat, 2, k, "u16");
        }
    }

    proof fn lemma_decode_wf(input: Seq<u8>) {
        lemma_decode_be_ok(input, 2, "u16");
    }

    fn read_sync(stream: &mut Reader) -> (r: Result<u16, ReadError>) {
        match read_be(stream, 2, "u16") {
            Ok(v) => {
                proof {
                    lemma_decode_be_ok(old(stream)@, 2, "u16");
                    lemma_pow256_widths();
                }
                Ok(v as u16)
            },
            Err(e) => Err(e),
        }
    }

    fn write_sync(&self, sink: &mut Vec<u8>) -> (r: Result<(), WriteError>) {
        proof {
            lemma_pow256_widths();
        }
        write_be(sink, *self as u128, 2);
        Ok(())
    }
}

impl Canonical for u16 {
    proof fn lemma_decode_encode(input: Seq<u8>) {
        lemma_decode_be_ok(input, 2, "u16");
        lemma_pow256_widths();
    }
}

/// A `u32` is represented by its 4 big-endian bytes.
impl Protocol for u32 {
    type Model = u32;

    open spec fn model(&self) -> u32 {
        *self
    }

    open spec fn wf_model(m: u32) -> bool {
        true
    }

    open spec fn spec_encode(m: u32) -> Seq<u8> {
        be_bytes(m as nat, 4)
    }

    open spec fn spec_decode(input: Seq<u8>) -> Result<(u32, nat), ReadError> {
        match decode_be(input, 4, "u32") {
            Ok((v, n)) => Ok((v as u32, n)),
            Err(e) => Err(e),
        }
    }

    open spec fn spec_error_consumed(input: Seq<u8>) -> nat {
        0
    }

    proof fn lemma_encode_decode(m: u32, rest: Seq<u8>) {
        lemma_pow256_widths();
        lemma_decode_be_of_encode(m as nat, 4, rest, "u32");
    }

    proof fn lemma_truncated(m: u32, k: nat) {
        if k < Self::spec_encode(m).len() {
            lemma_decode_be_truncated(m as nat, 4, k, "u32");
        }
    }

    proof fn lemma_decode_wf(input: Seq<u8>) {
        lemma_decode_be_ok(input, 4, "u32");
    }

    fn read_sync(stream: &mut Reader) -> (r: Result<u32, ReadError>) {
        match read_be(stream, 4, "u32") {
            Ok(v) => {
                proof {
                    lemma_decode_be_ok(old(stream)@, 4, "u32");
                    lemma_pow256_widths();
                }
                Ok(v as u32)
            },
            Err(e) => Err(e),
        }
    }

    fn write_sync(&self, sink: &mut Vec<u8>) -> (r: Result<(), WriteError>) {
        proof {
            lemma_pow256_widths();
        }
        write_be(sink, *self as u128, 4);
        Ok(())
    }
}

impl Canonical for u32 {
    proof fn lemma_decode_encode(input: Seq<u8>) {
        lemma_decode_be_ok(input, 4, "u32");
        lemma_pow256_widths();
    }
}

/// A `u64` is represented by its 8 big-endian bytes.
impl Protocol for u64 {
    type Model = u64;

    open spec fn model(&self) -> u64 {
        *self
    }

    open spec fn wf_model(m: u64) -> bool {
        true
    }

    open spec fn spec_encode(m: u64) -> Seq<u8> {
        be_bytes(m as nat, 8)
    }

    open spec fn spec_decode(input: Seq<u8>) -> Result<(u64, nat), ReadError> {
        match decode_be(input, 8, "u64") {
            Ok((v, n)) => Ok((v as u64, n)),
            Err(e) => Err(e),
        }
    }

    open spec fn spec_error_consumed(input: Seq<u8>) -> nat {
        0
    }

    proof fn lemma_encode_decode(m: u64, rest: Seq<u8>) {
        lemma_pow256_widths();
        lemma_decode_be_of_encode(m as nat, 8, rest, "u64");
    }

    proof fn lemma_truncated(m: u64, k: nat) {
        if k < Self::spec_encode(m).len() {
            lemma_decode_be_truncated(m as nat, 8, k, "u64");
        }
    }

    proof fn lemma_decode_wf(input: Seq<u8>) {
        lemma_decode_be_ok(input, 8, "u64");
    }

    fn read_sync(stream: &mut Reader) -> (r: Result<u64, ReadError>) {
        match read_be(stream, 8, "u64") {
            Ok(v) => {
                proof {
                    lemma_decode_be_ok(old(stream)@, 8, "u64");
                    lemma_pow256_widths();
                }
                Ok(v as u64)
            },
            Err(e) => Err(e),
        }
    }

    fn write_sync(&self, sink: &mut Vec<u8>) -> (r: Result<(), WriteError>) {
        proof {
            lemma_pow256_widths();
        }
        write_be(sink, *self as u128, 8);
        Ok(())
    }
}

impl Canonical for u64 {
    proof fn lemma_decode_encode(input: Seq<u8>) {
        lemma_decode_be_ok(input, 8, "u64");
        lemma_pow256_widths();
    }
}

/// A `u128` is represented by its 16 big-endian bytes.
impl Protocol for u128 {
    type Model = u128;

    open spec fn model(&self) -> u128 {
        *self
    }

    open spec fn wf_model(m: u128) -> bool {
        true
    }

    open spec fn spec_encode(m: u128) -> Seq<u8> {
        be_bytes(m as nat, 16)
    }

    open spec fn spec_decode(input: Seq<u8>) -> Result<(u128, nat), ReadError> {
        match decode_be(input, 16, "u128") {
            Ok((v, n)) => Ok((v as u128, n)),
            Err(e) => Err(e),
        }
    }

    open spec fn spec_error_consumed(input: Seq<u8>) -> nat {
        0
    }

    proof fn lemma_encode_decode(m: u128, rest: Seq<u8>) {
        lemma_pow256_widths();
        lemma_decode_be_of_encode(m as nat, 16, rest, "u128");
    }

    proof fn lemma_truncated(m: u128, k: nat) {
        if k < Self::spec_encode(m).len() {
            lemma_decode_be_truncated(m as nat, 16, k, "u128");
        }
    }

    proof fn lemma_decode_wf(input: Seq<u8>) {
        lemma_decode_be_ok(input, 16, "u128");
    }

    fn read_sync(stream: &mut Reader) -> (r: Result<u128, ReadError>) {
        match read_be(stream, 16, "u128") {
            Ok(v) => {
                proof {
                    lemma_decode_be_ok(old(stream)@, 16, "u128");
                    lemma_pow256_widths();
                }
                Ok(v as u128)
            },
            Err(e) => Err(e),
        }
    }

    fn write_sync(&self, sink: &mut Vec<u8>) -> (r: Result<(), WriteError>) {
        proof {
            lemma_pow256_widths();
        }
        write_be(sink, *self as u128, 16);
        Ok(())
    }
}

impl Canonical for u128 {
    proof fn lemma_decode_encode(input: Seq<u8>) {
        lemma_decode_be_ok(input, 16, "u128");
        lemma_pow256_widths();
    }
}

/// An `i8` is represented by the 1 big-endian byte of its two's complement.
impl Protocol for i8 {
    type Model = i8;

    open spec fn model(&self) -> i8 {
        *self
    }

    open spec fn wf_model(m: i8) -> bool {
        true
    }

    open spec fn spec_encode(m: i8) -> Seq<u8> {
        be_bytes((m as u8) as nat, 1)
    }

    open spec fn spec_decode(input: Seq<u8>) -> Result<(i8, nat), ReadError> {
        match decode_be(input, 1, "i8") {
            Ok((v, n)) => Ok(((v as u8) as i8, n)),
            Err(e) => Err(e),
        }
    }

    open spec fn spec_error_consumed(input: Seq<u8>) -> nat {
        0
    }

    proof fn lemma_encode_decode(m: i8, rest: Seq<u8>) {
        lemma_pow256_widths();
        let x: u8 = m as u8;
        lemma_decode_be_of_encode(x as nat, 1, rest, "i8");
        assert((x as i8) == m) by (bit_vector)
            requires
                x == m as u8,
        ;
    }

    proof fn lemma_truncated(m: i8, k: nat) {
        if k < Self::spec_encode(m).len() {
            lemma_decode_be_truncated((m as u8) as nat, 1, k, "i8");
        }
    }

    proof fn lemma_decode_wf(input: Seq<u8>) {
        lemma_decode_be_ok(input, 1, "i8");
    }

    fn read_sync(stream: &mut Reader) -> (r: Result<i8, ReadError>) {
        match read_be(stream, 1, "i8") {
            Ok(v) => {
                proof {
                    lemma_decode_be_ok(old(stream)@, 1, "i8");
                    lemma_pow256_widths();
                }
                Ok((v as u8) as i8)
            },
            Err(e) => Err(e),
        }
    }

    fn write_sync(&self, sink: &mut Vec<u8>) -> (r: Result<(), WriteError>) {
        proof {
            lemma_pow256_widths();
        }
        write_be(sink, (*self as u8) as u128, 1);
        Ok(())
    }
}

impl Canonical for i8 {
    proof fn lemma_decode_encode(input: Seq<u8>) {
        lemma_decode_be_ok(input, 1, "i8");
        lemma_pow256_widths();
        if input.len() >= 1 {
            let x: u8 = be_value(input.take(1)) as u8;
            assert(((x as i8) as u8) == x) by (bit_vector);
        }
    }
}

/// An `i16` is represented by the 2 big-endian bytes of its two's complement.
impl Protocol for i16 {
    type Model = i16;

    open spec fn model(&self) -> i16 {
        *self
    }

    open spec fn wf_model(m: i16) -> bool {
        true
    }

    open spec fn spec_encode(m: i16) -> Seq<u8> {
        be_bytes((m as u16) as nat, 2)
    }

    open spec fn spec_decode(input: Seq<u8>) -> Result<(i16, nat), ReadError> {
        match decode_be(input, 2, "i16") {
            Ok((v, n)) => Ok(((v as u16) as i16, n)),
            Err(e) => Err(e),
        }
    }

    open spec fn spec_error_consumed(input: Seq<u8>) -> nat {
        0
    }

    proof fn lemma_encode_decode(m: i16, rest: Seq<u8>) {
        lemma_pow256_widths();
        let x: u16 = m as u16;
        lemma_decode_be_of_encode(x as nat, 2, rest, "i16");
        assert((x as i16) == m) by (bit_vector)
            requires
                x == m as u16,
        ;
    }

    proof fn lemma_truncated(m: i16, k: nat) {
        if k < Self::spec_encode(m).len() {
            lemma_decode_be_truncated((m as u16) as nat, 2, k, "i16");
        }
    }

    proof fn lemma_decode_wf(input: Seq<u8>) {
        lemma_decode_be_ok(input, 2, "i16");
    }

    fn read_sync(stream: &mut Reader) -> (r: Result<i16, ReadError>) {
        match read_be(stream, 2, "i16") {
            Ok(v) => {
                proof {
                    lemma_decode_be_ok(old(stream)@, 2, "i16");
                    lemma_pow256_widths();
                }
                Ok((v as u16) as i16)
            },
            Err(e) => Err(e),
        }
    }

    fn write_sync(&self, sink: &mut Vec<u8>) -> (r: Result<(), WriteError>) {
        proof {
            lemma_pow256_widths();
        }
        write_be(sink, (*self as u16) as u128, 2);
        Ok(())
    }
}

impl Canonical for i16 {
    proof fn lemma_decode_encode(input: Seq<u8>) {
        lemma_decode_be_ok(input, 2, "i16");
        lemma_pow256_widths();
        if input.len() >= 2 {
            let x: u16 = be_value(input.take(2)) as u16;
            assert(((x as i16) as u16) == x) by (bit_vector);
        }
    }
}

/// An `i32` is represented by the 4 big-endian bytes of its two's complement.
impl Protocol for i32 {
    type Model = i32;

    open spec fn model(&self) -> i32 {
        *self
    }

    open spec fn wf_model(m: i32) -> bool {
        true
    }

    open spec fn spec_encode(m: i32) -> Seq<u8> {
        be_bytes((m as u32) as nat, 4)
    }

    open spec fn spec_decode(input: Seq<u8>) -> Result<(i32, nat), ReadError> {
        match decode_be(input, 4, "i32") {
            Ok((v, n)) => Ok(((v as u32) as i32, n)),
            Err(e) => Err(e),
        }
    }

    open spec fn spec_error_consumed(input: Seq<u8>) -> nat {
        0
    }

    proof fn lemma_encode_decode(m: i32, rest: Seq<u8>) {
        lemma_pow256_widths();
        let x: u32 = m as u32;
        lemma_decode_be_of_encode(x as nat, 4, rest, "i32");
        assert((x as i32) == m) by (bit_vector)
            requires
                x == m as u32,
        ;
    }

    proof fn lemma_truncated(m: i32, k: nat) {
        if k < Self::spec_encode(m).len() {
            lemma_decode_be_truncated((m as u32) as nat, 4, k, "i32");
        }
    }

    proof fn lemma_decode_wf(input: Seq<u8>) {
        lemma_decode_be_ok(input, 4, "i32");
    }

    fn read_sync(stream: &mut Reader) -> (r: Result<i32, ReadError>) {
        match read_be(stream, 4, "i32") {
            Ok(v) => {
                proof {
                    lemma_decode_be_ok(old(stream)@, 4, "i32");
                    lemma_pow256_widths();
                }
                Ok((v as u32) as i32)
            },
            Err(e) => Err(e),
        }
    }

    fn write_sync(&self, sink: &mut Vec<u8>) -> (r: Result<(), WriteError>) {
        proof {
            lemma_pow256_widths();
        }
        write_be(sink, (*self as u32) as u128, 4);
        Ok(())
    }
}

impl Canonical for i32 {
    proof fn lemma_decode_encode(input: Seq<u8>) {
        lemma_decode_be_ok(input, 4, "i32");
        lemma_pow256_widths();
        if input.len() >= 4 {
            let x: u32 = be_value(input.take(4)) as u32;
            assert(((x as i32) as u32) == x) by (bit_vector);
        }
    }
}

/// An `i64` is represented by the 8 big-endian bytes of its two's complement.
impl Protocol for i64 {
    type Model = i64;

    open spec fn model(&self) -> i64 {
        *self
    }

    open spec fn wf_model(m: i64) -> bool {
        true
    }

    open spec fn spec_encode(m: i64) -> Seq<u8> {
        be_bytes((m as u64) as nat, 8)
    }

    open spec fn spec_decode(input: Seq<u8>) -> Result<(i64, nat), ReadError> {
        match decode_be(input, 8, "i64") {
            Ok((v, n)) => Ok(((v as u64) as i64, n)),
            Err(e) => Err(e),
        }
    }

    open spec fn spec_error_consumed(input: Seq<u8>) -> nat {
        0
    }

    proof fn lemma_encode_decode(m: i64, rest: Seq<u8>) {
        lemma_pow256_widths();
        let x: u64 = m as u64;
        lemma_decode_be_of_encode(x as nat, 8, rest, "i64");
        assert((x as i64) == m) by (bit_vector)
            requires
                x == m as u64,
        ;
    }

    proof fn lemma_truncated(m: i64, k: nat) {
        if k < Self::spec_encode(m).len() {
            lemma_decode_be_truncated((m as u64) as nat, 8, k, "i64");
        }
    }

    proof fn lemma_decode_wf(input: Seq<u8>) {
        lemma_decode_be_ok(input, 8, "i64");
    }

    fn read_sync(stream: &mut Reader) -> (r: Result<i64, ReadError>) {
        match read_be(stream, 8, "i64") {
            Ok(v) => {
                proof {
                    lemma_decode_be_ok(old(stream)@, 8, "i64");
                    lemma_pow256_widths();
                }
                Ok((v as u64) as i64)
            },
            Err(e) => Err(e),
        }
    }

    fn write_sync(&self, sink: &mut Vec<u8>) -> (r: Result<(), WriteError>) {
        proof {
            lemma_pow256_widths();
        }
        write_be(sink, (*self as u64) as u128, 8);
        Ok(())
    }
}

impl Canonical for i64 {
    proof fn lemma_decode_encode(input: Seq<u8>) {
        lemma_decode_be_ok(input, 8, "i64");
        lemma_pow256_widths();
        if input.len() >= 8 {
            let x: u64 = be_value(input.take(8)) as u64;
            assert(((x as i64) as u64) == x) by (bit_vector);
        }
    }
}

/// An `i128` is represented by the 16 big-endian bytes of its two's complement.
impl Protocol for i128 {
    type Model = i128;

    open spec fn model(&self) -> i128 {
        *self
    }

    open spec fn wf_model(m: i128) -> bool {
        true
    }

    open spec fn spec_encode(m: i128) -> Seq<u8> {
        be_bytes((m as u128) as nat, 16)
    }

    open spec fn spec_decode(input: Seq<u8>) -> Result<(i128, nat), ReadError> {
        match decode_be(input, 16, "i128") {
            Ok((v, n)) => Ok(((v as u128) as i128, n)),
            Err(e) => Err(e),
        }
    }

    open spec fn spec_error_consumed(input: Seq<u8>) -> nat {
        0
    }

    proof fn lemma_encode_decode(m: i128, rest: Seq<u8>) {
        lemma_pow256_widths();
        let x: u128 = m as u128;
        lemma_decode_be_of_encode(x as nat, 16, rest, "i128");
        assert((x as i128) == m) by (bit_vector)
            requires
                x == m as u128,
        ;
    }

    proof fn lemma_truncated(m: i128, k: nat) {
        if k < Self::spec_encode(m).len() {
            lemma_decode_be_truncated((m as u128) as nat, 16, k, "i128");
        }
    }

    proof fn lemma_decode_wf(input: Seq<u8>) {
        lemma_decode_be_ok(input, 16, "i128");
    }

    fn read_sync(stream: &mut Reader) -> (r: Result<i128, ReadError>) {
        match read_be(stream, 16, "i128") {
            Ok(v) => {
                proof {
                    lemma_decode_be_ok(old(stream)@, 16, "i128");
                    lemma_pow256_widths();
                }
                Ok((v as u128) as i128)
            },
            Err(e) => Err(e),
        }
    }

    fn write_sync(&self, sink: &mut Vec<u8>) -> (r: Result<(), WriteError>) {
        proof {
            lemma_pow256_widths();
        }
        write_be(sink, (*self as u128) as u128, 16);
        Ok(())
    }
}

impl Canonical for i128 {
    proof fn lemma_decode_encode(input: Seq<u8>) {
        lemma_decode_be_ok(input, 16, "i128");
        lemma_pow256_widths();
        if input.len() >= 16 {
            let x: u128 = be_value(input.take(16)) as u128;
            assert(((x as i128) as u128) == x) by (bit_vector);
        }
    }
}

/// A `u8` is written as its 1 byte, most significant first, and read from the first 1
/// byte of the input, which must be there.
pub proof fn law_u8_big_endian(x: u8, input: Seq<u8>)
    ensures
        <u8 as Protocol>::spec_encode(x).len() == 1,
        ({
            let b = <u8 as Protocol>::spec_encode(x);
            (b[0] as int) == x
        }),
        input.len() < 1 ==> <u8 as Protocol>::spec_decode(input) == Err::<(u8, nat), ReadError>(eof_error("u8")),
        input.len() >= 1 ==> <u8 as Protocol>::spec_decode(input) == Ok::<(u8, nat), ReadError>(
            (((input[0] as int)) as u8, 1),
        ),
{
    lemma_pow256_widths();
    lemma_be_bytes_len(x as nat, 1);
    lemma_be_roundtrip(x as nat, 1);
    reveal_with_fuel(be_value, 2);
    let b = be_bytes(x as nat, 1);
    assert(b.take(1) =~= b);
    if input.len() >= 1 {
        let s = input.take(1);
    }
}

/// A `u16` is written as its 2 bytes, most significant first, and read from the first 2
/// bytes of the input, which must be there.
pub proof fn law_u16_big_endian(x: u16, input: Seq<u8>)
    ensures
        <u16 as Protocol>::spec_encode(x).len() == 2,
        ({
            let b = <u16 as Protocol>::spec_encode(x);
            (b[0] as int) * 256 + b[1] == x
        }),
        input.len() < 2 ==> <u16 as Protocol>::spec_decode(input) == Err::<(u16, nat), ReadError>(eof_error("u16")),
        input.len() >= 2 ==> <u16 as Protocol>::spec_decode(input) == Ok::<(u16, nat), ReadError>(
            (((input[0] as int) * 256 + input[1]) as u16, 2),
        ),
{
    lemma_pow256_widths();
    lemma_be_bytes_len(x as nat, 2);
    lemma_be_roundtrip(x as nat, 2);
    reveal_with_fuel(be_value, 3);
    let b = be_bytes(x as nat, 2);
    assert(b.take(2) =~= b);
    if input.len() >= 2 {
        let s = input.take(2);
    }
}

/// A `u32` is written as its 4 bytes, most significant first, and read from the first 4
/// bytes of the input, which must be there.
pub proof fn law_u32_big_endian(x: u32, input: Seq<u8>)
    ensures
        <u32 as Protocol>::spec_encode(x).len() == 4,
        ({
            let b = <u32 as Protocol>::spec_encode(x);
            (((b[0] as int) * 256 + b[1]) * 256 + b[2]) * 256 + b[3] == x
        }),
        input.len() < 4 ==> <u32 as Protocol>::spec_decode(input) == Err::<(u32, nat), ReadError>(eof_error("u32")),
        input.len() >= 4 ==> <u32 as Protocol>::spec_decode(input) == Ok::<(u32, nat), ReadError>(
            (((((input[0] as int) * 256 + input[1]) * 256 + input[2]) * 256 + input[3]) as u32, 4),
        ),
{
    lemma_pow256_widths();
    lemma_be_bytes_len(x as nat, 4);
    lemma_be_roundtrip(x as nat, 4);
    reveal_with_fuel(be_value, 5);
    let b = be_bytes(x as nat, 4);
    assert(b.take(4) =~= b);
    if input.len() >= 4 {
        let s = input.take(4);
    }
}

/// A `u64` is written as its 8 bytes, most significant first, and read from the first 8
/// bytes of the input, which must be there.
pub proof fn law_u64_big_endian(x: u64, input: Seq<u8>)
    ensures
        <u64 as Protocol>::spec_encode(x).len() == 8,
        ({
            let b = <u64 as Protocol>::spec_encode(x);
            (((((((b[0] as int) * 256 + b[1]) * 256 + b[2]) * 256 + b[3]) * 256 + b[4]) * 256 + b[5]) * 256 + b[6]) * 256 + b[7] == x
        }),
        input.len() < 8 ==> <u64 as Protocol>::spec_decode(input) == Err::<(u64, nat), ReadError>(eof_error("u64")),
        input.len() >= 8 ==> <u64 as Protocol>::spec_decode(input) == Ok::<(u64, nat), ReadError>(
            (((((((((input[0] as int) * 256 + input[1]) * 256 + input[2]) * 256 + input[3]) * 256 + input[4]) * 256 + input[5]) * 256 + input[6]) * 256 + input[7]) as u64, 8),
        ),
{
    lemma_pow256_widths();
    lemma_be_bytes_len(x as nat, 8);
    lemma_be_roundtrip(x as nat, 8);
    reveal_with_fuel(be_value, 9);
    let b = be_bytes(x as nat, 8);
    assert(b.take(8) =~= b);
    if input.len() >= 8 {
        let s = input.take(8);
    }
}

/// A `u128` is written as its 16 bytes, most significant first, and read from the first 16
/// bytes of the input, which must be there.
pub proof fn law_u128_big_endian(x: u128, input: Seq<u8>)
    ensures
        <u128 as Protocol>::spec_encode(x).len() == 16,
        ({
            let b = <u128 as Protocol>::spec_encode(x);
            (((((((((((((((b[0] as int) * 256 + b[1]) * 256 + b[2]) * 256 + b[3]) * 256 + b[4]) * 256 + b[5]) * 256 + b[6]) * 256 + b[7]) * 256 + b[8]) * 256 + b[9]) * 256 + b[10]) * 256 + b[11]) * 256 + b[12]) * 256 + b[13]) * 256 + b[14]) * 256 + b[15] == x
        }),
        input.len() < 16 ==> <u128 as Protocol>::spec_decode(input) == Err::<(u128, nat), ReadError>(eof_error("u128")),
        input.len() >= 16 ==> <u128 as Protocol>::spec_decode(input) == Ok::<(u128, nat), ReadError>(
            (((((((((((((((((input[0] as int) * 256 + input[1]) * 256 + input[2]) * 256 + input[3]) * 256 + input[4]) * 256 + input[5]) * 256 + input[6]) * 256 + input[7]) * 256 + input[8]) * 256 + input[9]) * 256 + input[10]) * 256 + input[11]) * 256 + input[12]) * 256 + input[13]) * 256 + input[14]) * 256 + input[15]) as u128, 16),
        ),
{
    lemma_pow256_widths();
    lemma_be_bytes_len(x as nat, 16);
    lemma_be_roundtrip(x as nat, 16);
    reveal_with_fuel(be_value, 17);
    let b = be_bytes(x as nat, 16);
    assert(b.take(16) =~= b);
    if input.len() >= 16 {
        let s = input.take(16);
    }
}

/// An `i8` is written as the `u8` of the same bits (its two's complement), and read as
/// the `u8` read from the same bytes, taken as the `i8` of the same bits.
pub proof fn law_i8_twos_complement(x: i8, input: Seq<u8>)
    ensures
        <i8 as Protocol>::spec_encode(x) == <u8 as Protocol>::spec_encode(x as u8),
        <i8 as Protocol>::spec_decode(input) == match <u8 as Protocol>::spec_decode(input) {
            Ok((v, n)) => Ok::<(i8, nat), ReadError>((v as i8, n)),
            Err(e) => Err::<(i8, nat), ReadError>(eof_error("i8")),
        },
{
}

/// An `i16` is written as the `u16` of the same bits (its two's complement), and read as
/// the `u16` read from the same bytes, taken as the `i16` of the same bits.
pub proof fn law_i16_twos_complement(x: i16, input: Seq<u8>)
    ensures
        <i16 as Protocol>::spec_encode(x) == <u16 as Protocol>::spec_encode(x as u16),
        <i16 as Protocol>::spec_decode(input) == match <u16 as Protocol>::spec_decode(input) {
            Ok((v, n)) => Ok::<(i16, nat), ReadError>((v as i16, n)),
            Err(e) => Err::<(i16, nat), ReadError>(eof_error("i16")),
        },
{
}

/// An `i32` is written as the `u32` of the same bits (its two's complement), and read as
/// the `u32` read from the same bytes, taken as the `i32` of the same bits.
pub proof fn law_i32_twos_complement(x: i32, input: Seq<u8>)
    ensures
        <i32 as Protocol>::spec_encode(x) == <u32 as Protocol>::spec_encode(x as u32),
        <i32 as Protocol>::spec_decode(input) == match <u32 as Protocol>::spec_decode(input) {
            Ok((v, n)) => Ok::<(i32, nat), ReadError>((v as i32, n)),
            Err(e) => Err::<(i32, nat), ReadError>(eof_error("i32")),
        },
{
}

/// An `i64` is written as the `u64` of the same bits (its two's complement), and read as
/// the `u64` read from the same bytes, taken as the `i64` of the same bits.
pub proof fn law_i64_twos_complement(x: i64, input: Seq<u8>)
    ensures
        <i64 as Protocol>::spec_encode(x) == <u64 as Protocol>::spec_encode(x as u64),
        <i64 as Protocol>::spec_decode(input) == match <u64 as Protocol>::spec_decode(input) {
            Ok((v, n)) => Ok::<(i64, nat), ReadError>((v as i64, n)),
            Err(e) => Err::<(i64, nat), ReadError>(eof_error("i64")),
        },
{
}

/// An `i128` is written as the `u128` of the same bits (its two's complement), and read as
/// the `u128` read from the same bytes, taken as the `i128` of the same bits.
pub proof fn law_i128_twos_complement(x: i128, input: Seq<u8>)
    ensures
        <i128 as Protocol>::spec_encode(x) == <u128 as Protocol>::spec_encode(x as u128),
        <i128 as Protocol>::spec_decode(input) == match <u128 as Protocol>::spec_decode(input) {
            Ok((v, n)) => Ok::<(i128, nat), ReadError>((v as i128, n)),
            Err(e) => Err::<(i128, nat), ReadError>(eof_error("i128")),
        },
{
}

} // verus!
