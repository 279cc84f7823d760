//! Big-endian (network byte order) representation of unsigned numbers.
use vstd::prelude::*;

use crate::error::{eof_error, ErrorContext, IoErrorKind, ReadError, ReadErrorKind};
use crate::stream::Reader;

verus! {

/// `256` raised to the power `n`.
pub open spec fn pow256(n: nat) -> nat
    decreases n,
{
    if n == 0 {
        1
    } else {
        256 * pow256((n - 1) as nat)
    }
}

/// The `n` least significant bytes of `x`, most significant first.
pub open spec fn be_bytes(x: nat, n: nat) -> Seq<u8>
    decreases n,
{
    if n == 0 {
        seq![]
    } else {
        be_bytes(x / 256, (n - 1) as nat).push((x % 256) as u8)
    }
}

/// The number whose big-endian representation is `s`.
pub open spec fn be_value(s: Seq<u8>) -> nat
    decreases s.len(),
{
    if s.len() == 0 {
        0
    } else {
        be_value(s.drop_last()) * 256 + s.last() as nat
    }
}

pub proof fn lemma_pow256_positive(n: nat)
    ensures
        pow256(n) >= 1,
    decreases n,
{
    if n > 0 {
        lemma_pow256_positive((n - 1) as nat);
    }
}

pub proof fn lemma_pow256_mono(a: nat, b: nat)
    requires
        a <= b,
    ensures
        pow256(a) <= pow256(b),
    decreases b,
{
    if a < b {
        lemma_pow256_mono(a, (b - 1) as nat);
        lemma_pow256_positive((b - 1) as nat);
    }
}

/// The powers of 256 that bound the widths of the integer types.
pub proof fn lemma_pow256_widths()
    ensures
        pow256(1) == 0x100,
        pow256(2) == 0x1_0000,
        pow256(4) == 0x1_0000_0000,
        pow256(8) == 0x1_0000_0000_0000_0000,
        pow256(16) == 0x1_0000_0000_0000_0000_0000_0000_0000_0000,
{
    reveal_with_fuel(pow256, 17);
}

pub proof fn lemma_be_bytes_len(x: nat, n: nat)
    ensures
        be_bytes(x, n).len() == n,
    decreases n,
{
    if n > 0 {
        lemma_be_bytes_len(x / 256, (n - 1) as nat);
    }
}

pub proof fn lemma_be_value_bound(s: Seq<u8>)
    ensures
        be_value(s) < pow256(s.len()),
    decreases s.len(),
{
    if s.len() > 0 {
        lemma_be_value_bound(s.drop_last());
        let v = be_value(s.drop_last());
        let p = pow256((s.len() - 1) as nat);
        assert(v * 256 + s.last() < 256 * p) by (nonlinear_arith)
            requires
                v < p,
                s.last() < 256,
        ;
    }
}

proof fn lemma_div_256_bound(x: nat, p: nat)
    requires
        x < 256 * p,
    ensures
        x / 256 < p,
{
    assert(x / 256 < p) by (nonlinear_arith)
        requires
            x < 256 * p,
    ;
}

/// Reading back the big-endian bytes of a number that fits gives the number.
pub proof fn lemma_be_roundtrip(x: nat, n: nat)
    requires
        x < pow256(n),
    ensures
        be_value(be_bytes(x, n)) == x,
    decreases n,
{
    if n > 0 {
        lemma_div_256_bound(x, pow256((n - 1) as nat));
        lemma_be_roundtrip(x / 256, (n - 1) as nat);
        let s = be_bytes(x, n);
        assert(s.drop_last() =~= be_bytes(x / 256, (n - 1) as nat));
    }
}

/// The big-endian bytes of the value of a byte sequence are the sequence itself.
pub proof fn lemma_be_canonical(s: Seq<u8>)
    ensures
        be_bytes(be_value(s), s.len()) == s,
    decreases s.len(),
{
    if s.len() > 0 {
        let v = be_value(s.drop_last());
        let b = s.last();
        lemma_be_canonical(s.drop_last());
        assert((v * 256 + b) / 256 == v && (v * 256 + b) % 256 == b) by (nonlinear_arith)
            requires
                b < 256,
        ;
        assert(be_bytes(be_value(s), s.len()) =~= s.drop_last().push(b));
        assert(s.drop_last().push(b) =~= s);
    }
}

/// Reads a `width`-byte big-endian number; fails with the end-of-input error of
/// `for_type` when fewer than `width` bytes remain.
pub fn read_be(stream: &mut Reader, width: usize, for_type: &'static str) -> (r: Result<u128, ReadError>)
    requires
        width <= 16,
    ensures
        old(stream)@.len() < width ==> r == Err::<u128, ReadError>(eof_error(for_type)) && final(stream)@ == old(stream)@,
        old(stream)@.len() >= width ==> {
            &&& r == Ok::<u128, ReadError>(be_value(old(stream)@.take(width as int)) as u128)
            &&& final(stream)@ == old(stream)@.skip(width as int)
        },
{
    if stream.remaining_len() < width {
        return Err(ReadError {
            context: ErrorContext::BuiltIn { for_type },
            kind: ReadErrorKind::Io(IoErrorKind::UnexpectedEof),
        });
    }
    let ghost start = stream@;
    let mut acc: u128 = 0;
    let mut i: usize = 0;
    assert(start.take(0) =~= seq![]);
    while i < width
        invariant
            i <= width <= 16,
            start.len() >= width,
            stream@ == start.skip(i as int),
            acc == be_value(start.take(i as int)),
        decreases width - i,
    {
        let b = match stream.read_byte() {
            Some(b) => b,
            None => {
                return Err(ReadError {
                    context: ErrorContext::BuiltIn { for_type },
                    kind: ReadErrorKind::Io(IoErrorKind::UnexpectedEof),
                });
            },
        };
        proof {
            let t = start.take(i + 1);
            assert(t.drop_last() =~= start.take(i as int));
            assert(stream@ =~= start.skip(i + 1));
            lemma_be_value_bound(start.take(i as int));
            lemma_pow256_mono((i + 1) as nat, 16);
            lemma_pow256_widths();
            let p = pow256(i as nat);
            assert(acc * 256 + b < 256 * p) by (nonlinear_arith)
                requires
                    acc < p,
                    b < 256,
            ;
        }
        acc = acc * 256 + b as u128;
        i = i + 1;
    }
    Ok(acc)
}

/// Appends the `width`-byte big-endian representation of `x`.
pub fn write_be(sink: &mut Vec<u8>, x: u128, width: usize)
    requires
        width <= 16,
        x < pow256(width as nat),
    ensures
        final(sink)@ == old(sink)@ + be_bytes(x as nat, width as nat),
    decreases width,
{
    if width > 0 {
        proof {
            lemma_div_256_bound(x as nat, pow256((width - 1) as nat));
        }
        write_be(sink, x / 256, width - 1);
        sink.push((x % 256) as u8);
        assert(final(sink)@ =~= old(sink)@ + be_bytes(x as nat, width as nat));
    }
}

} // verus!
