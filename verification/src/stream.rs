//! Byte sources and sinks that the encoding reads from and writes to.
use vstd::prelude::*;

verus! {

/// A readable byte stream backed by an in-memory buffer.
///
/// Reading consumes bytes from the front; the view of a stream is the
/// sequence of bytes that have not been read yet.
pub struct Reader<'a> {
    data: &'a [u8],
    pos: usize,
}

impl<'a> Reader<'a> {
    #[verifier::type_invariant]
    spec fn inv(self) -> bool {
        self.pos <= self.data@.len()
    }

    /// The bytes that have not been read yet.
    pub closed spec fn remaining(&self) -> Seq<u8> {
        self.data@.subrange(self.pos as int, self.data@.len() as int)
    }

    /// Creates a stream over `data`, positioned at its first byte.
    pub fn new(data: &'a [u8]) -> (r: Self)
        ensures
            r@ == data@,
    {
        let r = Reader { data, pos: 0 };
        assert(r@ =~= data@);
        r
    }

    /// The number of bytes not yet read.
    pub fn remaining_len(&self) -> (n: usize)
        ensures
            n == self@.len(),
    {
        proof { use_type_invariant(self); }
        self.data.len() - self.pos
    }

    /// Reads one byte, or returns `None` at the end of the stream.
    pub fn read_byte(&mut self) -> (r: Option<u8>)
        ensures
            old(self)@.len() == 0 ==> r is None && final(self)@ == old(self)@,
            old(self)@.len() > 0 ==> r == Some(old(self)@[0]) && final(self)@ == old(self)@.skip(1),
    {
        proof { use_type_invariant(&*self); }
        if self.pos < self.data.len() {
            let b = self.data[self.pos];
            self.pos = self.pos + 1;
            assert(self@ =~= old(self)@.skip(1));
            Some(b)
        } else {
            None
        }
    }

    /// Reads the next `n` bytes, or returns `None` without consuming anything when
    /// fewer than `n` bytes remain.
    pub fn read_exact(&mut self, n: usize) -> (r: Option<&'a [u8]>)
        ensures
            old(self)@.len() < n ==> r is None && final(self)@ == old(self)@,
            old(self)@.len() >= n ==> {
                &&& r matches Some(bytes) && bytes@ == old(self)@.take(n as int)
                &&& final(self)@ == old(self)@.skip(n as int)
            },
    {
        proof { use_type_invariant(&*self); }
        if n <= self.data.len() - self.pos {
            let bytes = vstd::slice::slice_subrange(self.data, self.pos, self.pos + n);
            self.pos = self.pos + n;
            assert(bytes@ =~= old(self)@.take(n as int));
            assert(self@ =~= old(self)@.skip(n as int));
            Some(bytes)
        } else {
            None
        }
    }
}

impl<'a> View for Reader<'a> {
    type V = Seq<u8>;

    closed spec fn view(&self) -> Seq<u8> {
        self.remaining()
    }
}

} // verus!
