//! `git2::Oid`: its native binary representation, the 20 bytes of the SHA-1 digest.
use vstd::prelude::*;

use git2::Oid;

use crate::error::{eof_error, ErrorContext, IoErrorKind, ReadError, ReadErrorKind, WriteError};
use crate::impls::vec::{encode_elems, lemma_encode_bytes, lemma_encode_decode_elems};
use crate::protocol::{Canonical, Protocol};
use crate::stream::Reader;

verus! {

#[verifier::external_type_specification]
#[verifier::external_body]
pub struct ExOid(Oid);

/// The digest bytes of a git object id, as `Oid::as_bytes` returns them.
pub uninterp spec fn oid_bytes(id: Oid) -> Seq<u8>;

/// `Oid::from_bytes`: the object id with the digest `bytes`. It fails only for a number
/// of bytes other than 20, so it succeeds here.
#[verifier::external_body]
fn oid_from_bytes(bytes: [u8; 20]) -> (id: Option<Oid>)
    ensures
        id matches Some(id) && oid_bytes(id) == bytes@,
{
    Oid::from_bytes(&bytes).ok()
}

/// `Oid::as_bytes`: the 20 digest bytes.
#[verifier::external_body]
fn oid_as_bytes(id: &Oid) -> (bytes: &[u8])
    ensures
        bytes@ == oid_bytes(*id),
        bytes@.len() == 20,
{
    id.as_bytes()
}

/// Represented by its 20 digest bytes; an input of fewer bytes is an early end of the
/// input for `git2::Oid`.
impl Protocol for Oid {
    type Model = Seq<u8>;

    open spec fn model(&self) -> Seq<u8> {
        oid_bytes(*self)
    }

    open spec fn wf_model(m: Seq<u8>) -> bool {
        m.len() == 20
    }

    open spec fn spec_encode(m: Seq<u8>) -> Seq<u8> {
        m
    }

    open spec fn spec_decode(input: Seq<u8>) -> Result<(Seq<u8>, nat), ReadError> {
        if input.len() < 20 {
            Err(eof_error("git2::Oid"))
        } else {
            Ok((input.take(20), 20))
        }
    }

    open spec fn spec_error_consumed(input: Seq<u8>) -> nat {
        0
    }

    proof fn lemma_encode_decode(m: Seq<u8>, rest: Seq<u8>) {
        assert((m + rest).take(20) =~= m);
    }

    proof fn lemma_truncated(m: Seq<u8>, k: nat) {
    }

    proof fn lemma_decode_wf(input: Seq<u8>) {
    }

    fn read_sync(stream: &mut Reader) -> (r: Result<Oid, ReadError>) {
        if stream.remaining_len() < 20 {
            return Err(ReadError {
                context: ErrorContext::BuiltIn { for_type: "git2::Oid" },
                kind: ReadErrorKind::Io(IoErrorKind::UnexpectedEof),
            });
        }
        let ghost start = stream@;
        proof {
            let m = start.take(20);
            assert forall|i: int| 0 <= i < m.len() implies #[trigger] <u8 as Protocol>::wf_model(m[i]) by {
            }
            lemma_encode_bytes(m);
            assert(start =~= encode_elems::<u8>(m) + start.skip(20));
            lemma_encode_decode_elems::<u8>(m, start.skip(20));
        }
        match <[u8; 20]>::read_sync(stream) {
            Ok(bytes) => {
                assert(bytes@ =~= <[u8; 20] as Protocol>::model(&bytes));
                match oid_from_bytes(bytes) {
                    Some(id) => Ok(id),
                    None => Err(ReadError {
                        context: ErrorContext::BuiltIn { for_type: "git2::Oid" },
                        kind: ReadErrorKind::Io(IoErrorKind::InvalidData),
                    }),
                }
            },
            Err(e) => Err(e),
        }
    }

    fn write_sync(&self, sink: &mut Vec<u8>) -> (r: Result<(), WriteError>) {
        let bytes = oid_as_bytes(self);
        let ghost prefix = sink@;
        let mut i: usize = 0;
        while i < bytes.len()
            invariant
                i <= bytes@.len(),
                sink@ == prefix + bytes@.take(i as int),
            decreases bytes@.len() - i,
        {
            sink.push(bytes[i]);
            assert(bytes@.take(i + 1) =~= bytes@.take(i as int).push(bytes@[i as int]));
            i = i + 1;
        }
        assert(bytes@.take(bytes@.len() as int) =~= bytes@);
        Ok(())
    }
}

impl Canonical for Oid {
    proof fn lemma_decode_encode(input: Seq<u8>) {
    }
}

} // verus!
