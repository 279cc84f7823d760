//! `gix_hash::ObjectId`: the derived representation of
//! `enum ObjectId { Sha1([u8; 20]) }`, a one-byte discriminant followed by the 20 bytes
//! of the SHA-1 digest.
use vstd::prelude::*;

use gix_hash::ObjectId;

use crate::derived::{
    decode_discriminant, discriminant_error_consumed, encode_discriminant, in_unnamed_field, lemma_discriminant_ok,
    lemma_discriminant_roundtrip, lemma_discriminant_truncated, read_discriminant, unnamed_field_error,
    write_discriminant,
};
use crate::error::{ReadError, WriteError};
use crate::impls::vec::lemma_encode_bytes;
use crate::protocol::{lemma_skip_concat, lemma_skip_prefix, lemma_skip_skip, lemma_take_concat, Canonical, Protocol};
use crate::stream::Reader;

verus! {

#[verifier::external_type_specification]
#[verifier::external_body]
pub struct ExObjectId(ObjectId);

/// The digest bytes of an object id, as `ObjectId::as_slice` returns them.
pub uninterp spec fn object_id_bytes(id: ObjectId) -> Seq<u8>;

/// `<ObjectId as From<[u8; 20]>>::from`: the SHA-1 object id with the digest `bytes`.
#[verifier::external_body]
fn object_id_from_sha1(bytes: [u8; 20]) -> (id: ObjectId)
    ensures
        object_id_bytes(id) == bytes@,
{
    ObjectId::from(bytes)
}

/// `ObjectId::as_slice`: the digest bytes; with SHA-1 as the only kind of hash, there
/// are 20 of them.
#[verifier::external_body]
fn object_id_as_slice(id: &ObjectId) -> (bytes: &[u8])
    ensures
        bytes@ == object_id_bytes(*id),
        bytes@.len() == 20,
{
    id.as_slice()
}

/// The name of the type in errors of its derived representation.
pub open spec fn object_id_type() -> &'static str {
    "gix_hash :: ObjectId"
}

/// A discriminant of `0` for the only kind of hash, then the digest bytes; errors in
/// reading the digest are reported within its field.
impl Protocol for ObjectId {
    type Model = Seq<u8>;

    open spec fn model(&self) -> Seq<u8> {
        object_id_bytes(*self)
    }

    open spec fn wf_model(m: Seq<u8>) -> bool {
        m.len() == 20
    }

    open spec fn spec_encode(m: Seq<u8>) -> Seq<u8> {
        encode_discriminant(1, 0) + <[u8; 20] as Protocol>::spec_encode(m)
    }

    open spec fn spec_decode(input: Seq<u8>) -> Result<(Seq<u8>, nat), ReadError> {
        match decode_discriminant(input, 1, object_id_type()) {
            Err(e) => Err(e),
            Ok((d, n)) => match <[u8; 20] as Protocol>::spec_decode(input.skip(n as int)) {
                Ok((x, k)) => Ok((x, n + k)),
                Err(e) => Err(in_unnamed_field(e, 0)),
            },
        }
    }

    open spec fn spec_error_consumed(input: Seq<u8>) -> nat {
        match decode_discriminant(input, 1, object_id_type()) {
            Err(_) => discriminant_error_consumed(input, 1),
            Ok((d, n)) => n + <[u8; 20] as Protocol>::spec_error_consumed(input.skip(n as int)),
        }
    }

    proof fn lemma_encode_decode(m: Seq<u8>, rest: Seq<u8>) {
        assert forall|i: int| 0 <= i < m.len() implies #[trigger] <u8 as Protocol>::wf_model(m[i]) by {
        }
        let d = encode_discriminant(1, 0);
        let e = <[u8; 20] as Protocol>::spec_encode(m);
        lemma_skip_concat(d, e, rest);
        lemma_discriminant_roundtrip(1, 0, e + rest, object_id_type());
        <[u8; 20] as Protocol>::lemma_encode_decode(m, rest);
    }

    proof fn lemma_truncated(m: Seq<u8>, k: nat) {
        if k < Self::spec_encode(m).len() {
            assert forall|i: int| 0 <= i < m.len() implies #[trigger] <u8 as Protocol>::wf_model(m[i]) by {
            }
            let d = encode_discriminant(1, 0);
            let e = <[u8; 20] as Protocol>::spec_encode(m);
            lemma_discriminant_roundtrip(1, 0, seq![], object_id_type());
            lemma_take_concat(d, e, k);
            if k < d.len() {
                lemma_discriminant_truncated(1, 0, k, object_id_type());
            } else {
                let t = e.take(k - d.len());
                lemma_discriminant_roundtrip(1, 0, t, object_id_type());
                lemma_skip_prefix(d, t);
                <[u8; 20] as Protocol>::lemma_truncated(m, (k - d.len()) as nat);
            }
        }
    }

    proof fn lemma_decode_wf(input: Seq<u8>) {
        lemma_discriminant_ok(input, 1, object_id_type());
        if let Ok((d, n)) = decode_discriminant(input, 1, object_id_type()) {
            <[u8; 20] as Protocol>::lemma_decode_wf(input.skip(n as int));
        }
    }

    fn read_sync(stream: &mut Reader) -> (r: Result<ObjectId, ReadError>) {
        let ghost start = stream@;
        proof {
            lemma_discriminant_ok(start, 1, object_id_type());
        }
        match read_discriminant(stream, 1, "gix_hash :: ObjectId") {
            Ok(_) => {},
            Err(e) => return Err(e),
        }
        let ghost mid = stream@;
        proof {
            <[u8; 20] as Protocol>::lemma_decode_wf(mid);
        }
        match <[u8; 20]>::read_sync(stream) {
            Ok(bytes) => {
                proof {
                    lemma_skip_skip(start, 1, (mid.len() - stream@.len()) as nat);
                    assert(bytes@ =~= <[u8; 20] as Protocol>::model(&bytes));
                }
                Ok(object_id_from_sha1(bytes))
            },
            Err(e) => Err(unnamed_field_error(e, 0)),
        }
    }

    fn write_sync(&self, sink: &mut Vec<u8>) -> (r: Result<(), WriteError>) {
        write_discriminant(sink, 1, 0);
        let bytes = object_id_as_slice(self);
        let ghost prefix = sink@;
        let mut i: usize = 0;
        while i < bytes.len()
            invariant
                i <= bytes@.len(),
                sink@ == prefix + bytes@.take(i as int),
            decreases bytes@.len() - i,
        {
            sink.push(bytes[i]);
            assert(bytes@.take(i + 1) =~= bytes@.take(i as int).push(bytes@[i as int]));
            i = i + 1;
        }
        proof {
            assert(bytes@.take(bytes@.len() as int) =~= bytes@);
            lemma_encode_bytes(bytes@);
            assert(final(sink)@ =~= old(sink)@ + Self::spec_encode(self.model()));
        }
        Ok(())
    }
}

impl Canonical for ObjectId {
    proof fn lemma_decode_encode(input: Seq<u8>) {
        lemma_discriminant_ok(input, 1, object_id_type());
        if let Ok((d, n)) = decode_discriminant(input, 1, object_id_type()) {
            let tail = input.skip(n as int);
            <[u8; 20] as Canonical>::lemma_decode_encode(tail);
            <[u8; 20] as Protocol>::lemma_decode_wf(tail);
            if let Ok((x, k)) = <[u8; 20] as Protocol>::spec_decode(tail) {
                assert(input.take((n + k) as int) =~= input.take(n as int) + tail.take(k as int));
            }
        }
    }
}

} // verus!
