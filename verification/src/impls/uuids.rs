//! `uuid::Uuid`: represented like its 16 bytes, as an array of bytes.
use vstd::prelude::*;

use crate::derived::{in_unnamed_field, in_via, unnamed_field_error, via_error};
use crate::error::{ReadError, WriteError};
use crate::protocol::{consumed, Canonical, Protocol};
use crate::stream::Reader;

verus! {

#[verifier::external_type_specification]
#[verifier::external_body]
pub struct ExUuid(uuid::Uuid);

/// The 16 bytes of a UUID.
pub uninterp spec fn uuid_bytes(u: uuid::Uuid) -> Seq<u8>;

/// `uuid::Uuid::from_bytes`: the UUID whose bytes are `bytes`.
#[verifier::external_body]
fn uuid_from_bytes(bytes: [u8; 16]) -> (u: uuid::Uuid)
    ensures
        uuid_bytes(u) == bytes@,
{
    uuid::Uuid::from_bytes(bytes)
}

/// `uuid::Uuid::into_bytes`: the 16 bytes of the UUID.
#[verifier::external_body]
fn uuid_into_bytes(u: uuid::Uuid) -> (bytes: [u8; 16])
    ensures
        bytes@ == uuid_bytes(u),
{
    u.into_bytes()
}

/// A UUID is represented through a proxy struct holding its bytes as `[u8; 16]`:
/// by its 16 bytes, without a prefix. Errors are reported within the proxy's field.
impl Protocol for uuid::Uuid {
    type Model = Seq<u8>;

    open spec fn model(&self) -> Seq<u8> {
        uuid_bytes(*self)
    }

    open spec fn wf_model(m: Seq<u8>) -> bool {
        m.len() == 16
    }

    open spec fn spec_encode(m: Seq<u8>) -> Seq<u8> {
        <[u8; 16] as Protocol>::spec_encode(m)
    }

    open spec fn spec_decode(input: Seq<u8>) -> Result<(Seq<u8>, nat), ReadError> {
        match <[u8; 16] as Protocol>::spec_decode(input) {
            Err(e) => Err(in_via(in_unnamed_field(e, 0))),
            Ok((m, n)) => Ok((m, n)),
        }
    }

    open spec fn spec_error_consumed(input: Seq<u8>) -> nat {
        consumed::<[u8; 16]>(input)
    }

    proof fn lemma_encode_decode(m: Seq<u8>, rest: Seq<u8>) {
        assert forall|i: int| 0 <= i < m.len() implies #[trigger] <u8 as Protocol>::wf_model(m[i]) by {
        }
        <[u8; 16] as Protocol>::lemma_encode_decode(m, rest);
    }

    proof fn lemma_truncated(m: Seq<u8>, k: nat) {
        if k < Self::spec_encode(m).len() {
            assert forall|i: int| 0 <= i < m.len() implies #[trigger] <u8 as Protocol>::wf_model(m[i]) by {
            }
            <[u8; 16] as Protocol>::lemma_truncated(m, k);
        }
    }

    proof fn lemma_decode_wf(input: Seq<u8>) {
        <[u8; 16] as Protocol>::lemma_decode_wf(input);
    }

    fn read_sync(stream: &mut Reader) -> (r: Result<uuid::Uuid, ReadError>) {
        match <[u8; 16]>::read_sync(stream) {
            Ok(bytes) => {
                proof {
                    assert(bytes@ =~= <[u8; 16] as Protocol>::model(&bytes));
                }
                Ok(uuid_from_bytes(bytes))
            },
            Err(e) => Err(via_error(unnamed_field_error(e, 0))),
        }
    }

    fn write_sync(&self, sink: &mut Vec<u8>) -> (r: Result<(), WriteError>) {
        let bytes = uuid_into_bytes(*self);
        let r = bytes.write_sync(sink);
        assert(bytes@ =~= <[u8; 16] as Protocol>::model(&bytes));
        r
    }
}

impl Canonical for uuid::Uuid {
    proof fn lemma_decode_encode(input: Seq<u8>) {
        <[u8; 16] as Canonical>::lemma_decode_encode(input);
    }
}

} // verus!
